//! From the process table to the frame: the whole of one refresh.

use sysinfo::System;
use vstd::prelude::*;
use crate::aggregate::aggregate;
use crate::aggregate::group_of;
use crate::aggregate::grouped;
use crate::aggregate::is_counted;
use crate::aggregate::lemma_chosen_ignore_order;
use crate::aggregate::lemma_group_ignores_order;
use crate::aggregate::lemma_grouping_keeps_totals;
use crate::aggregate::lemma_one_group_for_each_sample;
use crate::aggregate::lemma_nothing_counted_no_groups;
use crate::aggregate::total_processes;
use crate::aggregate::total_usage;
use crate::aggregate::usages;
use crate::aggregate::Group;
use crate::rank::descending;
use crate::rank::lemma_ranking_descending;
use crate::rank::lemma_ranking_permutes;
use crate::rank::rank;
use crate::rank::ranked;
use crate::rank::RankedTable;
use crate::rank::Table;
use crate::render::frame_lines;
use crate::render::header_text;
use crate::render::render;
use crate::render::row_text;
use crate::render::shown_rows;
use crate::render::total_text;
use crate::render::FrameState;
use crate::sample::ProcessSample;
use crate::sample::Sample;
use crate::sampler::is_snapshot_of;
use crate::sampler::lemma_snapshots_agree;
use crate::sampler::take_snapshot;
use crate::usage::usage_sum;
use crate::usage::Usage;

verus! {

/// The table of a snapshot: its groups, ranked, with the sums over all of
/// them.
pub open spec fn table_of(snapshot: Seq<Sample>) -> Table {
    ranked(grouped(snapshot))
}

/// Whether a table holds what a snapshot holds, whatever the order of its
/// rows: the sums are those over the counted samples, every row is the group
/// of its name, and every counted sample has a row of its name.
pub open spec fn agrees_with(table: Table, snapshot: Seq<Sample>) -> bool {
    &&& table.total_cpu == usage_sum(usages(snapshot.filter(is_counted())))
    &&& table.total_processes == snapshot.filter(is_counted()).len()
    &&& forall|i: int|
        0 <= i < table.rows.len() ==> #[trigger] table.rows[i] == group_of(
            snapshot,
            table.rows[i].name,
        )
    &&& forall|i: int|
        0 <= i < snapshot.len() && (#[trigger] snapshot[i]).counted() ==> exists|j: int|
            0 <= j < table.rows.len() && (#[trigger] table.rows[j]).name == snapshot[i].name
}

/// The table of a snapshot holds what the snapshot holds.
pub proof fn lemma_table_agrees(snapshot: Seq<Sample>)
    ensures
        agrees_with(table_of(snapshot), snapshot),
{
    broadcast use vstd::seq_lib::group_to_multiset_ensures;

    let groups = grouped(snapshot);
    let table = table_of(snapshot);
    lemma_grouping_keeps_totals(snapshot);
    lemma_ranking_permutes(groups);
    assert forall|i: int| 0 <= i < table.rows.len() implies #[trigger] table.rows[i] == group_of(
        snapshot,
        table.rows[i].name,
    ) by {
        assert(groups.to_multiset().count(table.rows[i]) > 0);
    }
    assert forall|i: int| 0 <= i < snapshot.len() && (#[trigger] snapshot[i]).counted() implies exists|
        j: int,
    |
        0 <= j < table.rows.len() && (#[trigger] table.rows[j]).name == snapshot[i].name by {
        lemma_one_group_for_each_sample(snapshot, i);
        let k = choose|k: int| 0 <= k < groups.len() && #[trigger] groups[k].name == snapshot[i].name;
        assert(table.rows.to_multiset().count(groups[k]) > 0);
    }
}

/// A table that holds what a snapshot holds also holds what any snapshot of
/// the same samples in another order holds.
pub proof fn lemma_agreement_ignores_order(table: Table, a: Seq<Sample>, b: Seq<Sample>)
    requires
        agrees_with(table, a),
        a.to_multiset() == b.to_multiset(),
    ensures
        agrees_with(table, b),
{
    broadcast use vstd::seq_lib::group_to_multiset_ensures;

    lemma_chosen_ignore_order(a, b, is_counted());
    assert forall|i: int| 0 <= i < table.rows.len() implies #[trigger] table.rows[i] == group_of(
        b,
        table.rows[i].name,
    ) by {
        lemma_group_ignores_order(a, b, table.rows[i].name);
    }
    assert forall|i: int| 0 <= i < b.len() && (#[trigger] b[i]).counted() implies exists|j: int|
        0 <= j < table.rows.len() && (#[trigger] table.rows[j]).name == b[i].name by {
        assert(a.to_multiset().count(b[i]) > 0);
    }
}

/// Groups the samples of a snapshot by name and ranks the groups.
pub fn table_from_snapshot(snapshot: &Vec<ProcessSample>) -> (table: RankedTable)
    ensures
        table@ == table_of(snapshot.deep_view()),
        descending(table@.rows),
        table@.rows.to_multiset() == grouped(snapshot.deep_view()).to_multiset(),
        table@.total_cpu == usage_sum(usages(snapshot.deep_view().filter(is_counted()))),
        table@.total_processes == snapshot.deep_view().filter(is_counted()).len(),
{
    rank(aggregate(snapshot))
}

/// Groups the processes of `system` by name and ranks the groups.
///
/// The order in which a system hands out its processes is not fixed, and with
/// it the order among rows that are tied. The table is that of the system's
/// process table taken in some order; whatever that order, the sums and every
/// row are those of the process table.
pub fn create_grouped_process_data(system: &System) -> (table: RankedTable)
    ensures
        exists|snapshot: Seq<Sample>| #[trigger]
            is_snapshot_of(snapshot, *system) && table@ == table_of(snapshot),
        forall|snapshot: Seq<Sample>| #[trigger]
            is_snapshot_of(snapshot, *system) ==> agrees_with(table@, snapshot),
        descending(table@.rows),
{
    let snapshot = take_snapshot(system);
    let table = table_from_snapshot(&snapshot);
    proof {
        lemma_table_agrees(snapshot.deep_view());
        assert forall|other: Seq<Sample>| #[trigger] is_snapshot_of(other, *system) implies agrees_with(
            table@,
            other,
        ) by {
            lemma_snapshots_agree(*system, snapshot.deep_view(), other);
            lemma_agreement_ignores_order(table@, snapshot.deep_view(), other);
        }
    }
    table
}

/// Lays out the processes of `system` as the lines of one frame, for a
/// terminal on which `visible_rows` rows can be seen, and notes in `state` how
/// many lines the frame has.
pub fn next_frame(system: &System, visible_rows: usize, state: &mut FrameState) -> (lines: Vec<
    String,
>)
    ensures
        exists|snapshot: Seq<Sample>| #[trigger]
            is_snapshot_of(snapshot, *system) && lines.deep_view() == frame_lines(
                table_of(snapshot),
                visible_rows as nat,
            ),
        forall|snapshot: Seq<Sample>| #[trigger]
            is_snapshot_of(snapshot, *system) ==> lines[lines.len() - 1]@ == total_text(
                usage_sum(usages(snapshot.filter(is_counted()))),
                snapshot.filter(is_counted()).len(),
            ),
        final(state).lines == lines.len(),
        lines.len() >= 2,
{
    let table = create_grouped_process_data(system);
    render(&table, visible_rows, state)
}

/// The rows of a table are in descending order of usage, and the rows that a
/// frame shows are the first of them, in their order.
pub proof fn lemma_frame_rows_descending(groups: Seq<Group>, visible_rows: nat, i: int)
    requires
        0 <= i < shown_rows(groups.len(), visible_rows),
    ensures
        descending(ranked(groups).rows),
        ranked(groups).rows.len() == groups.len(),
        frame_lines(ranked(groups), visible_rows)[i + 1] == row_text(ranked(groups).rows[i]),
{
    lemma_ranking_descending(groups);
    lemma_ranking_permutes(groups);
}

/// The line of the sums is the last line of a frame whatever the height, and
/// the sums are those over all groups, whether a group is shown or not.
pub proof fn lemma_total_line_is_last(groups: Seq<Group>, visible_rows: nat)
    ensures
        frame_lines(ranked(groups), visible_rows).len() == shown_rows(groups.len(), visible_rows)
            + 2,
        frame_lines(ranked(groups), visible_rows).first() == header_text(),
        frame_lines(ranked(groups), visible_rows).last() == total_text(
            total_usage(groups),
            total_processes(groups),
        ),
{
    lemma_ranking_permutes(groups);
}

/// The sums in the last line of a frame are those over all counted samples
/// of the snapshot.
pub proof fn lemma_total_line_of_snapshot(snapshot: Seq<Sample>, visible_rows: nat)
    ensures
        frame_lines(table_of(snapshot), visible_rows).last() == total_text(
            usage_sum(usages(snapshot.filter(is_counted()))),
            snapshot.filter(is_counted()).len(),
        ),
{
    lemma_total_line_is_last(grouped(snapshot), visible_rows);
    lemma_grouping_keeps_totals(snapshot);
}

/// Where no sample is counted, the frame has no line but the header and the
/// line of the sums, and the sums are zero.
pub proof fn lemma_frame_of_nothing(snapshot: Seq<Sample>, visible_rows: nat)
    requires
        forall|i: int| 0 <= i < snapshot.len() ==> !(#[trigger] snapshot[i]).counted(),
    ensures
        table_of(snapshot).rows.len() == 0,
        frame_lines(table_of(snapshot), visible_rows) == seq![
            header_text(),
            total_text(Usage::Millionths(0), 0),
        ],
{
    lemma_nothing_counted_no_groups(snapshot);
}

} // verus!
