//! Ranking the groups by cumulative CPU usage.

use vstd::prelude::*;
use crate::aggregate::group_usages;
use crate::aggregate::total_processes;
use crate::aggregate::total_usage;
use crate::aggregate::Group;
use crate::aggregate::GroupSummary;
use crate::usage::amount_of;
use crate::usage::amount_sum;
use crate::usage::lemma_amount_sum_prefix;
use crate::usage::lemma_usage_sum_amount;
use crate::usage::usage_outranks;
use crate::usage::CpuUsage;
use crate::usage::Usage;

verus! {

/// The last row of a table: the sums over all groups.
#[derive(Clone, Copy, Debug, PartialEq, Eq, Structural)]
pub struct TotalRow {
    /// The summed usage of all groups.
    pub cpu: CpuUsage,
    /// The number of processes in all groups.
    pub processes: u128,
}

/// The groups in ranked order, and the sums over all of them.
#[derive(Clone, Debug, PartialEq, Eq)]
pub struct RankedTable {
    /// One row for each group, the highest usage first.
    pub rows: Vec<GroupSummary>,
    /// The sums over all rows.
    pub total: TotalRow,
}

/// The mathematical value of a [`RankedTable`].
pub struct Table {
    pub rows: Seq<Group>,
    pub total_cpu: Usage,
    pub total_processes: nat,
}

impl View for RankedTable {
    type V = Table;

    open spec fn view(&self) -> Table {
        Table {
            rows: self.rows.deep_view(),
            total_cpu: self.total.cpu@,
            total_processes: self.total.processes as nat,
        }
    }
}

/// Where `group` enters `rows`: in front of the first row that it outranks,
/// or at the end if it outranks none.
pub open spec fn entry_point(rows: Seq<Group>, group: Group) -> int
    decreases rows.len(),
{
    if rows.len() == 0 {
        0
    } else if usage_outranks(group.cpu, rows.first().cpu) {
        0
    } else {
        1 + entry_point(rows.drop_first(), group)
    }
}

/// The groups in ranked order: each group in turn enters the rows made of the
/// groups before it, in front of the first row that it outranks.
pub open spec fn ranking(groups: Seq<Group>) -> Seq<Group>
    decreases groups.len(),
{
    if groups.len() == 0 {
        Seq::empty()
    } else {
        let rows = ranking(groups.drop_last());
        rows.insert(entry_point(rows, groups.last()), groups.last())
    }
}

/// Whether no row is outranked by a row behind it.
pub open spec fn descending(rows: Seq<Group>) -> bool {
    forall|i: int, j: int|
        0 <= i < j < rows.len() ==> !usage_outranks(
            (#[trigger] rows[j]).cpu,
            (#[trigger] rows[i]).cpu,
        )
}

/// The test for having exactly the usage `usage`.
pub open spec fn has_usage(usage: Usage) -> spec_fn(Group) -> bool {
    |group: Group| group.cpu == usage
}

/// The table of `groups`: the groups in ranked order, and the sums over all
/// of them.
pub open spec fn ranked(groups: Seq<Group>) -> Table {
    Table {
        rows: ranking(groups),
        total_cpu: total_usage(groups),
        total_processes: total_processes(groups),
    }
}

/// The entry point lies within the rows or at their end; the group outranks
/// no row in front of it, and outranks the row at it, if there is one.
pub proof fn lemma_entry_point(rows: Seq<Group>, group: Group)
    ensures
        0 <= entry_point(rows, group) <= rows.len(),
        forall|i: int|
            0 <= i < entry_point(rows, group) ==> !usage_outranks(group.cpu, #[trigger] rows[i].cpu),
        entry_point(rows, group) < rows.len() ==> usage_outranks(
            group.cpu,
            rows[entry_point(rows, group)].cpu,
        ),
    decreases rows.len(),
{
    if rows.len() > 0 && !usage_outranks(group.cpu, rows.first().cpu) {
        let rest = rows.drop_first();
        lemma_entry_point(rest, group);
        assert forall|i: int| 0 <= i < entry_point(rows, group) implies !usage_outranks(
            group.cpu,
            #[trigger] rows[i].cpu,
        ) by {
            if i > 0 {
                assert(rows[i] == rest[i - 1]);
            }
        }
    }
}

/// The ranking is in descending order: no row is outranked by a row behind
/// it, whatever the usages are.
pub proof fn lemma_ranking_descending(groups: Seq<Group>)
    ensures
        descending(ranking(groups)),
    decreases groups.len(),
{
    if groups.len() > 0 {
        let rows = ranking(groups.drop_last());
        let group = groups.last();
        let at = entry_point(rows, group);
        lemma_ranking_descending(groups.drop_last());
        lemma_entry_point(rows, group);
    }
}

/// In a ranking, no row is outranked by the row that follows it, and of two
/// rows whose usages are numbers the one in front uses at least as much.
pub proof fn lemma_ranking_pairs(groups: Seq<Group>, i: int, j: int)
    requires
        0 <= i < j < ranking(groups).len(),
    ensures
        !usage_outranks(ranking(groups)[i + 1].cpu, ranking(groups)[i].cpu),
        ranking(groups)[i].cpu is Millionths && ranking(groups)[j].cpu is Millionths ==> amount_of(
            ranking(groups)[i].cpu,
        ) >= amount_of(ranking(groups)[j].cpu),
{
    lemma_ranking_descending(groups);
}

/// The ranking is stable: the rows of any one usage are the groups of that
/// usage in the order they came in.
pub proof fn lemma_ranking_stable(groups: Seq<Group>, usage: Usage)
    ensures
        ranking(groups).filter(has_usage(usage)) == groups.filter(has_usage(usage)),
    decreases groups.len(),
{
    if groups.len() > 0 {
        let front = groups.drop_last();
        let rows = ranking(front);
        let group = groups.last();
        let at = entry_point(rows, group);
        let test = has_usage(usage);
        lemma_ranking_stable(front, usage);
        lemma_ranking_descending(front);
        lemma_entry_point(rows, group);
        let ahead = rows.take(at);
        let behind = rows.skip(at);
        assert(rows =~= ahead + behind);
        assert(front.push(group) =~= groups);
        Seq::filter_distributes_over_add(ahead.push(group), behind, test);
        Seq::filter_distributes_over_add(ahead, behind, test);
        ahead.lemma_filter_push(group, test);
        front.lemma_filter_push(group, test);
        if group.cpu == usage {
            let kept = behind.filter(test);
            if kept.len() > 0 {
                behind.lemma_filter_pred(test, 0);
                behind.lemma_filter_contains_rev(test, kept[0]);
            }
        }
    }
}

/// The ranking holds the groups it was made of, each as often as it was
/// given.
pub proof fn lemma_ranking_permutes(groups: Seq<Group>)
    ensures
        ranking(groups).to_multiset() == groups.to_multiset(),
        ranking(groups).len() == groups.len(),
    decreases groups.len(),
{
    broadcast use vstd::seq_lib::group_to_multiset_ensures;

    if groups.len() > 0 {
        let front = groups.drop_last();
        let rows = ranking(front);
        let group = groups.last();
        let at = entry_point(rows, group);
        lemma_ranking_permutes(front);
        lemma_entry_point(rows, group);
        assert(front.push(group) =~= groups);
    }
}

/// The number of processes in a prefix of the groups is at most `bound` for
/// every group of the prefix, if no group has more processes than `bound`.
pub proof fn lemma_total_processes_bound(groups: Seq<Group>, bound: nat)
    requires
        forall|i: int| 0 <= i < groups.len() ==> (#[trigger] groups[i]).processes <= bound,
    ensures
        total_processes(groups) <= groups.len() * bound,
    decreases groups.len(),
{
    if groups.len() > 0 {
        let front = groups.drop_last();
        lemma_total_processes_bound(front, bound);
        assert(groups.len() * bound == front.len() * bound + bound) by (nonlinear_arith)
            requires
                groups.len() == front.len() + 1,
        ;
    }
}

/// The sums over all of `groups`.
pub fn total_of(groups: &Vec<GroupSummary>) -> (total: TotalRow)
    requires
        amount_of(total_usage(groups.deep_view())) <= u128::MAX,
    ensures
        total.cpu@ == total_usage(groups.deep_view()),
        total.processes == total_processes(groups.deep_view()),
{
    let ghost all = groups.deep_view();
    let ghost terms = group_usages(all);
    let mut numbers = true;
    let mut processes: u128 = 0;
    for i in 0..groups.len()
        invariant
            all == groups.deep_view(),
            terms == group_usages(all),
            numbers <==> forall|j: int| 0 <= j < i ==> terms[j] is Millionths,
            processes == total_processes(all.take(i as int)),
    {
        proof {
            assert(all.take(i + 1).drop_last() =~= all.take(i as int));
            assert(terms[i as int] == groups[i as int].cpu@);
            lemma_total_processes_bound(all.take(i as int), u64::MAX as nat);
        }
        if let CpuUsage::NotANumber = groups[i].cpu {
            numbers = false;
        }
        processes = processes + groups[i].processes as u128;
    }
    proof {
        assert(all.take(groups.len() as int) =~= all);
        lemma_usage_sum_amount(terms);
    }
    if !numbers {
        return TotalRow { cpu: CpuUsage::NotANumber, processes };
    }
    let mut amount: u128 = 0;
    for i in 0..groups.len()
        invariant
            all == groups.deep_view(),
            terms == group_usages(all),
            forall|j: int| 0 <= j < terms.len() ==> terms[j] is Millionths,
            amount_sum(terms) <= u128::MAX,
            amount == amount_sum(terms.take(i as int)),
    {
        proof {
            assert(terms.take(i + 1).drop_last() =~= terms.take(i as int));
            lemma_amount_sum_prefix(terms, i + 1);
        }
        if let CpuUsage::Millionths(m) = groups[i].cpu {
            amount = amount + m;
        }
    }
    assert(terms.take(groups.len() as int) =~= terms);
    TotalRow { cpu: CpuUsage::Millionths(amount), processes }
}

/// Puts the groups in ranked order: each group in turn enters the rows in
/// front of the first row that it outranks, so that no row is outranked by a
/// row behind it.
///
/// A group whose usage is not a number neither outranks another nor is
/// outranked. Groups of the same usage keep the order they came in.
pub fn rank_rows(groups: Vec<GroupSummary>) -> (rows: Vec<GroupSummary>)
    ensures
        rows.deep_view() == ranking(groups.deep_view()),
        descending(rows.deep_view()),
        rows.deep_view().to_multiset() == groups.deep_view().to_multiset(),
        rows.len() == groups.len(),
        forall|usage: Usage| #[trigger]
            rows.deep_view().filter(has_usage(usage)) == groups.deep_view().filter(
                has_usage(usage),
            ),
{
    let ghost all = groups.deep_view();
    let mut rows: Vec<GroupSummary> = Vec::new();
    for group in it: groups
        invariant
            it.seq().len() == all.len(),
            forall|j: int| 0 <= j < all.len() ==> all[j] == (#[trigger] it.seq()[j])@,
            rows.deep_view() == ranking(all.take(it.index() as int)),
    {
        let ghost before = rows.deep_view();
        let ghost arrived = it.index() as int;
        proof {
            assert(all.take(arrived + 1).drop_last() =~= all.take(arrived));
            lemma_entry_point(before, group@);
        }
        let at = find_entry(&rows, &group);
        rows.insert(at, group);
    }
    proof {
        assert(all.take(all.len() as int) =~= all);
        lemma_ranking_descending(all);
        lemma_ranking_permutes(all);
        assert forall|usage: Usage| #[trigger]
            ranking(all).filter(has_usage(usage)) == all.filter(has_usage(usage)) by {
            lemma_ranking_stable(all, usage);
        }
    }
    rows
}

/// Ranks the groups: the rows of the table are the groups in descending order
/// of usage, and its last row holds the sums over all groups.
pub fn rank(groups: Vec<GroupSummary>) -> (table: RankedTable)
    requires
        amount_of(total_usage(groups.deep_view())) <= u128::MAX,
    ensures
        table@ == ranked(groups.deep_view()),
        descending(table@.rows),
        table@.rows.to_multiset() == groups.deep_view().to_multiset(),
        table@.total_cpu == total_usage(groups.deep_view()),
        table@.total_processes == total_processes(groups.deep_view()),
{
    let total = total_of(&groups);
    let rows = rank_rows(groups);
    RankedTable { rows, total }
}

/// The index at which `group` enters `rows`.
pub fn find_entry(rows: &Vec<GroupSummary>, group: &GroupSummary) -> (at: usize)
    ensures
        at == entry_point(rows.deep_view(), group@),
        at <= rows.len(),
{
    let ghost all = rows.deep_view();
    let mut at: usize = 0;
    assert(all.skip(0) =~= all);
    while at < rows.len()
        invariant
            at <= rows.len(),
            all == rows.deep_view(),
            entry_point(all, group@) == at + entry_point(all.skip(at as int), group@),
        decreases rows.len() - at,
    {
        proof {
            assert(all.skip(at as int).drop_first() =~= all.skip(at + 1));
        }
        if group.cpu.outranks(&rows[at].cpu) {
            return at;
        }
        at += 1;
    }
    at
}

} // verus!
