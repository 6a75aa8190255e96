//! Grouping the samples of a snapshot by process name.

use vstd::prelude::*;
use crate::sample::ProcessSample;
use crate::sample::Sample;
use crate::usage::amount_of;
use crate::usage::lemma_amount_sum_bound;
use crate::usage::lemma_usage_sum_amount;
use crate::usage::lemma_usage_sum_concat;
use crate::usage::lemma_usage_sum_update;
use crate::usage::usage_plus;
use crate::usage::usage_sum;
use crate::usage::CpuUsage;
use crate::usage::Usage;

verus! {

/// The processes of a snapshot that share one name, summed up.
#[derive(Clone, Debug, PartialEq, Eq)]
pub struct GroupSummary {
    /// The name shared by the processes of the group.
    pub name: String,
    /// The sum of the CPU usage of the processes of the group.
    pub cpu: CpuUsage,
    /// How many processes the group has.
    pub processes: u64,
}

/// The mathematical value of a [`GroupSummary`].
pub struct Group {
    pub name: Seq<char>,
    pub cpu: Usage,
    pub processes: nat,
}

impl View for GroupSummary {
    type V = Group;

    open spec fn view(&self) -> Group {
        Group { name: self.name@, cpu: self.cpu@, processes: self.processes as nat }
    }
}

impl DeepView for GroupSummary {
    type V = Group;

    open spec fn deep_view(&self) -> Group {
        self.view()
    }
}

/// The test for membership in the group called `name`: the sample is counted
/// and has exactly that name.
pub open spec fn in_group(name: Seq<char>) -> spec_fn(Sample) -> bool {
    |s: Sample| s.counted() && s.name == name
}

/// The test for taking part in the table at all.
pub open spec fn is_counted() -> spec_fn(Sample) -> bool {
    |s: Sample| s.counted()
}

/// The CPU usage of each of `samples`, in order.
pub open spec fn usages(samples: Seq<Sample>) -> Seq<Usage> {
    samples.map_values(|s: Sample| s.cpu)
}

/// The samples of `snapshot` that belong to the group called `name`.
pub open spec fn group_samples(snapshot: Seq<Sample>, name: Seq<char>) -> Seq<Sample> {
    snapshot.filter(in_group(name))
}

/// How many samples of `snapshot` belong to the group called `name`.
pub open spec fn members(snapshot: Seq<Sample>, name: Seq<char>) -> nat {
    group_samples(snapshot, name).len()
}

/// The summed usage of the samples of `snapshot` that belong to the group
/// called `name`.
pub open spec fn cumulative(snapshot: Seq<Sample>, name: Seq<char>) -> Usage {
    usage_sum(usages(group_samples(snapshot, name)))
}

/// The names of the counted samples of `snapshot`, each once, in the order in
/// which they first occur.
pub open spec fn group_names(snapshot: Seq<Sample>) -> Seq<Seq<char>>
    decreases snapshot.len(),
{
    if snapshot.len() == 0 {
        Seq::empty()
    } else {
        let earlier = group_names(snapshot.drop_last());
        let sample = snapshot.last();
        if sample.counted() && !earlier.contains(sample.name) {
            earlier.push(sample.name)
        } else {
            earlier
        }
    }
}

/// The group of `snapshot` called `name`.
pub open spec fn group_of(snapshot: Seq<Sample>, name: Seq<char>) -> Group {
    Group { name, cpu: cumulative(snapshot, name), processes: members(snapshot, name) }
}

/// The groups of a snapshot: one for each name that a counted sample has, in
/// the order in which the names first occur, each with the number and the
/// summed usage of the counted samples of that name.
pub open spec fn grouped(snapshot: Seq<Sample>) -> Seq<Group> {
    group_names(snapshot).map_values(|name: Seq<char>| group_of(snapshot, name))
}

/// The usage of each of `groups`, in order.
pub open spec fn group_usages(groups: Seq<Group>) -> Seq<Usage> {
    groups.map_values(|g: Group| g.cpu)
}

/// The summed usage of `groups`.
pub open spec fn total_usage(groups: Seq<Group>) -> Usage {
    usage_sum(group_usages(groups))
}

/// The number of processes in all of `groups`.
pub open spec fn total_processes(groups: Seq<Group>) -> nat
    decreases groups.len(),
{
    if groups.len() == 0 {
        0
    } else {
        total_processes(groups.drop_last()) + groups.last().processes
    }
}

/// What one more sample does to the samples of a group.
pub proof fn lemma_group_samples_push(snapshot: Seq<Sample>, sample: Sample, name: Seq<char>)
    ensures
        sample.counted() && sample.name == name ==> group_samples(snapshot.push(sample), name)
            == group_samples(snapshot, name).push(sample),
        !(sample.counted() && sample.name == name) ==> group_samples(snapshot.push(sample), name)
            == group_samples(snapshot, name),
{
    snapshot.lemma_filter_push(sample, in_group(name));
}

/// What one more sample does to the group called `name`.
pub proof fn lemma_group_of_push(snapshot: Seq<Sample>, sample: Sample, name: Seq<char>)
    ensures
        sample.counted() && sample.name == name ==> group_of(snapshot.push(sample), name) == (Group {
            name,
            cpu: usage_plus(cumulative(snapshot, name), sample.cpu),
            processes: members(snapshot, name) + 1,
        }),
        !(sample.counted() && sample.name == name) ==> group_of(snapshot.push(sample), name)
            == group_of(snapshot, name),
{
    lemma_group_samples_push(snapshot, sample, name);
    if sample.counted() && sample.name == name {
        let before = group_samples(snapshot, name);
        assert(usages(before.push(sample)) =~= usages(before).push(sample.cpu));
        assert(usages(before).push(sample.cpu).drop_last() =~= usages(before));
    }
}

/// A name is among the group names exactly if some sample belongs to its
/// group.
pub proof fn lemma_group_names_members(snapshot: Seq<Sample>, name: Seq<char>)
    ensures
        group_names(snapshot).contains(name) <==> members(snapshot, name) > 0,
    decreases snapshot.len(),
{
    if snapshot.len() > 0 {
        let front = snapshot.drop_last();
        let sample = snapshot.last();
        assert(front.push(sample) =~= snapshot);
        lemma_group_names_members(front, name);
        lemma_group_samples_push(front, sample, name);
        let earlier = group_names(front);
        if sample.counted() && !earlier.contains(sample.name) {
            let names = earlier.push(sample.name);
            if members(snapshot, name) > 0 {
                if sample.name == name {
                    assert(names[earlier.len() as int] == name);
                } else {
                    let i = choose|i: int| 0 <= i < earlier.len() && earlier[i] == name;
                    assert(names[i] == name);
                }
            }
        }
    }
}

/// No name occurs twice among the group names.
pub proof fn lemma_group_names_distinct(snapshot: Seq<Sample>)
    ensures
        group_names(snapshot).no_duplicates(),
    decreases snapshot.len(),
{
    if snapshot.len() > 0 {
        lemma_group_names_distinct(snapshot.drop_last());
    }
}

/// What one more sample does to the groups: a sample that is not counted
/// leaves them as they are; a counted sample whose name is new adds a group
/// of one at the end; any other joins the group of its name.
pub proof fn lemma_grouped_push(snapshot: Seq<Sample>, sample: Sample)
    ensures
        !sample.counted() ==> grouped(snapshot.push(sample)) == grouped(snapshot),
        sample.counted() && !group_names(snapshot).contains(sample.name) ==> grouped(
            snapshot.push(sample),
        ) == grouped(snapshot).push(
            Group { name: sample.name, cpu: sample.cpu, processes: 1 },
        ),
        forall|k: int|
            sample.counted() && 0 <= k < group_names(snapshot).len() && group_names(snapshot)[k]
                == sample.name ==> grouped(snapshot.push(sample)) == grouped(snapshot).update(
                k,
                Group {
                    name: sample.name,
                    cpu: usage_plus(grouped(snapshot)[k].cpu, sample.cpu),
                    processes: grouped(snapshot)[k].processes + 1,
                },
            ),
{
    let longer = snapshot.push(sample);
    let names = group_names(snapshot);
    assert(longer.drop_last() =~= snapshot);
    lemma_group_names_distinct(snapshot);
    assert forall|name: Seq<char>| #[trigger]
        group_of(longer, name) == if sample.counted() && sample.name == name {
            Group {
                name,
                cpu: usage_plus(cumulative(snapshot, name), sample.cpu),
                processes: members(snapshot, name) + 1,
            }
        } else {
            group_of(snapshot, name)
        } by {
        lemma_group_of_push(snapshot, sample, name);
    }
    if sample.counted() && !names.contains(sample.name) {
        lemma_group_names_members(snapshot, sample.name);
    }
}

/// The samples picked out of a snapshot by a test are no more than the
/// snapshot has, and if no sample uses more than `bound`, together they use no
/// more than `bound` for each of them.
pub proof fn lemma_chosen_bounds(snapshot: Seq<Sample>, test: spec_fn(Sample) -> bool, bound: nat)
    requires
        forall|i: int| 0 <= i < snapshot.len() ==> amount_of(#[trigger] snapshot[i].cpu) <= bound,
    ensures
        snapshot.filter(test).len() <= snapshot.len(),
        amount_of(usage_sum(usages(snapshot.filter(test)))) <= snapshot.filter(test).len() * bound,
{
    let chosen = snapshot.filter(test);
    snapshot.lemma_filter_len(test);
    assert forall|j: int| 0 <= j < chosen.len() implies amount_of(#[trigger] usages(chosen)[j])
        <= bound by {
        snapshot.lemma_filter_contains_rev(test, chosen[j]);
    }
    lemma_amount_sum_bound(usages(chosen), bound);
    lemma_usage_sum_amount(usages(chosen));
}

/// What taking one sample out of a snapshot does to the samples that a test
/// picks: if the test picks the sample, there is one less of them and they use
/// that much less.
pub proof fn lemma_chosen_without(snapshot: Seq<Sample>, i: int, test: spec_fn(Sample) -> bool)
    requires
        0 <= i < snapshot.len(),
    ensures
        test(snapshot[i]) ==> snapshot.filter(test).len() == snapshot.remove(i).filter(test).len()
            + 1 && usage_sum(usages(snapshot.filter(test))) == usage_plus(
            usage_sum(usages(snapshot.remove(i).filter(test))),
            snapshot[i].cpu,
        ),
        !test(snapshot[i]) ==> snapshot.filter(test) == snapshot.remove(i).filter(test),
{
    let ahead = snapshot.take(i);
    let behind = snapshot.skip(i + 1);
    let sample = snapshot[i];
    assert(snapshot =~= ahead.push(sample) + behind);
    Seq::filter_distributes_over_add(ahead.push(sample), behind, test);
    Seq::filter_distributes_over_add(ahead, behind, test);
    ahead.lemma_filter_push(sample, test);
    if test(sample) {
        let a = ahead.filter(test);
        let b = behind.filter(test);
        assert(usages(a.push(sample) + b) =~= usages(a).push(sample.cpu) + usages(b));
        assert(usages(a + b) =~= usages(a) + usages(b));
        assert(usages(a).push(sample.cpu).drop_last() =~= usages(a));
        lemma_usage_sum_concat(usages(a).push(sample.cpu), usages(b));
        lemma_usage_sum_concat(usages(a), usages(b));
    }
}

/// The order of the samples does not matter to what a test picks: two
/// snapshots that hold the same samples, each as often as the other, have as
/// many that the test picks, and these use as much.
pub proof fn lemma_chosen_ignore_order(a: Seq<Sample>, b: Seq<Sample>, test: spec_fn(Sample) -> bool)
    requires
        a.to_multiset() == b.to_multiset(),
    ensures
        a.filter(test).len() == b.filter(test).len(),
        usage_sum(usages(a.filter(test))) == usage_sum(usages(b.filter(test))),
    decreases a.len(),
{
    broadcast use vstd::seq_lib::group_to_multiset_ensures;

    if a.len() == 0 {
        assert(b.to_multiset().len() == b.len());
    } else {
        let last = a.len() - 1;
        let sample = a[last];
        assert(b.to_multiset().count(sample) > 0);
        let i = choose|i: int| 0 <= i < b.len() && b[i] == sample;
        vstd::seq_lib::to_multiset_remove(a, last);
        vstd::seq_lib::to_multiset_remove(b, i);
        lemma_chosen_ignore_order(a.remove(last), b.remove(i), test);
        lemma_chosen_without(a, last, test);
        lemma_chosen_without(b, i, test);
    }
}

/// The order of the samples does not matter to a group: two snapshots that
/// hold the same samples, each as often as the other, have the same group of
/// any one name.
pub proof fn lemma_group_ignores_order(a: Seq<Sample>, b: Seq<Sample>, name: Seq<char>)
    requires
        a.to_multiset() == b.to_multiset(),
    ensures
        group_of(a, name) == group_of(b, name),
{
    lemma_chosen_ignore_order(a, b, in_group(name));
}

/// Replacing one group changes the number of processes by the difference
/// between the two.
pub proof fn lemma_total_processes_update(groups: Seq<Group>, k: int, replacement: Group)
    requires
        0 <= k < groups.len(),
    ensures
        total_processes(groups.update(k, replacement)) + groups[k].processes == total_processes(
            groups,
        ) + replacement.processes,
    decreases groups.len(),
{
    let changed = groups.update(k, replacement);
    if k == groups.len() - 1 {
        assert(changed.drop_last() =~= groups.drop_last());
    } else {
        lemma_total_processes_update(groups.drop_last(), k, replacement);
        assert(changed.drop_last() =~= groups.drop_last().update(k, replacement));
    }
}

/// Grouping loses nothing and adds nothing: the usage of all groups together
/// is the usage of all counted samples together, and the groups have as many
/// processes as there are counted samples.
pub proof fn lemma_grouping_keeps_totals(snapshot: Seq<Sample>)
    ensures
        total_usage(grouped(snapshot)) == usage_sum(usages(snapshot.filter(is_counted()))),
        total_processes(grouped(snapshot)) == snapshot.filter(is_counted()).len(),
    decreases snapshot.len(),
{
    if snapshot.len() == 0 {
        snapshot.lemma_filter_len(is_counted());
    } else {
        let front = snapshot.drop_last();
        let sample = snapshot.last();
        let groups = grouped(front);
        assert(front.push(sample) =~= snapshot);
        lemma_grouping_keeps_totals(front);
        lemma_grouped_push(front, sample);
        front.lemma_filter_push(sample, is_counted());
        if sample.counted() {
            let counted = front.filter(is_counted());
            assert(usages(counted.push(sample)) =~= usages(counted).push(sample.cpu));
            assert(usages(counted).push(sample.cpu).drop_last() =~= usages(counted));
            if group_names(front).contains(sample.name) {
                let k = choose|k: int|
                    0 <= k < group_names(front).len() && group_names(front)[k] == sample.name;
                let joined = Group {
                    name: sample.name,
                    cpu: usage_plus(groups[k].cpu, sample.cpu),
                    processes: groups[k].processes + 1,
                };
                assert(group_usages(groups.update(k, joined)) =~= group_usages(groups).update(
                    k,
                    usage_plus(group_usages(groups)[k], sample.cpu),
                ));
                lemma_usage_sum_update(group_usages(groups), k, sample.cpu);
                lemma_total_processes_update(groups, k, joined);
            } else {
                let added = Group { name: sample.name, cpu: sample.cpu, processes: 1 };
                assert(group_usages(groups.push(added)) =~= group_usages(groups).push(sample.cpu));
                assert(group_usages(groups).push(sample.cpu).drop_last() =~= group_usages(groups));
                assert(groups.push(added).drop_last() =~= groups);
            }
        }
    }
}

/// Samples without a command line contribute to no group: the groups of a
/// snapshot are the groups of its counted samples alone.
pub proof fn lemma_grouping_leaves_out_uncounted(snapshot: Seq<Sample>)
    ensures
        grouped(snapshot) == grouped(snapshot.filter(is_counted())),
        group_names(snapshot) == group_names(snapshot.filter(is_counted())),
    decreases snapshot.len(),
{
    if snapshot.len() == 0 {
        snapshot.lemma_filter_len(is_counted());
    } else {
        let front = snapshot.drop_last();
        let sample = snapshot.last();
        let counted = front.filter(is_counted());
        assert(front.push(sample) =~= snapshot);
        lemma_grouping_leaves_out_uncounted(front);
        front.lemma_filter_push(sample, is_counted());
        lemma_grouped_push(front, sample);
        if sample.counted() {
            lemma_grouped_push(counted, sample);
            assert(counted.push(sample).drop_last() =~= counted);
        }
    }
}

/// Where no sample is counted there is no group.
pub proof fn lemma_nothing_counted_no_groups(snapshot: Seq<Sample>)
    requires
        forall|i: int| 0 <= i < snapshot.len() ==> !(#[trigger] snapshot[i]).counted(),
    ensures
        grouped(snapshot) == Seq::<Group>::empty(),
    decreases snapshot.len(),
{
    if snapshot.len() > 0 {
        let front = snapshot.drop_last();
        lemma_nothing_counted_no_groups(front);
    }
}

/// Every counted sample belongs to exactly one group: its name is the name of
/// one group and of no other.
pub proof fn lemma_one_group_for_each_sample(snapshot: Seq<Sample>, i: int)
    requires
        0 <= i < snapshot.len(),
        snapshot[i].counted(),
    ensures
        exists|j: int|
            0 <= j < grouped(snapshot).len() && #[trigger] grouped(snapshot)[j].name
                == snapshot[i].name,
        forall|j: int, k: int|
            0 <= j < grouped(snapshot).len() && 0 <= k < grouped(snapshot).len() && grouped(
                snapshot,
            )[j].name == snapshot[i].name && grouped(snapshot)[k].name == snapshot[i].name ==> j
                == k,
{
    let name = snapshot[i].name;
    snapshot.lemma_filter_contains(in_group(name), i);
    lemma_group_names_members(snapshot, name);
    lemma_group_names_distinct(snapshot);
    let j = choose|j: int| 0 <= j < group_names(snapshot).len() && group_names(snapshot)[j] == name;
    assert(grouped(snapshot)[j].name == name);
}

/// The index of the first of `groups` that is called `name`, if there is one.
pub fn find_group(groups: &Vec<GroupSummary>, name: &String) -> (found: Option<usize>)
    ensures
        match found {
            Some(k) => {
                &&& k < groups.len()
                &&& groups[k as int].name@ == name@
                &&& forall|j: int| 0 <= j < k ==> groups[j].name@ != name@
            },
            None => forall|j: int| 0 <= j < groups.len() ==> groups[j].name@ != name@,
        },
{
    let mut k: usize = 0;
    while k < groups.len()
        invariant
            k <= groups.len(),
            forall|j: int| 0 <= j < k ==> groups[j].name@ != name@,
        decreases groups.len() - k,
    {
        if groups[k].name == *name {
            return Some(k);
        }
        k += 1;
    }
    None
}

/// Groups the samples of a snapshot by name.
///
/// Samples without a command line are left out. Every other sample is counted
/// in the group of its name, and its usage is added to that group's. The
/// groups stand in the order in which their names first occur in the snapshot.
pub fn aggregate(snapshot: &Vec<ProcessSample>) -> (groups: Vec<GroupSummary>)
    ensures
        groups.deep_view() == grouped(snapshot.deep_view()),
        forall|j: int, k: int|
            0 <= j < k < groups.len() ==> (#[trigger] groups[j]).name@ != (
            #[trigger] groups[k]).name@,
        forall|j: int|
            0 <= j < groups.len() ==> (#[trigger] groups[j]).processes == members(
                snapshot.deep_view(),
                groups[j].name@,
            ),
        forall|j: int|
            0 <= j < groups.len() ==> (#[trigger] groups[j]).cpu@ == cumulative(
                snapshot.deep_view(),
                groups[j].name@,
            ),
        total_usage(groups.deep_view()) == usage_sum(
            usages(snapshot.deep_view().filter(is_counted())),
        ),
        total_processes(groups.deep_view()) == snapshot.deep_view().filter(is_counted()).len(),
        amount_of(total_usage(groups.deep_view())) <= u128::MAX,
{
    let ghost all = snapshot.deep_view();
    let mut groups: Vec<GroupSummary> = Vec::new();
    for i in 0..snapshot.len()
        invariant
            all == snapshot.deep_view(),
            groups.deep_view() == grouped(all.take(i as int)),
    {
        let sample = &snapshot[i];
        let ghost seen = all.take(i as int);
        proof {
            assert(all.take(i + 1) =~= seen.push(sample@));
            lemma_grouped_push(seen, sample@);
            assert(grouped(seen).len() == group_names(seen).len());
        }
        if sample.counted() {
            let usage = CpuUsage::of_reading(sample.cpu);
            match find_group(&groups, &sample.name) {
                Some(k) => {
                    proof {
                        assert(group_names(seen)[k as int] == sample@.name);
                        lemma_chosen_bounds(seen, in_group(sample@.name), u64::MAX as nat);
                    }
                    let group = &mut groups[k];
                    group.cpu = group.cpu.plus(usage);
                    group.processes = group.processes + 1;
                },
                None => {
                    groups.push(
                        GroupSummary { name: sample.name.clone(), cpu: usage, processes: 1 },
                    );
                },
            }
        }
    }
    proof {
        assert(all.take(snapshot.len() as int) =~= all);
        assert forall|j: int| 0 <= j < groups.len() implies (#[trigger] groups[j])@ == group_of(
            all,
            groups[j].name@,
        ) by {
            assert(groups.deep_view()[j] == groups[j]@);
        }
        lemma_group_names_distinct(all);
        assert forall|j: int, k: int| 0 <= j < k < groups.len() implies (#[trigger] groups[j]).name@
            != (#[trigger] groups[k]).name@ by {
            assert(grouped(all)[j].name == group_names(all)[j]);
            assert(grouped(all)[k].name == group_names(all)[k]);
        }
        lemma_grouping_keeps_totals(all);
        lemma_chosen_bounds(all, is_counted(), u64::MAX as nat);
    }
    groups
}

} // verus!
