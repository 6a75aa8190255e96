//! Reading the process table of a `sysinfo::System`, and the waiting that
//! has to come before each refresh of it.

use sysinfo::System;
use vstd::multiset::Multiset;
use vstd::prelude::*;
use crate::sample::ProcessSample;
use crate::sample::Sample;
use crate::usage::reading_of_bits;
use crate::usage::CpuReading;

verus! {

/// `sysinfo::System`: the operating system's process table as it was when it
/// was last refreshed. Nothing inside it is visible to the proofs.
#[verifier::external_type_specification]
#[verifier::external_body]
pub struct ExSystem(sysinfo::System);

/// One entry of a process table: the identifier of the process, its name, its
/// command line, and its CPU usage as the bit pattern of a single-precision
/// percentage.
pub type ProcessEntry = (u32, Seq<char>, Seq<Seq<char>>, u32);

/// What `System::processes` holds: the entries of the process table, in no
/// order. Only `process_entries` reads them.
pub uninterp spec fn process_table(system: System) -> Multiset<ProcessEntry>;

/// The sample that an entry of the process table stands for.
pub open spec fn sample_of_entry(entry: ProcessEntry) -> Sample {
    Sample {
        pid: entry.0,
        name: entry.1,
        command_line: entry.2,
        cpu: reading_of_bits(entry.3),
    }
}

/// The samples that entries of the process table stand for, in their order.
pub open spec fn samples_of_entries(entries: Seq<ProcessEntry>) -> Seq<Sample> {
    entries.map_values(|entry: ProcessEntry| sample_of_entry(entry))
}

/// Whether `snapshot` is the process table of `system`, its entries taken in
/// some order.
pub open spec fn is_snapshot_of(snapshot: Seq<Sample>, system: System) -> bool {
    exists|entries: Seq<ProcessEntry>|
        #[trigger] entries.to_multiset() == process_table(system) && snapshot
            == samples_of_entries(entries)
}

/// Entries that are the same but for their order stand for samples that are
/// the same but for their order.
pub proof fn lemma_samples_ignore_order(a: Seq<ProcessEntry>, b: Seq<ProcessEntry>)
    requires
        a.to_multiset() == b.to_multiset(),
    ensures
        samples_of_entries(a).to_multiset() == samples_of_entries(b).to_multiset(),
    decreases a.len(),
{
    broadcast use vstd::seq_lib::group_to_multiset_ensures;

    if a.len() == 0 {
        assert(b.to_multiset().len() == b.len());
    } else {
        let last = a.len() - 1;
        let entry = a[last];
        assert(b.to_multiset().count(entry) > 0);
        let i = choose|i: int| 0 <= i < b.len() && b[i] == entry;
        vstd::seq_lib::to_multiset_remove(a, last);
        vstd::seq_lib::to_multiset_remove(b, i);
        lemma_samples_ignore_order(a.remove(last), b.remove(i));
        assert(samples_of_entries(a).remove(last) =~= samples_of_entries(a.remove(last)));
        assert(samples_of_entries(b).remove(i) =~= samples_of_entries(b.remove(i)));
        vstd::seq_lib::to_multiset_remove(samples_of_entries(a), last);
        vstd::seq_lib::to_multiset_remove(samples_of_entries(b), i);
        let sample = sample_of_entry(entry);
        assert(samples_of_entries(b).to_multiset() =~= samples_of_entries(b).to_multiset().remove(
            sample,
        ).insert(sample));
    }
}

/// Two snapshots of one system hold the same samples, each as often as the
/// other; they differ in order at most.
pub proof fn lemma_snapshots_agree(system: System, a: Seq<Sample>, b: Seq<Sample>)
    requires
        is_snapshot_of(a, system),
        is_snapshot_of(b, system),
    ensures
        a.to_multiset() == b.to_multiset(),
{
    let from = choose|entries: Seq<ProcessEntry>|
        #[trigger] entries.to_multiset() == process_table(system) && a == samples_of_entries(
            entries,
        );
    let to = choose|entries: Seq<ProcessEntry>|
        #[trigger] entries.to_multiset() == process_table(system) && b == samples_of_entries(
            entries,
        );
    lemma_samples_ignore_order(from, to);
}

/// How long a refresh cycle lasts at least, in milliseconds.
pub const CYCLE_MILLIS: u64 = 1000;

/// How long to wait after the shortest interval between two refreshes has
/// passed: what is left of a cycle, if anything.
pub open spec fn rest_of_cycle(minimum_millis: nat) -> nat {
    if minimum_millis < CYCLE_MILLIS {
        (CYCLE_MILLIS - minimum_millis) as nat
    } else {
        0
    }
}

/// The two waits that come before a refresh, in milliseconds.
#[derive(Clone, Copy, Debug, PartialEq, Eq, Structural)]
pub struct WaitPlan {
    /// The shortest interval between two refreshes that gives meaningful CPU
    /// usage.
    pub minimum_millis: u128,
    /// What is left of the cycle after that.
    pub rest_millis: u64,
}

/// Walks `System::processes` and hands out, for each process, the
/// identifier from `Pid::as_u32`, the name from `Process::name` and the
/// arguments from `Process::cmd`, each as text with whatever is not Unicode
/// replaced, and the bit pattern of `Process::cpu_usage`. The entries are those
/// of the system's process table, each once; their order is that of the walk
/// and is not fixed.
#[verifier::external_body]
fn process_entries(system: &System) -> (entries: Vec<(u32, String, Vec<String>, u32)>)
    ensures
        entries.deep_view().to_multiset() == process_table(*system),
{
    let mut entries = Vec::new();
    for (pid, process) in system.processes() {
        let name = process.name().to_string_lossy().into_owned();
        let command_line = process.cmd().iter().map(|a| a.to_string_lossy().into_owned()).collect();
        entries.push((pid.as_u32(), name, command_line, process.cpu_usage().to_bits()));
    }
    entries
}

/// `sysinfo::MINIMUM_CPU_UPDATE_INTERVAL` in whole milliseconds. The constant
/// differs from one operating system to another, so nothing is claimed of it.
#[verifier::external_body]
fn minimum_update_interval_millis() -> (millis: u128) {
    sysinfo::MINIMUM_CPU_UPDATE_INTERVAL.as_millis()
}

/// What is left of a cycle after `minimum_millis`.
pub fn rest_of_cycle_millis(minimum_millis: u128) -> (rest: u64)
    ensures
        rest == rest_of_cycle(minimum_millis as nat),
{
    if minimum_millis < CYCLE_MILLIS as u128 {
        CYCLE_MILLIS - minimum_millis as u64
    } else {
        0
    }
}

/// The waits that come before a refresh: first the shortest interval that the
/// operating system needs between two refreshes, then what is left of a cycle.
pub fn wait_plan() -> (plan: WaitPlan)
    ensures
        plan.rest_millis == rest_of_cycle(plan.minimum_millis as nat),
        plan.minimum_millis + plan.rest_millis >= CYCLE_MILLIS,
{
    let minimum_millis = minimum_update_interval_millis();
    WaitPlan { minimum_millis, rest_millis: rest_of_cycle_millis(minimum_millis) }
}

/// The samples that entries of a process table stand for.
pub fn samples_from_entries(entries: Vec<(u32, String, Vec<String>, u32)>) -> (snapshot: Vec<
    ProcessSample,
>)
    ensures
        snapshot.deep_view() == samples_of_entries(entries.deep_view()),
{
    let ghost all = entries.deep_view();
    let mut snapshot: Vec<ProcessSample> = Vec::new();
    for entry in it: entries
        invariant
            it.seq().len() == all.len(),
            forall|j: int| 0 <= j < all.len() ==> all[j] == (#[trigger] it.seq()[j]).deep_view(),
            snapshot.deep_view() == samples_of_entries(all.take(it.index() as int)),
    {
        let ghost before = snapshot.deep_view();
        let ghost arrived = it.index() as int;
        let sample = ProcessSample {
            pid: entry.0,
            name: entry.1,
            command_line: entry.2,
            cpu: CpuReading::from_bits(entry.3),
        };
        snapshot.push(sample);
        assert(snapshot.deep_view() =~= before.push(sample_of_entry(all[arrived])));
    }
    snapshot
}

/// The processes of `system` as a snapshot, in the order in which the system
/// hands them out.
pub fn take_snapshot(system: &System) -> (snapshot: Vec<ProcessSample>)
    ensures
        is_snapshot_of(snapshot.deep_view(), *system),
{
    let entries = process_entries(system);
    samples_from_entries(entries)
}

} // verus!
