//! One process as seen in one snapshot of the process table.

use vstd::prelude::*;
use crate::usage::CpuReading;
use crate::usage::Usage;

verus! {

/// One running process at the moment of a snapshot.
#[derive(Clone, Debug, PartialEq, Eq)]
pub struct ProcessSample {
    /// Identifier of the process, unique among the processes of a snapshot.
    pub pid: u32,
    /// Display name. Processes are grouped by this name, compared exactly.
    pub name: String,
    /// The arguments the process was started with. Empty for kernel threads
    /// and other entries without a command line.
    pub command_line: Vec<String>,
    /// Share of CPU time the process used since the previous snapshot.
    pub cpu: CpuReading,
}

/// The mathematical value of a [`ProcessSample`].
pub struct Sample {
    pub pid: u32,
    pub name: Seq<char>,
    pub command_line: Seq<Seq<char>>,
    pub cpu: Usage,
}

impl Sample {
    /// Whether the sample takes part in the table: it has a command line.
    pub open spec fn counted(self) -> bool {
        self.command_line.len() > 0
    }
}

impl View for ProcessSample {
    type V = Sample;

    open spec fn view(&self) -> Sample {
        Sample {
            pid: self.pid,
            name: self.name@,
            command_line: self.command_line.deep_view(),
            cpu: self.cpu@,
        }
    }
}

impl DeepView for ProcessSample {
    type V = Sample;

    open spec fn deep_view(&self) -> Sample {
        self.view()
    }
}

impl ProcessSample {
    /// Whether the sample takes part in the table.
    pub fn counted(&self) -> (yes: bool)
        ensures
            yes == self@.counted(),
    {
        self.command_line.len() > 0
    }
}

} // verus!
