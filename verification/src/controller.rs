//! The order of the steps of the refresh loop, and when it stops.

use vstd::prelude::*;

verus! {

/// One step of the refresh loop.
#[derive(Clone, Copy, Debug, PartialEq, Eq, Structural)]
pub enum Step {
    /// Wait until CPU usage can be measured again.
    Wait,
    /// Refresh the process table.
    Sample,
    /// Group, rank and draw what the process table holds.
    Render,
    /// Leave the loop.
    Stop,
}

/// Keeps the steps of the refresh loop in order: wait, sample, render, over
/// and over. A request to stop is honoured where one cycle ends and the next
/// would begin, so that a cycle that has begun is carried through.
#[derive(Clone, Copy, Debug, PartialEq, Eq, Structural)]
pub struct LoopController {
    /// The step that comes next, unless the loop stops first.
    pub due: Step,
    /// Whether a stop has been asked for.
    pub stopping: bool,
}

impl LoopController {
    /// The step that the controller hands out next.
    pub open spec fn upcoming(self) -> Step {
        if self.stopping && (self.due == Step::Wait || self.due == Step::Stop) {
            Step::Stop
        } else {
            self.due
        }
    }

    /// The controller after it has handed out its next step.
    pub open spec fn advanced(self) -> LoopController {
        LoopController {
            due: match self.upcoming() {
                Step::Wait => Step::Sample,
                Step::Sample => Step::Render,
                Step::Render => Step::Wait,
                Step::Stop => Step::Stop,
            },
            stopping: self.stopping || self.due == Step::Stop,
        }
    }

    /// The controller after `count` steps.
    pub open spec fn advanced_by(self, count: nat) -> LoopController
        decreases count,
    {
        if count == 0 {
            self
        } else {
            self.advanced().advanced_by((count - 1) as nat)
        }
    }

    /// A controller at the beginning of its first cycle.
    pub fn new() -> (controller: LoopController)
        ensures
            controller.due == Step::Wait,
            !controller.stopping,
    {
        LoopController { due: Step::Wait, stopping: false }
    }

    /// Asks the loop to stop when the cycle that is under way has ended.
    pub fn request_stop(&mut self)
        ensures
            final(self).stopping,
            final(self).due == old(self).due,
    {
        self.stopping = true;
    }

    /// Hands out the next step and moves on.
    pub fn next_step(&mut self) -> (step: Step)
        ensures
            step == old(self).upcoming(),
            *final(self) == old(self).advanced(),
    {
        let step = if self.stopping && (self.due == Step::Wait || self.due == Step::Stop) {
            Step::Stop
        } else {
            self.due
        };
        if self.due == Step::Stop {
            self.stopping = true;
        }
        self.due = match step {
            Step::Wait => Step::Sample,
            Step::Sample => Step::Render,
            Step::Render => Step::Wait,
            Step::Stop => Step::Stop,
        };
        step
    }
}

/// While no stop is asked for, the steps of a cycle come in order and the
/// next cycle begins when the last has ended: a controller that is about to
/// wait hands out wait, sample and render, and is then about to wait again.
pub proof fn lemma_cycle_in_order(controller: LoopController)
    requires
        controller.due == Step::Wait,
        !controller.stopping,
    ensures
        controller.upcoming() == Step::Wait,
        controller.advanced_by(1).upcoming() == Step::Sample,
        controller.advanced_by(2).upcoming() == Step::Render,
        controller.advanced_by(3) == controller,
{
    reveal_with_fuel(LoopController::advanced_by, 4);
}

/// A cycle that has begun is carried through even when a stop is asked for:
/// the controller stops only where the next cycle would begin.
pub proof fn lemma_stop_at_cycle_end(controller: LoopController)
    requires
        controller.stopping,
    ensures
        controller.due == Step::Sample ==> controller.upcoming() == Step::Sample
            && controller.advanced_by(1).upcoming() == Step::Render && controller.advanced_by(
            2,
        ).upcoming() == Step::Stop,
        controller.due == Step::Render ==> controller.upcoming() == Step::Render
            && controller.advanced_by(1).upcoming() == Step::Stop,
        controller.due == Step::Wait || controller.due == Step::Stop ==> controller.upcoming()
            == Step::Stop,
{
    reveal_with_fuel(LoopController::advanced_by, 3);
}

/// Once the controller has handed out stop, it hands out nothing else.
pub proof fn lemma_stop_is_final(controller: LoopController, count: nat)
    requires
        controller.upcoming() == Step::Stop,
    ensures
        controller.advanced_by(count).upcoming() == Step::Stop,
    decreases count,
{
    if count > 0 {
        lemma_stop_is_final(controller.advanced(), (count - 1) as nat);
    }
}

} // verus!
