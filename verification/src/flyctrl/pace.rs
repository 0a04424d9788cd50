//! Bringing up the timer that paces the control loop.
//!
//! The interrupt handler is in place before the timer starts, so that no tick comes
//! without a handler. Where any step fails the caller has to pace the loop itself.

use vstd::prelude::*;

verus! {

/// What to do next to bring the timer up.
#[derive(Clone, Copy, Debug, PartialEq, Eq, Structural)]
pub enum PaceStep {
    /// Find the device.
    Find,
    /// Open it.
    Open,
    /// Attach the interrupt handler and enable its line.
    Attach,
    /// Start the timer.
    Start,
    /// The timer paces the loop.
    Ready,
    /// It does not.
    Failed,
}

/// The timer and the ticks it has given.
#[derive(Clone, Copy, Debug)]
pub struct Pace {
    pub step: PaceStep,
    pub ticks: u32,
}

impl PaceStep {
    /// The step after this one went well or not.
    pub open spec fn after(self, ok: bool) -> PaceStep {
        match self {
            PaceStep::Ready => PaceStep::Ready,
            PaceStep::Failed => PaceStep::Failed,
            PaceStep::Find => if ok {
                PaceStep::Open
            } else {
                PaceStep::Failed
            },
            PaceStep::Open => if ok {
                PaceStep::Attach
            } else {
                PaceStep::Failed
            },
            PaceStep::Attach => if ok {
                PaceStep::Start
            } else {
                PaceStep::Failed
            },
            PaceStep::Start => if ok {
                PaceStep::Ready
            } else {
                PaceStep::Failed
            },
        }
    }
}

impl Pace {
    /// Nothing is up and no tick has come.
    pub fn init() -> (r: Pace)
        ensures
            r == (Pace { step: PaceStep::Find, ticks: 0 }),
    {
        Pace { step: PaceStep::Find, ticks: 0 }
    }

    /// Takes in how the current step went.
    pub fn advance(&mut self, ok: bool)
        ensures
            final(self).step == old(self).step.after(ok),
            final(self).ticks == old(self).ticks,
    {
        self.step = match self.step {
            PaceStep::Ready => PaceStep::Ready,
            PaceStep::Failed => PaceStep::Failed,
            PaceStep::Find => if ok {
                PaceStep::Open
            } else {
                PaceStep::Failed
            },
            PaceStep::Open => if ok {
                PaceStep::Attach
            } else {
                PaceStep::Failed
            },
            PaceStep::Attach => if ok {
                PaceStep::Start
            } else {
                PaceStep::Failed
            },
            PaceStep::Start => if ok {
                PaceStep::Ready
            } else {
                PaceStep::Failed
            },
        };
    }

    /// Counts one tick of the timer.
    pub fn on_tick(&mut self)
        ensures
            final(self).step == old(self).step,
            final(self).ticks == if old(self).ticks == u32::MAX {
                0
            } else {
                (old(self).ticks + 1) as u32
            },
    {
        self.ticks = self.ticks.wrapping_add(1);
    }

    pub fn is_ready(&self) -> (r: bool)
        ensures
            r == (self.step is Ready),
    {
        self.step == PaceStep::Ready
    }

    pub fn ticks(&self) -> (r: u32)
        ensures
            r == self.ticks,
    {
        self.ticks
    }
}

/// The timer paces the loop exactly when every step of bringing it up went well.
pub proof fn law_ready_needs_every_step(found: bool, opened: bool, attached: bool, started: bool)
    ensures
        PaceStep::Find.after(found).after(opened).after(attached).after(started) is Ready <==> found
            && opened && attached && started,
        !(found && opened && attached && started) ==> PaceStep::Find.after(found).after(
            opened,
        ).after(attached).after(started) is Failed,
{
}

} // verus!
