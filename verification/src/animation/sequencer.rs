//! The stepping of an animation sequence. How long each step lasts and how
//! far it has run are timings kept by the presentation layer; the sequence
//! logic here decides, from whether the running step has used up its time,
//! which step runs and what is reported.
use vstd::prelude::*;

verus! {

#[derive(Debug, Clone, Copy, PartialEq, Eq, Structural)]
pub enum AnimationEvent {
    StepCompleted(usize),
    StepInProgress(usize),
}

/// Where a sequence of steps stands: how many steps it has, which one runs,
/// and whether it runs.
pub struct SequenceCursor {
    step_count: usize,
    current_step: usize,
    running: bool,
}

impl SequenceCursor {
    pub closed spec fn steps(&self) -> nat {
        self.step_count as nat
    }

    pub closed spec fn current(&self) -> nat {
        self.current_step as nat
    }

    pub closed spec fn runs(&self) -> bool {
        self.running
    }

    /// A sequence without steps, not running.
    pub fn new() -> (c: Self)
        ensures
            c.steps() == 0,
            c.current() == 0,
            !c.runs(),
    {
        Self { step_count: 0, current_step: 0, running: false }
    }

    /// Appends a step at the end.
    pub fn add_step(&mut self)
        requires
            old(self).steps() < usize::MAX,
        ensures
            final(self).steps() == old(self).steps() + 1,
            final(self).current() == old(self).current(),
            final(self).runs() == old(self).runs(),
    {
        self.step_count = self.step_count + 1;
    }

    /// Runs the sequence from its first step.
    pub fn start(&mut self)
        ensures
            final(self).steps() == old(self).steps(),
            final(self).current() == 0,
            final(self).runs(),
    {
        self.current_step = 0;
        self.running = true;
    }

    /// The first half of an update: the running step, or `None` when the
    /// sequence is stopped or past its last step, in which case it stops.
    pub fn begin_update(&mut self) -> (r: Option<usize>)
        ensures
            final(self).steps() == old(self).steps(),
            final(self).current() == old(self).current(),
            old(self).runs() && old(self).current() < old(self).steps() ==> {
                &&& r == Some(old(self).current() as usize)
                &&& final(self).runs()
            },
            !(old(self).runs() && old(self).current() < old(self).steps()) ==> {
                &&& r is None
                &&& !final(self).runs()
            },
    {
        if !self.running || self.current_step >= self.step_count {
            self.running = false;
            return None;
        }
        Some(self.current_step)
    }

    /// The second half of an update, after `begin_update` gave the running
    /// step: when that step has used up its time, the next one runs (the
    /// sequence stops after the last) and the step is reported completed;
    /// otherwise it is reported in progress.
    pub fn finish_update(&mut self, step_done: bool) -> (e: AnimationEvent)
        requires
            old(self).runs(),
            old(self).current() < old(self).steps(),
        ensures
            final(self).steps() == old(self).steps(),
            step_done ==> {
                &&& e == AnimationEvent::StepCompleted(old(self).current() as usize)
                &&& final(self).current() == old(self).current() + 1
                &&& final(self).runs() == (old(self).current() + 1 < old(self).steps())
            },
            !step_done ==> {
                &&& e == AnimationEvent::StepInProgress(old(self).current() as usize)
                &&& final(self).current() == old(self).current()
                &&& final(self).runs()
            },
    {
        if step_done {
            let completed = self.current_step;
            self.current_step = self.current_step + 1;
            if self.current_step >= self.step_count {
                self.running = false;
            }
            return AnimationEvent::StepCompleted(completed);
        }
        AnimationEvent::StepInProgress(self.current_step)
    }

    /// Stopped and past its last step.
    pub fn is_finished(&self) -> (b: bool)
        ensures
            b == (!self.runs() && self.current() >= self.steps()),
    {
        !self.running && self.current_step >= self.step_count
    }

    pub fn is_running(&self) -> (b: bool)
        ensures
            b == self.runs(),
    {
        self.running
    }

    /// The number of steps.
    pub fn len(&self) -> (n: usize)
        ensures
            n == self.steps(),
    {
        self.step_count
    }
}


impl Default for SequenceCursor {
    fn default() -> (c: Self)
        ensures
            c.steps() == 0,
            c.current() == 0,
            !c.runs(),
    {
        Self::new()
    }
}

} // verus!
