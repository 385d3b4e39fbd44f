//! A state log that starts without a state and hands out its inner log once it has one.
use vstd::prelude::*;

use super::dense_state::{DenseStateLog, StateTimeline};
use super::OutOfLog;

verus! {

#[derive(Debug, Clone)]
enum Sealed<T> {
    /// Nothing was pushed yet; the capacity is for the first log.
    NeverRan { capacity: usize },
    /// The log, and whether its first push was undone.
    Ran { log: DenseStateLog<T>, undone_first_run: bool },
}

/// A state log that holds no state before its first push, and again after that push is
/// undone.
#[derive(Debug, Clone)]
pub struct InitiallyNoneStateLog<T>(Sealed<T>);

impl<T> InitiallyNoneStateLog<T> {
    /// The inner log, or `None` before the first push.
    pub closed spec fn log(&self) -> Option<DenseStateLog<T>> {
        match self.0 {
            Sealed::NeverRan { .. } => None,
            Sealed::Ran { log, .. } => Some(log),
        }
    }

    /// Whether the first push was undone.
    pub closed spec fn undone_first_run(&self) -> bool {
        match self.0 {
            Sealed::NeverRan { .. } => false,
            Sealed::Ran { undone_first_run, .. } => undone_first_run,
        }
    }

    /// The capacity kept for the first log, while nothing was pushed yet.
    pub closed spec fn pending_capacity(&self) -> Option<usize> {
        match self.0 {
            Sealed::NeverRan { capacity } => Some(capacity),
            Sealed::Ran { .. } => None,
        }
    }

    /// The inner log is well formed.
    pub open spec fn wf(&self) -> bool {
        self.log() is Some ==> self.log()->Some_0.wf()
    }

    /// Whether the log holds a state.
    pub open spec fn has_state(&self) -> bool {
        self.log() is Some && !self.undone_first_run()
    }

    pub fn new() -> (log: Self)
        ensures
            log.log() is None,
            log.pending_capacity() == Some(0usize),
    {
        Self::with_capacity(0)
    }

    pub fn with_capacity(capacity: usize) -> (log: Self)
        ensures
            log.log() is None,
            log.pending_capacity() == Some(capacity),
    {
        InitiallyNoneStateLog(Sealed::NeverRan { capacity })
    }

    /// The present state, if the log holds one.
    pub fn get(&self) -> (present: Option<&T>)
        ensures
            present is Some <==> self.has_state(),
            present is Some ==> *present->Some_0 == self.log()->Some_0.timeline().present,
    {
        match &self.0 {
            Sealed::Ran { log, undone_first_run } => {
                if *undone_first_run {
                    None
                } else {
                    Some(log.get())
                }
            },
            Sealed::NeverRan { .. } => None,
        }
    }

    /// The present state to change without logging, if the log holds one.
    pub fn unlogged_get_mut(&mut self) -> (present: Option<&mut T>)
        requires
            old(self).wf(),
        ensures
            present is Some <==> old(self).has_state(),
            present is None ==> *final(self) == *old(self),
            present is Some ==> ({
                let p = present->Some_0;
                let t = old(self).log()->Some_0.timeline();
                &&& *p == t.present
                &&& final(self).log() is Some
                &&& final(self).log()->Some_0.wf()
                &&& final(self).log()->Some_0.timeline() == (StateTimeline { present: *final(p), ..t })
                &&& final(self).undone_first_run() == old(self).undone_first_run()
            }),
    {
        match &mut self.0 {
            Sealed::Ran { log, undone_first_run } => {
                if *undone_first_run {
                    None
                } else {
                    Some(log.present_mut())
                }
            },
            Sealed::NeverRan { .. } => None,
        }
    }

    /// The inner log, if the log holds a state.
    pub fn get_log(&self) -> (log: Option<&DenseStateLog<T>>)
        ensures
            log is Some <==> self.has_state(),
            log is Some ==> *log->Some_0 == self.log()->Some_0,
    {
        match &self.0 {
            Sealed::Ran { log, undone_first_run } => {
                if *undone_first_run {
                    None
                } else {
                    Some(log)
                }
            },
            Sealed::NeverRan { .. } => None,
        }
    }

    /// The inner log, also when its first push was undone.
    pub fn get_log_unchecked(&self) -> (log: Option<&DenseStateLog<T>>)
        ensures
            log is Some <==> self.log() is Some,
            log is Some ==> *log->Some_0 == self.log()->Some_0,
    {
        match &self.0 {
            Sealed::Ran { log, .. } => Some(log),
            Sealed::NeverRan { .. } => None,
        }
    }

    /// The inner log to change, if the log holds a state.
    pub fn get_log_mut(&mut self) -> (log: Option<&mut DenseStateLog<T>>)
        ensures
            log is Some <==> old(self).has_state(),
            log is None ==> *final(self) == *old(self),
            log is Some ==> *log->Some_0 == old(self).log()->Some_0
                && final(self).log() == Some(*final(log->Some_0))
                && final(self).undone_first_run() == old(self).undone_first_run(),
    {
        match &mut self.0 {
            Sealed::Ran { log, undone_first_run } => {
                if *undone_first_run {
                    None
                } else {
                    Some(log)
                }
            },
            Sealed::NeverRan { .. } => None,
        }
    }

    /// The inner log to change, also when its first push was undone.
    pub fn get_log_mut_unchecked(&mut self) -> (log: Option<&mut DenseStateLog<T>>)
        ensures
            log is Some <==> old(self).log() is Some,
            log is None ==> *final(self) == *old(self),
            log is Some ==> *log->Some_0 == old(self).log()->Some_0
                && final(self).log() == Some(*final(log->Some_0))
                && final(self).undone_first_run() == old(self).undone_first_run(),
    {
        match &mut self.0 {
            Sealed::Ran { log, .. } => Some(log),
            Sealed::NeverRan { .. } => None,
        }
    }

    /// Pushes `state` and hands out the inner log; the first push, or one after the first
    /// push was undone, starts the log from `state`.
    pub fn push_present(&mut self, state: T) -> (log: &mut DenseStateLog<T>)
        requires
            old(self).wf(),
        ensures
            log.wf(),
            old(self).has_state() ==> log.timeline() == old(self).log()->Some_0.timeline().push(state),
            !old(self).has_state() ==> log.timeline() == StateTimeline::only(state),
            final(self).log() == Some(*final(log)),
            !final(self).undone_first_run(),
    {
        let capacity = match &self.0 {
            Sealed::NeverRan { capacity } => Some(*capacity),
            Sealed::Ran { .. } => None,
        };
        match capacity {
            Some(capacity) => {
                self.0 = Sealed::Ran { log: DenseStateLog::with_capacity(state, capacity), undone_first_run: false };
            },
            None => {
                match &mut self.0 {
                    Sealed::Ran { log, undone_first_run } => {
                        if *undone_first_run {
                            log.clear_with(state);
                            *undone_first_run = false;
                        } else {
                            log.push(state);
                        }
                    },
                    Sealed::NeverRan { .. } => {},
                }
            },
        }
        match &mut self.0 {
            Sealed::Ran { log, .. } => log,
            Sealed::NeverRan { .. } => vstd::pervasive::unreached(),
        }
    }

    /// Steps one state forward and hands out the inner log; after the first push was undone it
    /// gives the log its state back. Fails when there is nothing to step forward to.
    pub fn forward_log(&mut self) -> (r: Result<&mut DenseStateLog<T>, OutOfLog>)
        requires
            old(self).wf(),
        ensures
            old(self).log() is None ==> r is Err && *final(self) == *old(self),
            old(self).log() is Some && old(self).undone_first_run() ==> r is Ok
                && *r->Ok_0 == old(self).log()->Some_0
                && final(self).log() == Some(*final(r->Ok_0)) && !final(self).undone_first_run(),
            old(self).has_state() ==> ({
                let t = old(self).log()->Some_0.timeline();
                &&& r is Err <==> t.future.len() == 0
                &&& r is Err ==> final(self).log() is Some && final(self).log()->Some_0.wf()
                    && final(self).log()->Some_0.timeline() == t && !final(self).undone_first_run()
                &&& r is Ok ==> r->Ok_0.wf() && r->Ok_0.timeline() == t.forward()
                    && final(self).log() == Some(*final(r->Ok_0)) && !final(self).undone_first_run()
            }),
    {
        match &mut self.0 {
            Sealed::Ran { log, undone_first_run } => {
                if *undone_first_run {
                    *undone_first_run = false;
                    Ok(log)
                } else {
                    match log.forward_log() {
                        Ok(()) => Ok(log),
                        Err(e) => Err(e),
                    }
                }
            },
            Sealed::NeverRan { .. } => Err(OutOfLog),
        }
    }

    /// Steps one state back and hands out the inner log; a step back from the first pushed
    /// state undoes the first push. Fails when the log holds no state.
    pub fn backward_log(&mut self) -> (r: Result<&mut DenseStateLog<T>, OutOfLog>)
        requires
            old(self).wf(),
        ensures
            !old(self).has_state() ==> r is Err && *final(self) == *old(self),
            old(self).has_state() ==> r is Ok && ({
                let t = old(self).log()->Some_0.timeline();
                &&& r->Ok_0.wf()
                &&& final(self).log() == Some(*final(r->Ok_0))
                &&& t.past.len() > 0 ==> r->Ok_0.timeline() == t.backward() && !final(self).undone_first_run()
                &&& t.past.len() == 0 ==> r->Ok_0.timeline() == t && final(self).undone_first_run()
            }),
    {
        match &mut self.0 {
            Sealed::Ran { log, undone_first_run } => {
                if *undone_first_run {
                    Err(OutOfLog)
                } else {
                    let stepped = log.backward_log();
                    *undone_first_run = stepped.is_err();
                    Ok(log)
                }
            },
            Sealed::NeverRan { .. } => Err(OutOfLog),
        }
    }

    /// Removes the past and future states and marks the first push as undone, so that the
    /// log holds no state until it steps forward or is pushed to.
    pub fn clear(&mut self)
        requires
            old(self).wf(),
        ensures
            final(self).wf(),
            old(self).log() is None ==> *final(self) == *old(self),
            old(self).log() is Some ==> final(self).log() is Some
                && final(self).log()->Some_0.timeline() == StateTimeline::only(old(self).log()->Some_0.timeline().present)
                && final(self).undone_first_run(),
    {
        match &mut self.0 {
            Sealed::Ran { log, undone_first_run } => {
                log.clear();
                *undone_first_run = true;
            },
            Sealed::NeverRan { .. } => {},
        }
    }

    /// Removes all states, makes `present` the present state and marks the first push as
    /// undone.
    pub fn clear_with(&mut self, present: T)
        requires
            old(self).wf(),
        ensures
            final(self).wf(),
            final(self).log() is Some,
            final(self).log()->Some_0.timeline() == StateTimeline::only(present),
            final(self).undone_first_run(),
    {
        let capacity = match &self.0 {
            Sealed::NeverRan { capacity } => Some(*capacity),
            Sealed::Ran { .. } => None,
        };
        match capacity {
            Some(capacity) => {
                self.0 = Sealed::Ran { log: DenseStateLog::with_capacity(present, capacity), undone_first_run: true };
            },
            None => {
                match &mut self.0 {
                    Sealed::Ran { log, undone_first_run } => {
                        log.clear_with(present);
                        *undone_first_run = true;
                    },
                    Sealed::NeverRan { .. } => {},
                }
            },
        }
    }
}

} // verus!
