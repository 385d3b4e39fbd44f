//! A handle to the values of a log push that only allows adding values.
use std::collections::{TryReserveError, VecDeque};
use vstd::prelude::*;

use super::deque;

verus! {

/// A `&mut VecDeque<T>` wrapper that only allows mutations that add to the deque.
pub struct LogMut<'a, T>(&'a mut VecDeque<T>);

impl<'a, T> LogMut<'a, T> {
    /// The values the deque holds.
    pub closed spec fn values(&self) -> Seq<T> {
        self.0@
    }

    /// The deque the handle adds to.
    pub closed spec fn deque(&self) -> &'a mut VecDeque<T> {
        self.0
    }

    /// Once the handle is no longer used, the deque ends up with the values the handle holds.
    pub proof fn lemma_done(&self)
        requires
            has_resolved(*self),
        ensures
            (*final(self.deque()))@ == self.values(),
    {
    }

    /// A handle to `deque`; what the handle holds when it is done with is what the deque holds.
    pub fn new(deque: &'a mut VecDeque<T>) -> (r: Self)
        ensures
            r.values() == old(deque)@,
            final(deque)@ == (*final(r.deque()))@,
    {
        LogMut(deque)
    }

    /// Moves all values of `other` to the back of the deque.
    pub fn append(&mut self, other: &mut VecDeque<T>)
        ensures
            final(self).values() == old(self).values() + old(other)@,
            final(other)@.len() == 0,
            *final(final(self).deque()) == *final(old(self).deque()),
    {
        self.0.append(other);
    }

    pub fn push_back(&mut self, value: T)
        ensures
            final(self).values() == old(self).values().push(value),
            *final(final(self).deque()) == *final(old(self).deque()),
    {
        self.0.push_back(value);
    }

    pub fn reserve(&mut self, additional: usize)
        ensures
            final(self).values() == old(self).values(),
            *final(final(self).deque()) == *final(old(self).deque()),
    {
        self.0.reserve(additional)
    }

    pub fn reserve_exact(&mut self, additional: usize)
        requires
            old(self).values().len() + additional <= usize::MAX,
        ensures
            final(self).values() == old(self).values(),
            *final(final(self).deque()) == *final(old(self).deque()),
    {
        deque::reserve_exact(self.0, additional)
    }

    pub fn try_reserve(&mut self, additional: usize) -> (r: Result<(), TryReserveError>)
        ensures
            final(self).values() == old(self).values(),
            old(self).values().len() + additional > usize::MAX ==> r is Err,
            *final(final(self).deque()) == *final(old(self).deque()),
    {
        deque::try_reserve(self.0, additional)
    }

    pub fn try_reserve_exact(&mut self, additional: usize) -> (r: Result<(), TryReserveError>)
        ensures
            final(self).values() == old(self).values(),
            old(self).values().len() + additional > usize::MAX ==> r is Err,
            *final(final(self).deque()) == *final(old(self).deque()),
    {
        deque::try_reserve_exact(self.0, additional)
    }

    pub fn shrink_to(&mut self, min_capacity: usize)
        ensures
            final(self).values() == old(self).values(),
            *final(final(self).deque()) == *final(old(self).deque()),
    {
        deque::shrink_to(self.0, min_capacity)
    }

    pub fn shrink_to_fit(&mut self)
        ensures
            final(self).values() == old(self).values(),
            *final(final(self).deque()) == *final(old(self).deque()),
    {
        deque::shrink_to_fit(self.0)
    }
}

} // verus!
