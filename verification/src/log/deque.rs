//! Operations on the deques that back every log: taking a front part off, splitting off the
//! future part, reaching or exchanging one entry in place, and the capacity management of
//! std's `VecDeque`.
use std::collections::{TryReserveError, VecDeque};
use vstd::prelude::*;

verus! {

/// Removes the first `n` entries of `deque` and returns them, in order.
pub(crate) fn drain_front<T>(deque: &mut VecDeque<T>, n: usize) -> (drained: VecDeque<T>)
    requires
        n <= old(deque)@.len(),
    ensures
        drained@ == old(deque)@.take(n as int),
        final(deque)@ == old(deque)@.skip(n as int),
{
    let rest = deque.split_off(n);
    let mut front = rest;
    std::mem::swap(deque, &mut front);
    proof {
        assert(front@ =~= old(deque)@.take(n as int));
        assert(deque@ =~= old(deque)@.skip(n as int));
    }
    front
}

/// Removes the entries of `deque` from `at` on and returns them, in order.
pub(crate) fn drain_from<T>(deque: &mut VecDeque<T>, at: usize) -> (drained: VecDeque<T>)
    requires
        at <= old(deque)@.len(),
    ensures
        drained@ == old(deque)@.skip(at as int),
        final(deque)@ == old(deque)@.take(at as int),
{
    let back = deque.split_off(at);
    proof {
        assert(back@ =~= old(deque)@.skip(at as int));
        assert(deque@ =~= old(deque)@.take(at as int));
    }
    back
}

/// Calls `VecDeque::get_mut` on an index in range, which std documents to give `Some` of the
/// entry at that index; what is written through it becomes that entry.
#[verifier::external_body]
fn get_mut_in_range<T>(deque: &mut VecDeque<T>, i: usize) -> (entry: Option<&mut T>)
    requires
        i < old(deque)@.len(),
    ensures
        entry is Some,
        *entry->Some_0 == old(deque)@[i as int],
        final(deque)@ == old(deque)@.update(i as int, *final(entry->Some_0)),
{
    deque.get_mut(i)
}

/// The entry at index `i` of `deque`, to change in place.
pub(crate) fn get_mut<T>(deque: &mut VecDeque<T>, i: usize) -> (entry: &mut T)
    requires
        i < old(deque)@.len(),
    ensures
        *entry == old(deque)@[i as int],
        final(deque)@ == old(deque)@.update(i as int, *final(entry)),
{
    match get_mut_in_range(deque, i) {
        Some(entry) => entry,
        None => vstd::pervasive::unreached(),
    }
}

/// Exchanges the entry at position `i` of `deque` with the value in `slot`.
pub(crate) fn swap_at<T>(deque: &mut VecDeque<T>, i: usize, slot: &mut T)
    requires
        i < old(deque)@.len(),
    ensures
        *final(slot) == old(deque)@[i as int],
        final(deque)@ == old(deque)@.update(i as int, *old(slot)),
{
    let removed = deque.remove(i);
    match removed {
        Some(entry) => {
            let mut entry = entry;
            std::mem::swap(slot, &mut entry);
            deque.insert(i, entry);
            proof {
                assert(deque@ =~= old(deque)@.update(i as int, *old(slot)));
            }
        },
        None => {
            proof {
                assert(false);
            }
        },
    }
}

/// Puts `value` into `slot` and returns what was there.
pub(crate) fn replace<T>(slot: &mut T, value: T) -> (previous: T)
    ensures
        previous == *old(slot),
        *final(slot) == value,
{
    let mut other = value;
    std::mem::swap(slot, &mut other);
    other
}

/// Calls `VecDeque::capacity`. std documents it as the number of elements the deque holds
/// without reallocating, so it is at least the deque's length; nothing more is stated, as the
/// allocator decides the rest.
#[verifier::external_body]
pub(crate) fn capacity<T>(deque: &VecDeque<T>) -> (c: usize)
    ensures
        c >= deque@.len(),
{
    deque.capacity()
}

/// Calls `VecDeque::reserve_exact`, which std documents to leave the elements unchanged and to
/// panic only when the new capacity overflows `usize`.
#[verifier::external_body]
pub(crate) fn reserve_exact<T>(deque: &mut VecDeque<T>, additional: usize)
    requires
        old(deque)@.len() + additional <= usize::MAX,
    ensures
        final(deque)@ == old(deque)@,
{
    deque.reserve_exact(additional)
}

/// Calls `VecDeque::try_reserve`, which std documents to leave the elements unchanged and to
/// return an error when the capacity it asks for, the length plus `additional`, overflows
/// `usize`. Otherwise success depends on the allocator, so nothing more is stated of the result.
#[verifier::external_body]
pub(crate) fn try_reserve<T>(deque: &mut VecDeque<T>, additional: usize) -> (r: Result<(), TryReserveError>)
    ensures
        final(deque)@ == old(deque)@,
        old(deque)@.len() + additional > usize::MAX ==> r is Err,
{
    deque.try_reserve(additional)
}

/// Calls `VecDeque::try_reserve_exact`, which std documents to leave the elements unchanged and
/// to return an error when the capacity it asks for, the length plus `additional`, overflows
/// `usize`. Otherwise success depends on the allocator, so nothing more is stated of the result.
#[verifier::external_body]
pub(crate) fn try_reserve_exact<T>(deque: &mut VecDeque<T>, additional: usize) -> (r: Result<(), TryReserveError>)
    ensures
        final(deque)@ == old(deque)@,
        old(deque)@.len() + additional > usize::MAX ==> r is Err,
{
    deque.try_reserve_exact(additional)
}

/// Calls `VecDeque::shrink_to`, which std documents to change only the capacity.
#[verifier::external_body]
pub(crate) fn shrink_to<T>(deque: &mut VecDeque<T>, min_capacity: usize)
    ensures
        final(deque)@ == old(deque)@,
{
    deque.shrink_to(min_capacity)
}

/// Calls `VecDeque::shrink_to_fit`, which std documents to change only the capacity.
#[verifier::external_body]
pub(crate) fn shrink_to_fit<T>(deque: &mut VecDeque<T>)
    ensures
        final(deque)@ == old(deque)@,
{
    deque.shrink_to_fit()
}

} // verus!
