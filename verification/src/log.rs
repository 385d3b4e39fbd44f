//! Log variants and the types around them that reversible systems use.
use vstd::prelude::*;

pub mod dense_state;
pub mod dense_states;
pub mod dense_transition;
pub mod dense_transitions;
pub(crate) mod deque;
pub mod frame_state;
pub mod frame_transition;
pub mod framed_state;
pub mod init_none;
pub mod initially_none_state;
pub mod log_mut;
pub mod logged_at;
pub mod offset_code;
pub mod packed_int;
pub mod packed_uint;
pub mod past_len;
pub mod rare_state;
pub mod rare_states;
pub mod rare_transition;
pub mod rare_transitions;
pub mod rare_value;
pub mod rare_values;
pub mod sparse_state;

pub use dense_state::{DenseStateLog, StateTimeline};
pub use dense_states::DenseStatesLog;
pub use dense_transition::{DenseTransitionLog, TransitionTimeline};
pub use dense_transitions::DenseTransitionsLog;
pub use frame_state::FrameStateLog;
pub use frame_transition::{FrameTransitionLog, IterItem, MissedFrame, OffsetIter};
pub use framed_state::{FramedStateLog, ValueLoggedAt};
pub use init_none::InitNoneLog;
pub use initially_none_state::InitiallyNoneStateLog;
pub use log_mut::LogMut;
pub use logged_at::{LoggedAt, PackedRevFrame};
pub use past_len::limits::{PastLenLimits, PastLenState, PreUpdateVariant};
pub use past_len::PastLenLog;
pub use packed_int::{PackedI16, PackedI24, PackedI32, PackedI40, PackedI48, PackedI56, PackedI64, ToPackedErr};
pub use packed_uint::{PackedU16, PackedU24, PackedU32, PackedU40, PackedU48, PackedU56, PackedUSize};
pub use rare_state::{RareStateLog, RareStateView, RareValue};
pub use rare_states::RareStatesLog;
pub use rare_transition::{RareTransitionLog, RareTransitionView};
pub use rare_transitions::RareTransitionsLog;
pub use rare_value::RareValueLog;
pub use rare_values::RareValuesLog;
pub use sparse_state::SparseStateLog;

verus! {

/// Returned by the traversing methods of a log that already stands at the end of its log in
/// the direction of the traversal.
#[derive(Clone, Copy, Debug, PartialEq, Eq, Structural)]
pub struct OutOfLog;

/// What a log has to do before it is updated at a frame that does not follow its previous
/// update.
#[derive(Clone, Copy, Debug, PartialEq, Eq, Structural)]
pub enum PreLogUpdate {
    /// The log is out of the log range and is cleared.
    Clear,
    /// The log continues from a frame in its log and drops its future.
    TruncateOrDrainFuture,
    /// The log continues from its present.
    Nothing,
}

/// Returned when more values are pushed at once than a log's amount bytes can count.
#[derive(Clone, Copy, Debug, PartialEq, Eq, Structural)]
pub struct AmountOverflow;

/// Values that were taken out of a log together with the entry they were pushed with.
#[derive(Clone, Debug, PartialEq, Eq)]
pub struct ValueEntry<T, U> {
    pub value: T,
    pub entry: U,
}

/// The largest amount of values that `AMOUNT_BYTES` bytes can count, and at most `usize::MAX`;
/// `0` bytes stand for a full `usize`.
pub open spec fn amount_max(amount_bytes: usize) -> usize {
    if amount_bytes == 0 || amount_bytes >= 8 || amount_bytes * 8 >= usize::BITS {
        usize::MAX
    } else {
        (usize::MAX >> (usize::BITS - amount_bytes * 8) as u32) as usize
    }
}

/// Computes `amount_max`.
pub fn max_amount_for(amount_bytes: usize) -> (max: usize)
    ensures
        max == amount_max(amount_bytes),
{
    if amount_bytes == 0 || amount_bytes >= 8 || (amount_bytes * 8) as u32 >= usize::BITS {
        usize::MAX
    } else {
        usize::MAX >> (usize::BITS - (amount_bytes * 8) as u32)
    }
}

/// The entry pushed along a group of values, with the amount of values.
#[derive(Clone, Debug)]
pub struct EntryAmount<U, const AMOUNT_BYTES: usize> {
    pub entry: U,
    amount: usize,
}

impl<U, const AMOUNT_BYTES: usize> EntryAmount<U, AMOUNT_BYTES> {
    /// The amount of values pushed along the entry.
    pub closed spec fn spec_amount(&self) -> usize {
        self.amount
    }

    /// The entry.
    pub closed spec fn spec_entry(&self) -> U {
        self.entry
    }

    /// The entry amount with the given entry and amount.
    pub closed spec fn spec_new(entry: U, amount: usize) -> Self {
        EntryAmount { entry, amount }
    }

    pub broadcast proof fn lemma_spec_new(entry: U, amount: usize)
        ensures
            (#[trigger] Self::spec_new(entry, amount)).spec_entry() == entry,
            Self::spec_new(entry, amount).spec_amount() == amount,
    {
    }

    /// An entry amount is given by its entry and amount.
    pub broadcast proof fn lemma_ext(a: Self, b: Self)
        requires
            #[trigger] a.spec_entry() == #[trigger] b.spec_entry(),
            a.spec_amount() == b.spec_amount(),
        ensures
            a == b,
    {
    }

    pub fn entry(&self) -> (entry: &U)
        ensures
            *entry == self.spec_entry(),
    {
        &self.entry
    }

    pub fn into_entry(self) -> (entry: U)
        ensures
            entry == self.spec_entry(),
    {
        self.entry
    }

    pub fn new(entry: U, amount: usize) -> (r: Self)
        ensures
            r == Self::spec_new(entry, amount),
            r.spec_entry() == entry,
            r.spec_amount() == amount,
    {
        EntryAmount { entry, amount }
    }

    /// An entry with no values.
    pub fn zero(entry: U) -> (r: Self)
        ensures
            r == Self::spec_new(entry, 0),
            r.spec_entry() == entry,
            r.spec_amount() == 0,
    {
        EntryAmount { entry, amount: 0 }
    }

    pub fn amount(&self) -> (amount: usize)
        ensures
            amount == self.spec_amount(),
    {
        self.amount
    }

    /// Whether the amount fits into `AMOUNT_BYTES` bytes.
    pub fn fits(&self) -> (fits: bool)
        ensures
            fits == (self.spec_amount() <= amount_max(AMOUNT_BYTES)),
    {
        self.amount <= max_amount_for(AMOUNT_BYTES)
    }
}

/// The sum of the amounts of a sequence of entries.
pub open spec fn amount_sum<U, const N: usize>(entries: Seq<EntryAmount<U, N>>) -> int
    decreases entries.len(),
{
    if entries.len() == 0 {
        0
    } else {
        amount_sum(entries.drop_last()) + entries.last().spec_amount()
    }
}

pub proof fn lemma_amount_sum_append<U, const N: usize>(a: Seq<EntryAmount<U, N>>, b: Seq<EntryAmount<U, N>>)
    ensures
        amount_sum(a + b) == amount_sum(a) + amount_sum(b),
    decreases b.len(),
{
    if b.len() == 0 {
        assert(a + b =~= a);
    } else {
        lemma_amount_sum_append(a, b.drop_last());
        assert((a + b).drop_last() =~= a + b.drop_last());
    }
}

pub proof fn lemma_amount_sum_nonneg<U, const N: usize>(a: Seq<EntryAmount<U, N>>)
    ensures
        amount_sum(a) >= 0,
    decreases a.len(),
{
    if a.len() > 0 {
        lemma_amount_sum_nonneg(a.drop_last());
    }
}

pub proof fn lemma_amount_sum_split<U, const N: usize>(a: Seq<EntryAmount<U, N>>, m: int)
    requires
        0 <= m <= a.len(),
    ensures
        amount_sum(a) == amount_sum(a.take(m)) + amount_sum(a.skip(m)),
        amount_sum(a.take(m)) >= 0,
        amount_sum(a.skip(m)) >= 0,
{
    assert(a =~= a.take(m) + a.skip(m));
    lemma_amount_sum_append(a.take(m), a.skip(m));
    lemma_amount_sum_nonneg(a.take(m));
    lemma_amount_sum_nonneg(a.skip(m));
}

pub proof fn lemma_amount_sum_single<U, const N: usize>(e: EntryAmount<U, N>)
    ensures
        amount_sum(seq![e]) == e.spec_amount(),
{
    reveal_with_fuel(amount_sum, 2);
    assert(seq![e].drop_last() =~= Seq::<EntryAmount<U, N>>::empty());
}

pub proof fn lemma_amount_sum_first<U, const N: usize>(a: Seq<EntryAmount<U, N>>)
    requires
        a.len() > 0,
    ensures
        amount_sum(a) == a[0].spec_amount() + amount_sum(a.drop_first()),
{
    lemma_amount_sum_split(a, 1);
    assert(a.take(1) =~= seq![a[0]]);
    assert(a.skip(1) =~= a.drop_first());
    lemma_amount_sum_single(a[0]);
}

/// Returned when more values were pushed at once than the log's amount bytes can count; holds
/// the values and the entry that were not logged.
#[derive(Clone, Debug)]
pub struct AmountErr<I, U, const AMOUNT_BYTES: usize> {
    pub values: I,
    pub entry_amount: EntryAmount<U, AMOUNT_BYTES>,
}

impl<I, U, const AMOUNT_BYTES: usize> AmountErr<I, U, AMOUNT_BYTES> {
    /// The largest amount that the log can count per push.
    pub fn max_amount(&self) -> (max: usize)
        ensures
            max == amount_max(AMOUNT_BYTES),
    {
        max_amount_for(AMOUNT_BYTES)
    }
}

} // verus!
