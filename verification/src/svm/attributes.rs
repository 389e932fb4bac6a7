//! Reconstruction of one dense row from a sparse stream of attributes.
//!
//! A vector arrives as a stream of `(index, value)` pairs. The indices must
//! count up from zero without a gap: the pair at position `k` of the stream
//! must carry index `k`. Each accepted value is written to column `k` of the
//! row; columns behind the end of the stream keep what the row held before.

use crate::errors::{Error, NO_LAST_INDEX};
use crate::manyvectors::ManyVectors;
use vstd::prelude::*;

verus! {

/// Where the reconstruction of one row stands.
#[derive(Debug, Clone, Copy, PartialEq, Eq)]
pub enum AttributeState {
    /// Attributes are accepted. `last_index` is the index accepted last, or
    /// `None` before the first one; the index expected next is its
    /// successor, or zero.
    Expecting {
        /// The index accepted last.
        last_index: Option<u32>,
    },
    /// The stream has ended or an attribute was rejected: nothing more is
    /// accepted for this row.
    Done,
}

impl AttributeState {
    /// The index that the next attribute must carry, if one is accepted at
    /// all.
    pub open spec fn next_index(&self) -> Option<int> {
        match *self {
            AttributeState::Expecting { last_index: None } => Some(0),
            AttributeState::Expecting { last_index: Some(last) } => Some(last + 1),
            AttributeState::Done => None,
        }
    }

    /// What an [`Error::AttributesUnordered`] raised in this state reports as
    /// its `last_index`: the index accepted last, or [`NO_LAST_INDEX`].
    pub open spec fn reported_last_index(&self) -> u32 {
        match *self {
            AttributeState::Expecting { last_index: Some(last) } => last,
            _ => NO_LAST_INDEX,
        }
    }

    /// The state before the first attribute of a row: index zero is expected.
    pub fn new() -> (state: Self)
        ensures
            state == (AttributeState::Expecting { last_index: None }),
            state.next_index() == Some(0int),
    {
        AttributeState::Expecting { last_index: None }
    }

    /// Feeds one attribute of row `row`.
    ///
    /// If `index` is the expected one, `value` is written to that column of
    /// the row and the successor of `index` is expected next. Otherwise the
    /// attribute is rejected with [`Error::AttributesUnordered`], the store
    /// stays as it is, and the reconstruction of the row is over.
    pub fn accept<T: Copy>(
        &mut self,
        store: &mut ManyVectors<T>,
        row: usize,
        index: u32,
        value: T,
    ) -> (result: Result<(), Error<T>>)
        requires
            *old(self) is Expecting,
            old(store).wf(),
            row < old(store).vectors,
            old(self).next_index() == Some(index as int) ==> index < old(store).attributes,
        ensures
            final(store).wf(),
            final(store).vectors == old(store).vectors,
            final(store).attributes == old(store).attributes,
            result is Ok <==> old(self).next_index() == Some(index as int),
            result is Ok ==> *final(self) == (AttributeState::Expecting {
                last_index: Some(index),
            }) && final(store)@ == old(store)@.update(
                row as int,
                old(store)@[row as int].update(index as int, value),
            ),
            result is Err ==> *final(self) == AttributeState::Done && final(store)@ == old(store)@
                && result == Err::<(), Error<T>>(
                Error::AttributesUnordered {
                    index,
                    value,
                    last_index: old(self).reported_last_index(),
                },
            ),
    {
        let (expected, last_index) = match *self {
            AttributeState::Expecting { last_index: None } => (index == 0, NO_LAST_INDEX),
            AttributeState::Expecting { last_index: Some(last) } => (
                last < u32::MAX && index == last + 1,
                last,
            ),
            AttributeState::Done => (false, NO_LAST_INDEX),
        };
        if expected {
            store.set(row, index as usize, value);
            *self = AttributeState::Expecting { last_index: Some(index) };
            Ok(())
        } else {
            *self = AttributeState::Done;
            Err(Error::AttributesUnordered { index, value, last_index })
        }
    }

    /// The stream of the row has ended: nothing more is accepted.
    pub fn finish(&mut self)
        ensures
            *final(self) == AttributeState::Done,
    {
        *self = AttributeState::Done;
    }
}

/// The number of pairs at the start of `stream`, counted from position
/// `from`, that carry their own position as index: the position of the first
/// pair that does not, or the length of the stream.
pub open spec fn accepted_from<T>(stream: Seq<(u32, T)>, from: nat) -> nat
    decreases stream.len() - from,
{
    if from < stream.len() && stream[from as int].0 == from {
        accepted_from(stream, from + 1)
    } else {
        from
    }
}

/// The number of attributes of `stream` that are accepted before the stream
/// ends or an attribute is rejected.
pub open spec fn accepted_count<T>(stream: Seq<(u32, T)>) -> nat {
    accepted_from(stream, 0)
}

/// The row `before` after the first `count` values of `stream` were written
/// to its first `count` columns.
pub open spec fn dense_row<T>(before: Seq<T>, stream: Seq<(u32, T)>, count: nat) -> Seq<T> {
    Seq::new(
        before.len(),
        |j: int|
            if j < count {
                stream[j].1
            } else {
                before[j]
            },
    )
}

/// What the count of accepted attributes means: every pair before it is in
/// order, and the pair at it, if there is one, is not.
pub proof fn lemma_accepted_from<T>(stream: Seq<(u32, T)>, from: nat)
    requires
        from <= stream.len(),
    ensures
        from <= accepted_from(stream, from) <= stream.len(),
        forall|k: int| from <= k < accepted_from(stream, from) ==> (#[trigger] stream[k]).0 == k,
        accepted_from(stream, from) < stream.len() ==> stream[accepted_from(stream, from) as int].0
            != accepted_from(stream, from),
    decreases stream.len() - from,
{
    if from < stream.len() && stream[from as int].0 == from {
        lemma_accepted_from(stream, from + 1);
    }
}

/// A stream is accepted whole exactly when every pair carries its position
/// as index; otherwise the count of accepted attributes is the position of
/// the first pair that does not.
pub proof fn lemma_accepted_count<T>(stream: Seq<(u32, T)>)
    ensures
        accepted_count(stream) <= stream.len(),
        forall|k: int| 0 <= k < accepted_count(stream) ==> (#[trigger] stream[k]).0 == k,
        accepted_count(stream) < stream.len() ==> stream[accepted_count(stream) as int].0
            != accepted_count(stream),
        accepted_count(stream) == stream.len() <==> forall|k: int|
            0 <= k < stream.len() ==> (#[trigger] stream[k]).0 == k,
{
    lemma_accepted_from(stream, 0);
}

/// Reconstructs row `row` of `store` from the sparse `stream`.
///
/// The attributes are fed in order until the stream ends or one is rejected.
/// The values accepted up to then stand in the first columns of the row; the
/// other columns, and all other rows, keep their cells.
pub fn reconstruct_row<T: Copy>(store: &mut ManyVectors<T>, row: usize, stream: &[(u32, T)]) -> (result:
    Result<(), Error<T>>)
    requires
        old(store).wf(),
        row < old(store).vectors,
        accepted_count(stream@) <= old(store).attributes,
    ensures
        final(store).wf(),
        final(store).vectors == old(store).vectors,
        final(store).attributes == old(store).attributes,
        final(store)@ == old(store)@.update(
            row as int,
            dense_row(old(store)@[row as int], stream@, accepted_count(stream@)),
        ),
        result is Ok <==> accepted_count(stream@) == stream@.len(),
        result is Ok <==> forall|k: int| 0 <= k < stream@.len() ==> (#[trigger] stream@[k]).0 == k,
        accepted_count(stream@) < stream@.len() ==> result == Err::<(), Error<T>>(
            Error::AttributesUnordered {
                index: stream@[accepted_count(stream@) as int].0,
                value: stream@[accepted_count(stream@) as int].1,
                last_index: if accepted_count(stream@) == 0 {
                    NO_LAST_INDEX
                } else {
                    (accepted_count(stream@) - 1) as u32
                },
            },
        ),
{
    proof {
        lemma_accepted_count(stream@);
        store.lemma_row_fits(row as int);
        assert(dense_row(store@[row as int], stream@, 0) =~= store@[row as int]);
        assert(store@ =~= store@.update(row as int, store@[row as int]));
    }
    let mut state = AttributeState::new();
    let mut position: usize = 0;
    while position < stream.len()
        invariant
            position <= stream@.len(),
            position <= accepted_count(stream@) <= old(store).attributes,
            accepted_count(stream@) == accepted_from(stream@, position as nat),
            state == (AttributeState::Expecting {
                last_index: if position == 0 {
                    None
                } else {
                    Some((position - 1) as u32)
                },
            }),
            position > 0 ==> position - 1 <= u32::MAX,
            store.wf(),
            row < store.vectors,
            store.vectors == old(store).vectors,
            store.attributes == old(store).attributes,
            old(store)@[row as int].len() == old(store).attributes,
            store@ == old(store)@.update(
                row as int,
                dense_row(old(store)@[row as int], stream@, position as nat),
            ),
        decreases stream@.len() - position,
    {
        let (index, value) = stream[position];
        let ghost before = store@;
        proof {
            if index == position {
                lemma_accepted_from(stream@, (position + 1) as nat);
            }
        }
        match state.accept(store, row, index, value) {
            Ok(()) => {
                proof {
                    assert(before[row as int].update(index as int, value) =~= dense_row(
                        old(store)@[row as int],
                        stream@,
                        (position + 1) as nat,
                    ));
                }
                position = position + 1;
            },
            Err(error) => {
                return Err(error);
            },
        }
    }
    state.finish();
    Ok(())
}

} // verus!
