//! The immutable reason store: an ordered sequence of reasons — each a
//! non-empty string, held as UTF-8 bytes — fixed at load time, with at
//! least one entry.

use crate::parse::parse_reasons;
use crate::parse::parse_reasons_spec;
use crate::parse::views_of;
use vstd::prelude::*;

verus! {

/// Why startup must not go on: the data file is not a JSON array of
/// strings, it is one with no entries, or one of its entries is the
/// empty string, which is no reason at all.
#[derive(Clone, Copy, Debug, PartialEq, Eq, Structural)]
pub enum LoadError {
    Malformed,
    Empty,
    EmptyReason,
}

/// Every listed reason holds at least one byte.
pub open spec fn all_nonempty(v: Seq<Seq<u8>>) -> bool {
    forall|i: int| 0 <= i < v.len() ==> v[i].len() >= 1
}

/// The in-memory store of reasons. Its invariant — at least one entry,
/// each a non-empty string — is established by [`ReasonStore::new`] and
/// holds for every value that callers can obtain, since the field is
/// private.
#[derive(Clone)]
pub struct ReasonStore {
    reasons: Vec<Vec<u8>>,
}

impl View for ReasonStore {
    type V = Seq<Seq<u8>>;

    closed spec fn view(&self) -> Seq<Seq<u8>> {
        views_of(self.reasons@)
    }
}

impl ReasonStore {
    /// A store is well formed when it holds at least one reason, so that
    /// a uniform draw over its index range is always possible, and each
    /// of its reasons is non-empty text.
    pub open spec fn wf(&self) -> bool {
        self@.len() >= 1 && all_nonempty(self@)
    }

    /// Builds a store from the loaded reasons, rejecting an empty list
    /// and any empty entry.
    pub fn new(reasons: Vec<Vec<u8>>) -> (r: Result<ReasonStore, LoadError>)
        ensures
            r == Err::<ReasonStore, LoadError>(LoadError::Empty) <==> reasons@.len() == 0,
            r == Err::<ReasonStore, LoadError>(LoadError::EmptyReason) <==> (reasons@.len() >= 1
                && !all_nonempty(views_of(reasons@))),
            r matches Ok(s) ==> s@ == views_of(reasons@) && s.wf(),
            (reasons@.len() >= 1 && all_nonempty(views_of(reasons@))) ==> r is Ok,
    {
        if reasons.len() == 0 {
            return Err(LoadError::Empty);
        }
        let mut i: usize = 0;
        while i < reasons.len()
            invariant
                i <= reasons@.len(),
                forall|j: int| 0 <= j < i ==> reasons@[j]@.len() >= 1,
            decreases reasons@.len() - i,
        {
            if reasons[i].len() == 0 {
                proof {
                    assert(views_of(reasons@)[i as int].len() == 0);
                }
                return Err(LoadError::EmptyReason);
            }
            i += 1;
        }
        proof {
            assert forall|j: int| 0 <= j < views_of(reasons@).len() implies views_of(
                reasons@,
            )[j].len() >= 1 by {
                assert(views_of(reasons@)[j] == reasons@[j]@);
            }
        }
        Ok(ReasonStore { reasons })
    }

    /// The number of reasons in the store.
    pub fn len(&self) -> (n: usize)
        ensures
            n == self@.len(),
    {
        self.reasons.len()
    }

    /// Indexed lookup of one reason.
    pub fn get(&self, i: usize) -> (r: &Vec<u8>)
        requires
            i < self@.len(),
        ensures
            r@ == self@[i as int],
    {
        &self.reasons[i]
    }
}

/// The loader's compute part: parses the raw bytes of the data file and
/// builds the store. `Malformed` exactly when the bytes are not a JSON
/// array of strings; `Empty` exactly when they are one with no entries;
/// `EmptyReason` exactly when an entry is the empty string; otherwise the
/// store holds exactly the parsed reasons, in order.
pub fn load_store(bytes: &Vec<u8>) -> (r: Result<ReasonStore, LoadError>)
    ensures
        r == Err::<ReasonStore, LoadError>(LoadError::Malformed) <==> parse_reasons_spec(bytes@)
            is None,
        r == Err::<ReasonStore, LoadError>(LoadError::Empty) <==> (parse_reasons_spec(bytes@)
            matches Some(v) && v.len() == 0),
        r == Err::<ReasonStore, LoadError>(LoadError::EmptyReason) <==> (parse_reasons_spec(bytes@)
            matches Some(v) && v.len() >= 1 && !all_nonempty(v)),
        r matches Ok(store) ==> parse_reasons_spec(bytes@) == Some(store@) && store.wf(),
        (parse_reasons_spec(bytes@) matches Some(v) && v.len() >= 1 && all_nonempty(v)) ==> r
            is Ok,
{
    match parse_reasons(bytes) {
        None => Err(LoadError::Malformed),
        Some(v) => ReasonStore::new(v),
    }
}

} // verus!
