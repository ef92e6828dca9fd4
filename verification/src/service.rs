//! The request handler's compute part: a uniform draw over the store's
//! index range, an indexed lookup, and the response envelope around it.

use crate::respond::envelope_spec;
use crate::respond::response_body;
use crate::store::ReasonStore;
use rand::RngExt;
use vstd::prelude::*;

verus! {

/// Relies on rand's `RngExt::random_range` over `0..n` with the thread's
/// generator: the draw is uniform over the range, and the call panics only
/// on an empty range, which `n >= 1` rules out. Nothing more is promised
/// of the drawn value than its bound.
#[verifier::external_body]
fn random_index(n: usize) -> (r: usize)
    requires
        n >= 1,
    ensures
        r < n,
{
    rand::rng().random_range(0..n)
}

/// The response for the reason at a given index.
pub fn response_for(store: &ReasonStore, i: usize) -> (r: Vec<u8>)
    requires
        i < store@.len(),
    ensures
        r@ == envelope_spec(store@[i as int]),
{
    response_body(store.get(i))
}

/// One request served: the envelope around a uniformly drawn member of the
/// store. Whatever index the draw returns, the body is the envelope of a
/// reason that the store holds.
pub fn random_reason(store: &ReasonStore) -> (r: Vec<u8>)
    requires
        store.wf(),
    ensures
        exists|i: int| 0 <= i < store@.len() && r@ == envelope_spec(store@[i]),
{
    let i = random_index(store.len());
    let r = response_for(store, i);
    proof {
        assert(0 <= (i as int) && (i as int) < store@.len() && r@ == envelope_spec(
            store@[i as int],
        ));
    }
    r
}

/// The served reasons are the loaded ones: for every data file whose bytes
/// parse to an array of reasons, a store loaded from it has exactly the
/// array's length, and every response body that the handler can return is
/// the envelope of a member of that array. The two premises are what
/// [`crate::store::load_store`] ensures of a store it returns and what
/// [`random_reason`] ensures of a body it returns.
pub proof fn lemma_response_is_loaded_member(bytes: Seq<u8>, store: ReasonStore, body: Seq<u8>)
    requires
        crate::parse::parse_reasons_spec(bytes) == Some(store@),
        exists|i: int| 0 <= i < store@.len() && body == envelope_spec(store@[i]),
    ensures
        crate::parse::parse_reasons_spec(bytes) matches Some(v) ==> store@.len() == v.len()
            && exists|i: int| 0 <= i < v.len() && body == envelope_spec(v[i]),
{
    let i = choose|i: int| 0 <= i < store@.len() && body == envelope_spec(store@[i]);
    match crate::parse::parse_reasons_spec(bytes) {
        Some(v) => {
            assert(v == store@);
            assert(0 <= i < v.len() && body == envelope_spec(v[i]));
        },
        None => {},
    }
}

} // verus!
