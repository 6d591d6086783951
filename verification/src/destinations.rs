//! Non-empty destination lists for blob restores, kept in the outside
//! `nonempty` collection; what such a list holds is named by `ne_seq`, and
//! each operation the library uses is stated over that name.

use vstd::prelude::*;

verus! {

#[verifier::external_type_specification]
#[verifier::external_body]
#[verifier::reject_recursive_types(T)]
pub struct ExNonEmpty<T>(nonempty::NonEmpty<T>);

/// The paths a non-empty destination list holds, in order.
pub uninterp spec fn ne_seq(ne: nonempty::NonEmpty<Vec<u8>>) -> Seq<Seq<u8>>;

/// Relies on `nonempty::NonEmpty::from_vec`: `Some` exactly when the vector
/// is non-empty, holding its elements in order.
#[verifier::external_body]
pub(crate) fn ne_from_vec(v: Vec<Vec<u8>>) -> (r: Option<nonempty::NonEmpty<Vec<u8>>>)
    ensures
        r is Some <==> v@.len() > 0,
        r is Some ==> ne_seq(r->0) == v@.map_values(|p: Vec<u8>| p@),
{
    nonempty::NonEmpty::from_vec(v)
}

/// Relies on `nonempty::NonEmpty`'s head and tail: the whole list as a plain
/// vector, in order, never empty.
#[verifier::external_body]
pub(crate) fn ne_to_vec(ne: nonempty::NonEmpty<Vec<u8>>) -> (r: Vec<Vec<u8>>)
    ensures
        r@.map_values(|p: Vec<u8>| p@) == ne_seq(ne),
        r@.len() == ne_seq(ne).len(),
        r@.len() >= 1,
{
    ne.into_iter().collect()
}

} // verus!
