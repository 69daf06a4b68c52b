//! Trusted boundary around the inline vector that holds variable bindings.
//!
//! A procedure scope usually declares only a handful of object-typed
//! variables, so the graph keeps each scope's `(variable, type)` symbol
//! pairs in a `smallvec::SmallVec` with inline capacity. Verus refuses a
//! declaration of `SmallVec` itself (its `Array` bound cannot be declared),
//! so the vector sits in a private field of an opaque struct, and the
//! wrappers below state what each call does over the abstract element
//! sequence `var_vec_elems`.

use vstd::prelude::*;

verus! {

/// Holds a `smallvec::SmallVec` of `(variable, type)` symbol pairs with an
/// inline capacity of four.
#[verifier::external_body]
pub struct VarVec {
    inner: smallvec::SmallVec<[(u32, u32); 4]>,
}

/// The pairs held by a binding vector, in insertion order.
pub uninterp spec fn var_vec_elems(v: VarVec) -> Seq<(u32, u32)>;

/// Relies on `SmallVec::new`: a fresh vector holds no elements.
#[verifier::external_body]
pub(crate) fn var_vec_new() -> (r: VarVec)
    ensures
        var_vec_elems(r) == Seq::<(u32, u32)>::empty(),
{
    VarVec { inner: smallvec::SmallVec::new() }
}

/// Relies on `SmallVec::push`: appends one element at the end. The length
/// bound leaves out the inputs on which the allocation could not grow.
#[verifier::external_body]
pub(crate) fn var_vec_push(v: &mut VarVec, elem: (u32, u32))
    requires
        var_vec_elems(*old(v)).len() < 0xFFFF_FFFF,
    ensures
        var_vec_elems(*final(v)) == var_vec_elems(*old(v)).push(elem),
{
    v.inner.push(elem);
}

/// Relies on `SmallVec::len`: the number of elements held.
#[verifier::external_body]
pub(crate) fn var_vec_len(v: &VarVec) -> (r: usize)
    ensures
        r == var_vec_elems(*v).len(),
{
    v.inner.len()
}

/// Relies on `SmallVec`'s indexing (through the slice it derefs to): the
/// element at a position below the length.
#[verifier::external_body]
pub(crate) fn var_vec_get(v: &VarVec, i: usize) -> (r: (u32, u32))
    requires
        i < var_vec_elems(*v).len(),
    ensures
        r == var_vec_elems(*v)[i as int],
{
    v.inner[i]
}

} // verus!
