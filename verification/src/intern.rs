//! Trusted boundary around the string interner.
//!
//! The call graph keeps every identifier as a dense `u32` index into an
//! interner. The interner itself comes from the `string_interner` crate with
//! its string backend, which hands out indices in insertion order. Verus
//! refuses a declaration of `StringInterner` itself (its `Backend` bound
//! cannot be declared), so the interner sits in a private field of an opaque
//! struct, and the wrappers below state what each call does over the
//! abstract list of interned strings `interner_strings`.

use vstd::prelude::*;

use string_interner::Symbol;

verus! {

/// Holds a `string_interner::StringInterner` with the string backend, whose
/// symbols are dense indices in insertion order.
#[verifier::external_body]
pub struct SymbolInterner {
    inner: string_interner::StringInterner<string_interner::backend::StringBackend>,
}

/// The strings held by an interner, in the order they were interned; the
/// symbol of a string is its position in this sequence.
pub uninterp spec fn interner_strings(it: SymbolInterner) -> Seq<Seq<char>>;

/// Relies on `StringInterner::new`: a fresh interner holds no strings.
#[verifier::external_body]
pub(crate) fn interner_new() -> (r: SymbolInterner)
    ensures
        interner_strings(r) == Seq::<Seq<char>>::empty(),
{
    SymbolInterner { inner: string_interner::StringInterner::new() }
}

/// Relies on `StringInterner::len`: the number of strings interned so far.
#[verifier::external_body]
pub(crate) fn interner_len(it: &SymbolInterner) -> (r: usize)
    ensures
        r == interner_strings(*it).len(),
{
    it.inner.len()
}

/// Relies on `StringInterner::get_or_intern` with the string backend: a
/// string already interned keeps its index and the interner is unchanged; a
/// new string is appended and receives the next index. The bound on the
/// length leaves out the inputs on which the symbol space is exhausted and
/// the call would panic.
#[verifier::external_body]
pub(crate) fn interner_get_or_intern(it: &mut SymbolInterner, s: &str) -> (r: u32)
    requires
        interner_strings(*old(it)).len() < 0xFFFF_FFFF,
    ensures
        ({
            let pre = interner_strings(*old(it));
            let post = interner_strings(*final(it));
            &&& (r as int) < post.len()
            &&& post[r as int] == s@
            &&& if pre.contains(s@) {
                post == pre && pre[r as int] == s@
            } else {
                post == pre.push(s@) && r as int == pre.len()
            }
        }),
{
    it.inner.get_or_intern(s).to_usize() as u32
}

/// Relies on `StringInterner::get`: looks a string up without interning it.
#[verifier::external_body]
pub(crate) fn interner_get(it: &SymbolInterner, s: &str) -> (r: Option<u32>)
    ensures
        ({
            let strings = interner_strings(*it);
            match r {
                Some(i) => (i as int) < strings.len() && strings[i as int] == s@,
                None => !strings.contains(s@),
            }
        }),
{
    it.inner.get(s).map(|sym| sym.to_usize() as u32)
}

/// Relies on `StringInterner::resolve` with the string backend: a symbol in
/// range resolves to the string it was assigned for, one out of range to
/// nothing.
#[verifier::external_body]
pub(crate) fn interner_resolve<'a>(it: &'a SymbolInterner, sym: u32) -> (r: Option<&'a str>)
    ensures
        ({
            let strings = interner_strings(*it);
            match r {
                Some(t) => (sym as int) < strings.len() && t@ == strings[sym as int],
                None => (sym as int) >= strings.len(),
            }
        }),
{
    match string_interner::DefaultSymbol::try_from_usize(sym as usize) {
        Some(s) => it.inner.resolve(s),
        None => None,
    }
}

} // verus!
