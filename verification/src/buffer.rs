//! The small vector that holds the symbols of an expression.
//!
//! Expressions keep their symbols in a `smallvec::SmallVec` with room for 21
//! symbols inline. Verus does not accept a declaration of that generic type
//! (its bound names a trait of the `smallvec` crate), so the vector lives in
//! a private field of `SymbolBuf`, a struct whose layout Verus does not see.
//! The items below name what the buffer holds and give a contract to each
//! method of `SmallVec` that the library calls.

use vstd::prelude::*;
use smallvec::SmallVec;
use crate::symbol::Symbol;

verus! {

/// A `SmallVec` of symbols with room for 21 of them inline.
#[verifier::external_body]
#[derive(PartialEq, Eq, Hash, Debug)]
pub struct SymbolBuf {
    inner: SmallVec<[Symbol; 21]>,
}

/// The symbols held by a symbol buffer, in order.
pub uninterp spec fn buf_items(b: SymbolBuf) -> Seq<Symbol>;

/// Number of symbols below which a push cannot overflow the buffer's capacity
/// computation, on 32-bit and 64-bit targets alike.
pub open spec fn buf_push_limit() -> int {
    (usize::MAX as int + 1) / 4
}

/// An empty buffer.
///
/// Calls `SmallVec::new`, which constructs an empty vector.
#[verifier::external_body]
pub(crate) fn buf_new() -> (b: SymbolBuf)
    ensures
        buf_items(b) == Seq::<Symbol>::empty(),
{
    SymbolBuf { inner: SmallVec::new() }
}

/// A buffer holding a copy of the symbols of `s`.
///
/// Calls `SmallVec::from_slice`, which copies the elements of the slice in
/// order.
#[verifier::external_body]
pub(crate) fn buf_from_slice(s: &[Symbol]) -> (b: SymbolBuf)
    ensures
        buf_items(b) == s@,
{
    SymbolBuf { inner: SmallVec::from_slice(s) }
}

/// Appends one symbol.
///
/// Calls `SmallVec::push`, which appends the item at the end. Its growth step
/// panics when the doubled capacity would overflow, so the length stays below
/// a quarter of the address space here.
#[verifier::external_body]
pub(crate) fn buf_push(b: &mut SymbolBuf, s: Symbol)
    requires
        buf_items(*old(b)).len() < buf_push_limit(),
    ensures
        buf_items(*final(b)) == buf_items(*old(b)).push(s),
{
    b.inner.push(s);
}

/// Removes and returns the last symbol, if any.
///
/// Calls `SmallVec::pop`, which removes the last item and returns it, or
/// returns `None` and leaves the vector unchanged when it is empty.
#[verifier::external_body]
pub(crate) fn buf_pop(b: &mut SymbolBuf) -> (r: Option<Symbol>)
    ensures
        buf_items(*old(b)).len() > 0 ==> r == Some(buf_items(*old(b)).last()) && buf_items(
            *final(b),
        ) == buf_items(*old(b)).drop_last(),
        buf_items(*old(b)).len() == 0 ==> r is None && buf_items(*final(b)) == buf_items(
            *old(b),
        ),
{
    b.inner.pop()
}

/// The symbols of the buffer as a slice.
///
/// Calls `SmallVec::as_slice`, which returns the slice of all items in order.
#[verifier::external_body]
pub(crate) fn buf_as_slice(b: &SymbolBuf) -> (r: &[Symbol])
    ensures
        r@ == buf_items(*b),
{
    b.inner.as_slice()
}

} // verus!
