//! A one-dimensional `ndarray` array of symbols, as the movement rules read it.

use vstd::prelude::*;

verus! {

/// An `ndarray::Array1<String>` of ticker symbols. Verus refuses to declare
/// `ndarray::ArrayBase` itself (its `S: RawData` bound), so the array is
/// held here and reached through the trusted methods below.
#[verifier::external_body]
pub struct SymbolArray {
    inner: ndarray::Array1<String>,
}

/// The symbols that an array holds, in index order.
pub uninterp spec fn symbols_of(a: SymbolArray) -> Seq<Seq<char>>;

/// The views of a list of strings.
pub open spec fn strings_view(v: Seq<String>) -> Seq<Seq<char>> {
    v.map_values(|s: String| s@)
}

impl SymbolArray {
    /// `Array1::from_vec`. Trusted: the array holds the strings of `v`, in order.
    #[verifier::external_body]
    pub fn from_vec(v: Vec<String>) -> (a: SymbolArray)
        ensures
            symbols_of(a) == strings_view(v@),
    {
        SymbolArray { inner: ndarray::Array1::from_vec(v) }
    }

    /// `ArrayBase::len`. Trusted: the number of symbols.
    #[verifier::external_body]
    pub(crate) fn len(&self) -> (n: usize)
        ensures
            n == symbols_of(*self).len(),
    {
        self.inner.len()
    }

    /// Indexing (`Index` of `ArrayBase`). Trusted: the `i`-th symbol.
    #[verifier::external_body]
    pub(crate) fn get(&self, i: usize) -> (s: &String)
        requires
            i < symbols_of(*self).len(),
        ensures
            s@ == symbols_of(*self)[i as int],
    {
        &self.inner[i]
    }

    /// `ArrayBase::select` along the only axis. Trusted: the symbols at the
    /// given positions, in the order of `indices`; the source panics on a
    /// position out of bounds, which `requires` leaves out.
    #[verifier::external_body]
    pub(crate) fn select(&self, indices: &Vec<usize>) -> (a: SymbolArray)
        requires
            forall|j: int| 0 <= j < indices@.len() ==> indices@[j] < symbols_of(*self).len(),
        ensures
            symbols_of(a) == indices@.map_values(|i: usize| symbols_of(*self)[i as int]),
    {
        SymbolArray { inner: self.inner.select(ndarray::Axis(0), indices) }
    }

    /// `==` of `ArrayBase` (`PartialEq`). Trusted: equal shapes and equal
    /// elements, which for one-dimensional arrays of strings is equality of
    /// the symbol sequences.
    #[verifier::external_body]
    pub(crate) fn same_symbols(&self, other: &SymbolArray) -> (eq: bool)
        ensures
            eq == (symbols_of(*self) == symbols_of(*other)),
    {
        self.inner == other.inner
    }

    /// `ArrayBase::to_vec`. Trusted: the symbols, in order.
    #[verifier::external_body]
    pub fn to_vec(&self) -> (v: Vec<String>)
        ensures
            strings_view(v@) == symbols_of(*self),
    {
        self.inner.to_vec()
    }
}

} // verus!
