//! An owned byte buffer for secret material.
//!
//! Every byte of a [`SafeVec`] is overwritten with zero when the buffer goes out of
//! scope, on every path that releases it.

use vstd::prelude::*;

verus! {

/// Overwrites every byte of `buffer` with `value` in a way the optimizer may not drop.
///
/// Trusted: calls `crypto::util::secure_memset`, which fills the slice it is given and
/// then issues a memory barrier. The contract claims that the length is untouched and
/// that every byte holds `value` afterwards.
#[verifier::external_body]
pub(crate) fn secure_fill(buffer: &mut Vec<u8>, value: u8)
    ensures
        final(buffer)@.len() == old(buffer)@.len(),
        forall|i: int| 0 <= i < final(buffer)@.len() ==> final(buffer)@[i] == value,
    opens_invariants none
    no_unwind
{
    crypto::util::secure_memset(buffer.as_mut_slice(), value)
}

/// True when every byte of `bytes` is zero.
pub open spec fn all_zero(bytes: Seq<u8>) -> bool {
    forall|i: int| 0 <= i < bytes.len() ==> bytes[i] == 0u8
}

/// A byte buffer that holds secret material.
#[derive(Debug, PartialEq, Eq)]
pub struct SafeVec {
    pub inner: Vec<u8>,
}

impl View for SafeVec {
    type V = Seq<u8>;

    open spec fn view(&self) -> Seq<u8> {
        self.inner@
    }
}

impl SafeVec {
    /// Takes ownership of `inner`.
    pub fn new(inner: Vec<u8>) -> (r: SafeVec)
        ensures
            r@ == inner@,
            r.inner == inner,
    {
        SafeVec { inner: inner }
    }

    /// Mutable access to the bytes, for callers that fill the buffer in place.
    pub fn inner_mut(&mut self) -> (r: &mut Vec<u8>)
        ensures
            *r == old(self).inner,
            final(self).inner == *final(r),
    {
        &mut self.inner
    }

    /// A read-only borrow of the bytes.
    pub fn as_slice(&self) -> (r: &[u8])
        ensures
            r@ == self@,
    {
        self.inner.as_slice()
    }

    /// The number of bytes held.
    pub fn len(&self) -> (r: usize)
        ensures
            r == self@.len(),
    {
        self.inner.len()
    }

    /// An independently owned copy, itself erased when released.
    pub fn duplicate(&self) -> (r: SafeVec)
        ensures
            r@ == self@,
    {
        let mut bytes: Vec<u8> = Vec::new();
        bytes.extend_from_slice(self.inner.as_slice());
        SafeVec { inner: bytes }
    }

    /// Overwrites every byte with zero, keeping the length.
    pub fn erase(&mut self)
        ensures
            final(self)@.len() == old(self)@.len(),
            all_zero(final(self)@),
        opens_invariants none
        no_unwind
    {
        secure_fill(&mut self.inner, 0);
    }
}

impl std::ops::Deref for SafeVec {
    type Target = [u8];

    fn deref(&self) -> (r: &[u8])
        ensures
            r@ == self@,
    {
        self.inner.as_slice()
    }
}

impl std::ops::DerefMut for SafeVec {
    fn deref_mut(&mut self) -> (r: &mut [u8])
        ensures
            r@ == old(self)@,
            final(self)@ == final(r)@,
    {
        self.inner.as_mut_slice()
    }
}

impl Clone for SafeVec {
    fn clone(&self) -> (r: SafeVec)
        ensures
            r@ == self@,
    {
        self.duplicate()
    }
}

impl Drop for SafeVec {
    /// Overwrites every byte with zero before the storage is given back.
    fn drop(&mut self)
        ensures
            final(self)@.len() == old(self)@.len(),
            all_zero(final(self)@),
        opens_invariants none
        no_unwind
    {
        self.erase();
    }
}

} // verus!
