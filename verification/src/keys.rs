//! The database key type: a byte sequence held in a small-buffer-optimized
//! container, inline up to 32 bytes, spilling to the heap beyond that. The
//! optimization is a performance detail; contracts treat a key as nothing
//! but its byte sequence.

use vstd::prelude::*;

verus! {

/// Database keys.
#[verifier::external_body]
pub struct DBKey {
    inner: smallvec::SmallVec<[u8; 32]>,
}

/// The byte sequence a key holds.
pub uninterp spec fn db_key_view(k: DBKey) -> Seq<u8>;

impl DBKey {
    /// Relies on smallvec::SmallVec::from_slice: for items that are plain
    /// copyable bytes it copies the slice's elements, in order, and on
    /// nothing else.
    #[verifier::external_body]
    pub fn from_slice(s: &[u8]) -> (k: DBKey)
        ensures
            db_key_view(k) == s@,
    {
        DBKey { inner: smallvec::SmallVec::from_slice(s) }
    }

    /// Relies on smallvec::SmallVec::as_slice: it exposes exactly the
    /// elements the container holds, in order.
    #[verifier::external_body]
    pub fn as_slice(&self) -> (r: &[u8])
        ensures
            r@ == db_key_view(*self),
    {
        self.inner.as_slice()
    }
}

} // verus!
