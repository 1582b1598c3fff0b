//! Secrets that are erased when they go out of use.
use crate::crypto::wipe;
use vstd::prelude::*;

verus! {

/// A secret of 32 bytes. Its memory is erased when it is dropped.
pub struct Secret {
    bytes: [u8; 32],
}

impl View for Secret {
    type V = Seq<u8>;

    closed spec fn view(&self) -> Seq<u8> {
        self.bytes@
    }
}

impl Drop for Secret {
    fn drop(&mut self)
        opens_invariants none
        no_unwind
    {
        wipe(&mut self.bytes);
    }
}

impl Secret {
    /// Takes the secret over.
    pub fn new(bytes: [u8; 32]) -> (secret: Self)
        ensures
            secret@ == bytes@,
    {
        Secret { bytes }
    }

    /// The secret's bytes.
    pub fn expose(&self) -> (bytes: &[u8; 32])
        ensures
            bytes@ == self@,
    {
        &self.bytes
    }
}

} // verus!
