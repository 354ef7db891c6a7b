//! Digests of build inputs.
use vstd::prelude::*;

verus! {

/// A digest, as a hex string, tagged with the algorithm that made it.
#[derive(Clone, Debug, PartialEq, Eq)]
pub enum Digest {
    /// SHA-256.
    Sha2(String),
    /// BLAKE3.
    Blake3(String),
}

/// Two digests agree: same algorithm, same text.
pub open spec fn same_digest(a: Digest, b: Digest) -> bool {
    match (a, b) {
        (Digest::Sha2(x), Digest::Sha2(y)) => x@ == y@,
        (Digest::Blake3(x), Digest::Blake3(y)) => x@ == y@,
        _ => false,
    }
}

impl Digest {
    /// A copy of the digest.
    pub fn clone_digest(&self) -> (r: Digest)
        ensures
            r == *self,
    {
        match self {
            Digest::Sha2(h) => Digest::Sha2(h.clone()),
            Digest::Blake3(h) => Digest::Blake3(h.clone()),
        }
    }

    pub fn same(&self, o: &Digest) -> (r: bool)
        ensures
            r == same_digest(*self, *o),
    {
        match (self, o) {
            (Digest::Sha2(x), Digest::Sha2(y)) => *x == *y,
            (Digest::Blake3(x), Digest::Blake3(y)) => *x == *y,
            _ => false,
        }
    }
}

} // verus!
