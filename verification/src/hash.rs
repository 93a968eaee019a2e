//! The strategy by which digested reference passwords are checked.
use vstd::prelude::*;

verus! {

/// Strategy trait to support objects that produce hash outputs in various
/// formats, e.g. raw bytes, hex output, etc. Nothing is stated of what an
/// implementation returns.
pub trait Hasher<E> {
    /// Hashes the given data.
    fn hash(&self, data: &[u8]) -> (digest: Result<Vec<u8>, E>);

    /// Compares a known hash value with the hash of the given data.
    fn compare(&self, hash: &[u8], data: &[u8]) -> (same: Result<bool, E>);
}

} // verus!
