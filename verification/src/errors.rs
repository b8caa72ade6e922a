use vstd::prelude::*;

verus! {

/// The failure modes of the Merkle core. Building on zero leaves reports
/// `EmptyInput`; asking for a proof before a successful build reports
/// `NoRoot`; a target index that names no leaf reports `IndexOutOfRange`.
#[derive(Clone, Copy, Debug, PartialEq, Eq, Structural)]
pub enum MerkleError {
    EmptyInput,
    NoRoot,
    IndexOutOfRange,
}

} // verus!
