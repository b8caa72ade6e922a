use vstd::prelude::*;

use sha2::{Digest, Sha256};

verus! {

/// Abstract value of the pairing hash: the lowercase hexadecimal rendering of
/// the SHA-256 digest of the first string's bytes followed by the second
/// string's bytes. The digest depends on the two inputs alone, so the result
/// is a function of them; nothing further is assumed of its value.
pub uninterp spec fn pair_hash(a: Seq<char>, b: Seq<char>) -> Seq<char>;

/// The fixed two-input hash combinator used at every internal tree node.
pub struct Hasher;

impl Hasher {
    /// Relies on sha2::Sha256 (a 32-byte digest, a pure function of the bytes
    /// fed to it) and on hex::encode (exactly two lowercase hex digits per
    /// digest byte, hence 64 characters).
    #[verifier::external_body]
    pub fn pair(string1: &String, string2: &String) -> (r: String)
        ensures
            r@ == pair_hash(string1@, string2@),
            r@.len() == 64,
    {
        let mut hasher = Sha256::new();
        hasher.update(string1);
        hasher.update(string2);
        let result = hasher.finalize();
        hex::encode(result)
    }
}

} // verus!
