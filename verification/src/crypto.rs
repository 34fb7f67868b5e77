//! Hash and RSA primitives behind the manifest checks.

use crate::fmt::be_value;
use vstd::arithmetic::power::pow;
use sha2::Digest;
use vstd::prelude::*;

verus! {

/// MD5 digest of a byte sequence.
pub uninterp spec fn md5_of(data: Seq<u8>) -> Seq<u8>;

/// SHA-256 digest of a byte sequence.
pub uninterp spec fn sha256_of(data: Seq<u8>) -> Seq<u8>;

/// `md5::Md5::digest`: the MD5 digest of `data`. Trusted: the digest is named,
/// not described; the 16-byte length follows from the type.
#[verifier::external_body]
pub(crate) fn md5_digest(data: &[u8]) -> (r: [u8; 16])
    ensures
        r@ == md5_of(data@),
{
    md5::Md5::digest(data).into()
}

/// `sha2::Sha256::digest`: the SHA-256 digest of `data`. Trusted: the digest
/// is named, not described; the 32-byte length follows from the type.
#[verifier::external_body]
pub(crate) fn sha256_digest(data: &[u8]) -> (r: [u8; 32])
    ensures
        r@ == sha256_of(data@),
{
    sha2::Sha256::digest(data).into()
}

/// `num_bigint::BigUint::modpow` on big-endian byte strings: the result's
/// big-endian bytes hold `base ^ exponent % modulus`, as the crate documents.
/// `modpow` panics on a zero modulus, which `requires` rules out.
#[verifier::external_body]
pub(crate) fn modpow_be(base: &[u8], exponent: u32, modulus: &[u8]) -> (r: Vec<u8>)
    requires
        be_value(modulus@) != 0,
    ensures
        be_value(r@) == pow(be_value(base@) as int, exponent as nat) % (be_value(modulus@) as int),
{
    let b = num_bigint::BigUint::from_bytes_be(base);
    let e = num_bigint::BigUint::from(exponent);
    let m = num_bigint::BigUint::from_bytes_be(modulus);
    b.modpow(&e, &m).to_bytes_be()
}

} // verus!
