//! Checksums and hex encoding.
//!
//! The digests themselves come from outside crates; their results are
//! named by uninterpreted spec functions (`md5_of`, `sha256_of`), since a
//! digest is a function of the hashed bytes alone. The running MD5 state
//! is tracked through `md5_absorbed`, the bytes a hasher has consumed so
//! far. Hex encoding is stated exactly.

use vstd::prelude::*;
use md5::Digest;

verus! {

/// The MD5 digest (16 bytes) of a byte sequence.
pub uninterp spec fn md5_of(data: Seq<u8>) -> Seq<u8>;

/// The SHA-256 digest (32 bytes) of a byte sequence.
pub uninterp spec fn sha256_of(data: Seq<u8>) -> Seq<u8>;

/// The bytes an incremental MD5 hasher has absorbed so far.
pub uninterp spec fn md5_absorbed(h: md5::Md5) -> Seq<u8>;

#[verifier::external_type_specification]
#[verifier::external_body]
pub struct ExMd5(md5::Md5);

/// Relies on `md5::Md5::new` (`digest::Digest::new`): a fresh hasher has
/// absorbed nothing.
#[verifier::external_body]
pub fn md5_new() -> (h: md5::Md5)
    ensures
        md5_absorbed(h) == Seq::<u8>::empty(),
{
    md5::Md5::new()
}

/// Relies on `digest::Digest::update`: feeding a hasher appends the fed
/// bytes to the message being hashed.
#[verifier::external_body]
pub fn md5_update(h: &mut md5::Md5, data: &Vec<u8>)
    ensures
        md5_absorbed(*final(h)) == md5_absorbed(*old(h)) + data@,
{
    h.update(data.as_slice());
}

/// Relies on `digest::Digest::finalize`: the digest is a function of the
/// absorbed bytes alone, and an MD5 digest is 16 bytes.
#[verifier::external_body]
pub fn md5_finalize(h: md5::Md5) -> (r: Vec<u8>)
    ensures
        r@ == md5_of(md5_absorbed(h)),
        r@.len() == 16,
{
    h.finalize().to_vec()
}

/// Relies on `digest::Digest::digest` for `md5::Md5`: the one-shot digest
/// of a complete buffer, 16 bytes.
#[verifier::external_body]
pub fn md5_digest(data: &Vec<u8>) -> (r: Vec<u8>)
    ensures
        r@ == md5_of(data@),
        r@.len() == 16,
{
    md5::Md5::digest(data.as_slice()).to_vec()
}

/// Relies on `digest::Digest::digest` for `sha2::Sha256`: the one-shot
/// digest of a complete buffer, 32 bytes.
#[verifier::external_body]
pub fn sha256_digest(data: &Vec<u8>) -> (r: Vec<u8>)
    ensures
        r@ == sha256_of(data@),
        r@.len() == 32,
{
    sha2::Sha256::digest(data.as_slice()).to_vec()
}

/// The lowercase hex character of a nibble.
pub open spec fn hex_digit(n: u8) -> char
    recommends
        n < 16,
{
    if n < 10 {
        (('0' as u8) + n) as char
    } else {
        (('a' as u8) + (n - 10)) as char
    }
}

/// Lowercase hex encoding: two digits per byte, high nibble first.
pub open spec fn hex_of(data: Seq<u8>) -> Seq<char>
    decreases data.len(),
{
    if data.len() == 0 {
        Seq::<char>::empty()
    } else {
        seq![hex_digit(data.first() / 16), hex_digit(data.first() % 16)] + hex_of(
            data.drop_first(),
        )
    }
}

/// Relies on `hex::encode`: lowercase hex, two digits per byte, high
/// nibble first.
#[verifier::external_body]
pub fn to_hex(data: &Vec<u8>) -> (r: String)
    ensures
        r@ == hex_of(data@),
{
    hex::encode(data.as_slice())
}

} // verus!
