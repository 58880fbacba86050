//! SHA-256 of the recorded bytes, written as lower-case hexadecimal.

use vstd::prelude::*;
use sha2::Digest;
use crate::text::push_char;

verus! {

/// The SHA-256 digest of `data` (FIPS 180-4), as computed by the `sha2` crate.
pub uninterp spec fn sha256_digest(data: Seq<u8>) -> Seq<u8>;

/// Calls `sha2::Sha256::digest`. Trusted: the result is the crate's SHA-256
/// of `data`, named `sha256_digest(data)`, and it is 32 bytes long (the
/// output size of `Sha256`). Nothing else about the digest is stated.
#[verifier::external_body]
fn sha256(data: &[u8]) -> (digest: Vec<u8>)
    ensures
        digest@ == sha256_digest(data@),
        digest@.len() == 32,
{
    sha2::Sha256::digest(data).to_vec()
}

/// The lower-case hexadecimal digit for a value below 16.
pub open spec fn hex_digit(v: int) -> char {
    if v < 10 {
        (48 + v) as char
    } else {
        (87 + v) as char
    }
}

/// Two lower-case hexadecimal digits per byte, high half first.
pub open spec fn lower_hex(bytes: Seq<u8>) -> Seq<char> {
    Seq::new(
        2 * bytes.len(),
        |i: int|
            if i % 2 == 0 {
                hex_digit(bytes[i / 2] as int / 16)
            } else {
                hex_digit(bytes[i / 2] as int % 16)
            },
    )
}

fn hex_char(v: u8) -> (c: char)
    requires
        v < 16,
    ensures
        c == hex_digit(v as int),
{
    if v < 10 {
        (48 + v) as char
    } else {
        (87 + v) as char
    }
}

/// Writes bytes as lower-case hexadecimal, two digits per byte.
pub fn to_lower_hex(bytes: &[u8]) -> (text: String)
    ensures
        text@ == lower_hex(bytes@),
{
    let mut text = String::new();
    let mut i: usize = 0;
    while i < bytes.len()
        invariant
            i <= bytes@.len(),
            text@ =~= lower_hex(bytes@.take(i as int)),
        decreases bytes.len() - i,
    {
        let b = bytes[i];
        let ghost before = text@;
        push_char(&mut text, hex_char(b / 16));
        push_char(&mut text, hex_char(b % 16));
        proof {
            let next = bytes@.take(i + 1);
            assert(lower_hex(next) =~= before + seq![
                hex_digit(b as int / 16),
                hex_digit(b as int % 16),
            ]) by {
                assert forall|k: int| 0 <= k < 2 * i implies #[trigger] lower_hex(next)[k]
                    == before[k] by {
                    assert(next[k / 2] == bytes@.take(i as int)[k / 2]);
                }
            }
        }
        i = i + 1;
    }
    assert(bytes@.take(bytes.len() as int) =~= bytes@);
    text
}

/// The SHA-256 of `data` in lower-case hexadecimal (64 characters).
pub fn sha256_hex(data: &[u8]) -> (text: String)
    ensures
        text@ == lower_hex(sha256_digest(data@)),
        text@.len() == 64,
{
    let digest = sha256(data);
    to_lower_hex(digest.as_slice())
}

} // verus!
