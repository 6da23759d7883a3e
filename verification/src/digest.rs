//! SHA-256 digests in hexadecimal.

use sha2::{Digest, Sha256};
use vstd::prelude::*;
use vstd::utf8::*;

verus! {

/// The SHA-256 digest of `data`.
pub uninterp spec fn sha256(data: Seq<u8>) -> Seq<u8>;

/// The hexadecimal digit for `n`, in lower case.
pub open spec fn hex_digit(n: int) -> char {
    if n < 10 {
        (48 + n) as char
    } else {
        (87 + n) as char
    }
}

/// `data` in hexadecimal: two digits for each byte, the high half first.
pub open spec fn hex_text(data: Seq<u8>) -> Seq<char> {
    Seq::new(
        2 * data.len(),
        |i: int|
            hex_digit(
                if i % 2 == 0 {
                    data[i / 2] as int / 16
                } else {
                    data[i / 2] as int % 16
                },
            ),
    )
}

/// The SHA-256 digest of `data` in hexadecimal.
pub open spec fn digest_text(data: Seq<u8>) -> Seq<char> {
    hex_text(sha256(data))
}

/// The digest of a text's UTF-8 bytes in hexadecimal.
pub open spec fn secret_hash(secret: Seq<char>) -> Seq<char> {
    digest_text(encode_utf8(secret))
}

/// `sha2::Sha256`, fed with `data` and finalized, gives the SHA-256 digest of `data`: 32 bytes that
/// depend on `data` alone.
#[verifier::external_body]
fn sha256_of(data: &[u8]) -> (r: Vec<u8>)
    ensures
        r@ == sha256(data@),
        r@.len() == 32,
{
    let mut hasher = Sha256::new();
    hasher.update(data);
    hasher.finalize().to_vec()
}

/// `hex::encode` writes each byte as two lower-case hexadecimal digits, the high half first.
#[verifier::external_body]
fn hex_of(data: &Vec<u8>) -> (r: String)
    ensures
        r@ == hex_text(data@),
{
    hex::encode(data)
}

/// What a secret is kept as: the SHA-256 digest of its bytes in hexadecimal, 64 digits.
pub fn hash_secret(secret: &str) -> (r: String)
    ensures
        r@ == secret_hash(secret@),
        r@.len() == 64,
{
    let digest = sha256_of(secret.as_bytes());
    hex_of(&digest)
}

/// What the compressed form of a request body is cached under: the body's SHA-256 digest in
/// hexadecimal, 64 digits.
pub fn cache_key(body: &[u8]) -> (r: String)
    ensures
        r@ == digest_text(body@),
        r@.len() == 64,
{
    let digest = sha256_of(body);
    hex_of(&digest)
}

// --------------------------------------------------------------------- laws

/// Each byte is written as two digits, the high half first, and the digits are those from zero to
/// `f` in lower case.
pub proof fn law_hex_digits(data: Seq<u8>, i: int)
    requires
        0 <= i < data.len(),
    ensures
        hex_text(data).len() == 2 * data.len(),
        hex_text(data)[2 * i] == "0123456789abcdef"@[data[i] as int / 16],
        hex_text(data)[2 * i + 1] == "0123456789abcdef"@[data[i] as int % 16],
{
    reveal_strlit("0123456789abcdef");
    let b = data[i];
    lemma_hex_digit(b as int / 16);
    lemma_hex_digit(b as int % 16);
    assert((2 * i) / 2 == i && (2 * i) % 2 == 0);
    assert((2 * i + 1) / 2 == i && (2 * i + 1) % 2 == 1);
}

/// A hexadecimal digit stands at its place among the digits.
proof fn lemma_hex_digit(n: int)
    requires
        0 <= n < 16,
    ensures
        hex_digit(n) == "0123456789abcdef"@[n],
{
    reveal_strlit("0123456789abcdef");
    let digits = "0123456789abcdef"@;
    assert(digits[0] == '0' && digits[1] == '1' && digits[2] == '2' && digits[3] == '3');
    assert(digits[4] == '4' && digits[5] == '5' && digits[6] == '6' && digits[7] == '7');
    assert(digits[8] == '8' && digits[9] == '9' && digits[10] == 'a' && digits[11] == 'b');
    assert(digits[12] == 'c' && digits[13] == 'd' && digits[14] == 'e' && digits[15] == 'f');
}

/// A body goes into its digest whole, and so does a secret, as UTF-8.
pub proof fn law_digests_are_of_the_whole(data: Seq<u8>, secret: Seq<char>)
    ensures
        digest_text(data) == hex_text(sha256(data)),
        secret_hash(secret) == hex_text(sha256(encode_utf8(secret))),
{
}

} // verus!
