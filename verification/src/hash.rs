//! Content hashes.

use vstd::prelude::*;

verus! {

/// Whether a character is a hexadecimal digit in lower case.
pub open spec fn is_hex_digit(c: char) -> bool {
    '0' <= c <= '9' || 'a' <= c <= 'f'
}

/// Whether all characters are hexadecimal digits in lower case.
pub open spec fn all_hex(s: Seq<char>) -> bool {
    forall|i: int| 0 <= i < s.len() ==> is_hex_digit(#[trigger] s[i])
}

/// The BLAKE3 hash of the UTF-8 encoding of a text, in hexadecimal.
pub uninterp spec fn blake3_hex(text: Seq<char>) -> Seq<char>;

/// `blake3::hash` and `Hash::to_hex`: the 64 hexadecimal digits, in lower case,
/// of the hash of the text's bytes, a function of the text alone.
#[verifier::external_body]
fn hash_hex(text: &str) -> (r: String)
    ensures
        r@ == blake3_hex(text@),
        r@.len() == 64,
        all_hex(r@),
{
    blake3::hash(text.as_bytes()).to_hex().to_string()
}

/// The BLAKE3 hash of a text, in hexadecimal.
pub fn content_hash(text: &str) -> (r: String)
    ensures
        r@ == blake3_hex(text@),
        r@.len() == 64,
        all_hex(r@),
{
    hash_hex(text)
}

/// The MD5 hash of the UTF-8 encoding of a text, in hexadecimal.
pub uninterp spec fn md5_hex(text: Seq<char>) -> Seq<char>;

/// `md5::compute` and the hexadecimal form of its `Digest`: the 32 hexadecimal
/// digits, in lower case, of the hash of the text's bytes, a function of the
/// text alone.
#[verifier::external_body]
fn md5_digits(text: &str) -> (r: String)
    ensures
        r@ == md5_hex(text@),
        r@.len() == 32,
        all_hex(r@),
{
    format!("{:x}", md5::compute(text.as_bytes()))
}

/// The MD5 hash of a text, in hexadecimal.
pub fn name_hash(text: &str) -> (r: String)
    ensures
        r@ == md5_hex(text@),
        r@.len() == 32,
        all_hex(r@),
{
    md5_digits(text)
}

} // verus!
