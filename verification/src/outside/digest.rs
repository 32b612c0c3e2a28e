//! SHA-256 and hexadecimal text.
#[allow(unused_imports)]
use crate::number::digit;
use vstd::prelude::*;

verus! {

/// The SHA-256 digest of a sequence of bytes.
pub uninterp spec fn sha256(data: Seq<u8>) -> Seq<u8>;

/// The lower-case hexadecimal digit that writes `d`.
pub open spec fn hex_digit(d: nat) -> char {
    if d < 10 {
        digit(d)
    } else {
        ('a' as nat + (d - 10)) as char
    }
}

/// Each byte as two hexadecimal digits, the higher half first.
pub open spec fn hex_text(data: Seq<u8>) -> Seq<char> {
    Seq::new(
        2 * data.len(),
        |i: int|
            if i % 2 == 0 {
                hex_digit((data[i / 2] / 16) as nat)
            } else {
                hex_digit((data[i / 2] % 16) as nat)
            },
    )
}

/// Whether a character is a hexadecimal digit in lower case.
pub open spec fn is_hex(c: char) -> bool {
    '0' <= c <= '9' || 'a' <= c <= 'f'
}

/// The hexadecimal text of bytes holds hexadecimal digits in lower case alone.
pub proof fn lemma_hex_text(data: Seq<u8>)
    ensures
        forall|i: int| 0 <= i < hex_text(data).len() ==> is_hex(#[trigger] hex_text(data)[i]),
{
}

/// `Digest::digest` of `sha2::Sha256`: the SHA-256 digest of the bytes, which is 32
/// bytes long.
#[verifier::external_body]
pub(crate) fn sha256_of(data: &Vec<u8>) -> (res: Vec<u8>)
    ensures
        res@ == sha256(data@),
        res@.len() == 32,
{
    <sha2::Sha256 as sha2::Digest>::digest(data.as_slice()).to_vec()
}

/// `hex::encode`: each byte as two lower-case hexadecimal digits.
#[verifier::external_body]
pub(crate) fn hex_of(data: &Vec<u8>) -> (res: String)
    ensures
        res@ == hex_text(data@),
{
    hex::encode(data)
}

} // verus!
