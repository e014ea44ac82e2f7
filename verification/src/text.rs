//! Text is held as bytes. These helpers relate byte strings to the string
//! literals that name things in the language.

use vstd::prelude::*;
use vstd::string::*;

verus! {

/// The bytes of a string of ASCII characters, one byte for each.
pub open spec fn ascii(s: Seq<char>) -> Seq<u8> {
    Seq::new(s.len(), |i: int| s[i] as u8)
}

/// The bytes of `s`; where `s` is ASCII they are its characters one by one.
pub fn bytes_of(s: &str) -> (r: Vec<u8>)
    ensures
        r@ == s.spec_bytes(),
        is_ascii(s) ==> r@ == ascii(s@),
{
    broadcast use is_ascii_spec_bytes;

    s.as_bytes_vec()
}

/// The bytes of a string of ASCII characters are its characters one by
/// one.
pub proof fn lemma_ascii_bytes(s: &str)
    requires
        is_ascii(s),
    ensures
        s.spec_bytes() == ascii(s@),
{
    broadcast use is_ascii_spec_bytes;

}

/// The bytes of a string of ASCII characters.
pub fn literal(s: &str) -> (r: Vec<u8>)
    requires
        is_ascii(s),
    ensures
        r@ == ascii(s@),
{
    bytes_of(s)
}

/// `String::from_utf8_lossy`: the text that the bytes encode. Bytes that
/// are valid UTF-8 give exactly the characters that they encode; for
/// others nothing is said here.
#[verifier::external_body]
fn decode(bytes: &[u8]) -> (r: String)
    ensures
        vstd::utf8::valid_utf8(bytes@) ==> r@ == vstd::utf8::decode_utf8(bytes@),
{
    String::from_utf8_lossy(bytes).into_owned()
}

/// The text that the bytes encode.
pub fn string_of(bytes: &Vec<u8>) -> (r: String)
    ensures
        vstd::utf8::valid_utf8(bytes@) ==> r@ == vstd::utf8::decode_utf8(bytes@),
{
    decode(bytes.as_slice())
}

} // verus!
