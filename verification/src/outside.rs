//! The functions of other crates and of std that the library calls, each with
//! what it relies on.
use byteorder::{BigEndian, ReadBytesExt, WriteBytesExt};
use vstd::prelude::*;
use vstd::utf8;

verus! {

/// The error of a reader that ends too early. Its contents are not looked at.
#[verifier::external_type_specification]
#[verifier::external_body]
pub struct ExIoError(std::io::Error);

/// Appending a character with `String::push`: the text grows by exactly that
/// character, at its end.
pub assume_specification[ String::push ](s: &mut String, c: char)
    ensures
        final(s)@ == old(s)@.push(c),
;

/// The number that two bytes stand for, the more significant byte first.
pub open spec fn be_value(high: u8, low: u8) -> int {
    high * 256 + low
}

/// The two bytes that stand for a number, the more significant byte first.
pub open spec fn be_bytes(n: u16) -> Seq<u8> {
    seq![(n / 256) as u8, (n % 256) as u8]
}

/// `byteorder::ReadBytesExt::read_u8` at the start of `bytes`: the first byte,
/// or an error exactly when there is none.
#[verifier::external_body]
pub(crate) fn read_u8(bytes: &[u8]) -> (value: Result<u8, std::io::Error>)
    ensures
        value is Ok <==> bytes@.len() >= 1,
        value matches Ok(byte) ==> byte == bytes@[0],
{
    let mut reader = bytes;
    reader.read_u8()
}

/// `byteorder::ReadBytesExt::read_u16` with `BigEndian` at the start of
/// `bytes`: the number that the first two bytes stand for, or an error exactly
/// when there are fewer than two.
#[verifier::external_body]
pub(crate) fn read_u16_be(bytes: &[u8]) -> (value: Result<u16, std::io::Error>)
    ensures
        value is Ok <==> bytes@.len() >= 2,
        value matches Ok(n) ==> n == be_value(bytes@[0], bytes@[1]),
{
    let mut reader = bytes;
    reader.read_u16::<BigEndian>()
}

/// `byteorder::WriteBytesExt::write_u16` with `BigEndian` into a vector: the
/// vector grows by the two bytes of `n`. Writing into a vector does not fail.
#[verifier::external_body]
pub(crate) fn write_u16_be(out: &mut Vec<u8>, n: u16)
    ensures
        final(out)@ == old(out)@ + be_bytes(n),
{
    out.write_u16::<BigEndian>(n).unwrap();
}

/// What `String::from_utf8_lossy` makes of bytes that are not valid UTF-8.
pub uninterp spec fn utf8_replaced(bytes: Seq<u8>) -> Seq<char>;

/// The text that `String::from_utf8_lossy` reads in `bytes`: what they encode
/// where they are valid UTF-8, else a text in which U+FFFD stands for the
/// sequences that are not.
pub open spec fn utf8_lossy(bytes: Seq<u8>) -> Seq<char> {
    if utf8::valid_utf8(bytes) {
        utf8::decode_utf8(bytes)
    } else {
        utf8_replaced(bytes)
    }
}

/// `String::from_utf8_lossy`: valid UTF-8 is decoded as it stands. Of other
/// bytes only this is claimed, that the same bytes always give the same text;
/// where in that text U+FFFD stands is left unsaid.
#[verifier::external_body]
pub(crate) fn from_utf8_lossy(bytes: &[u8]) -> (text: String)
    ensures
        text@ == (if utf8::valid_utf8(bytes@) {
            utf8::decode_utf8(bytes@)
        } else {
            utf8_replaced(bytes@)
        }),
{
    String::from_utf8_lossy(bytes).to_string()
}

/// `rand::random` for a signed number of 64 bits: any number may come. It panics
/// only where the operating system has no randomness to give.
#[verifier::external_body]
pub(crate) fn random_i64() -> i64 {
    rand::random::<i64>()
}

} // verus!
