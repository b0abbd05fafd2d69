//! Integers in network byte order, and text in UTF-8, at the front of a run of bytes.
use crate::error::{Error, ErrorView};
use byteorder::{BigEndian, ReadBytesExt, WriteBytesExt};
use vstd::prelude::*;
use vstd::utf8::{decode_utf8, valid_utf8};

verus! {

/// The number that two bytes spell, most significant byte first.
pub open spec fn be16(bytes: Seq<u8>) -> u16 {
    (bytes[0] * 0x100 + bytes[1]) as u16
}

/// The number that four bytes spell, most significant byte first.
pub open spec fn be32(bytes: Seq<u8>) -> u32 {
    (bytes[0] * 0x100_0000 + bytes[1] * 0x1_0000 + bytes[2] * 0x100 + bytes[3]) as u32
}

/// The two bytes that spell a number, most significant byte first.
pub open spec fn be16_bytes(n: u16) -> Seq<u8> {
    seq![(n / 0x100) as u8, (n % 0x100) as u8]
}

/// The four bytes that spell a number, most significant byte first.
pub open spec fn be32_bytes(n: u32) -> Seq<u8> {
    seq![
        (n / 0x100_0000) as u8,
        (n / 0x1_0000 % 0x100) as u8,
        (n / 0x100 % 0x100) as u8,
        (n % 0x100) as u8,
    ]
}

/// Spelling a number and reading it back gives the number.
pub proof fn lemma_be16_round_trip(n: u16)
    ensures
        be16(be16_bytes(n)) == n,
{
}

/// Spelling a number and reading it back gives the number.
pub proof fn lemma_be32_round_trip(n: u32)
    ensures
        be32(be32_bytes(n)) == n,
{
}

/// Reading a number and spelling it gives the bytes that it was read from.
pub proof fn lemma_be16_bytes_round_trip(bytes: Seq<u8>)
    requires
        bytes.len() == 2,
    ensures
        be16_bytes(be16(bytes)) == bytes,
{
}

/// Reading a number and spelling it gives the bytes that it was read from.
pub proof fn lemma_be32_bytes_round_trip(bytes: Seq<u8>)
    requires
        bytes.len() == 4,
    ensures
        be32_bytes(be32(bytes)) == bytes,
{
    let n = be32(bytes);
    assert(n / 0x100_0000 == bytes[0]);
    assert(n / 0x1_0000 == bytes[0] * 0x100 + bytes[1]);
    assert(n / 0x100 == bytes[0] * 0x1_0000 + bytes[1] * 0x100 + bytes[2]);
    assert(n / 0x1_0000 % 0x100 == bytes[1]);
    assert(n / 0x100 % 0x100 == bytes[2]);
    assert(n % 0x100 == bytes[3]);
}

/// The bytes of `packet`, with those from `at` on replaced by `bytes`.
pub open spec fn spliced(packet: Seq<u8>, at: int, bytes: Seq<u8>) -> Seq<u8> {
    packet.take(at) + bytes + packet.skip(at + bytes.len())
}

/// The error of `std::io`, which a read or a write of `byteorder` reports.
#[verifier::external_type_specification]
#[verifier::external_body]
pub struct ExIoError(std::io::Error);

/// The error that `String::from_utf8` reports.
#[verifier::external_type_specification]
#[verifier::external_body]
pub struct ExFromUtf8Error(std::string::FromUtf8Error);

/// `String::from_utf8` turns bytes into text exactly when they are valid UTF-8, and the text is
/// the one that they encode.
pub assume_specification[ String::from_utf8 ](vec: Vec<u8>) -> (text: Result<
    String,
    std::string::FromUtf8Error,
>)
    ensures
        text is Ok <==> valid_utf8(vec@),
        text matches Ok(text) ==> text@ == decode_utf8(vec@),
;

/// `ReadBytesExt::read_u8` on a slice takes the first byte off it, and fails only when the slice
/// is empty. What is left of the slice after a failure is not stated.
#[verifier::external_body]
pub(crate) fn read_u8(reader: &mut &[u8]) -> (byte: Result<u8, std::io::Error>)
    ensures
        byte is Ok <==> old(reader)@.len() >= 1,
        byte matches Ok(byte) ==> byte == old(reader)@[0] && final(reader)@ == old(reader)@.skip(1),
{
    reader.read_u8()
}

/// `ReadBytesExt::read_u16::<BigEndian>` on a slice takes two bytes off its front, as the number
/// that they spell, and fails only when there are fewer. What is left of the slice after a failure
/// is not stated.
#[verifier::external_body]
pub(crate) fn read_u16(reader: &mut &[u8]) -> (number: Result<u16, std::io::Error>)
    ensures
        number is Ok <==> old(reader)@.len() >= 2,
        number matches Ok(number) ==> number == be16(old(reader)@.take(2)) && final(reader)@
            == old(reader)@.skip(2),
{
    reader.read_u16::<BigEndian>()
}

/// `ReadBytesExt::read_u32::<BigEndian>` on a slice takes four bytes off its front, as the number
/// that they spell, and fails only when there are fewer. What is left of the slice after a failure
/// is not stated.
#[verifier::external_body]
pub(crate) fn read_u32(reader: &mut &[u8]) -> (number: Result<u32, std::io::Error>)
    ensures
        number is Ok <==> old(reader)@.len() >= 4,
        number matches Ok(number) ==> number == be32(old(reader)@.take(4)) && final(reader)@
            == old(reader)@.skip(4),
{
    reader.read_u32::<BigEndian>()
}

/// `WriteBytesExt::write_u8` on a slice puts a byte at its front, and fails only when the slice
/// is empty. The slice written to here is `packet` from `at` on; what it holds after a failure is
/// not stated.
#[verifier::external_body]
pub(crate) fn write_u8(packet: &mut [u8], at: usize, byte: u8) -> (done: Result<(), std::io::Error>)
    requires
        at <= old(packet)@.len(),
    ensures
        done is Ok <==> at + 1 <= old(packet)@.len(),
        done is Ok ==> final(packet)@ == spliced(old(packet)@, at as int, seq![byte]),
{
    (&mut packet[at..]).write_u8(byte)
}

/// `WriteBytesExt::write_u16::<BigEndian>` on a slice puts the two bytes that spell a number at
/// its front, and fails only when the slice is shorter. The slice written to here is `packet` from
/// `at` on; what it holds after a failure is not stated.
#[verifier::external_body]
pub(crate) fn write_u16(packet: &mut [u8], at: usize, number: u16) -> (done: Result<
    (),
    std::io::Error,
>)
    requires
        at <= old(packet)@.len(),
    ensures
        done is Ok <==> at + 2 <= old(packet)@.len(),
        done is Ok ==> final(packet)@ == spliced(old(packet)@, at as int, be16_bytes(number)),
{
    (&mut packet[at..]).write_u16::<BigEndian>(number)
}

/// `WriteBytesExt::write_u32::<BigEndian>` on a slice puts the four bytes that spell a number at
/// its front, and fails only when the slice is shorter. The slice written to here is `packet` from
/// `at` on; what it holds after a failure is not stated.
#[verifier::external_body]
pub(crate) fn write_u32(packet: &mut [u8], at: usize, number: u32) -> (done: Result<
    (),
    std::io::Error,
>)
    requires
        at <= old(packet)@.len(),
    ensures
        done is Ok <==> at + 4 <= old(packet)@.len(),
        done is Ok ==> final(packet)@ == spliced(old(packet)@, at as int, be32_bytes(number)),
{
    (&mut packet[at..]).write_u32::<BigEndian>(number)
}

/// Takes `n` bytes off the front of `reader`, and fails only when there are fewer.
pub(crate) fn read_exact<'a>(reader: &mut &'a [u8], n: usize) -> (taken: Result<&'a [u8], Error>)
    ensures
        old(reader)@.len() >= n ==> taken is Ok,
        taken matches Ok(taken) ==> {
            &&& old(reader)@.len() >= n
            &&& taken@ == old(reader)@.take(n as int)
            &&& final(reader)@ == old(reader)@.skip(n as int)
        },
        taken matches Err(error) ==> error@ == ErrorView::UnexpectedEof,
{
    if reader.len() < n {
        return Err(Error::UnexpectedEof);
    }
    let (taken, rest) = reader.split_at(n);
    *reader = rest;
    Ok(taken)
}

/// Puts all of `bytes` into `packet` from `at` on.
pub(crate) fn write_all(packet: &mut [u8], at: usize, bytes: &[u8])
    requires
        at + bytes@.len() <= old(packet)@.len(),
    ensures
        final(packet)@ == spliced(old(packet)@, at as int, bytes@),
{
    let mut i: usize = 0;
    while i < bytes.len()
        invariant
            i <= bytes@.len(),
            at + bytes@.len() <= old(packet)@.len(),
            packet@ == spliced(old(packet)@, at as int, bytes@.take(i as int)),
        decreases bytes@.len() - i,
    {
        assert(at + i < packet.len());
        packet[at + i] = bytes[i];
        i = i + 1;
    }
    assert(bytes@.take(i as int) == bytes@);
}

} // verus!
