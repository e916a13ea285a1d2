//! Little-endian numbers inside byte sequences.

use byteorder::{ByteOrder, LittleEndian};
use vstd::prelude::*;

verus! {

/// The number that `bytes` spell out, least significant byte first.
pub open spec fn le_value(bytes: Seq<u8>) -> nat
    decreases bytes.len(),
{
    if bytes.len() == 0 {
        0
    } else {
        bytes[0] as nat + 256 * le_value(bytes.drop_first())
    }
}

/// The `width` bytes that spell out `value`, least significant byte first.
pub open spec fn le_bytes(value: nat, width: nat) -> Seq<u8>
    decreases width,
{
    if width == 0 {
        Seq::empty()
    } else {
        seq![(value % 256) as u8] + le_bytes(value / 256, (width - 1) as nat)
    }
}

/// How many different values `width` bytes can spell out.
pub open spec fn le_limit(width: nat) -> nat
    decreases width,
{
    if width == 0 {
        1
    } else {
        256 * le_limit((width - 1) as nat)
    }
}

/// `bytes` with the part that starts at `at` overwritten by `part`.
pub open spec fn overwrite(bytes: Seq<u8>, at: int, part: Seq<u8>) -> Seq<u8> {
    bytes.subrange(0, at) + part + bytes.subrange(at + part.len(), bytes.len() as int)
}

/// Spelling a number out takes exactly `width` bytes.
pub broadcast proof fn lemma_le_bytes_len(value: nat, width: nat)
    ensures
        #[trigger] le_bytes(value, width).len() == width,
    decreases width,
{
    if width > 0 {
        lemma_le_bytes_len(value / 256, (width - 1) as nat);
    }
}

/// Reading back a number that was spelled out gives the number, if it fits.
pub proof fn lemma_value_of_bytes(value: nat, width: nat)
    requires
        value < le_limit(width),
    ensures
        le_value(le_bytes(value, width)) == value,
    decreases width,
{
    if width > 0 {
        let rest = le_bytes(value / 256, (width - 1) as nat);
        lemma_value_of_bytes(value / 256, (width - 1) as nat);
        assert(le_bytes(value, width).drop_first() =~= rest);
    }
}

/// Spelling out the number that some bytes stand for gives the bytes.
pub proof fn lemma_bytes_of_value(bytes: Seq<u8>)
    ensures
        le_bytes(le_value(bytes), bytes.len()) == bytes,
        le_value(bytes) < le_limit(bytes.len()),
    decreases bytes.len(),
{
    if bytes.len() > 0 {
        lemma_bytes_of_value(bytes.drop_first());
        assert(le_bytes(le_value(bytes), bytes.len()) =~= bytes);
    }
}

/// Two, four and eight bytes hold the values of `u16`, `u32` and `u64`.
pub proof fn lemma_le_limits()
    ensures
        le_limit(2) == u16::MAX + 1,
        le_limit(4) == u32::MAX + 1,
        le_limit(8) == u64::MAX + 1,
{
    reveal_with_fuel(le_limit, 9);
}

/// Two bytes spell out a number with the second counting two hundred fifty-six times the first.
pub proof fn law_le_value_2(bytes: Seq<u8>)
    requires
        bytes.len() == 2,
    ensures
        le_value(bytes) == bytes[0] + 0x100 * bytes[1],
{
    reveal_with_fuel(le_value, 3);
    assert(bytes.drop_first()[0] == bytes[1]);
}

/// Four bytes spell out a number with the lower two counting once and the upper two for the rest.
pub proof fn law_le_value_4(bytes: Seq<u8>)
    requires
        bytes.len() == 4,
    ensures
        le_value(bytes) == bytes[0] + 0x100 * bytes[1] + 0x1_0000 * bytes[2] + 0x100_0000
            * bytes[3],
{
    reveal_with_fuel(le_value, 5);
    let b1 = bytes.drop_first();
    let b2 = b1.drop_first();
    let b3 = b2.drop_first();
    assert(b1[0] == bytes[1] && b2[0] == bytes[2] && b3[0] == bytes[3]);
}

/// Eight bytes spell out the number that the first four do, and the last four two to the
/// thirty-second times.
pub proof fn law_le_value_8(bytes: Seq<u8>)
    requires
        bytes.len() == 8,
    ensures
        le_value(bytes) == bytes[0] + 0x100 * bytes[1] + 0x1_0000 * bytes[2] + 0x100_0000 * bytes[3]
            + 0x1_0000_0000 * (bytes[4] + 0x100 * bytes[5] + 0x1_0000 * bytes[6] + 0x100_0000
            * bytes[7]),
{
    reveal_with_fuel(le_value, 9);
    let b1 = bytes.drop_first();
    let b2 = b1.drop_first();
    let b3 = b2.drop_first();
    let b4 = b3.drop_first();
    let b5 = b4.drop_first();
    let b6 = b5.drop_first();
    let b7 = b6.drop_first();
    assert(b1[0] == bytes[1] && b2[0] == bytes[2] && b3[0] == bytes[3] && b4[0] == bytes[4]);
    assert(b5[0] == bytes[5] && b6[0] == bytes[6] && b7[0] == bytes[7]);
}

/// Overwriting changes the bytes from `at` on to those of `part`, and no other byte.
pub proof fn law_overwrite(bytes: Seq<u8>, at: int, part: Seq<u8>)
    requires
        0 <= at,
        at + part.len() <= bytes.len(),
    ensures
        overwrite(bytes, at, part).len() == bytes.len(),
        forall|i: int|
            0 <= i < bytes.len() ==> #[trigger] overwrite(bytes, at, part)[i] == if at <= i < at
                + part.len() {
                part[i - at]
            } else {
                bytes[i]
            },
{
}

/// Calls `LittleEndian::read_u16` of the byteorder crate on the bytes from `at` on: the result is
/// the number that the first two of them spell out. The call panics on fewer bytes.
#[verifier::external_body]
pub(crate) fn read_u16(buf: &[u8], at: usize) -> (value: u16)
    requires
        at + 2 <= buf@.len(),
    ensures
        value as nat == le_value(buf@.subrange(at as int, at + 2)),
{
    LittleEndian::read_u16(&buf[at..])
}

/// Calls `LittleEndian::read_u32` of the byteorder crate on the bytes from `at` on: the result is
/// the number that the first four of them spell out. The call panics on fewer bytes.
#[verifier::external_body]
pub(crate) fn read_u32(buf: &[u8], at: usize) -> (value: u32)
    requires
        at + 4 <= buf@.len(),
    ensures
        value as nat == le_value(buf@.subrange(at as int, at + 4)),
{
    LittleEndian::read_u32(&buf[at..])
}

/// Calls `LittleEndian::read_u64` of the byteorder crate on the bytes from `at` on: the result is
/// the number that the first eight of them spell out. The call panics on fewer bytes.
#[verifier::external_body]
pub(crate) fn read_u64(buf: &[u8], at: usize) -> (value: u64)
    requires
        at + 8 <= buf@.len(),
    ensures
        value as nat == le_value(buf@.subrange(at as int, at + 8)),
{
    LittleEndian::read_u64(&buf[at..])
}

/// Calls `LittleEndian::write_u16` of the byteorder crate on the bytes from `at` on: the first two
/// of them become those that spell out `value`, no other byte changes. The call panics on fewer
/// bytes.
#[verifier::external_body]
pub(crate) fn write_u16(buf: &mut [u8], at: usize, value: u16)
    requires
        at + 2 <= old(buf)@.len(),
    ensures
        final(buf)@ == overwrite(old(buf)@, at as int, le_bytes(value as nat, 2)),
{
    LittleEndian::write_u16(&mut buf[at..], value)
}

/// Calls `LittleEndian::write_u32` of the byteorder crate on the bytes from `at` on: the first four
/// of them become those that spell out `value`, no other byte changes. The call panics on fewer
/// bytes.
#[verifier::external_body]
pub(crate) fn write_u32(buf: &mut [u8], at: usize, value: u32)
    requires
        at + 4 <= old(buf)@.len(),
    ensures
        final(buf)@ == overwrite(old(buf)@, at as int, le_bytes(value as nat, 4)),
{
    LittleEndian::write_u32(&mut buf[at..], value)
}

/// Calls `LittleEndian::write_u64` of the byteorder crate on the bytes from `at` on: the first eight
/// of them become those that spell out `value`, no other byte changes. The call panics on fewer
/// bytes.
#[verifier::external_body]
pub(crate) fn write_u64(buf: &mut [u8], at: usize, value: u64)
    requires
        at + 8 <= old(buf)@.len(),
    ensures
        final(buf)@ == overwrite(old(buf)@, at as int, le_bytes(value as nat, 8)),
{
    LittleEndian::write_u64(&mut buf[at..], value)
}

} // verus!
