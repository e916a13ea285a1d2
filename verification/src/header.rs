//! The packet header: forty-four bytes, laid out as
//!
//! ```text
//! le64 src_cid;
//! le64 dst_cid;
//! le32 src_port;
//! le32 dst_port;
//! le32 len;
//! le16 type;
//! le16 op;
//! le32 flags;
//! le32 buf_alloc;
//! le32 fwd_cnt;
//! ```

use crate::le::{
    law_le_value_2, law_le_value_4, law_le_value_8, le_bytes, le_limit, le_value,
    lemma_bytes_of_value, lemma_le_bytes_len, lemma_le_limits, lemma_value_of_bytes, overwrite,
};
use vstd::prelude::*;

verus! {

/// The size of the packed packet header, in bytes.
pub const VSOCK_PKT_HDR_SIZE: usize = 44;

/// Where the source CID starts.
pub const HDROFF_SRC_CID: usize = 0;

/// Where the destination CID starts.
pub const HDROFF_DST_CID: usize = 8;

/// Where the source port starts.
pub const HDROFF_SRC_PORT: usize = 16;

/// Where the destination port starts.
pub const HDROFF_DST_PORT: usize = 20;

/// Where the data length starts. It is zero for a packet without data.
pub const HDROFF_LEN: usize = 24;

/// Where the socket type starts.
pub const HDROFF_TYPE: usize = 28;

/// Where the operation code starts.
pub const HDROFF_OP: usize = 30;

/// Where the flags that go with the operation start.
pub const HDROFF_FLAGS: usize = 32;

/// Where the size of the sender's receive buffer starts.
pub const HDROFF_BUF_ALLOC: usize = 36;

/// Where the count of bytes that the sender has received and consumed starts.
pub const HDROFF_FWD_CNT: usize = 40;

/// The values of the header fields.
pub struct Header {
    pub src_cid: u64,
    pub dst_cid: u64,
    pub src_port: u32,
    pub dst_port: u32,
    pub len: u32,
    pub type_: u16,
    pub op: u16,
    pub flags: u32,
    pub buf_alloc: u32,
    pub fwd_cnt: u32,
}

/// The number in the field of `width` bytes that starts at `at`.
pub open spec fn field(hdr: Seq<u8>, at: usize, width: nat) -> nat {
    le_value(hdr.subrange(at as int, at + width))
}

/// The field values that the header bytes `hdr` hold.
pub open spec fn decode(hdr: Seq<u8>) -> Header {
    Header {
        src_cid: field(hdr, HDROFF_SRC_CID, 8) as u64,
        dst_cid: field(hdr, HDROFF_DST_CID, 8) as u64,
        src_port: field(hdr, HDROFF_SRC_PORT, 4) as u32,
        dst_port: field(hdr, HDROFF_DST_PORT, 4) as u32,
        len: field(hdr, HDROFF_LEN, 4) as u32,
        type_: field(hdr, HDROFF_TYPE, 2) as u16,
        op: field(hdr, HDROFF_OP, 2) as u16,
        flags: field(hdr, HDROFF_FLAGS, 4) as u32,
        buf_alloc: field(hdr, HDROFF_BUF_ALLOC, 4) as u32,
        fwd_cnt: field(hdr, HDROFF_FWD_CNT, 4) as u32,
    }
}

/// The header bytes that hold the field values `header`.
pub open spec fn encode(header: Header) -> Seq<u8> {
    le_bytes(header.src_cid as nat, 8) + le_bytes(header.dst_cid as nat, 8) + le_bytes(
        header.src_port as nat,
        4,
    ) + le_bytes(header.dst_port as nat, 4) + le_bytes(header.len as nat, 4) + le_bytes(
        header.type_ as nat,
        2,
    ) + le_bytes(header.op as nat, 2) + le_bytes(header.flags as nat, 4) + le_bytes(
        header.buf_alloc as nat,
        4,
    ) + le_bytes(header.fwd_cnt as nat, 4)
}

/// Writing a number over the field at `at` puts it there, and leaves what lies on either side.
pub proof fn lemma_overwrite_field(hdr: Seq<u8>, at: usize, width: nat, value: nat)
    requires
        at + width <= hdr.len(),
        value < le_limit(width),
    ensures
        overwrite(hdr, at as int, le_bytes(value, width)).len() == hdr.len(),
        field(overwrite(hdr, at as int, le_bytes(value, width)), at, width) == value,
        forall|i: int, j: int|
            0 <= i <= j <= hdr.len() && (j <= at || at + width <= i)
                ==> #[trigger] overwrite(hdr, at as int, le_bytes(value, width)).subrange(i, j)
                == hdr.subrange(i, j),
{
    broadcast use lemma_le_bytes_len;

    let part = le_bytes(value, width);
    let new = overwrite(hdr, at as int, part);
    assert(new.subrange(at as int, at + width) =~= part);
    lemma_value_of_bytes(value, width);
    assert forall|i: int, j: int|
        0 <= i <= j <= hdr.len() && (j <= at || at + width <= i) implies #[trigger] new.subrange(
        i,
        j,
    ) == hdr.subrange(i, j) by {
        assert(new.subrange(i, j) =~= hdr.subrange(i, j));
    }
}

/// The number in the two bytes of `hdr` from `at` on.
spec fn two(hdr: Seq<u8>, at: int) -> int {
    hdr[at] + 0x100 * hdr[at + 1]
}

/// The number in the four bytes of `hdr` from `at` on.
spec fn four(hdr: Seq<u8>, at: int) -> int {
    two(hdr, at) + 0x1_0000 * two(hdr, at + 2)
}

proof fn lemma_two(hdr: Seq<u8>, at: usize)
    requires
        at + 2 <= hdr.len(),
    ensures
        field(hdr, at, 2) == two(hdr, at as int),
        field(hdr, at, 2) <= u16::MAX,
{
    law_le_value_2(hdr.subrange(at as int, at + 2));
}

proof fn lemma_four(hdr: Seq<u8>, at: usize)
    requires
        at + 4 <= hdr.len(),
    ensures
        field(hdr, at, 4) == four(hdr, at as int),
        field(hdr, at, 4) <= u32::MAX,
{
    law_le_value_4(hdr.subrange(at as int, at + 4));
}

proof fn lemma_eight(hdr: Seq<u8>, at: usize)
    requires
        at + 8 <= hdr.len(),
    ensures
        field(hdr, at, 8) == four(hdr, at as int) + 0x1_0000_0000 * four(hdr, at + 4),
        field(hdr, at, 8) <= u64::MAX,
{
    law_le_value_8(hdr.subrange(at as int, at + 8));
}

/// Each field is the number in its bytes, least significant byte first, and the fields lie one
/// behind the other.
pub proof fn law_layout(hdr: Seq<u8>)
    requires
        hdr.len() == 44,
    ensures
        decode(hdr).src_cid == hdr[0] + 0x100 * hdr[1] + 0x1_0000 * hdr[2] + 0x100_0000 * hdr[3]
            + 0x1_0000_0000 * (hdr[4] + 0x100 * hdr[5] + 0x1_0000 * hdr[6] + 0x100_0000 * hdr[7]),
        decode(hdr).dst_cid == hdr[8] + 0x100 * hdr[9] + 0x1_0000 * hdr[10] + 0x100_0000 * hdr[11]
            + 0x1_0000_0000 * (hdr[12] + 0x100 * hdr[13] + 0x1_0000 * hdr[14] + 0x100_0000
            * hdr[15]),
        decode(hdr).src_port == hdr[16] + 0x100 * hdr[17] + 0x1_0000 * hdr[18] + 0x100_0000
            * hdr[19],
        decode(hdr).dst_port == hdr[20] + 0x100 * hdr[21] + 0x1_0000 * hdr[22] + 0x100_0000
            * hdr[23],
        decode(hdr).len == hdr[24] + 0x100 * hdr[25] + 0x1_0000 * hdr[26] + 0x100_0000 * hdr[27],
        decode(hdr).type_ == hdr[28] + 0x100 * hdr[29],
        decode(hdr).op == hdr[30] + 0x100 * hdr[31],
        decode(hdr).flags == hdr[32] + 0x100 * hdr[33] + 0x1_0000 * hdr[34] + 0x100_0000 * hdr[35],
        decode(hdr).buf_alloc == hdr[36] + 0x100 * hdr[37] + 0x1_0000 * hdr[38] + 0x100_0000
            * hdr[39],
        decode(hdr).fwd_cnt == hdr[40] + 0x100 * hdr[41] + 0x1_0000 * hdr[42] + 0x100_0000
            * hdr[43],
{
    lemma_eight(hdr, HDROFF_SRC_CID);
    lemma_eight(hdr, HDROFF_DST_CID);
    lemma_four(hdr, HDROFF_SRC_PORT);
    lemma_four(hdr, HDROFF_DST_PORT);
    lemma_four(hdr, HDROFF_LEN);
    lemma_two(hdr, HDROFF_TYPE);
    lemma_two(hdr, HDROFF_OP);
    lemma_four(hdr, HDROFF_FLAGS);
    lemma_four(hdr, HDROFF_BUF_ALLOC);
    lemma_four(hdr, HDROFF_FWD_CNT);
}

/// The fields start where they do, and the header ends with the last.
pub proof fn law_offsets()
    ensures
        HDROFF_SRC_CID == 0,
        HDROFF_DST_CID == 8,
        HDROFF_SRC_PORT == 16,
        HDROFF_DST_PORT == 20,
        HDROFF_LEN == 24,
        HDROFF_TYPE == 28,
        HDROFF_OP == 30,
        HDROFF_FLAGS == 32,
        HDROFF_BUF_ALLOC == 36,
        HDROFF_FWD_CNT == 40,
        VSOCK_PKT_HDR_SIZE == 44,
{
}

/// Any field values can be stored in a header and read back from it.
pub proof fn law_decode_encode(header: Header)
    ensures
        encode(header).len() == VSOCK_PKT_HDR_SIZE,
        decode(encode(header)) == header,
{
    broadcast use lemma_le_bytes_len;

    lemma_le_limits();
    let hdr = encode(header);
    assert(hdr.subrange(0, 8) =~= le_bytes(header.src_cid as nat, 8));
    assert(hdr.subrange(8, 16) =~= le_bytes(header.dst_cid as nat, 8));
    assert(hdr.subrange(16, 20) =~= le_bytes(header.src_port as nat, 4));
    assert(hdr.subrange(20, 24) =~= le_bytes(header.dst_port as nat, 4));
    assert(hdr.subrange(24, 28) =~= le_bytes(header.len as nat, 4));
    assert(hdr.subrange(28, 30) =~= le_bytes(header.type_ as nat, 2));
    assert(hdr.subrange(30, 32) =~= le_bytes(header.op as nat, 2));
    assert(hdr.subrange(32, 36) =~= le_bytes(header.flags as nat, 4));
    assert(hdr.subrange(36, 40) =~= le_bytes(header.buf_alloc as nat, 4));
    assert(hdr.subrange(40, 44) =~= le_bytes(header.fwd_cnt as nat, 4));
    lemma_value_of_bytes(header.src_cid as nat, 8);
    lemma_value_of_bytes(header.dst_cid as nat, 8);
    lemma_value_of_bytes(header.src_port as nat, 4);
    lemma_value_of_bytes(header.dst_port as nat, 4);
    lemma_value_of_bytes(header.len as nat, 4);
    lemma_value_of_bytes(header.type_ as nat, 2);
    lemma_value_of_bytes(header.op as nat, 2);
    lemma_value_of_bytes(header.flags as nat, 4);
    lemma_value_of_bytes(header.buf_alloc as nat, 4);
    lemma_value_of_bytes(header.fwd_cnt as nat, 4);
}

/// The fields cover the header: its bytes are those that spell out its field values, so no two
/// headers have the same field values.
pub proof fn law_encode_decode(hdr: Seq<u8>)
    requires
        hdr.len() == VSOCK_PKT_HDR_SIZE,
    ensures
        encode(decode(hdr)) == hdr,
{
    lemma_le_limits();
    lemma_bytes_of_value(hdr.subrange(0, 8));
    lemma_bytes_of_value(hdr.subrange(8, 16));
    lemma_bytes_of_value(hdr.subrange(16, 20));
    lemma_bytes_of_value(hdr.subrange(20, 24));
    lemma_bytes_of_value(hdr.subrange(24, 28));
    lemma_bytes_of_value(hdr.subrange(28, 30));
    lemma_bytes_of_value(hdr.subrange(30, 32));
    lemma_bytes_of_value(hdr.subrange(32, 36));
    lemma_bytes_of_value(hdr.subrange(36, 40));
    lemma_bytes_of_value(hdr.subrange(40, 44));
    assert(encode(decode(hdr)) =~= hdr);
}

} // verus!
