//! The packet itself.

use crate::defs::MAX_PKT_BUF_SIZE;
use crate::error::VsockError;
use crate::guest::{
    guest_regions, lemma_mapped_prefix_fits, mapped, mapped_prefix, write_gives, Access, GuestRam,
    GuestWriter, WriterView,
};
use crate::guest_laws::law_mapped_prefix;
use crate::header::{
    decode, lemma_overwrite_field, Header, HDROFF_BUF_ALLOC, HDROFF_DST_CID, HDROFF_DST_PORT,
    HDROFF_FLAGS, HDROFF_FWD_CNT, HDROFF_LEN, HDROFF_OP, HDROFF_SRC_CID, HDROFF_SRC_PORT,
    HDROFF_TYPE, VSOCK_PKT_HDR_SIZE,
};
use crate::le::{
    law_overwrite, le_bytes, le_limit, le_value, lemma_le_bytes_len, lemma_le_limits, overwrite,
    read_u16, read_u32, read_u64, write_u16, write_u32, write_u64,
};
use vstd::prelude::*;

verus! {

/// A vsock packet: the header, which the first bytes of a descriptor chain hold, and the data, if
/// the packet has room for any.
///
/// Header and data live in host-owned storage. A packet that the guest sends holds a copy of its
/// data. A packet that the guest is to receive holds a buffer that is filled on the host and then
/// written back with [`VsockPacket::commit_buf`].
#[derive(Debug)]
pub struct VsockPacket {
    guest_hdr_addr: u64,
    hdr: [u8; VSOCK_PKT_HDR_SIZE],
    buf: Option<Vec<u8>>,
    guest_buf_addr: Option<u64>,
}

/// The contents of a packet.
#[verifier::ext_equal]
pub struct PacketView {
    /// Where the header lies in guest memory.
    pub hdr_addr: u64,
    /// The header bytes.
    pub hdr: Seq<u8>,
    /// The data buffer.
    pub buf: Option<Seq<u8>>,
    /// Where the data buffer is to be written back to.
    pub buf_addr: Option<u64>,
}

impl PacketView {
    /// The values of the header fields.
    pub open spec fn header(self) -> Header {
        decode(self.hdr)
    }

    /// The packet after `value` was written over the header field of `width` bytes at `at`.
    pub open spec fn with_field(self, at: usize, width: nat, value: nat) -> PacketView {
        PacketView { hdr: overwrite(self.hdr, at as int, le_bytes(value, width)), ..self }
    }

    /// What there is to write back of the data: the address, and the bytes that the header counts
    /// as data. It is nothing for a packet without data and for one that the guest sent, and the
    /// length must be one that a packet can have and that the buffer has room for.
    pub open spec fn data_to_commit(self) -> Result<Option<(u64, Seq<u8>)>, VsockError> {
        let len = self.header().len;
        if len > MAX_PKT_BUF_SIZE {
            Err(VsockError::InvalidPktLen(len))
        } else {
            match (self.buf, self.buf_addr) {
                (Some(buf), Some(addr)) => if len > buf.len() {
                    Err(VsockError::InvalidPktLen(len))
                } else if len == 0 {
                    Ok(None)
                } else {
                    Ok(Some((addr, buf.take(len as int))))
                },
                _ => Ok(None),
            }
        }
    }

    /// How many bytes of the header can be written back to `mem`: those before the first that is
    /// not backed by memory.
    pub open spec fn hdr_bytes_committed(self, mem: GuestRam) -> nat {
        mapped_prefix(guest_regions(mem), self.hdr_addr as int, VSOCK_PKT_HDR_SIZE as nat)
    }

    /// Whether the header can be written back to `mem`. It must fit as a whole.
    pub open spec fn commit_hdr_result(self, mem: GuestRam) -> Result<(), VsockError> {
        if self.header().len > MAX_PKT_BUF_SIZE {
            Err(VsockError::InvalidPktLen(self.header().len))
        } else if self.hdr_bytes_committed(mem) < VSOCK_PKT_HDR_SIZE {
            Err(VsockError::GuestMemory)
        } else {
            Ok(())
        }
    }

    /// Whether the data can be written back to `mem`, if there is any.
    pub open spec fn commit_buf_result(self, mem: GuestRam) -> Result<(), VsockError> {
        match self.data_to_commit() {
            Ok(Some((addr, bytes))) => if mapped_prefix(
                guest_regions(mem),
                addr as int,
                bytes.len(),
            ) < bytes.len() {
                Err(VsockError::GuestMemory)
            } else {
                Ok(())
            },
            Ok(None) => Ok(()),
            Err(error) => Err(error),
        }
    }

    /// That writing back the header led from `before` to `after`. With a length that no packet can
    /// have, nothing is written.
    pub open spec fn hdr_committed(self, before: WriterView, after: WriterView) -> bool {
        if self.header().len > MAX_PKT_BUF_SIZE {
            after == before
        } else {
            write_gives(before, after, self.hdr_addr, self.hdr)
        }
    }

    /// That writing back the data led from `before` to `after`. Unless there is data to write back,
    /// nothing is written.
    pub open spec fn buf_committed(self, before: WriterView, after: WriterView) -> bool {
        match self.data_to_commit() {
            Ok(Some((addr, bytes))) => write_gives(before, after, addr, bytes),
            _ => after == before,
        }
    }
}

/// The contents of an optional buffer.
pub open spec fn buf_view(buf: Option<Vec<u8>>) -> Option<Seq<u8>> {
    match buf {
        Some(b) => Some(b@),
        None => None,
    }
}

/// The contents of the packet, if there is one.
pub open spec fn packet_view(result: Result<VsockPacket, VsockError>) -> Result<
    PacketView,
    VsockError,
> {
    match result {
        Ok(packet) => Ok(packet@),
        Err(error) => Err(error),
    }
}

impl View for VsockPacket {
    type V = PacketView;

    closed spec fn view(&self) -> PacketView {
        PacketView {
            hdr_addr: self.guest_hdr_addr,
            hdr: self.hdr@,
            buf: buf_view(self.buf),
            buf_addr: self.guest_buf_addr,
        }
    }
}

impl VsockPacket {
    /// Every packet has a header of the same size.
    pub proof fn law_hdr_size(&self)
        ensures
            self@.hdr.len() == VSOCK_PKT_HDR_SIZE,
    {
    }

    /// Puts a packet together.
    pub(crate) fn new(
        guest_hdr_addr: u64,
        hdr: &Vec<u8>,
        buf: Option<Vec<u8>>,
        guest_buf_addr: Option<u64>,
    ) -> (packet: Self)
        requires
            hdr@.len() == VSOCK_PKT_HDR_SIZE,
        ensures
            packet@ == (PacketView {
                hdr_addr: guest_hdr_addr,
                hdr: hdr@,
                buf: buf_view(buf),
                buf_addr: guest_buf_addr,
            }),
    {
        let mut own: [u8; VSOCK_PKT_HDR_SIZE] = [0u8; VSOCK_PKT_HDR_SIZE];
        let mut i: usize = 0;
        while i < VSOCK_PKT_HDR_SIZE
            invariant
                i <= VSOCK_PKT_HDR_SIZE,
                hdr@.len() == VSOCK_PKT_HDR_SIZE,
                forall|k: int| 0 <= k < i ==> own@[k] == hdr@[k],
            decreases VSOCK_PKT_HDR_SIZE - i,
        {
            own[i] = hdr[i];
            i += 1;
        }
        assert(own@ =~= hdr@);
        VsockPacket { guest_hdr_addr, hdr: own, buf, guest_buf_addr }
    }

    /// The header bytes.
    pub fn hdr(&self) -> (hdr: &[u8])
        ensures
            hdr@ == self@.hdr,
            hdr@.len() == VSOCK_PKT_HDR_SIZE,
    {
        self.hdr.as_slice()
    }

    /// The header bytes, to be changed in place.
    pub fn hdr_mut(&mut self) -> (hdr: &mut [u8])
        ensures
            hdr@ == old(self)@.hdr,
            hdr@.len() == VSOCK_PKT_HDR_SIZE,
            final(self)@ == (PacketView { hdr: final(hdr)@, ..old(self)@ }),
    {
        &mut self.hdr
    }

    /// The header and where it is to be written back to, or an error if its length field holds a
    /// value that no packet can have.
    pub fn hdr_to_commit(&self) -> (to_write: Result<(u64, &[u8]), VsockError>)
        ensures
            match to_write {
                Ok((addr, bytes)) => {
                    &&& self@.header().len <= MAX_PKT_BUF_SIZE
                    &&& addr == self@.hdr_addr
                    &&& bytes@ == self@.hdr
                    &&& bytes@.len() == VSOCK_PKT_HDR_SIZE
                },
                Err(error) => {
                    &&& self@.header().len > MAX_PKT_BUF_SIZE
                    &&& error == VsockError::InvalidPktLen(self@.header().len)
                },
            },
    {
        if self.len() as usize > MAX_PKT_BUF_SIZE {
            return Err(VsockError::InvalidPktLen(self.len()));
        }
        Ok((self.guest_hdr_addr, self.hdr()))
    }

    /// Writes the header back to guest memory, and nothing else.
    ///
    /// Where guest memory ends inside the header, the part before that is written, and this is an
    /// error.
    pub fn commit_hdr(&mut self, guest_mem: &mut GuestWriter) -> (result: Result<(), VsockError>)
        ensures
            *final(self) == *old(self),
            old(self)@.hdr.len() == VSOCK_PKT_HDR_SIZE,
            result == old(self)@.commit_hdr_result(old(guest_mem)@.mem),
            old(self)@.hdr_committed(old(guest_mem)@, final(guest_mem)@),
            result is Ok ==> final(guest_mem)@.log == old(guest_mem)@.log.push(
                Access::Written { addr: old(self)@.hdr_addr, bytes: old(self)@.hdr },
            ),
    {
        let (addr, bytes) = match self.hdr_to_commit() {
            Ok(to_write) => to_write,
            Err(error) => return Err(error),
        };
        assert(bytes@.take(bytes@.len() as int) =~= bytes@);
        match guest_mem.write_slice(bytes, addr) {
            Ok(()) => Ok(()),
            Err(_) => Err(VsockError::GuestMemory),
        }
    }

    /// The data and where it is to be written back to, if there is any.
    pub fn buf_to_commit(&self) -> (to_write: Result<Option<(u64, &[u8])>, VsockError>)
        ensures
            match (to_write, self@.data_to_commit()) {
                (Ok(Some((addr, bytes))), Ok(Some((a, b)))) => addr == a && bytes@ == b,
                (Ok(None), Ok(None)) => true,
                (Err(error), Err(e)) => error == e,
                _ => false,
            },
    {
        let len: usize = self.len() as usize;
        if len > MAX_PKT_BUF_SIZE {
            return Err(VsockError::InvalidPktLen(self.len()));
        }
        let (buf, addr) = match (&self.buf, self.guest_buf_addr) {
            (Some(buf), Some(addr)) => (buf, addr),
            _ => return Ok(None),
        };
        if len > buf.len() {
            return Err(VsockError::InvalidPktLen(self.len()));
        }
        if len == 0 {
            return Ok(None);
        }
        let bytes = vstd::slice::slice_subrange(buf.as_slice(), 0, len);
        assert(bytes@ =~= buf@.take(len as int));
        Ok(Some((addr, bytes)))
    }

    /// Writes the data back to guest memory.
    ///
    /// This does nothing for a packet that the guest sent, whose data was copied when the packet
    /// was put together, and for one without data.
    pub fn commit_buf(&self, guest_mem: &mut GuestWriter) -> (result: Result<(), VsockError>)
        ensures
            result == self@.commit_buf_result(old(guest_mem)@.mem),
            self@.buf_committed(old(guest_mem)@, final(guest_mem)@),
            match (result, self@.data_to_commit()) {
                (Ok(()), Ok(Some((addr, bytes)))) => final(guest_mem)@.log == old(
                    guest_mem,
                )@.log.push(Access::Written { addr, bytes }),
                _ => true,
            },
    {
        match self.buf_to_commit() {
            Ok(Some((addr, bytes))) => {
                assert(bytes@.take(bytes@.len() as int) =~= bytes@);
                match guest_mem.write_slice(bytes, addr) {
                    Ok(()) => Ok(()),
                    Err(_) => Err(VsockError::GuestMemory),
                }
            },
            Ok(None) => Ok(()),
            Err(error) => Err(error),
        }
    }

    /// The data buffer, if the packet has one.
    ///
    /// For a packet that the guest sent it is as long as the data. For one that the guest is to
    /// receive it is as long as the guest has room for.
    pub fn buf(&self) -> (buf: Option<&[u8]>)
        ensures
            match buf {
                Some(b) => self@.buf == Some(b@),
                None => self@.buf is None,
            },
    {
        match &self.buf {
            Some(buf) => Some(buf.as_slice()),
            None => None,
        }
    }

    /// The data buffer, if the packet has one, to be changed in place.
    pub fn buf_mut(&mut self) -> (buf: Option<&mut [u8]>)
        ensures
            match buf {
                Some(b) => {
                    &&& old(self)@.buf == Some(b@)
                    &&& final(self)@ == (PacketView { buf: Some(final(b)@), ..old(self)@ })
                },
                None => old(self)@.buf is None && final(self)@ == old(self)@,
            },
    {
        match &mut self.buf {
            Some(buf) => Some(buf.as_mut_slice()),
            None => None,
        }
    }

    /// The source CID.
    pub fn src_cid(&self) -> (cid: u64)
        ensures
            cid == self@.header().src_cid,
    {
        read_u64(self.hdr(), HDROFF_SRC_CID)
    }

    /// Sets the source CID, and nothing else.
    pub fn set_src_cid(&mut self, cid: u64) -> (packet: &mut Self)
        ensures
            packet@ == old(self)@.with_field(HDROFF_SRC_CID, 8, cid as nat),
            packet@.header() == (Header { src_cid: cid, ..old(self)@.header() }),
            *final(self) == *final(packet),
    {
        proof {
            lemma_le_limits();
            lemma_overwrite_field(self@.hdr, HDROFF_SRC_CID, 8, cid as nat);
        }
        write_u64(self.hdr_mut(), HDROFF_SRC_CID, cid);
        self
    }

    /// The destination CID.
    pub fn dst_cid(&self) -> (cid: u64)
        ensures
            cid == self@.header().dst_cid,
    {
        read_u64(self.hdr(), HDROFF_DST_CID)
    }

    /// Sets the destination CID, and nothing else.
    pub fn set_dst_cid(&mut self, cid: u64) -> (packet: &mut Self)
        ensures
            packet@ == old(self)@.with_field(HDROFF_DST_CID, 8, cid as nat),
            packet@.header() == (Header { dst_cid: cid, ..old(self)@.header() }),
            *final(self) == *final(packet),
    {
        proof {
            lemma_le_limits();
            lemma_overwrite_field(self@.hdr, HDROFF_DST_CID, 8, cid as nat);
        }
        write_u64(self.hdr_mut(), HDROFF_DST_CID, cid);
        self
    }

    /// The source port.
    pub fn src_port(&self) -> (port: u32)
        ensures
            port == self@.header().src_port,
    {
        read_u32(self.hdr(), HDROFF_SRC_PORT)
    }

    /// Sets the source port, and nothing else.
    pub fn set_src_port(&mut self, port: u32) -> (packet: &mut Self)
        ensures
            packet@ == old(self)@.with_field(HDROFF_SRC_PORT, 4, port as nat),
            packet@.header() == (Header { src_port: port, ..old(self)@.header() }),
            *final(self) == *final(packet),
    {
        proof {
            lemma_le_limits();
            lemma_overwrite_field(self@.hdr, HDROFF_SRC_PORT, 4, port as nat);
        }
        write_u32(self.hdr_mut(), HDROFF_SRC_PORT, port);
        self
    }

    /// The destination port.
    pub fn dst_port(&self) -> (port: u32)
        ensures
            port == self@.header().dst_port,
    {
        read_u32(self.hdr(), HDROFF_DST_PORT)
    }

    /// Sets the destination port, and nothing else.
    pub fn set_dst_port(&mut self, port: u32) -> (packet: &mut Self)
        ensures
            packet@ == old(self)@.with_field(HDROFF_DST_PORT, 4, port as nat),
            packet@.header() == (Header { dst_port: port, ..old(self)@.header() }),
            *final(self) == *final(packet),
    {
        proof {
            lemma_le_limits();
            lemma_overwrite_field(self@.hdr, HDROFF_DST_PORT, 4, port as nat);
        }
        write_u32(self.hdr_mut(), HDROFF_DST_PORT, port);
        self
    }

    /// The number of data bytes.
    pub fn len(&self) -> (len: u32)
        ensures
            len == self@.header().len,
    {
        read_u32(self.hdr(), HDROFF_LEN)
    }

    /// Whether the packet has no data.
    pub fn is_empty(&self) -> (empty: bool)
        ensures
            empty == (self@.header().len == 0),
    {
        self.len() == 0
    }

    /// Sets the number of data bytes, and nothing else.
    pub fn set_len(&mut self, len: u32) -> (packet: &mut Self)
        ensures
            packet@ == old(self)@.with_field(HDROFF_LEN, 4, len as nat),
            packet@.header() == (Header { len: len, ..old(self)@.header() }),
            *final(self) == *final(packet),
    {
        proof {
            lemma_le_limits();
            lemma_overwrite_field(self@.hdr, HDROFF_LEN, 4, len as nat);
        }
        write_u32(self.hdr_mut(), HDROFF_LEN, len);
        self
    }

    /// The socket type.
    pub fn type_(&self) -> (type_: u16)
        ensures
            type_ == self@.header().type_,
    {
        read_u16(self.hdr(), HDROFF_TYPE)
    }

    /// Sets the socket type, and nothing else.
    pub fn set_type(&mut self, type_: u16) -> (packet: &mut Self)
        ensures
            packet@ == old(self)@.with_field(HDROFF_TYPE, 2, type_ as nat),
            packet@.header() == (Header { type_: type_, ..old(self)@.header() }),
            *final(self) == *final(packet),
    {
        proof {
            lemma_le_limits();
            lemma_overwrite_field(self@.hdr, HDROFF_TYPE, 2, type_ as nat);
        }
        write_u16(self.hdr_mut(), HDROFF_TYPE, type_);
        self
    }

    /// The operation.
    pub fn op(&self) -> (op: u16)
        ensures
            op == self@.header().op,
    {
        read_u16(self.hdr(), HDROFF_OP)
    }

    /// Sets the operation, and nothing else.
    pub fn set_op(&mut self, op: u16) -> (packet: &mut Self)
        ensures
            packet@ == old(self)@.with_field(HDROFF_OP, 2, op as nat),
            packet@.header() == (Header { op: op, ..old(self)@.header() }),
            *final(self) == *final(packet),
    {
        proof {
            lemma_le_limits();
            lemma_overwrite_field(self@.hdr, HDROFF_OP, 2, op as nat);
        }
        write_u16(self.hdr_mut(), HDROFF_OP, op);
        self
    }

    /// The flags of the operation.
    pub fn flags(&self) -> (flags: u32)
        ensures
            flags == self@.header().flags,
    {
        read_u32(self.hdr(), HDROFF_FLAGS)
    }

    /// Sets the flags of the operation, and nothing else.
    pub fn set_flags(&mut self, flags: u32) -> (packet: &mut Self)
        ensures
            packet@ == old(self)@.with_field(HDROFF_FLAGS, 4, flags as nat),
            packet@.header() == (Header { flags: flags, ..old(self)@.header() }),
            *final(self) == *final(packet),
    {
        proof {
            lemma_le_limits();
            lemma_overwrite_field(self@.hdr, HDROFF_FLAGS, 4, flags as nat);
        }
        write_u32(self.hdr_mut(), HDROFF_FLAGS, flags);
        self
    }

    /// Sets the bits of `flag` in the flags of the operation, and nothing else.
    pub fn set_flag(&mut self, flag: u32) -> (packet: &mut Self)
        ensures
            packet@ == old(self)@.with_field(
                HDROFF_FLAGS,
                4,
                (old(self)@.header().flags | flag) as nat,
            ),
            packet@.header() == (Header {
                flags: old(self)@.header().flags | flag,
                ..old(self)@.header()
            }),
            *final(self) == *final(packet),
    {
        let flags: u32 = self.flags() | flag;
        self.set_flags(flags);
        self
    }

    /// The size of the sender's receive buffer.
    pub fn buf_alloc(&self) -> (buf_alloc: u32)
        ensures
            buf_alloc == self@.header().buf_alloc,
    {
        read_u32(self.hdr(), HDROFF_BUF_ALLOC)
    }

    /// Sets the size of the sender's receive buffer, and nothing else.
    pub fn set_buf_alloc(&mut self, buf_alloc: u32) -> (packet: &mut Self)
        ensures
            packet@ == old(self)@.with_field(HDROFF_BUF_ALLOC, 4, buf_alloc as nat),
            packet@.header() == (Header { buf_alloc: buf_alloc, ..old(self)@.header() }),
            *final(self) == *final(packet),
    {
        proof {
            lemma_le_limits();
            lemma_overwrite_field(self@.hdr, HDROFF_BUF_ALLOC, 4, buf_alloc as nat);
        }
        write_u32(self.hdr_mut(), HDROFF_BUF_ALLOC, buf_alloc);
        self
    }

    /// The number of bytes that the sender has received and consumed.
    pub fn fwd_cnt(&self) -> (fwd_cnt: u32)
        ensures
            fwd_cnt == self@.header().fwd_cnt,
    {
        read_u32(self.hdr(), HDROFF_FWD_CNT)
    }

    /// Sets the number of bytes that the sender has received and consumed, and nothing else.
    pub fn set_fwd_cnt(&mut self, fwd_cnt: u32) -> (packet: &mut Self)
        ensures
            packet@ == old(self)@.with_field(HDROFF_FWD_CNT, 4, fwd_cnt as nat),
            packet@.header() == (Header { fwd_cnt: fwd_cnt, ..old(self)@.header() }),
            *final(self) == *final(packet),
    {
        proof {
            lemma_le_limits();
            lemma_overwrite_field(self@.hdr, HDROFF_FWD_CNT, 4, fwd_cnt as nat);
        }
        write_u32(self.hdr_mut(), HDROFF_FWD_CNT, fwd_cnt);
        self
    }
}

/// Writing over a header field puts the value there, least significant byte first, and leaves all
/// other bytes of the header, the data buffer and the addresses as they are.
pub proof fn law_with_field(packet: PacketView, at: usize, width: nat, value: nat)
    requires
        at + width <= packet.hdr.len(),
        value < le_limit(width),
    ensures
        ({
            let after = packet.with_field(at, width, value);
            &&& after.hdr_addr == packet.hdr_addr
            &&& after.buf == packet.buf
            &&& after.buf_addr == packet.buf_addr
            &&& after.hdr.len() == packet.hdr.len()
            &&& le_value(after.hdr.subrange(at as int, at + width)) == value
            &&& forall|i: int|
                0 <= i < packet.hdr.len() && !(at <= i < at + width) ==> #[trigger] after.hdr[i]
                    == packet.hdr[i]
        }),
{
    lemma_overwrite_field(packet.hdr, at, width, value);
    lemma_le_bytes_len(value, width);
    law_overwrite(packet.hdr, at as int, le_bytes(value, width));
}

/// What there is to write back of the data is what the header counts of the buffer, from its start
/// on, if there is both a buffer and a place for it.
pub proof fn law_data_to_commit(packet: PacketView)
    ensures
        match packet.data_to_commit() {
            Ok(Some((addr, bytes))) => {
                &&& packet.buf_addr == Some(addr)
                &&& packet.buf matches Some(buf)
                &&& 0 < packet.header().len <= 0x1_0000
                &&& packet.header().len <= buf.len()
                &&& bytes.len() == packet.header().len
                &&& forall|i: int| 0 <= i < bytes.len() ==> #[trigger] bytes[i] == buf[i]
            },
            Ok(None) => {
                ||| packet.header().len == 0
                ||| packet.header().len <= 0x1_0000 && (packet.buf is None || packet.buf_addr
                    is None)
            },
            Err(error) => {
                &&& error == VsockError::InvalidPktLen(packet.header().len)
                &&& packet.header().len > 0x1_0000 || (packet.buf matches Some(buf)
                    && packet.buf_addr is Some && packet.header().len > buf.len())
            },
        },
{
}

/// Committing the data of a packet that has a buffer and a place to write it back to, with a length
/// that fits, does so: it fails only if guest memory does not back all of these bytes, and when it
/// succeeds, just these bytes were written there, in one write.
pub proof fn law_commit_buf_writes(
    packet: PacketView,
    buf: Seq<u8>,
    addr: u64,
    before: WriterView,
    after: WriterView,
)
    requires
        packet.buf == Some(buf),
        packet.buf_addr == Some(addr),
        0 < packet.header().len <= buf.len(),
        packet.header().len <= 0x1_0000,
        packet.buf_committed(before, after),
    ensures
        match packet.commit_buf_result(before.mem) {
            Ok(()) => {
                &&& after.mem == before.mem
                &&& after.log == before.log.push(
                    Access::Written { addr, bytes: buf.take(packet.header().len as int) },
                )
            },
            Err(error) => {
                &&& error == VsockError::GuestMemory
                &&& exists|i: int|
                    0 <= i < packet.header().len && !(#[trigger] mapped(
                        guest_regions(before.mem),
                        addr + i,
                    ))
            },
        },
{
    let len = packet.header().len as nat;
    let regions = guest_regions(before.mem);
    law_mapped_prefix(regions, addr as int, len);
    let n = mapped_prefix(regions, addr as int, len);
    assert(buf.take(len as int).take(len as int) =~= buf.take(len as int));
    if n < len {
        assert(!mapped(regions, addr + n));
    }
}

/// Committing the data does not fail where guest memory backs all of the bytes that the header
/// counts.
pub proof fn law_commit_buf_succeeds(packet: PacketView, buf: Seq<u8>, addr: u64, mem: GuestRam)
    requires
        packet.buf == Some(buf),
        packet.buf_addr == Some(addr),
        packet.header().len <= buf.len(),
        packet.header().len <= 0x1_0000,
        forall|i: int|
            0 <= i < packet.header().len ==> #[trigger] mapped(guest_regions(mem), addr + i),
    ensures
        packet.commit_buf_result(mem) is Ok,
{
    let len = packet.header().len as nat;
    law_mapped_prefix(guest_regions(mem), addr as int, len);
}

/// Committing the data writes nothing where there is no buffer, no place to write it back to, or a
/// length that does not fit. Only the last of these is an error.
pub proof fn law_commit_buf_writes_nothing(
    packet: PacketView,
    before: WriterView,
    after: WriterView,
)
    requires
        packet.buf_committed(before, after),
        packet.buf is None || packet.buf_addr is None || packet.header().len == 0
            || packet.header().len > 0x1_0000 || packet.header().len > packet.buf->0.len(),
    ensures
        after == before,
        packet.commit_buf_result(before.mem) == if packet.header().len > 0x1_0000 || (packet.buf
            is Some && packet.buf_addr is Some && packet.header().len > packet.buf->0.len()) {
            Err::<(), VsockError>(VsockError::InvalidPktLen(packet.header().len))
        } else {
            Ok::<(), VsockError>(())
        },
{
}

/// Committing a header writes all of it, in one write and nothing else, and succeeds, if its length
/// field holds no more than a packet may have and guest memory backs all of its bytes. It writes
/// nothing with a length that is too large.
pub proof fn law_commit_hdr_writes(packet: PacketView, before: WriterView, after: WriterView)
    requires
        packet.hdr.len() == 44,
        packet.hdr_committed(before, after),
    ensures
        match packet.commit_hdr_result(before.mem) {
            Ok(()) => {
                &&& packet.header().len <= 0x1_0000
                &&& forall|i: int|
                    0 <= i < 44 ==> #[trigger] mapped(
                        guest_regions(before.mem),
                        packet.hdr_addr + i,
                    )
                &&& after.mem == before.mem
                &&& after.log == before.log.push(
                    Access::Written { addr: packet.hdr_addr, bytes: packet.hdr },
                )
            },
            Err(VsockError::InvalidPktLen(len)) => {
                &&& len == packet.header().len
                &&& len > 0x1_0000
                &&& after == before
            },
            Err(error) => {
                &&& error == VsockError::GuestMemory
                &&& packet.header().len <= 0x1_0000
                &&& exists|i: int|
                    0 <= i < 44 && !(#[trigger] mapped(
                        guest_regions(before.mem),
                        packet.hdr_addr + i,
                    ))
            },
        },
{
    let regions = guest_regions(before.mem);
    law_mapped_prefix(regions, packet.hdr_addr as int, 44);
    let n = mapped_prefix(regions, packet.hdr_addr as int, 44);
    assert(packet.hdr.take(44) =~= packet.hdr);
    if n < 44 {
        assert(!mapped(regions, packet.hdr_addr + n));
    }
}

/// The contents of a result are those of the packet in it.
pub proof fn law_packet_view(packet: VsockPacket, error: VsockError)
    ensures
        packet_view(Ok(packet)) == Ok::<PacketView, VsockError>(packet@),
        packet_view(Err(error)) == Err::<PacketView, VsockError>(error),
{
}

/// The contents of an optional buffer are its bytes.
pub proof fn law_buf_view(buf: Vec<u8>)
    ensures
        buf_view(Some(buf)) == Some(buf@),
        buf_view(None) is None,
{
}

/// Committing the data of a packet that the guest sent writes nothing, and that is a success unless
/// the length is one that no packet can have.
pub proof fn law_sent_data_stays(packet: PacketView, before: WriterView, after: WriterView)
    requires
        packet.buf_addr is None,
        packet.buf_committed(before, after),
    ensures
        after == before,
        packet.header().len <= MAX_PKT_BUF_SIZE ==> packet.commit_buf_result(before.mem) == Ok::<
            (),
            VsockError,
        >(()),
{
}

/// Committing the data of a packet without data writes nothing, and that is a success.
pub proof fn law_empty_packet_commits_nothing(
    packet: PacketView,
    before: WriterView,
    after: WriterView,
)
    requires
        packet.header().len == 0,
        packet.buf_committed(before, after),
    ensures
        after == before,
        packet.commit_buf_result(before.mem) == Ok::<(), VsockError>(()),
{
}

/// A header is committed exactly if its length is one that a packet can have and guest memory backs
/// all of it.
pub proof fn law_mapped_hdr_is_written(mem: GuestRam, packet: PacketView)
    ensures
        packet.commit_hdr_result(mem) is Ok <==> packet.header().len <= MAX_PKT_BUF_SIZE
            && packet.hdr_bytes_committed(mem) == VSOCK_PKT_HDR_SIZE,
{
    lemma_mapped_prefix_fits(
        guest_regions(mem),
        packet.hdr_addr as int,
        VSOCK_PKT_HDR_SIZE as nat,
    );
}

/// A header that was committed was written as a whole, in one write, and nothing else was.
pub proof fn law_hdr_is_written_whole(packet: PacketView, before: WriterView, after: WriterView)
    requires
        packet.hdr.len() == VSOCK_PKT_HDR_SIZE,
        packet.hdr_committed(before, after),
        packet.commit_hdr_result(before.mem) is Ok,
    ensures
        after.mem == before.mem,
        after.log == before.log.push(
            Access::Written { addr: packet.hdr_addr, bytes: packet.hdr },
        ),
{
    law_mapped_hdr_is_written(before.mem, packet);
    assert(packet.hdr.take(VSOCK_PKT_HDR_SIZE as int) =~= packet.hdr);
}

/// Data that was committed was written as a whole, in one write, and nothing else was.
pub proof fn law_data_is_written_whole(
    packet: PacketView,
    addr: u64,
    data: Seq<u8>,
    before: WriterView,
    after: WriterView,
)
    requires
        packet.data_to_commit() == Ok::<Option<(u64, Seq<u8>)>, VsockError>(Some((addr, data))),
        packet.buf_committed(before, after),
        packet.commit_buf_result(before.mem) is Ok,
    ensures
        after.mem == before.mem,
        after.log == before.log.push(Access::Written { addr, bytes: data }),
{
    lemma_mapped_prefix_fits(guest_regions(before.mem), addr as int, data.len());
    assert(data.take(data.len() as int) =~= data);
}

/// With a length that no packet can have, neither header nor data is written, and that is an error.
pub proof fn law_invalid_len_commits_nothing(
    packet: PacketView,
    before: WriterView,
    after: WriterView,
)
    requires
        packet.header().len > MAX_PKT_BUF_SIZE,
        packet.hdr_committed(before, after) || packet.buf_committed(before, after),
    ensures
        after == before,
        packet.commit_hdr_result(before.mem) == Err::<(), VsockError>(
            VsockError::InvalidPktLen(packet.header().len),
        ),
        packet.commit_buf_result(before.mem) == Err::<(), VsockError>(
            VsockError::InvalidPktLen(packet.header().len),
        ),
{
}

/// Setting a flag sets its bits and clears none, and setting it again changes nothing.
pub proof fn law_set_flag(flags: u32, flag: u32)
    ensures
        (flags | flag) & flag == flag,
        (flags | flag) & flags == flags,
        (flags | flag) | flag == flags | flag,
{
    assert((flags | flag) & flag == flag) by (bit_vector);
    assert((flags | flag) & flags == flags) by (bit_vector);
    assert((flags | flag) | flag == flags | flag) by (bit_vector);
}

} // verus!
