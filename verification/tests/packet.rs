//! Packets on real descriptor chains in real guest memory.

use byteorder::{ByteOrder, LittleEndian};
use virtio_bindings::virtio_ring::{VRING_DESC_F_NEXT, VRING_DESC_F_WRITE};
use virtio_queue::desc::split::Descriptor as SplitDescriptor;
use virtio_queue::desc::RawDescriptor;
use virtio_queue::mock::MockSplitQueue;
use virtio_queue::{DescriptorChain, Queue, QueueOwnedT};
use vm_memory::{Bytes, GuestAddress, GuestMemoryMmap};
use vsock_packet::defs::MAX_PKT_BUF_SIZE;
use vsock_packet::error::VsockError;
use vsock_packet::guest::{GuestChain, GuestWriter, Translator};
use vsock_packet::header::{
    HDROFF_BUF_ALLOC, HDROFF_DST_CID, HDROFF_DST_PORT, HDROFF_FLAGS, HDROFF_FWD_CNT, HDROFF_LEN,
    HDROFF_OP, HDROFF_SRC_CID, HDROFF_SRC_PORT, HDROFF_TYPE, VSOCK_PKT_HDR_SIZE,
};
use vsock_packet::packet::VsockPacket;

const NEXT: u16 = VRING_DESC_F_NEXT as u16;
const WRITE: u16 = VRING_DESC_F_WRITE as u16;

/// One descriptor of a guest queue.
#[derive(Clone, Copy)]
struct Desc {
    addr: u64,
    len: u32,
    flags: u16,
    next: u16,
}

/// A queue whose descriptors can be changed until the chain is taken.
struct GuestQ {
    start: u64,
    dtable: Vec<Desc>,
}

impl GuestQ {
    fn chain<'a>(&self, mem: &'a GuestMemoryMmap<()>) -> DescriptorChain<&'a GuestMemoryMmap<()>> {
        let vq = MockSplitQueue::create(mem, GuestAddress(self.start), self.dtable.len() as u16);
        for (i, d) in self.dtable.iter().enumerate() {
            let desc = SplitDescriptor::new(d.addr, d.len, d.flags, d.next);
            vq.desc_table()
                .store(i as u16, RawDescriptor::from(desc))
                .unwrap();
        }
        vq.avail().ring().ref_at(0).unwrap().store(u16::to_le(0));
        vq.avail().idx().store(u16::to_le(1));
        let mut queue: Queue = vq.create_queue().unwrap();
        let chain = queue.iter(mem).unwrap().next().unwrap();
        chain
    }
}

/// Guest memory with one chain in a receive queue and one in a transmit queue.
struct TestContext {
    mem: GuestMemoryMmap<()>,
    guest_rxvq: GuestQ,
    guest_txvq: GuestQ,
}

impl TestContext {
    fn new() -> Self {
        let mem = GuestMemoryMmap::from_ranges(&[(GuestAddress(0), 128 << 20)]).unwrap();
        let ctx = TestContext {
            mem,
            guest_rxvq: GuestQ {
                start: 0x0010_0000,
                dtable: vec![
                    Desc {
                        addr: 0x0040_0000,
                        len: VSOCK_PKT_HDR_SIZE as u32,
                        flags: WRITE | NEXT,
                        next: 1,
                    },
                    Desc {
                        addr: 0x0040_1000,
                        len: 4096,
                        flags: WRITE,
                        next: 0,
                    },
                ],
            },
            guest_txvq: GuestQ {
                start: 0x0020_0000,
                dtable: vec![
                    Desc {
                        addr: 0x0050_0000,
                        len: VSOCK_PKT_HDR_SIZE as u32,
                        flags: NEXT,
                        next: 1,
                    },
                    Desc {
                        addr: 0x0050_1000,
                        len: 4096,
                        flags: 0,
                        next: 0,
                    },
                ],
            },
        };
        // For TX packets, hdr.len should be set to a valid value.
        set_pkt_len(1024, &ctx.guest_txvq.dtable[0], &ctx.mem);
        ctx
    }

    fn tx(&self) -> Result<VsockPacket, VsockError> {
        VsockPacket::from_tx_virtq_head(
            &mut GuestChain::new(self.guest_txvq.chain(&self.mem)),
            &mut Translator::new(None),
        )
    }

    fn rx(&self) -> Result<VsockPacket, VsockError> {
        VsockPacket::from_rx_virtq_head(
            &mut GuestChain::new(self.guest_rxvq.chain(&self.mem)),
            &mut Translator::new(None),
        )
    }
}

fn set_pkt_len(len: u32, guest_desc: &Desc, mem: &GuestMemoryMmap<()>) {
    let hdr_gpa = guest_desc.addr;
    mem.write_slice(
        &len.to_le_bytes(),
        GuestAddress(hdr_gpa + HDROFF_LEN as u64),
    )
    .unwrap();
}

fn asm_error(result: Result<VsockPacket, VsockError>) -> VsockError {
    match result {
        Err(err) => err,
        Ok(_) => panic!("Packet assembly should've failed!"),
    }
}

#[test]
fn test_tx_packet_assembly() {
    // Test case: successful TX packet assembly.
    {
        let ctx = TestContext::new();
        let pkt = ctx.tx().unwrap();
        assert_eq!(pkt.hdr().len(), VSOCK_PKT_HDR_SIZE);
        // For TX packets, the host-owned buf is sized to the packet length (the bytes
        // copied out of guest memory at construction), not to the descriptor capacity.
        assert_eq!(pkt.buf().unwrap().len(), pkt.len() as usize);
        assert_eq!(pkt.len(), 1024);
    }

    // Test case: error on write-only hdr descriptor.
    {
        let mut ctx = TestContext::new();
        ctx.guest_txvq.dtable[0].flags = WRITE;
        assert!(matches!(
            asm_error(ctx.tx()),
            VsockError::UnreadableDescriptor
        ));
    }

    // Test case: header descriptor has insufficient space to hold the packet header.
    {
        let mut ctx = TestContext::new();
        ctx.guest_txvq.dtable[0].len = VSOCK_PKT_HDR_SIZE as u32 - 1;
        assert!(matches!(
            asm_error(ctx.tx()),
            VsockError::HdrDescTooSmall(43)
        ));
    }

    // Test case: zero-length TX packet.
    {
        let ctx = TestContext::new();
        set_pkt_len(0, &ctx.guest_txvq.dtable[0], &ctx.mem);
        let mut pkt = ctx.tx().unwrap();
        assert!(pkt.buf().is_none());
        assert!(pkt.buf_mut().is_none());
    }

    // Test case: TX packet has more data than we can handle.
    {
        let ctx = TestContext::new();
        set_pkt_len(
            MAX_PKT_BUF_SIZE as u32 + 1,
            &ctx.guest_txvq.dtable[0],
            &ctx.mem,
        );
        match asm_error(ctx.tx()) {
            VsockError::InvalidPktLen(n) => assert_eq!(n, MAX_PKT_BUF_SIZE as u32 + 1),
            other => panic!("Packet assembly failed with: {:?}", other),
        }
    }

    // Test case: error on write-only buf descriptor.
    {
        let mut ctx = TestContext::new();
        ctx.guest_txvq.dtable[1].flags = WRITE;
        assert!(matches!(
            asm_error(ctx.tx()),
            VsockError::UnreadableDescriptor
        ));
    }

    // Test case: the buffer descriptor cannot fit all the data advertised by the
    // packet header `len` field.
    {
        let mut ctx = TestContext::new();
        set_pkt_len(8 * 1024, &ctx.guest_txvq.dtable[0], &ctx.mem);
        ctx.guest_txvq.dtable[1].len = 4 * 1024;
        assert!(matches!(asm_error(ctx.tx()), VsockError::BufDescTooSmall));
    }
}

#[test]
fn test_tx_packet_assembly_multi_desc() {
    let ctx = TestContext::new();
    let guest_txvq = GuestQ {
        start: 0x0060_0000,
        dtable: vec![
            Desc {
                addr: 0x0061_0000,
                len: VSOCK_PKT_HDR_SIZE as u32,
                flags: NEXT,
                next: 1,
            },
            Desc {
                addr: 0x0061_1000,
                len: 4 * 1024,
                flags: NEXT,
                next: 2,
            },
            Desc {
                addr: 0x0061_2000,
                len: 4 * 1024,
                flags: 0,
                next: 0,
            },
            Desc {
                addr: 0,
                len: 0,
                flags: 0,
                next: 0,
            },
        ],
    };
    set_pkt_len(8 * 1024, &guest_txvq.dtable[0], &ctx.mem);

    let pkt = VsockPacket::from_tx_virtq_head(
        &mut GuestChain::new(guest_txvq.chain(&ctx.mem)),
        &mut Translator::new(None),
    )
    .unwrap();

    assert_eq!(pkt.len(), 8 * 1024);
    assert_eq!(pkt.buf().unwrap().len(), 8 * 1024);
}

#[test]
fn test_rx_packet_assembly() {
    // Test case: successful RX packet assembly.
    {
        let ctx = TestContext::new();
        let pkt = ctx.rx().unwrap();
        assert_eq!(pkt.hdr().len(), VSOCK_PKT_HDR_SIZE);
        assert_eq!(
            pkt.buf().unwrap().len(),
            ctx.guest_rxvq.dtable[1].len as usize
        );
    }

    // Test case: read-only RX packet header.
    {
        let mut ctx = TestContext::new();
        ctx.guest_rxvq.dtable[0].flags = 0;
        assert!(matches!(
            asm_error(ctx.rx()),
            VsockError::UnwritableDescriptor
        ));
    }

    // Test case: RX descriptor head cannot fit the entire packet header.
    {
        let mut ctx = TestContext::new();
        ctx.guest_rxvq.dtable[0].len = VSOCK_PKT_HDR_SIZE as u32 - 1;
        assert!(matches!(
            asm_error(ctx.rx()),
            VsockError::HdrDescTooSmall(43)
        ));
    }
}

#[test]
fn test_packet_hdr_accessors() {
    const SRC_CID: u64 = 1;
    const DST_CID: u64 = 2;
    const SRC_PORT: u32 = 3;
    const DST_PORT: u32 = 4;
    const LEN: u32 = 5;
    const TYPE: u16 = 6;
    const OP: u16 = 7;
    const FLAGS: u32 = 8;
    const BUF_ALLOC: u32 = 9;
    const FWD_CNT: u32 = 10;

    let ctx = TestContext::new();
    let mut pkt = ctx.rx().unwrap();

    // Test field accessors.
    pkt.set_src_cid(SRC_CID)
        .set_dst_cid(DST_CID)
        .set_src_port(SRC_PORT)
        .set_dst_port(DST_PORT)
        .set_len(LEN)
        .set_type(TYPE)
        .set_op(OP)
        .set_flags(FLAGS)
        .set_buf_alloc(BUF_ALLOC)
        .set_fwd_cnt(FWD_CNT);

    assert_eq!(pkt.src_cid(), SRC_CID);
    assert_eq!(pkt.dst_cid(), DST_CID);
    assert_eq!(pkt.src_port(), SRC_PORT);
    assert_eq!(pkt.dst_port(), DST_PORT);
    assert_eq!(pkt.len(), LEN);
    assert_eq!(pkt.type_(), TYPE);
    assert_eq!(pkt.op(), OP);
    assert_eq!(pkt.flags(), FLAGS);
    assert_eq!(pkt.buf_alloc(), BUF_ALLOC);
    assert_eq!(pkt.fwd_cnt(), FWD_CNT);

    // Test individual flag setting.
    let flags = pkt.flags() | 0b1000;
    pkt.set_flag(0b1000);
    assert_eq!(pkt.flags(), flags);

    // Test packet header as-slice access.
    assert_eq!(pkt.hdr().len(), VSOCK_PKT_HDR_SIZE);

    assert_eq!(
        SRC_CID,
        LittleEndian::read_u64(&pkt.hdr()[HDROFF_SRC_CID..])
    );
    assert_eq!(
        DST_CID,
        LittleEndian::read_u64(&pkt.hdr()[HDROFF_DST_CID..])
    );
    assert_eq!(
        SRC_PORT,
        LittleEndian::read_u32(&pkt.hdr()[HDROFF_SRC_PORT..])
    );
    assert_eq!(
        DST_PORT,
        LittleEndian::read_u32(&pkt.hdr()[HDROFF_DST_PORT..])
    );
    assert_eq!(LEN, LittleEndian::read_u32(&pkt.hdr()[HDROFF_LEN..]));
    assert_eq!(TYPE, LittleEndian::read_u16(&pkt.hdr()[HDROFF_TYPE..]));
    assert_eq!(OP, LittleEndian::read_u16(&pkt.hdr()[HDROFF_OP..]));
    assert_eq!(FLAGS, LittleEndian::read_u32(&pkt.hdr()[HDROFF_FLAGS..]));
    assert_eq!(
        BUF_ALLOC,
        LittleEndian::read_u32(&pkt.hdr()[HDROFF_BUF_ALLOC..])
    );
    assert_eq!(
        FWD_CNT,
        LittleEndian::read_u32(&pkt.hdr()[HDROFF_FWD_CNT..])
    );

    assert_eq!(pkt.hdr_mut().len(), VSOCK_PKT_HDR_SIZE);
    for b in pkt.hdr_mut() {
        *b = 0;
    }
    assert_eq!(pkt.src_cid(), 0);
    assert_eq!(pkt.dst_cid(), 0);
    assert_eq!(pkt.src_port(), 0);
    assert_eq!(pkt.dst_port(), 0);
    assert_eq!(pkt.len(), 0);
    assert_eq!(pkt.type_(), 0);
    assert_eq!(pkt.op(), 0);
    assert_eq!(pkt.flags(), 0);
    assert_eq!(pkt.buf_alloc(), 0);
    assert_eq!(pkt.fwd_cnt(), 0);
}

#[test]
fn test_packet_buf() {
    let ctx = TestContext::new();
    let mut pkt = ctx.rx().unwrap();

    assert_eq!(
        pkt.buf().unwrap().len(),
        ctx.guest_rxvq.dtable[1].len as usize
    );
    assert_eq!(
        pkt.buf_mut().unwrap().len(),
        ctx.guest_rxvq.dtable[1].len as usize
    );

    for i in 0..pkt.buf().unwrap().len() {
        pkt.buf_mut().unwrap()[i] = (i % 0x100) as u8;
        assert_eq!(pkt.buf().unwrap()[i], (i % 0x100) as u8);
    }
}

#[test]
fn test_tx_packet_data_is_owned_copy() {
    let ctx = TestContext::new();
    // Override the default 1024-byte packet with a small payload we can read back.
    set_pkt_len(8, &ctx.guest_txvq.dtable[0], &ctx.mem);

    let data_gpa = ctx.guest_txvq.dtable[1].addr;
    let original = [0x11_u8, 0x22, 0x33, 0x44, 0x55, 0x66, 0x77, 0x88];
    ctx.mem
        .write_slice(&original, GuestAddress(data_gpa))
        .unwrap();

    let pkt = ctx.tx().unwrap();

    // Scribble over the guest source bytes after construction. The packet's view should
    // remain the snapshot taken at construction time, because the bytes were copied into
    // a host-owned buffer.
    ctx.mem
        .write_slice(&[0xff_u8; 8], GuestAddress(data_gpa))
        .unwrap();

    assert_eq!(pkt.buf().unwrap(), &original);
}

#[test]
fn test_rx_packet_commit_buf_writes_to_guest() {
    let ctx = TestContext::new();
    let mut pkt = ctx.rx().unwrap();

    // Backend writes payload into the bounce buffer and sets pkt.len().
    let payload = [0xab_u8, 0xcd, 0xef, 0x01, 0x23, 0x45];
    pkt.buf_mut().unwrap()[..payload.len()].copy_from_slice(&payload);
    pkt.set_len(payload.len() as u32);

    // Guest memory at the RX data GPA should not contain the payload yet.
    let data_gpa = ctx.guest_rxvq.dtable[1].addr;
    let mut before = [0u8; 6];
    ctx.mem
        .read_slice(&mut before, GuestAddress(data_gpa))
        .unwrap();
    assert_eq!(&before, &[0u8; 6]);

    pkt.commit_buf(&mut GuestWriter::new(&ctx.mem)).unwrap();

    // After commit_buf, the payload should be visible at the guest's data GPA.
    let mut after = [0u8; 6];
    ctx.mem
        .read_slice(&mut after, GuestAddress(data_gpa))
        .unwrap();
    assert_eq!(&after, &payload);
}

#[test]
fn test_commit_buf_is_noop_for_zero_length_packet() {
    let ctx = TestContext::new();
    let pkt = ctx.rx().unwrap();

    // The header bytes in guest memory are zero, so pkt.len() == 0. commit_buf must
    // succeed without touching guest memory.
    assert_eq!(pkt.len(), 0);
    pkt.commit_buf(&mut GuestWriter::new(&ctx.mem)).unwrap();
}

#[test]
fn test_commit_buf_rejects_len_above_buf_capacity() {
    let ctx = TestContext::new();
    let mut pkt = ctx.rx().unwrap();

    let cap = pkt.buf().unwrap().len() as u32;
    pkt.set_len(cap + 1);

    match pkt.commit_buf(&mut GuestWriter::new(&ctx.mem)) {
        Err(VsockError::InvalidPktLen(n)) => assert_eq!(n, cap + 1),
        other => panic!("expected InvalidPktLen, got {other:?}"),
    }
}
