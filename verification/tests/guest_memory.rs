//! Guest memory with holes, and addresses that are translated.

use std::cell::RefCell;

use virtio_bindings::virtio_ring::{VRING_DESC_F_NEXT, VRING_DESC_F_WRITE};
use virtio_queue::desc::split::Descriptor as SplitDescriptor;
use virtio_queue::desc::RawDescriptor;
use virtio_queue::mock::MockSplitQueue;
use virtio_queue::{DescriptorChain, Queue, QueueOwnedT};
use vm_memory::{Bytes, GuestAddress, GuestMemoryMmap};
use vsock_packet::error::VsockError;
use vsock_packet::guest::{AccessPlatform, Fetched, GuestChain, GuestWriter, Translator};
use vsock_packet::header::HDROFF_LEN;
use vsock_packet::packet::VsockPacket;

type Mem = GuestMemoryMmap<()>;

const NEXT: u16 = VRING_DESC_F_NEXT as u16;
const WRITE: u16 = VRING_DESC_F_WRITE as u16;

/// Two regions that touch at 0x1_0000, a hole from 0x2_0000 on, and a third region behind it.
fn memory() -> Mem {
    GuestMemoryMmap::from_ranges(&[
        (GuestAddress(0), 0x1_0000),
        (GuestAddress(0x1_0000), 0x1_0000),
        (GuestAddress(0x3_0000), 0x1_0000),
    ])
    .unwrap()
}

/// A chain of descriptors, each given as address, length and flags.
fn chain<'a>(mem: &'a Mem, descs: &[(u64, u32, u16)]) -> DescriptorChain<&'a Mem> {
    let vq = MockSplitQueue::create(mem, GuestAddress(0x1000), 8);
    for (i, (addr, len, flags)) in descs.iter().enumerate() {
        let desc = SplitDescriptor::new(*addr, *len, *flags, i as u16 + 1);
        vq.desc_table()
            .store(i as u16, RawDescriptor::from(desc))
            .unwrap();
    }
    vq.avail().ring().ref_at(0).unwrap().store(u16::to_le(0));
    vq.avail().idx().store(u16::to_le(1));
    let mut queue: Queue = vq.create_queue().unwrap();
    let chain = queue.iter(mem).unwrap().next().unwrap();
    chain
}

fn put_header(mem: &Mem, addr: u64, len: u32) {
    mem.write_slice(&len.to_le_bytes(), GuestAddress(addr + HDROFF_LEN as u64))
        .unwrap();
}

fn get(mem: &Mem, addr: u64, len: usize) -> Vec<u8> {
    let mut bytes = vec![0u8; len];
    mem.read_slice(&mut bytes, GuestAddress(addr)).unwrap();
    bytes
}

/// Moves addresses up by a fixed distance, below a limit.
struct Shift {
    by: u64,
    limit: u64,
}

impl AccessPlatform for Shift {
    fn translate_gva(&self, base: u64, size: u64) -> Option<u64> {
        if base + size <= self.limit {
            Some(base + self.by)
        } else {
            None
        }
    }
}

fn tx(
    mem: &Mem,
    descs: &[(u64, u32, u16)],
    platform: Option<&dyn AccessPlatform>,
) -> Result<VsockPacket, VsockError> {
    VsockPacket::from_tx_virtq_head(
        &mut GuestChain::new(chain(mem, descs)),
        &mut Translator::new(platform),
    )
}

fn rx(
    mem: &Mem,
    descs: &[(u64, u32, u16)],
    platform: Option<&dyn AccessPlatform>,
) -> Result<VsockPacket, VsockError> {
    VsockPacket::from_rx_virtq_head(
        &mut GuestChain::new(chain(mem, descs)),
        &mut Translator::new(platform),
    )
}

#[test]
fn addresses_translate_to_themselves_without_a_platform() {
    let mut none = Translator::new(None);
    assert_eq!(none.translate_gva(0x1234, 10), Some(0x1234));
    let shift = Shift {
        by: 0x100,
        limit: 0x2000,
    };
    let mut shifted = Translator::new(Some(&shift));
    assert_eq!(shifted.translate_gva(0x1234, 10), Some(0x1334));
    assert_eq!(shifted.translate_gva(0x1ff8, 8), Some(0x20f8));
    assert_eq!(shifted.translate_gva(0x1ff8, 9), None);
}

#[test]
fn a_fetch_may_cross_regions_but_not_a_hole() {
    let mem = memory();
    mem.write_slice(&[1, 2, 3, 4], GuestAddress(0xfffe)).unwrap();
    let mut guest = GuestChain::new(chain(&mem, &[]));
    let mut fetch = |addr: u64, len: usize| -> Option<Fetched> {
        guest.fetch(&mut Translator::new(None), addr, len, len)
    };
    let fetched = fetch(0xfffe, 4).unwrap();
    assert_eq!(fetched.addr, 0xfffe);
    assert_eq!(fetched.bytes, vec![1, 2, 3, 4]);
    assert!(fetch(0x1_fffe, 2).is_some());
    assert!(fetch(0x1_fffe, 3).is_none());
    assert!(fetch(0x2_0000, 1).is_none());
}

#[test]
fn a_probe_stays_in_one_region() {
    let mem = memory();
    let shift = Shift {
        by: 0x3_0000,
        limit: 0x1_0000,
    };
    let mut guest = GuestChain::new(chain(&mem, &[]));
    let mut none = Translator::new(None);
    assert_eq!(guest.probe(&mut none, 0xfffe, 2), Some(0xfffe));
    assert_eq!(guest.probe(&mut none, 0xfffe, 4), None);
    assert_eq!(guest.probe(&mut none, 0x2_0000, 1), None);
    let mut shifted = Translator::new(Some(&shift));
    assert_eq!(guest.probe(&mut shifted, 0x10, 0x20), Some(0x3_0010));
    assert_eq!(guest.probe(&mut shifted, 0x1_0000, 1), None);
}

/// Translates addresses to themselves and keeps what it was asked.
struct Recorder {
    asked: RefCell<Vec<(u64, u64)>>,
}

impl AccessPlatform for Recorder {
    fn translate_gva(&self, base: u64, size: u64) -> Option<u64> {
        self.asked.borrow_mut().push((base, size));
        Some(base)
    }
}

fn recorder() -> Recorder {
    Recorder {
        asked: RefCell::new(Vec::new()),
    }
}

#[test]
fn tx_asks_for_each_translation_once() {
    let mem = memory();
    put_header(&mem, 0x2000, 6);
    // The empty descriptor and those behind the data are not translated.
    let descs = [
        (0x2000, 50, NEXT),
        (0x3000, 4, NEXT),
        (0x4000, 0, NEXT),
        (0x5000, 9, NEXT),
        (0x6000, 5, 0),
    ];
    let platform = recorder();
    tx(&mem, &descs, Some(&platform)).unwrap();
    assert_eq!(
        platform.asked.into_inner(),
        vec![(0x2000, 44), (0x3000, 4), (0x5000, 9)]
    );
    let platform = recorder();
    tx(&mem, &[(0x2000, 60, 0)], Some(&platform)).unwrap();
    assert_eq!(platform.asked.into_inner(), vec![(0x2000, 44), (0x202c, 6)]);
    put_header(&mem, 0x2000, 0);
    let platform = recorder();
    tx(&mem, &descs, Some(&platform)).unwrap();
    assert_eq!(platform.asked.into_inner(), vec![(0x2000, 44)]);
}

#[test]
fn rx_asks_for_each_translation_once() {
    let mem = memory();
    let asked = |descs: &[(u64, u32, u16)]| {
        let platform = recorder();
        rx(&mem, descs, Some(&platform)).unwrap();
        platform.asked.into_inner()
    };
    assert_eq!(
        asked(&[(0x2000, 50, WRITE | NEXT), (0x3000, 7, WRITE)]),
        vec![(0x2000, 44), (0x3000, 7)]
    );
    assert_eq!(
        asked(&[(0x2000, 50, WRITE | NEXT), (0x3000, 0, WRITE)]),
        vec![(0x2000, 44)]
    );
    assert_eq!(
        asked(&[(0x2000, 50, WRITE)]),
        vec![(0x2000, 44), (0x202c, 6)]
    );
    assert_eq!(asked(&[(0x2000, 44, WRITE)]), vec![(0x2000, 44)]);
}

#[test]
fn taking_packets_writes_nothing() {
    let mem = memory();
    put_header(&mem, 0x2000, 3);
    mem.write_slice(b"abc", GuestAddress(0x3000)).unwrap();
    let sent = chain(&mem, &[(0x2000, 44, NEXT), (0x3000, 3, 0)]);
    let before = get(&mem, 0, 0x2_0000);
    let none = &mut Translator::new(None);
    VsockPacket::from_tx_virtq_head(&mut GuestChain::new(sent), none).unwrap();
    assert!(get(&mem, 0, 0x2_0000) == before);
    let empty = chain(&mem, &[(0x2000, 44, WRITE | NEXT), (0x3000, 3, WRITE)]);
    let before = get(&mem, 0, 0x2_0000);
    VsockPacket::from_rx_virtq_head(&mut GuestChain::new(empty), none).unwrap();
    assert!(get(&mem, 0, 0x2_0000) == before);
}

#[test]
fn a_committed_header_is_received_again() {
    let mem = memory();
    let descs = [(0x2000, 44, WRITE | NEXT), (0x3000, 8, WRITE)];
    let mut pkt = rx(&mem, &descs, None).unwrap();
    for (i, b) in pkt.hdr_mut().iter_mut().enumerate() {
        *b = i as u8;
    }
    pkt.set_len(5);
    pkt.commit_hdr(&mut GuestWriter::new(&mem)).unwrap();
    let again = rx(&mem, &descs, None).unwrap();
    assert_eq!(again.hdr(), pkt.hdr());
    assert_eq!(again.buf().unwrap(), &[0u8; 8]);
}

#[test]
fn a_committed_packet_can_be_sent_in_shares() {
    let mem = memory();
    let mut pkt = rx(&mem, &[(0x2000, 44 + 8, WRITE)], None).unwrap();
    pkt.buf_mut().unwrap().copy_from_slice(b"abcdefgh");
    pkt.set_len(7);
    let mut writer = GuestWriter::new(&mem);
    pkt.commit_hdr(&mut writer).unwrap();
    pkt.commit_buf(&mut writer).unwrap();
    let whole = tx(&mem, &[(0x2000, 44 + 8, 0)], None).unwrap();
    assert_eq!(whole.hdr(), pkt.hdr());
    assert_eq!(whole.buf().unwrap(), b"abcdefg");
    let descs = [
        (0x2000, 44, NEXT),
        (0x2000 + 44, 3, NEXT),
        (0x2000 + 47, 5, 0),
    ];
    let shares = tx(&mem, &descs, None).unwrap();
    assert_eq!(shares.hdr(), pkt.hdr());
    assert_eq!(shares.buf().unwrap(), b"abcdefg");
    pkt.set_len(0);
    pkt.commit_hdr(&mut writer).unwrap();
    let empty = tx(&mem, &descs, None).unwrap();
    assert_eq!(empty.hdr(), pkt.hdr());
    assert!(empty.buf().is_none());
}

#[test]
fn tx_addresses_are_translated() {
    let mem = memory();
    put_header(&mem, 0x3_0100, 6);
    mem.write_slice(b"abc", GuestAddress(0x3_0200)).unwrap();
    mem.write_slice(b"defgh", GuestAddress(0x3_0300)).unwrap();
    let shift = Shift {
        by: 0x3_0000,
        limit: 0x1000,
    };
    let descs = [(0x100, 44, NEXT), (0x200, 3, NEXT), (0x300, 5, 0)];
    let mut pkt = tx(&mem, &descs, Some(&shift)).unwrap();
    assert_eq!(pkt.buf().unwrap(), b"abcdef");
    // The header goes back to where it was found.
    pkt.set_op(0x0102);
    pkt.commit_hdr(&mut GuestWriter::new(&mem)).unwrap();
    assert_eq!(get(&mem, 0x3_0100, 44), pkt.hdr());
    // Data that was sent is not written back.
    pkt.commit_buf(&mut GuestWriter::new(&mem)).unwrap();
    assert_eq!(get(&mem, 0x3_0200, 3), b"abc");
    // The whole descriptor must be translatable, though only a part of it is needed.
    let descs = [(0x100, 44, NEXT), (0x200, 3, NEXT), (0x300, 0xd01, 0)];
    assert_eq!(
        tx(&mem, &descs, Some(&shift)).unwrap_err(),
        VsockError::GuestMemory
    );
}

#[test]
fn tx_packet_in_one_descriptor() {
    let mem = memory();
    put_header(&mem, 0x2000, 3);
    mem.write_slice(b"xyz", GuestAddress(0x2000 + 44)).unwrap();
    let descs = [(0x2000, 44 + 3, 0)];
    let pkt = tx(&mem, &descs, None).unwrap();
    assert_eq!(pkt.buf().unwrap(), b"xyz");
}

#[test]
fn tx_memory_errors() {
    let mem = memory();
    // The header lies in the hole.
    let descs = [(0x2_0000, 44, 0)];
    assert_eq!(
        tx(&mem, &descs, None).unwrap_err(),
        VsockError::GuestMemory
    );
    // The data runs into the hole.
    put_header(&mem, 0x2000, 8);
    let descs = [(0x2000, 44, NEXT), (0x1_fffc, 8, 0)];
    assert_eq!(
        tx(&mem, &descs, None).unwrap_err(),
        VsockError::GuestMemory
    );
    // The chain breaks off.
    let descs = [
        (0x2000, 44, NEXT),
        (0x3000, 1, NEXT),
        (0x3000, 1, NEXT),
        (0x3000, 1, NEXT),
        (0x3000, 1, NEXT),
        (0x3000, 1, NEXT),
        (0x3000, 1, NEXT),
        (0x3000, 1, NEXT),
    ];
    assert_eq!(
        tx(&mem, &descs, None).unwrap_err(),
        VsockError::BufDescMissing
    );
}

#[test]
fn a_used_up_chain_has_no_header() {
    let mem = memory();
    put_header(&mem, 0x2000, 0);
    let mut guest = GuestChain::new(chain(&mem, &[(0x2000, 44, 0)]));
    let none = &mut Translator::new(None);
    assert!(VsockPacket::from_tx_virtq_head(&mut guest, none).is_ok());
    assert_eq!(
        VsockPacket::from_tx_virtq_head(&mut guest, none).unwrap_err(),
        VsockError::HdrDescMissing
    );
    assert_eq!(
        VsockPacket::from_rx_virtq_head(&mut guest, none).unwrap_err(),
        VsockError::HdrDescMissing
    );
    let mut chain = guest.into_inner();
    assert_eq!(chain.head_index(), 0);
    assert!(chain.next().is_none());
}

#[test]
fn rx_packet_round_trip() {
    let mem = memory();
    let shift = Shift {
        by: 0x3_0000,
        limit: 0x1_0000,
    };
    let descs = [(0x400, 44, WRITE | NEXT), (0x800, 16, WRITE)];
    let mut pkt = rx(&mem, &descs, Some(&shift)).unwrap();
    assert_eq!(pkt.buf().unwrap(), &[0u8; 16]);
    pkt.buf_mut().unwrap().copy_from_slice(b"0123456789abcdef");
    pkt.set_len(10).set_src_cid(2);
    pkt.commit_hdr(&mut GuestWriter::new(&mem)).unwrap();
    pkt.commit_buf(&mut GuestWriter::new(&mem)).unwrap();
    assert_eq!(get(&mem, 0x3_0400, 44), pkt.hdr());
    assert_eq!(get(&mem, 0x3_0800, 16), b"0123456789\0\0\0\0\0\0");

    // What was written back can be sent again.
    let descs = [(0x3_0400, 44, NEXT), (0x3_0800, 16, 0)];
    let sent = tx(&mem, &descs, None).unwrap();
    assert_eq!(sent.hdr(), pkt.hdr());
    assert_eq!(sent.src_cid(), 2);
    assert_eq!(sent.buf().unwrap(), b"0123456789");
}

#[test]
fn rx_packet_in_one_descriptor() {
    let mem = memory();
    let descs = [(0x2000, 44 + 8, WRITE)];
    let mut pkt = rx(&mem, &descs, None).unwrap();
    pkt.buf_mut().unwrap()[0] = 0x5a;
    pkt.set_len(1);
    pkt.commit_buf(&mut GuestWriter::new(&mem)).unwrap();
    assert_eq!(get(&mem, 0x2000 + 44, 2), &[0x5a, 0]);
    let descs = [(0x2000, 44, WRITE)];
    let pkt = rx(&mem, &descs, None).unwrap();
    assert!(pkt.buf().is_none());
    pkt.commit_buf(&mut GuestWriter::new(&mem)).unwrap();
}

#[test]
fn rx_chain_errors() {
    let mem = memory();
    let error = |descs: &[(u64, u32, u16)]| {
        rx(&mem, descs, None).unwrap_err()
    };
    assert_eq!(
        error(&[(0x2000, 44, WRITE | NEXT), (0x3000, 8, 0)]),
        VsockError::UnwritableDescriptor
    );
    assert_eq!(
        error(&[
            (0x2000, 44, WRITE | NEXT),
            (0x3000, 8, WRITE | NEXT),
            (0x4000, 8, WRITE)
        ]),
        VsockError::BufDescTooSmall
    );
    // That the chain goes on is noticed first.
    assert_eq!(
        error(&[
            (0x2000, 44, WRITE | NEXT),
            (0x3000, 8, NEXT),
            (0x4000, 8, WRITE)
        ]),
        VsockError::BufDescTooSmall
    );
    // The room for data must lie in one region.
    assert_eq!(
        error(&[(0x2000, 44, WRITE | NEXT), (0xfffc, 8, WRITE)]),
        VsockError::GuestMemory
    );
    assert_eq!(
        error(&[(0x1_fff0, 44, WRITE | NEXT), (0x3000, 8, WRITE)]),
        VsockError::GuestMemory
    );
}

#[test]
fn commits_to_other_memory_may_fail() {
    let mem = memory();
    let descs = [(0x1_5000, 44, WRITE | NEXT), (0x1_6000, 8, WRITE)];
    let mut pkt = rx(&mem, &descs, None).unwrap();
    pkt.set_len(8);
    // Without the addresses, neither can be written.
    let small: Mem = GuestMemoryMmap::from_ranges(&[(GuestAddress(0), 0x1000)]).unwrap();
    assert_eq!(pkt.commit_hdr(&mut GuestWriter::new(&small)), Err(VsockError::GuestMemory));
    assert_eq!(pkt.commit_buf(&mut GuestWriter::new(&small)), Err(VsockError::GuestMemory));
    // Where memory ends inside, neither is complete.
    let cut: Mem = GuestMemoryMmap::from_ranges(&[
        (GuestAddress(0x1_4000), 0x1008),
        (GuestAddress(0x1_6000), 4),
    ])
    .unwrap();
    pkt.set_src_cid(0x0807_0605_0403_0201);
    assert_eq!(
        pkt.commit_hdr(&mut GuestWriter::new(&cut)),
        Err(VsockError::GuestMemory)
    );
    assert_eq!(get(&cut, 0x1_5000, 8), &[1, 2, 3, 4, 5, 6, 7, 8]);
    assert_eq!(pkt.commit_buf(&mut GuestWriter::new(&cut)), Err(VsockError::GuestMemory));
    pkt.set_len(4);
    assert_eq!(pkt.commit_buf(&mut GuestWriter::new(&cut)), Ok(()));
}

#[test]
fn one_writer_takes_all_commits() {
    let mem = memory();
    let descs = [(0x400, 44, WRITE | NEXT), (0x800, 4, WRITE)];
    let mut pkt = rx(&mem, &descs, None).unwrap();
    pkt.buf_mut().unwrap().copy_from_slice(b"wxyz");
    pkt.set_len(3);
    let mut writer = GuestWriter::new(&mem);
    pkt.commit_buf(&mut writer).unwrap();
    assert_eq!(get(&mem, 0x400, 44), [0u8; 44]);
    assert_eq!(get(&mem, 0x800, 4), b"wxy\0");
    pkt.commit_hdr(&mut writer).unwrap();
    assert_eq!(get(&mem, 0x400, 44), pkt.hdr());
    assert_eq!(get(&mem, 0x800, 4), b"wxy\0");
}

#[test]
fn nothing_to_commit_writes_nothing() {
    let mem = memory();
    let all = || get(&mem, 0, 0x2_0000);
    // A packet that the guest sent.
    put_header(&mem, 0x2000, 3);
    mem.write_slice(b"abc", GuestAddress(0x3000)).unwrap();
    let descs = [(0x2000, 44, NEXT), (0x3000, 3, 0)];
    let mut pkt = tx(&mem, &descs, None).unwrap();
    pkt.set_dst_cid(7);
    let before = all();
    assert_eq!(pkt.commit_buf(&mut GuestWriter::new(&mem)), Ok(()));
    assert!(all() == before);
    // A packet without data, and lengths that no packet or no buffer has.
    let descs = [(0x4000, 44, WRITE | NEXT), (0x5000, 8, WRITE)];
    let mut pkt = rx(&mem, &descs, None).unwrap();
    let before = all();
    pkt.buf_mut().unwrap().fill(0xee);
    pkt.set_dst_cid(7);
    assert_eq!(pkt.commit_buf(&mut GuestWriter::new(&mem)), Ok(()));
    for len in [9, 0x1_0001] {
        pkt.set_len(len);
        assert_eq!(
            pkt.commit_buf(&mut GuestWriter::new(&mem)),
            Err(VsockError::InvalidPktLen(len))
        );
    }
    assert_eq!(
        pkt.commit_hdr(&mut GuestWriter::new(&mem)),
        Err(VsockError::InvalidPktLen(0x1_0001))
    );
    assert!(all() == before);
}
