//! Assemblies that are handed plain values.

use vsock_packet::assembly::Request;
use vsock_packet::defs::MAX_PKT_BUF_SIZE;
use vsock_packet::error::VsockError;
use vsock_packet::guest::{Descriptor, Fetched};
use vsock_packet::header::{HDROFF_LEN, VSOCK_PKT_HDR_SIZE};
use vsock_packet::packet::VsockPacket;
use vsock_packet::rx::RxAssembly;
use vsock_packet::tx::TxAssembly;

fn readable(addr: u64, len: u32, has_next: bool) -> Option<Descriptor> {
    Some(Descriptor {
        addr,
        len,
        write_only: false,
        has_next,
    })
}

fn writable(addr: u64, len: u32, has_next: bool) -> Option<Descriptor> {
    Some(Descriptor {
        addr,
        len,
        write_only: true,
        has_next,
    })
}

/// A header with the given length field, fetched from `addr`.
fn header(addr: u64, len: u32) -> Option<Fetched> {
    let mut bytes = vec![0u8; VSOCK_PKT_HDR_SIZE];
    bytes[HDROFF_LEN..HDROFF_LEN + 4].copy_from_slice(&len.to_le_bytes());
    Some(Fetched { addr, bytes })
}

fn data(addr: u64, bytes: &[u8]) -> Option<Fetched> {
    Some(Fetched {
        addr,
        bytes: bytes.to_vec(),
    })
}

fn error(outcome: Result<VsockPacket, VsockError>) -> VsockError {
    match outcome {
        Err(error) => error,
        Ok(_) => panic!("there should be no packet"),
    }
}

#[test]
fn tx_gathers_data_from_the_chain() {
    let a = TxAssembly::new();
    assert_eq!(a.request(), Request::NextDescriptor);
    let a = a.descriptor(readable(0x100, 50, true));
    assert_eq!(
        a.request(),
        Request::Fetch {
            addr: 0x100,
            span: 44,
            len: 44
        }
    );
    let a = a.fetched(header(0x1100, 5));
    assert_eq!(a.request(), Request::NextDescriptor);
    let a = a.descriptor(readable(0x200, 2, true));
    assert_eq!(
        a.request(),
        Request::Fetch {
            addr: 0x200,
            span: 2,
            len: 2
        }
    );
    let a = a.fetched(data(0x1200, &[1, 2]));
    // An empty descriptor is passed over.
    let a = a.descriptor(readable(0x300, 0, true));
    assert_eq!(a.request(), Request::NextDescriptor);
    // Of the next one, all is translated, but only what is missing is fetched.
    let a = a.descriptor(readable(0x400, 100, true));
    assert_eq!(
        a.request(),
        Request::Fetch {
            addr: 0x400,
            span: 100,
            len: 3
        }
    );
    let a = a.fetched(data(0x1400, &[3, 4, 5]));
    // The rest of the chain is walked, but nothing is fetched any more.
    let a = a.descriptor(readable(0x500, 100, false));
    assert_eq!(a.request(), Request::Finished);
    let packet = a.finish().unwrap();
    assert_eq!(packet.len(), 5);
    assert_eq!(packet.buf().unwrap(), &[1, 2, 3, 4, 5]);
    assert!(packet.buf_to_commit().unwrap().is_none());
    let (addr, bytes) = packet.hdr_to_commit().unwrap();
    assert_eq!(addr, 0x1100);
    assert_eq!(bytes, packet.hdr());
}

#[test]
fn tx_takes_data_from_behind_the_header() {
    let a = TxAssembly::new().descriptor(readable(0x100, 44 + 4, false));
    let a = a.fetched(header(0x100, 4));
    assert_eq!(
        a.request(),
        Request::Fetch {
            addr: 0x100 + 44,
            span: 4,
            len: 4
        }
    );
    let packet = a.fetched(data(0x12c, &[9, 8, 7, 6])).finish().unwrap();
    assert_eq!(packet.buf().unwrap(), &[9, 8, 7, 6]);
}

#[test]
fn tx_head_errors() {
    let a = TxAssembly::new().descriptor(None);
    assert_eq!(error(a.finish()), VsockError::HdrDescMissing);
    let a = TxAssembly::new().descriptor(writable(0, 44, false));
    assert_eq!(error(a.finish()), VsockError::UnreadableDescriptor);
    let a = TxAssembly::new().descriptor(readable(0, 7, false));
    assert_eq!(error(a.finish()), VsockError::HdrDescTooSmall(7));
    let a = TxAssembly::new().descriptor(readable(0, 44, false));
    assert_eq!(error(a.fetched(None).finish()), VsockError::GuestMemory);
}

#[test]
fn tx_length_limits() {
    let max = MAX_PKT_BUF_SIZE as u32;
    assert_eq!(max, 64 * 1024);
    let a = TxAssembly::new().descriptor(readable(0, 44, true));
    let a = a.fetched(header(0, max + 1));
    assert_eq!(error(a.finish()), VsockError::InvalidPktLen(max + 1));
    let a = TxAssembly::new().descriptor(readable(0, 44, true));
    let a = a.fetched(header(0, max));
    assert_eq!(a.request(), Request::NextDescriptor);
    let a = TxAssembly::new().descriptor(readable(0, 44, true));
    let packet = a.fetched(header(0, 0)).finish().unwrap();
    assert!(packet.is_empty());
    assert!(packet.buf().is_none());
}

#[test]
fn tx_data_errors() {
    let start = || {
        TxAssembly::new()
            .descriptor(readable(0, 44, true))
            .fetched(header(0, 4))
    };
    assert_eq!(
        error(start().descriptor(None).finish()),
        VsockError::BufDescMissing
    );
    assert_eq!(
        error(start().descriptor(writable(0, 4, false)).finish()),
        VsockError::UnreadableDescriptor
    );
    assert_eq!(
        error(
            start()
                .descriptor(readable(0, 4, false))
                .fetched(None)
                .finish()
        ),
        VsockError::GuestMemory
    );
    assert_eq!(
        error(
            start()
                .descriptor(readable(0, 3, false))
                .fetched(data(0, &[1, 2, 3]))
                .finish()
        ),
        VsockError::BufDescTooSmall
    );
    // A descriptor that is not needed any more must be readable all the same.
    assert_eq!(
        error(
            start()
                .descriptor(readable(0, 4, true))
                .fetched(data(0, &[1, 2, 3, 4]))
                .descriptor(writable(0, 4, false))
                .finish()
        ),
        VsockError::UnreadableDescriptor
    );
}

#[test]
fn tx_single_descriptor_errors() {
    let a = TxAssembly::new().descriptor(readable(0, 44 + 3, false));
    assert_eq!(
        error(a.fetched(header(0, 4)).finish()),
        VsockError::BufDescTooSmall
    );
    let a = TxAssembly::new().descriptor(readable(u64::MAX - 43, 44 + 4, false));
    assert_eq!(
        error(a.fetched(header(0, 4)).finish()),
        VsockError::GuestMemory
    );
}

#[test]
fn rx_with_a_data_descriptor() {
    let a = RxAssembly::new();
    assert_eq!(a.request(), Request::NextDescriptor);
    let a = a.descriptor(writable(0x100, 44, true));
    assert_eq!(
        a.request(),
        Request::Fetch {
            addr: 0x100,
            span: 44,
            len: 44
        }
    );
    let a = a.fetched(header(0x1100, 0));
    assert_eq!(a.request(), Request::NextDescriptor);
    let a = a.descriptor(writable(0x200, 3, false));
    assert_eq!(
        a.request(),
        Request::Probe {
            addr: 0x200,
            len: 3
        }
    );
    let a = a.probed(Some(0x1200));
    assert_eq!(a.request(), Request::Finished);
    let mut packet = a.finish().unwrap();
    assert_eq!(packet.buf().unwrap(), &[0, 0, 0]);
    packet.buf_mut().unwrap()[0] = 7;
    packet.set_len(2);
    assert_eq!(
        packet.buf_to_commit().unwrap(),
        Some((0x1200, &[7u8, 0][..]))
    );
    packet.set_len(4);
    assert_eq!(
        packet.buf_to_commit().unwrap_err(),
        VsockError::InvalidPktLen(4)
    );
}

#[test]
fn rx_with_one_descriptor() {
    let a = RxAssembly::new().descriptor(writable(0x100, 44 + 2, false));
    let a = a.fetched(header(0x100, 0));
    assert_eq!(
        a.request(),
        Request::Probe {
            addr: 0x12c,
            len: 2
        }
    );
    let packet = a.probed(Some(0x12c)).finish().unwrap();
    assert_eq!(packet.buf().unwrap(), &[0, 0]);

    let a = RxAssembly::new().descriptor(writable(0x100, 44, false));
    let packet = a.fetched(header(0x100, 0)).finish().unwrap();
    assert!(packet.buf().is_none());
}

#[test]
fn rx_errors() {
    let a = RxAssembly::new().descriptor(None);
    assert_eq!(error(a.finish()), VsockError::HdrDescMissing);
    let a = RxAssembly::new().descriptor(readable(0, 44, false));
    assert_eq!(error(a.finish()), VsockError::UnwritableDescriptor);
    let a = RxAssembly::new().descriptor(writable(0, 43, false));
    assert_eq!(error(a.finish()), VsockError::HdrDescTooSmall(43));
    let a = RxAssembly::new().descriptor(writable(0, 44, false));
    assert_eq!(error(a.fetched(None).finish()), VsockError::GuestMemory);

    let start = || {
        RxAssembly::new()
            .descriptor(writable(0, 44, true))
            .fetched(header(0, 0))
    };
    assert_eq!(
        error(start().descriptor(None).finish()),
        VsockError::BufDescMissing
    );
    assert_eq!(
        error(start().descriptor(readable(0, 4, false)).finish()),
        VsockError::UnwritableDescriptor
    );
    assert_eq!(
        error(start().descriptor(writable(0, 4, true)).finish()),
        VsockError::BufDescTooSmall
    );
    assert_eq!(
        error(start().descriptor(readable(0, 4, true)).finish()),
        VsockError::BufDescTooSmall
    );
    assert_eq!(
        error(start().descriptor(writable(0, 4, false)).probed(None).finish()),
        VsockError::GuestMemory
    );
    let packet = start().descriptor(writable(0, 0, false)).finish().unwrap();
    assert!(packet.buf().is_none());

    let a = RxAssembly::new().descriptor(writable(u64::MAX - 43, 45, false));
    assert_eq!(
        error(a.fetched(header(0, 0)).finish()),
        VsockError::GuestMemory
    );
}

#[test]
fn header_fields_keep_to_themselves() {
    let a = RxAssembly::new().descriptor(writable(0, 44, false));
    let mut packet = a.fetched(header(0, 0)).finish().unwrap();
    for b in packet.hdr_mut() {
        *b = 0xff;
    }
    packet.set_dst_port(0x0102_0304);
    let mut expected = [0xffu8; VSOCK_PKT_HDR_SIZE];
    expected[20..24].copy_from_slice(&[4, 3, 2, 1]);
    assert_eq!(packet.hdr(), &expected);
    assert_eq!(packet.src_port(), u32::MAX);
    assert_eq!(packet.len(), u32::MAX);
    packet.set_dst_cid(0x1122_3344_5566_7788).set_op(0xabcd);
    expected[8..16].copy_from_slice(&[0x88, 0x77, 0x66, 0x55, 0x44, 0x33, 0x22, 0x11]);
    expected[30..32].copy_from_slice(&[0xcd, 0xab]);
    assert_eq!(packet.hdr(), &expected);
    packet.set_flags(0b0101).set_flag(0b0110);
    assert_eq!(packet.flags(), 0b0111);
}

#[test]
fn header_length_is_checked_before_commit() {
    let a = RxAssembly::new().descriptor(writable(0, 44, false));
    let mut packet = a.fetched(header(0x77, 0)).finish().unwrap();
    let max = MAX_PKT_BUF_SIZE as u32;
    packet.set_len(max);
    assert_eq!(packet.hdr_to_commit().unwrap().0, 0x77);
    assert!(packet.buf_to_commit().unwrap().is_none());
    packet.set_len(max + 1);
    assert_eq!(
        packet.hdr_to_commit().unwrap_err(),
        VsockError::InvalidPktLen(max + 1)
    );
    assert_eq!(
        packet.buf_to_commit().unwrap_err(),
        VsockError::InvalidPktLen(max + 1)
    );
}
