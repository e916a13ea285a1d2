//! What comes of a descriptor chain as a whole.

use crate::assembly::{Answer, Request};
use crate::defs::MAX_PKT_BUF_SIZE;
use crate::error::VsockError;
use crate::guest::{Descriptor, FetchedView};
use crate::header::{decode, VSOCK_PKT_HDR_SIZE};
use crate::packet::PacketView;
use crate::rx::{rx_packet, rx_request, rx_run};
use crate::tx::{tx_request, tx_run};
use vstd::prelude::*;

verus! {

/// All that a guest has to answer to an assembly.
pub struct Guest {
    /// The descriptors of the chain.
    pub descs: Seq<Descriptor>,
    /// What a fetch gives. It may change with the number of descriptors handed out before, which
    /// comes first; then come the address, the number of bytes to translate, and the number of
    /// bytes to fetch.
    pub fetch: spec_fn(nat, u64, usize, usize) -> Option<FetchedView>,
    /// What a probe gives, for the address and the number of bytes.
    pub probe: spec_fn(u64, usize) -> Option<u64>,
}

impl Guest {
    /// A fetch gives as many bytes as it is to give.
    pub open spec fn wf(self) -> bool {
        forall|handed: nat, addr: u64, span: usize, len: usize| #[trigger]
            (self.fetch)(handed, addr, span, len) matches Some(f) ==> f.bytes.len() == len
    }

    /// The answer to `request` after `handed` descriptors.
    pub open spec fn answer(self, handed: nat, request: Request) -> Answer {
        match request {
            Request::NextDescriptor => Answer::Descriptor(
                if handed < self.descs.len() {
                    Some(self.descs[handed as int])
                } else {
                    None
                },
            ),
            Request::Fetch { addr, span, len } => Answer::Fetched(
                (self.fetch)(handed, addr, span, len),
            ),
            Request::Probe { addr, len } => Answer::Probed((self.probe)(addr, len)),
            Request::Finished => Answer::Descriptor(None),
        }
    }
}

/// The number of descriptors that were asked for in `answers`.
pub open spec fn handed_out(answers: Seq<Answer>) -> nat
    decreases answers.len(),
{
    if answers.len() == 0 {
        0
    } else {
        handed_out(answers.drop_last()) + if answers.last() is Descriptor {
            1nat
        } else {
            0nat
        }
    }
}

/// The descriptors in `answers`.
pub open spec fn descs_of(answers: Seq<Answer>) -> Seq<Descriptor>
    decreases answers.len(),
{
    if answers.len() == 0 {
        Seq::empty()
    } else {
        match answers.last() {
            Answer::Descriptor(Some(desc)) => descs_of(answers.drop_last()).push(desc),
            _ => descs_of(answers.drop_last()),
        }
    }
}

/// One answer more, and the descriptors among them.
pub proof fn lemma_descs_take(answers: Seq<Answer>, i: int)
    requires
        0 <= i < answers.len(),
    ensures
        handed_out(answers.take(i + 1)) == handed_out(answers.take(i)) + if answers[i]
            is Descriptor {
            1nat
        } else {
            0nat
        },
        descs_of(answers.take(i + 1)) == match answers[i] {
            Answer::Descriptor(Some(desc)) => descs_of(answers.take(i)).push(desc),
            _ => descs_of(answers.take(i)),
        },
{
    assert(answers.take(i + 1).drop_last() =~= answers.take(i));
    assert(answers.take(i + 1).last() == answers[i]);
}

/// The number of descriptors asked for grows with the answers, and so do the descriptors.
pub proof fn lemma_descs_grow(answers: Seq<Answer>, i: int, j: int)
    requires
        0 <= i <= j <= answers.len(),
    ensures
        handed_out(answers.take(i)) <= handed_out(answers.take(j)),
        descs_of(answers.take(i)).len() <= descs_of(answers.take(j)).len(),
        forall|k: int|
            0 <= k < descs_of(answers.take(i)).len() ==> #[trigger] descs_of(answers.take(i))[k]
                == descs_of(answers.take(j))[k],
    decreases j - i,
{
    if i < j {
        lemma_descs_grow(answers, i, j - 1);
        lemma_descs_take(answers, j - 1);
    }
}

/// What the data descriptor `i` gives when `want` bytes are missing: that many bytes, or all that
/// it has if they are fewer.
pub open spec fn tx_piece(guest: Guest, i: nat, want: nat) -> Option<Seq<u8>> {
    let desc = guest.descs[i as int];
    let take = if desc.len < want {
        desc.len as nat
    } else {
        want
    };
    if take == 0 {
        Some(Seq::empty())
    } else {
        match (guest.fetch)(i + 1, desc.addr, desc.len as usize, take as usize) {
            Some(f) => Some(f.bytes),
            None => None,
        }
    }
}

/// What the data descriptors from `i` on give when `want` bytes are missing: their pieces, one
/// after the other. All of them are looked at, also when nothing is missing any more.
pub open spec fn tx_gather(guest: Guest, i: nat, want: nat) -> Result<Seq<u8>, VsockError>
    decreases guest.descs.len() - i,
{
    if i >= guest.descs.len() {
        Err(VsockError::BufDescMissing)
    } else if guest.descs[i as int].write_only {
        Err(VsockError::UnreadableDescriptor)
    } else {
        match tx_piece(guest, i, want) {
            None => Err(VsockError::GuestMemory),
            Some(piece) => if !guest.descs[i as int].has_next {
                Ok(piece)
            } else {
                match tx_gather(guest, i + 1, (want - piece.len()) as nat) {
                    Ok(rest) => Ok(piece + rest),
                    Err(error) => Err(error),
                }
            },
        }
    }
}

/// The data of a packet whose header counts `len` bytes: what the data descriptors give, if any
/// follow, and else the bytes behind the header.
pub open spec fn tx_data(guest: Guest, len: u32) -> Result<Seq<u8>, VsockError> {
    let head = guest.descs[0];
    if head.has_next {
        match tx_gather(guest, 1, len as nat) {
            Ok(data) => if data.len() < len {
                Err(VsockError::BufDescTooSmall)
            } else {
                Ok(data)
            },
            Err(error) => Err(error),
        }
    } else if head.len - VSOCK_PKT_HDR_SIZE < len {
        Err(VsockError::BufDescTooSmall)
    } else if head.addr + VSOCK_PKT_HDR_SIZE > u64::MAX {
        Err(VsockError::GuestMemory)
    } else {
        match (guest.fetch)(
            1,
            (head.addr + VSOCK_PKT_HDR_SIZE) as u64,
            len as usize,
            len as usize,
        ) {
            Some(f) => Ok(f.bytes),
            None => Err(VsockError::GuestMemory),
        }
    }
}

/// The header that a head descriptor points to.
pub open spec fn header_of(guest: Guest) -> Option<FetchedView> {
    (guest.fetch)(1, guest.descs[0].addr, VSOCK_PKT_HDR_SIZE, VSOCK_PKT_HDR_SIZE)
}

/// The packet that the guest sends, or why there is none.
pub open spec fn tx_outcome(guest: Guest) -> Result<PacketView, VsockError> {
    if guest.descs.len() == 0 {
        Err(VsockError::HdrDescMissing)
    } else if guest.descs[0].write_only {
        Err(VsockError::UnreadableDescriptor)
    } else if guest.descs[0].len < VSOCK_PKT_HDR_SIZE {
        Err(VsockError::HdrDescTooSmall(guest.descs[0].len))
    } else {
        match header_of(guest) {
            None => Err(VsockError::GuestMemory),
            Some(f) => {
                let len = decode(f.bytes).len;
                if len > MAX_PKT_BUF_SIZE {
                    Err(VsockError::InvalidPktLen(len))
                } else if len == 0 {
                    Ok(PacketView { hdr_addr: f.addr, hdr: f.bytes, buf: None, buf_addr: None })
                } else {
                    match tx_data(guest, len) {
                        Ok(data) => Ok(
                            PacketView {
                                hdr_addr: f.addr,
                                hdr: f.bytes,
                                buf: Some(data),
                                buf_addr: None,
                            },
                        ),
                        Err(error) => Err(error),
                    }
                }
            },
        }
    }
}

/// The room for the data of a packet that the guest is to receive, as its address and size: that of
/// the data descriptor, if one follows, and else that behind the header. It may be none.
pub open spec fn rx_room(guest: Guest) -> Result<Option<(u64, usize)>, VsockError> {
    let head = guest.descs[0];
    if head.has_next {
        if guest.descs.len() < 2 {
            Err(VsockError::BufDescMissing)
        } else if guest.descs[1].has_next {
            Err(VsockError::BufDescTooSmall)
        } else if !guest.descs[1].write_only {
            Err(VsockError::UnwritableDescriptor)
        } else if guest.descs[1].len == 0 {
            Ok(None)
        } else {
            Ok(Some((guest.descs[1].addr, guest.descs[1].len as usize)))
        }
    } else if head.len == VSOCK_PKT_HDR_SIZE {
        Ok(None)
    } else if head.addr + VSOCK_PKT_HDR_SIZE > u64::MAX {
        Err(VsockError::GuestMemory)
    } else {
        Ok(
            Some(
                (
                    (head.addr + VSOCK_PKT_HDR_SIZE) as u64,
                    (head.len - VSOCK_PKT_HDR_SIZE) as usize,
                ),
            ),
        )
    }
}

/// The packet that the guest is to receive, or why there is none.
pub open spec fn rx_outcome(guest: Guest) -> Result<PacketView, VsockError> {
    if guest.descs.len() == 0 {
        Err(VsockError::HdrDescMissing)
    } else if !guest.descs[0].write_only {
        Err(VsockError::UnwritableDescriptor)
    } else if guest.descs[0].len < VSOCK_PKT_HDR_SIZE {
        Err(VsockError::HdrDescTooSmall(guest.descs[0].len))
    } else {
        match (header_of(guest), rx_room(guest)) {
            (None, _) => Err(VsockError::GuestMemory),
            (_, Err(error)) => Err(error),
            (Some(f), Ok(None)) => Ok(rx_packet(f.addr, f.bytes, None)),
            (Some(f), Ok(Some((addr, len)))) => match (guest.probe)(addr, len) {
                Some(at) => Ok(rx_packet(f.addr, f.bytes, Some((at, len)))),
                None => Err(VsockError::GuestMemory),
            },
        }
    }
}

/// What is to be translated to gather data from the descriptors from `i` on when `want` bytes are
/// missing: each descriptor as a whole that something is taken from.
pub open spec fn tx_gather_spans(guest: Guest, i: nat, want: nat) -> Seq<(u64, u64)>
    decreases guest.descs.len() - i,
{
    if i >= guest.descs.len() || guest.descs[i as int].write_only {
        Seq::empty()
    } else {
        let desc = guest.descs[i as int];
        let own = if desc.len > 0 && want > 0 {
            seq![(desc.addr, desc.len as u64)]
        } else {
            Seq::empty()
        };
        match tx_piece(guest, i, want) {
            Some(piece) => if desc.has_next {
                own + tx_gather_spans(guest, i + 1, (want - piece.len()) as nat)
            } else {
                own
            },
            None => own,
        }
    }
}

/// What is to be translated for the data of a packet whose header counts `len` bytes.
pub open spec fn tx_data_spans(guest: Guest, len: u32) -> Seq<(u64, u64)> {
    let head = guest.descs[0];
    if len == 0 || len > MAX_PKT_BUF_SIZE {
        Seq::empty()
    } else if head.has_next {
        tx_gather_spans(guest, 1, len as nat)
    } else if head.len - VSOCK_PKT_HDR_SIZE < len || head.addr + VSOCK_PKT_HDR_SIZE > u64::MAX {
        Seq::empty()
    } else {
        seq![((head.addr + VSOCK_PKT_HDR_SIZE) as u64, len as u64)]
    }
}

/// What is to be translated for a packet that the guest sends, in this order, each as the address
/// and the number of bytes: the header, and then where the data lies.
pub open spec fn tx_spans(guest: Guest) -> Seq<(u64, u64)> {
    if guest.descs.len() == 0 || guest.descs[0].write_only || guest.descs[0].len
        < VSOCK_PKT_HDR_SIZE {
        Seq::empty()
    } else {
        seq![(guest.descs[0].addr, VSOCK_PKT_HDR_SIZE as u64)] + match header_of(guest) {
            Some(f) => tx_data_spans(guest, decode(f.bytes).len),
            None => Seq::empty(),
        }
    }
}

/// What is to be translated for a packet that the guest is to receive, in this order: the header,
/// and then the room for data, if there is any.
pub open spec fn rx_spans(guest: Guest) -> Seq<(u64, u64)> {
    if guest.descs.len() == 0 || !guest.descs[0].write_only || guest.descs[0].len
        < VSOCK_PKT_HDR_SIZE {
        Seq::empty()
    } else {
        seq![(guest.descs[0].addr, VSOCK_PKT_HDR_SIZE as u64)] + match (
            header_of(guest),
            rx_room(guest),
        ) {
            (Some(_), Ok(Some((addr, len)))) => seq![(addr, len as u64)],
            _ => Seq::empty(),
        }
    }
}

/// That `answers` are those of `guest` to an assembly of a packet that it sends.
pub open spec fn tx_answers_of(guest: Guest, answers: Seq<Answer>) -> bool {
    forall|i: int|
        0 <= i < answers.len() ==> #[trigger] answers[i] == guest.answer(
            handed_out(answers.take(i)),
            tx_request(tx_run(answers.take(i))),
        )
}

/// That `answers` are those of `guest` to an assembly of a packet that it is to receive.
pub open spec fn rx_answers_of(guest: Guest, answers: Seq<Answer>) -> bool {
    forall|i: int|
        0 <= i < answers.len() ==> #[trigger] answers[i] == guest.answer(
            handed_out(answers.take(i)),
            rx_request(rx_run(answers.take(i))),
        )
}

} // verus!
