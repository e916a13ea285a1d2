//! Packets that the guest sends.

use crate::assembly::{answered, fits, Answer, Request};
use crate::defs::MAX_PKT_BUF_SIZE;
use crate::error::VsockError;
use crate::guest::{
    bytes_read, chain_budget, fetched_view, guest_state, wrote_nothing, Descriptor, Fetched,
    FetchedView, GuestChain, GuestState, Translator,
};
use crate::header::{decode, HDROFF_LEN, VSOCK_PKT_HDR_SIZE};
use crate::le::read_u32;
use crate::packet::{packet_view, PacketView, VsockPacket};
use crate::tx_laws::{law_tx_received, tx_received};
use crate::tx_log::law_tx_packet_is_what_was_read;
use vstd::prelude::*;

verus! {

/// How far the assembly of a packet that the guest sends has come.
pub enum TxPhase {
    /// The head descriptor is needed.
    Head,
    /// The header is needed, which lies where the head descriptor points to.
    Header { head: Descriptor },
    /// The next data descriptor is needed.
    Descriptor { hdr_addr: u64, hdr: Seq<u8>, data: Seq<u8> },
    /// More data is needed: `len` bytes of the `span` bytes from `addr` on. Then the next data
    /// descriptor comes, if there are `more`.
    Data {
        hdr_addr: u64,
        hdr: Seq<u8>,
        data: Seq<u8>,
        addr: u64,
        span: usize,
        len: usize,
        more: bool,
    },
    /// The packet is complete, or there is none.
    Done(Result<PacketView, VsockError>),
}

/// What is needed next.
pub open spec fn tx_request(phase: TxPhase) -> Request {
    match phase {
        TxPhase::Head => Request::NextDescriptor,
        TxPhase::Header { head } => Request::Fetch {
            addr: head.addr,
            span: VSOCK_PKT_HDR_SIZE,
            len: VSOCK_PKT_HDR_SIZE,
        },
        TxPhase::Descriptor { .. } => Request::NextDescriptor,
        TxPhase::Data { addr, span, len, .. } => Request::Fetch { addr, span, len },
        TxPhase::Done(_) => Request::Finished,
    }
}

/// The head descriptor must be there, be readable, and have room for the header.
pub open spec fn tx_after_head(desc: Option<Descriptor>) -> TxPhase {
    match desc {
        None => TxPhase::Done(Err(VsockError::HdrDescMissing)),
        Some(head) => if head.write_only {
            TxPhase::Done(Err(VsockError::UnreadableDescriptor))
        } else if head.len < VSOCK_PKT_HDR_SIZE {
            TxPhase::Done(Err(VsockError::HdrDescTooSmall(head.len)))
        } else {
            TxPhase::Header { head }
        },
    }
}

/// A packet without data is complete with its header. Data lies in the descriptors that follow, or
/// behind the header if none follows.
pub open spec fn tx_after_header(head: Descriptor, fetched: Option<FetchedView>) -> TxPhase {
    match fetched {
        None => TxPhase::Done(Err(VsockError::GuestMemory)),
        Some(f) => {
            let len = decode(f.bytes).len;
            if len == 0 {
                TxPhase::Done(
                    Ok(PacketView { hdr_addr: f.addr, hdr: f.bytes, buf: None, buf_addr: None }),
                )
            } else if len > MAX_PKT_BUF_SIZE {
                TxPhase::Done(Err(VsockError::InvalidPktLen(len)))
            } else if head.has_next {
                TxPhase::Descriptor { hdr_addr: f.addr, hdr: f.bytes, data: Seq::empty() }
            } else if head.len - VSOCK_PKT_HDR_SIZE < len {
                TxPhase::Done(Err(VsockError::BufDescTooSmall))
            } else if head.addr + VSOCK_PKT_HDR_SIZE > u64::MAX {
                TxPhase::Done(Err(VsockError::GuestMemory))
            } else {
                TxPhase::Data {
                    hdr_addr: f.addr,
                    hdr: f.bytes,
                    data: Seq::empty(),
                    addr: (head.addr + VSOCK_PKT_HDR_SIZE) as u64,
                    span: len as usize,
                    len: len as usize,
                    more: false,
                }
            }
        },
    }
}

/// With `data` gathered, the next data descriptor comes, if there are `more`. After the last one
/// the data must be complete.
pub open spec fn tx_gathered(
    hdr_addr: u64,
    hdr: Seq<u8>,
    data: Seq<u8>,
    more: bool,
) -> TxPhase {
    if more {
        TxPhase::Descriptor { hdr_addr, hdr, data }
    } else if data.len() < decode(hdr).len {
        TxPhase::Done(Err(VsockError::BufDescTooSmall))
    } else {
        TxPhase::Done(Ok(PacketView { hdr_addr, hdr, buf: Some(data), buf_addr: None }))
    }
}

/// A data descriptor must be there and be readable. As much data is taken from it as is still
/// missing.
pub open spec fn tx_after_descriptor(
    hdr_addr: u64,
    hdr: Seq<u8>,
    data: Seq<u8>,
    desc: Option<Descriptor>,
) -> TxPhase {
    match desc {
        None => TxPhase::Done(Err(VsockError::BufDescMissing)),
        Some(d) => {
            let missing = decode(hdr).len - data.len();
            if d.write_only {
                TxPhase::Done(Err(VsockError::UnreadableDescriptor))
            } else if d.len > 0 && missing > 0 {
                TxPhase::Data {
                    hdr_addr,
                    hdr,
                    data,
                    addr: d.addr,
                    span: d.len as usize,
                    len: if d.len < missing {
                        d.len as usize
                    } else {
                        missing as usize
                    },
                    more: d.has_next,
                }
            } else {
                tx_gathered(hdr_addr, hdr, data, d.has_next)
            }
        },
    }
}

/// Where the assembly goes from `phase` with `answer`.
pub open spec fn tx_step(phase: TxPhase, answer: Answer) -> TxPhase {
    match (phase, answer) {
        (TxPhase::Head, Answer::Descriptor(desc)) => tx_after_head(desc),
        (TxPhase::Header { head }, Answer::Fetched(fetched)) => tx_after_header(head, fetched),
        (
            TxPhase::Descriptor { hdr_addr, hdr, data },
            Answer::Descriptor(desc),
        ) => tx_after_descriptor(hdr_addr, hdr, data, desc),
        (
            TxPhase::Data { hdr_addr, hdr, data, more, .. },
            Answer::Fetched(fetched),
        ) => match fetched {
            None => TxPhase::Done(Err(VsockError::GuestMemory)),
            Some(f) => tx_gathered(hdr_addr, hdr, data + f.bytes, more),
        },
        _ => phase,
    }
}

/// Where the assembly is after `answers`, in this order.
#[verifier::opaque]
pub open spec fn tx_run(answers: Seq<Answer>) -> TxPhase
    decreases answers.len(),
{
    if answers.len() == 0 {
        TxPhase::Head
    } else {
        tx_step(tx_run(answers.drop_last()), answers.last())
    }
}

/// What holds of a packet that the guest sends when it is complete: it has data exactly if the
/// length field of the header is not zero, the data is as long as that field says and not too
/// long for a packet, and nothing is to be written back.
pub open spec fn tx_complete(packet: PacketView) -> bool {
    let len = packet.header().len;
    &&& packet.hdr.len() == VSOCK_PKT_HDR_SIZE
    &&& packet.buf_addr is None
    &&& match packet.buf {
        Some(buf) => 0 < len <= MAX_PKT_BUF_SIZE && buf.len() == len,
        None => len == 0,
    }
}

/// What holds in every phase.
pub open spec fn tx_wf(phase: TxPhase) -> bool {
    match phase {
        TxPhase::Head => true,
        TxPhase::Header { head } => !head.write_only && head.len >= VSOCK_PKT_HDR_SIZE,
        TxPhase::Descriptor { hdr, data, .. } => {
            &&& hdr.len() == VSOCK_PKT_HDR_SIZE
            &&& 0 < decode(hdr).len <= MAX_PKT_BUF_SIZE
            &&& data.len() <= decode(hdr).len
        },
        TxPhase::Data { hdr, data, span, len, .. } => {
            &&& hdr.len() == VSOCK_PKT_HDR_SIZE
            &&& 0 < decode(hdr).len <= MAX_PKT_BUF_SIZE
            &&& 0 < len <= span
            &&& data.len() + len <= decode(hdr).len
        },
        TxPhase::Done(outcome) => match outcome {
            Ok(packet) => tx_complete(packet),
            Err(_) => true,
        },
    }
}

/// An answer of the right kind keeps what holds in every phase.
pub proof fn law_tx_step_keeps_wf(phase: TxPhase, answer: Answer)
    requires
        tx_wf(phase),
        fits(tx_request(phase), answer),
    ensures
        tx_wf(tx_step(phase, answer)),
{
}

/// What a [`TxAssembly`] keeps from one answer to the next.
enum TxState {
    Head,
    Header { head: Descriptor },
    Descriptor { hdr_addr: u64, hdr: Vec<u8>, data: Vec<u8> },
    Data {
        hdr_addr: u64,
        hdr: Vec<u8>,
        data: Vec<u8>,
        addr: u64,
        span: usize,
        len: usize,
        more: bool,
    },
    Done(Result<VsockPacket, VsockError>),
}

/// The assembly of a packet that the guest sends.
///
/// It works with any source of answers. [`VsockPacket::from_tx_virtq_head`] runs it on a
/// descriptor chain.
pub struct TxAssembly {
    state: TxState,
}

impl View for TxAssembly {
    type V = TxPhase;

    closed spec fn view(&self) -> TxPhase {
        match self.state {
            TxState::Head => TxPhase::Head,
            TxState::Header { head } => TxPhase::Header { head },
            TxState::Descriptor { hdr_addr, hdr, data } => TxPhase::Descriptor {
                hdr_addr,
                hdr: hdr@,
                data: data@,
            },
            TxState::Data { hdr_addr, hdr, data, addr, span, len, more } => TxPhase::Data {
                hdr_addr,
                hdr: hdr@,
                data: data@,
                addr,
                span,
                len,
                more,
            },
            TxState::Done(outcome) => TxPhase::Done(packet_view(outcome)),
        }
    }
}

impl TxAssembly {
    /// Starts an assembly.
    pub fn new() -> (assembly: Self)
        ensures
            assembly@ == TxPhase::Head,
            tx_wf(assembly@),
    {
        TxAssembly { state: TxState::Head }
    }

    /// What the assembly needs next.
    pub fn request(&self) -> (request: Request)
        ensures
            request == tx_request(self@),
    {
        match &self.state {
            TxState::Head => Request::NextDescriptor,
            TxState::Header { head } => Request::Fetch {
                addr: head.addr,
                span: VSOCK_PKT_HDR_SIZE,
                len: VSOCK_PKT_HDR_SIZE,
            },
            TxState::Descriptor { .. } => Request::NextDescriptor,
            TxState::Data { addr, span, len, .. } => Request::Fetch {
                addr: *addr,
                span: *span,
                len: *len,
            },
            TxState::Done(_) => Request::Finished,
        }
    }

    /// Hands the assembly the next descriptor of the chain, or none if there is no more.
    pub fn descriptor(self, desc: Option<Descriptor>) -> (assembly: Self)
        requires
            tx_wf(self@),
            tx_request(self@) == Request::NextDescriptor,
        ensures
            assembly@ == tx_step(self@, Answer::Descriptor(desc)),
            tx_wf(assembly@),
    {
        match self.state {
            TxState::Head => match desc {
                Some(head) => if head.write_only {
                    Self::failed(VsockError::UnreadableDescriptor)
                } else if head.len < VSOCK_PKT_HDR_SIZE as u32 {
                    Self::failed(VsockError::HdrDescTooSmall(head.len))
                } else {
                    TxAssembly { state: TxState::Header { head } }
                },
                None => Self::failed(VsockError::HdrDescMissing),
            },
            TxState::Descriptor { hdr_addr, hdr, data } => {
                let desc = match desc {
                    Some(desc) => desc,
                    None => return Self::failed(VsockError::BufDescMissing),
                };
                if desc.write_only {
                    return Self::failed(VsockError::UnreadableDescriptor);
                }
                let total: usize = read_u32(hdr.as_slice(), HDROFF_LEN) as usize;
                let desc_len: usize = desc.len as usize;
                if desc_len > 0 && data.len() < total {
                    let missing: usize = total - data.len();
                    let len: usize = if desc_len < missing {
                        desc_len
                    } else {
                        missing
                    };
                    TxAssembly {
                        state: TxState::Data {
                            hdr_addr,
                            hdr,
                            data,
                            addr: desc.addr,
                            span: desc_len,
                            len,
                            more: desc.has_next,
                        },
                    }
                } else {
                    Self::gathered(hdr_addr, hdr, data, desc.has_next)
                }
            },
            state => TxAssembly { state },
        }
    }

    /// Hands the assembly the bytes that it asked for, or nothing if they cannot be had.
    pub fn fetched(self, fetched: Option<Fetched>) -> (assembly: Self)
        requires
            tx_wf(self@),
            fits(tx_request(self@), Answer::Fetched(fetched_view(fetched))),
        ensures
            assembly@ == tx_step(self@, Answer::Fetched(fetched_view(fetched))),
            tx_wf(assembly@),
    {
        let Fetched { addr: from, bytes } = match fetched {
            Some(fetched) => fetched,
            None => return Self::failed(VsockError::GuestMemory),
        };
        match self.state {
            TxState::Header { head } => Self::after_header(head, from, bytes),
            TxState::Data { hdr_addr, hdr, data, more, .. } => {
                let mut data = data;
                let mut bytes = bytes;
                data.append(&mut bytes);
                Self::gathered(hdr_addr, hdr, data, more)
            },
            state => TxAssembly { state },
        }
    }

    /// The packet, or why there is none.
    pub fn finish(self) -> (outcome: Result<VsockPacket, VsockError>)
        requires
            tx_request(self@) == Request::Finished,
        ensures
            self@ == TxPhase::Done(packet_view(outcome)),
    {
        match self.state {
            TxState::Done(outcome) => outcome,
            _ => vstd::pervasive::unreached(),
        }
    }

    fn failed(error: VsockError) -> (assembly: Self)
        ensures
            assembly@ == TxPhase::Done(Err(error)),
    {
        TxAssembly { state: TxState::Done(Err(error)) }
    }

    fn after_header(head: Descriptor, hdr_addr: u64, hdr: Vec<u8>) -> (assembly: Self)
        requires
            head.len >= VSOCK_PKT_HDR_SIZE,
            hdr@.len() == VSOCK_PKT_HDR_SIZE,
        ensures
            assembly@ == tx_after_header(
                head,
                Some(FetchedView { addr: hdr_addr, bytes: hdr@ }),
            ),
    {
        let pkt_len = read_u32(hdr.as_slice(), HDROFF_LEN);
        // No point in looking for data if the packet has none.
        if pkt_len == 0 {
            let packet = VsockPacket::new(hdr_addr, &hdr, None, None);
            return TxAssembly { state: TxState::Done(Ok(packet)) };
        }
        if pkt_len > MAX_PKT_BUF_SIZE as u32 {
            return Self::failed(VsockError::InvalidPktLen(pkt_len));
        }
        let total: usize = pkt_len as usize;
        let data: Vec<u8> = Vec::with_capacity(total);
        if head.has_next {
            return TxAssembly { state: TxState::Descriptor { hdr_addr, hdr, data } };
        }
        if (head.len as usize - VSOCK_PKT_HDR_SIZE) < total {
            return Self::failed(VsockError::BufDescTooSmall);
        }
        match head.addr.checked_add(VSOCK_PKT_HDR_SIZE as u64) {
            Some(addr) => TxAssembly {
                state: TxState::Data {
                    hdr_addr,
                    hdr,
                    data,
                    addr,
                    span: total,
                    len: total,
                    more: false,
                },
            },
            None => Self::failed(VsockError::GuestMemory),
        }
    }

    fn gathered(hdr_addr: u64, hdr: Vec<u8>, data: Vec<u8>, more: bool) -> (assembly: Self)
        requires
            hdr@.len() == VSOCK_PKT_HDR_SIZE,
        ensures
            assembly@ == tx_gathered(hdr_addr, hdr@, data@, more),
    {
        if more {
            return TxAssembly { state: TxState::Descriptor { hdr_addr, hdr, data } };
        }
        if data.len() < read_u32(hdr.as_slice(), HDROFF_LEN) as usize {
            return Self::failed(VsockError::BufDescTooSmall);
        }
        let packet = VsockPacket::new(hdr_addr, &hdr, Some(data), None);
        TxAssembly { state: TxState::Done(Ok(packet)) }
    }
}

/// That the guest gave `answers` to an assembly, one after the other, while it went through
/// `states`.
pub open spec fn tx_served(states: Seq<GuestState>, answers: Seq<Answer>) -> bool {
    &&& states.len() == answers.len() + 1
    &&& forall|i: int|
        0 <= i < answers.len() ==> answered(
            states[i],
            states[i + 1],
            tx_request(tx_run(answers.take(i))),
            #[trigger] answers[i],
        )
}

/// That the guest's answers brought an assembly to `phase` while the guest went from `before` to
/// `after`.
pub open spec fn tx_reached(before: GuestState, after: GuestState, phase: TxPhase) -> bool {
    exists|states: Seq<GuestState>, answers: Seq<Answer>|
        {
            &&& #[trigger] tx_served(states, answers)
            &&& states.first() == before
            &&& states.last() == after
            &&& tx_run(answers) == phase
        }
}

/// Before any answer, an assembly is in its first phase.
proof fn lemma_tx_reached_start(state: GuestState)
    ensures
        tx_reached(state, state, TxPhase::Head),
{
    reveal(tx_run);
    assert(tx_served(seq![state], Seq::empty()));
}

/// One more answer of the guest brings an assembly one step further.
proof fn lemma_tx_reached_step(
    start: GuestState,
    before: GuestState,
    after: GuestState,
    phase: TxPhase,
    answer: Answer,
)
    requires
        tx_reached(start, before, phase),
        answered(before, after, tx_request(phase), answer),
    ensures
        tx_reached(start, after, tx_step(phase, answer)),
{
    reveal(tx_run);
    let (states, answers) = choose|states: Seq<GuestState>, answers: Seq<Answer>|
        {
            &&& #[trigger] tx_served(states, answers)
            &&& states.first() == start
            &&& states.last() == before
            &&& tx_run(answers) == phase
        };
    let more_states = states.push(after);
    let more = answers.push(answer);
    assert(more.drop_last() =~= answers);
    assert(more.take(answers.len() as int) =~= answers);
    assert forall|i: int| 0 <= i < more.len() implies answered(
        more_states[i],
        more_states[i + 1],
        tx_request(tx_run(more.take(i))),
        #[trigger] more[i],
    ) by {
        if i < answers.len() {
            assert(more.take(i) =~= answers.take(i));
            assert(more[i] == answers[i]);
        }
    }
    assert(tx_served(more_states, more));
}

/// How many more answers an assembly takes at most before a descriptor comes, or the end.
pub open spec fn tx_rank(phase: TxPhase) -> nat {
    match phase {
        TxPhase::Header { .. } => 3,
        TxPhase::Data { .. } => 2,
        TxPhase::Head => 1,
        TxPhase::Descriptor { .. } => 1,
        TxPhase::Done(_) => 0,
    }
}

/// Every answer but a descriptor brings an assembly closer to the next descriptor or to the end, and
/// so does the answer that there is no descriptor.
pub proof fn law_tx_answer_lowers_rank(phase: TxPhase, answer: Answer)
    requires
        fits(tx_request(phase), answer),
        answer matches Answer::Descriptor(desc) ==> desc is None,
    ensures
        tx_rank(tx_step(phase, answer)) < tx_rank(phase),
{
}

/// Takes one step of an assembly: gets from the guest what it needs, and hands it over.
fn tx_advance(
    assembly: TxAssembly,
    desc_chain: &mut GuestChain,
    access_platform: &mut Translator,
) -> (next: TxAssembly)
    requires
        tx_wf(assembly@),
        tx_request(assembly@) != Request::Finished,
    ensures
        tx_wf(next@),
        exists|answer: Answer|
            {
                &&& #[trigger] answered(
                    guest_state(old(desc_chain)@, old(access_platform)@),
                    guest_state(final(desc_chain)@, final(access_platform)@),
                    tx_request(assembly@),
                    answer,
                )
                &&& next@ == tx_step(assembly@, answer)
            },
        chain_budget(final(desc_chain)@.chain) <= chain_budget(old(desc_chain)@.chain),
        chain_budget(final(desc_chain)@.chain) < chain_budget(old(desc_chain)@.chain) || tx_rank(
            next@,
        ) < tx_rank(assembly@),
{
    match assembly.request() {
        Request::NextDescriptor => {
            let desc = desc_chain.next_descriptor();
            let ghost answer = Answer::Descriptor(desc);
            assert(answered(
                guest_state(old(desc_chain)@, old(access_platform)@),
                guest_state(desc_chain@, access_platform@),
                tx_request(assembly@),
                answer,
            ));
            proof {
                if desc is None {
                    law_tx_answer_lowers_rank(assembly@, answer);
                }
            }
            assembly.descriptor(desc)
        },
        Request::Fetch { addr, span, len } => {
            let fetched = desc_chain.fetch(access_platform, addr, span, len);
            let ghost answer = Answer::Fetched(fetched_view(fetched));
            assert(answered(
                guest_state(old(desc_chain)@, old(access_platform)@),
                guest_state(desc_chain@, access_platform@),
                tx_request(assembly@),
                answer,
            ));
            proof {
                law_tx_answer_lowers_rank(assembly@, answer);
            }
            assembly.fetched(fetched)
        },
        _ => assembly,
    }
}

impl VsockPacket {
    /// Takes the packet that the guest sends from a descriptor chain.
    ///
    /// The chain head is expected to hold the packet header. The data, if there is any, lies in the
    /// descriptors that follow, or behind the header if none follows.
    ///
    /// Header and data are copied, so the packet stays as it is whatever the guest does next: they
    /// are all the bytes that were read, one after the other. The
    /// outcome is what the guest's answers amount to, see [`crate::outcome::tx_outcome`]. Nothing
    /// but the translations in [`crate::outcome::tx_spans`] is asked of the platform, and nothing
    /// is written to guest memory.
    pub fn from_tx_virtq_head(
        desc_chain: &mut GuestChain,
        access_platform: &mut Translator,
    ) -> (result: Result<VsockPacket, VsockError>)
        ensures
            tx_received(
                guest_state(old(desc_chain)@, old(access_platform)@),
                guest_state(final(desc_chain)@, final(access_platform)@),
                packet_view(result),
            ),
            match result {
                Ok(packet) => {
                    &&& tx_complete(packet@)
                    &&& packet@.hdr_bytes_committed(old(desc_chain)@.mem()) == VSOCK_PKT_HDR_SIZE
                    &&& bytes_read(final(desc_chain)@.log.skip(old(desc_chain)@.log.len() as int))
                        == packet@.hdr + match packet@.buf {
                        Some(data) => data,
                        None => Seq::empty(),
                    }
                },
                Err(_) => true,
            },
            final(desc_chain)@.mem() == old(desc_chain)@.mem(),
            wrote_nothing(old(desc_chain)@.log, final(desc_chain)@.log),
    {
        let mut assembly = TxAssembly::new();
        let ghost start = guest_state(desc_chain@, access_platform@);
        proof {
            lemma_tx_reached_start(start);
        }
        while !matches!(assembly.request(), Request::Finished)
            invariant
                tx_wf(assembly@),
                tx_reached(start, guest_state(desc_chain@, access_platform@), assembly@),
            decreases chain_budget(desc_chain@.chain), tx_rank(assembly@),
        {
            let ghost before = guest_state(desc_chain@, access_platform@);
            let ghost phase = assembly@;
            assembly = tx_advance(assembly, desc_chain, access_platform);
            proof {
                let after = guest_state(desc_chain@, access_platform@);
                let answer = choose|answer: Answer|
                    {
                        &&& #[trigger] answered(before, after, tx_request(phase), answer)
                        &&& assembly@ == tx_step(phase, answer)
                    };
                lemma_tx_reached_step(start, before, after, phase, answer);
            }
        }
        let result = assembly.finish();
        proof {
            let end = guest_state(desc_chain@, access_platform@);
            law_tx_received(start, end, packet_view(result));
            if let Ok(packet) = &result {
                law_tx_packet_is_what_was_read(start, end, packet@);
                assert(packet@.hdr + Seq::<u8>::empty() =~= packet@.hdr);
            }
        }
        result
    }
}

} // verus!
