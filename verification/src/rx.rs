//! Packets that the guest is to receive.

use crate::assembly::{answered, fits, Answer, Request};
use crate::error::VsockError;
use crate::guest::{
    fetched_view, guest_state, wrote_nothing, Access, Descriptor, Fetched, FetchedView, GuestChain,
    GuestState, Translator,
};
use crate::header::VSOCK_PKT_HDR_SIZE;
use crate::packet::{packet_view, PacketView, VsockPacket};
use crate::rx_laws::{law_rx_received, rx_committable, rx_received};
use crate::rx_log::{law_rx_buffer_goes_to_the_room, law_rx_header_is_what_was_read};
use vstd::prelude::*;

verus! {

/// How far the assembly of a packet that the guest is to receive has come.
pub enum RxPhase {
    /// The head descriptor is needed.
    Head,
    /// The header is needed, which lies where the head descriptor points to.
    Header { head: Descriptor },
    /// The data descriptor is needed.
    Descriptor { hdr_addr: u64, hdr: Seq<u8> },
    /// The `len` bytes from `addr` on, which take the data, must be accessible.
    Room { hdr_addr: u64, hdr: Seq<u8>, addr: u64, len: usize },
    /// The packet is complete, or there is none.
    Done(Result<PacketView, VsockError>),
}

/// What is needed next.
pub open spec fn rx_request(phase: RxPhase) -> Request {
    match phase {
        RxPhase::Head => Request::NextDescriptor,
        RxPhase::Header { head } => Request::Fetch {
            addr: head.addr,
            span: VSOCK_PKT_HDR_SIZE,
            len: VSOCK_PKT_HDR_SIZE,
        },
        RxPhase::Descriptor { .. } => Request::NextDescriptor,
        RxPhase::Room { addr, len, .. } => Request::Probe { addr, len },
        RxPhase::Done(_) => Request::Finished,
    }
}

/// The head descriptor must be there, be writable, and have room for the header.
pub open spec fn rx_after_head(desc: Option<Descriptor>) -> RxPhase {
    match desc {
        None => RxPhase::Done(Err(VsockError::HdrDescMissing)),
        Some(head) => if !head.write_only {
            RxPhase::Done(Err(VsockError::UnwritableDescriptor))
        } else if head.len < VSOCK_PKT_HDR_SIZE {
            RxPhase::Done(Err(VsockError::HdrDescTooSmall(head.len)))
        } else {
            RxPhase::Header { head }
        },
    }
}

/// With a data descriptor to follow, the room for data is there. Without, it is what the head
/// descriptor has left behind the header.
pub open spec fn rx_after_header(head: Descriptor, fetched: Option<FetchedView>) -> RxPhase {
    match fetched {
        None => RxPhase::Done(Err(VsockError::GuestMemory)),
        Some(f) => if head.has_next {
            RxPhase::Descriptor { hdr_addr: f.addr, hdr: f.bytes }
        } else if head.len == VSOCK_PKT_HDR_SIZE {
            RxPhase::Done(Ok(rx_packet(f.addr, f.bytes, None)))
        } else if head.addr + VSOCK_PKT_HDR_SIZE > u64::MAX {
            RxPhase::Done(Err(VsockError::GuestMemory))
        } else {
            RxPhase::Room {
                hdr_addr: f.addr,
                hdr: f.bytes,
                addr: (head.addr + VSOCK_PKT_HDR_SIZE) as u64,
                len: (head.len - VSOCK_PKT_HDR_SIZE) as usize,
            }
        },
    }
}

/// The data descriptor must be there, be the last of the chain, and be writable. It may be empty.
pub open spec fn rx_after_descriptor(
    hdr_addr: u64,
    hdr: Seq<u8>,
    desc: Option<Descriptor>,
) -> RxPhase {
    match desc {
        None => RxPhase::Done(Err(VsockError::BufDescMissing)),
        Some(d) => if d.has_next {
            RxPhase::Done(Err(VsockError::BufDescTooSmall))
        } else if !d.write_only {
            RxPhase::Done(Err(VsockError::UnwritableDescriptor))
        } else if d.len == 0 {
            RxPhase::Done(Ok(rx_packet(hdr_addr, hdr, None)))
        } else {
            RxPhase::Room { hdr_addr, hdr, addr: d.addr, len: d.len as usize }
        },
    }
}

/// A packet for the guest to receive: with `room` for data, given as its address and size, it has a
/// zeroed buffer of that size, which is to be written back there.
pub open spec fn rx_packet(hdr_addr: u64, hdr: Seq<u8>, room: Option<(u64, usize)>) -> PacketView {
    match room {
        Some((addr, len)) => PacketView {
            hdr_addr,
            hdr,
            buf: Some(Seq::new(len as nat, |i: int| 0u8)),
            buf_addr: Some(addr),
        },
        None => PacketView { hdr_addr, hdr, buf: None, buf_addr: None },
    }
}

/// Where the assembly goes from `phase` with `answer`.
pub open spec fn rx_step(phase: RxPhase, answer: Answer) -> RxPhase {
    match (phase, answer) {
        (RxPhase::Head, Answer::Descriptor(desc)) => rx_after_head(desc),
        (RxPhase::Header { head }, Answer::Fetched(fetched)) => rx_after_header(head, fetched),
        (RxPhase::Descriptor { hdr_addr, hdr }, Answer::Descriptor(desc)) => rx_after_descriptor(
            hdr_addr,
            hdr,
            desc,
        ),
        (RxPhase::Room { hdr_addr, hdr, len, .. }, Answer::Probed(probed)) => match probed {
            None => RxPhase::Done(Err(VsockError::GuestMemory)),
            Some(at) => RxPhase::Done(Ok(rx_packet(hdr_addr, hdr, Some((at, len))))),
        },
        _ => phase,
    }
}

/// Where the assembly is after `answers`, in this order.
#[verifier::opaque]
pub open spec fn rx_run(answers: Seq<Answer>) -> RxPhase
    decreases answers.len(),
{
    if answers.len() == 0 {
        RxPhase::Head
    } else {
        rx_step(rx_run(answers.drop_last()), answers.last())
    }
}

/// What holds of a packet that the guest is to receive when it is complete: it has a buffer
/// exactly if there is a place to write it back to, and a buffer is zeroed and not empty.
pub open spec fn rx_complete(packet: PacketView) -> bool {
    &&& packet.hdr.len() == VSOCK_PKT_HDR_SIZE
    &&& match (packet.buf, packet.buf_addr) {
        (Some(buf), Some(_)) => {
            &&& 0 < buf.len() <= u32::MAX
            &&& forall|i: int| 0 <= i < buf.len() ==> buf[i] == 0
        },
        (None, None) => true,
        _ => false,
    }
}

/// What holds in every phase.
pub open spec fn rx_wf(phase: RxPhase) -> bool {
    match phase {
        RxPhase::Head => true,
        RxPhase::Header { head } => head.write_only && head.len >= VSOCK_PKT_HDR_SIZE,
        RxPhase::Descriptor { hdr, .. } => hdr.len() == VSOCK_PKT_HDR_SIZE,
        RxPhase::Room { hdr, len, .. } => hdr.len() == VSOCK_PKT_HDR_SIZE && 0 < len <= u32::MAX,
        RxPhase::Done(outcome) => match outcome {
            Ok(packet) => rx_complete(packet),
            Err(_) => true,
        },
    }
}

/// An answer of the right kind keeps what holds in every phase.
pub proof fn law_rx_step_keeps_wf(phase: RxPhase, answer: Answer)
    requires
        rx_wf(phase),
        fits(rx_request(phase), answer),
    ensures
        rx_wf(rx_step(phase, answer)),
{
}

/// What an [`RxAssembly`] keeps from one answer to the next.
enum RxState {
    Head,
    Header { head: Descriptor },
    Descriptor { hdr_addr: u64, hdr: Vec<u8> },
    Room { hdr_addr: u64, hdr: Vec<u8>, addr: u64, len: usize },
    Done(Result<VsockPacket, VsockError>),
}

/// The assembly of a packet that the guest is to receive.
///
/// It works with any source of answers. [`VsockPacket::from_rx_virtq_head`] runs it on a
/// descriptor chain.
pub struct RxAssembly {
    state: RxState,
}

impl View for RxAssembly {
    type V = RxPhase;

    closed spec fn view(&self) -> RxPhase {
        match self.state {
            RxState::Head => RxPhase::Head,
            RxState::Header { head } => RxPhase::Header { head },
            RxState::Descriptor { hdr_addr, hdr } => RxPhase::Descriptor { hdr_addr, hdr: hdr@ },
            RxState::Room { hdr_addr, hdr, addr, len } => RxPhase::Room {
                hdr_addr,
                hdr: hdr@,
                addr,
                len,
            },
            RxState::Done(outcome) => RxPhase::Done(packet_view(outcome)),
        }
    }
}

impl RxAssembly {
    /// Starts an assembly.
    pub fn new() -> (assembly: Self)
        ensures
            assembly@ == RxPhase::Head,
            rx_wf(assembly@),
    {
        RxAssembly { state: RxState::Head }
    }

    /// What the assembly needs next.
    pub fn request(&self) -> (request: Request)
        ensures
            request == rx_request(self@),
    {
        match &self.state {
            RxState::Head => Request::NextDescriptor,
            RxState::Header { head } => Request::Fetch {
                addr: head.addr,
                span: VSOCK_PKT_HDR_SIZE,
                len: VSOCK_PKT_HDR_SIZE,
            },
            RxState::Descriptor { .. } => Request::NextDescriptor,
            RxState::Room { addr, len, .. } => Request::Probe { addr: *addr, len: *len },
            RxState::Done(_) => Request::Finished,
        }
    }

    /// Hands the assembly the next descriptor of the chain, or none if there is no more.
    pub fn descriptor(self, desc: Option<Descriptor>) -> (assembly: Self)
        requires
            rx_wf(self@),
            rx_request(self@) == Request::NextDescriptor,
        ensures
            assembly@ == rx_step(self@, Answer::Descriptor(desc)),
            rx_wf(assembly@),
    {
        match self.state {
            RxState::Head => match desc {
                Some(head) => if !head.write_only {
                    Self::failed(VsockError::UnwritableDescriptor)
                } else if head.len < VSOCK_PKT_HDR_SIZE as u32 {
                    Self::failed(VsockError::HdrDescTooSmall(head.len))
                } else {
                    RxAssembly { state: RxState::Header { head } }
                },
                None => Self::failed(VsockError::HdrDescMissing),
            },
            RxState::Descriptor { hdr_addr, hdr } => match desc {
                Some(desc) => if desc.has_next {
                    Self::failed(VsockError::BufDescTooSmall)
                } else if !desc.write_only {
                    Self::failed(VsockError::UnwritableDescriptor)
                } else if desc.len == 0 {
                    Self::complete(hdr_addr, hdr, None)
                } else {
                    RxAssembly {
                        state: RxState::Room {
                            hdr_addr,
                            hdr,
                            addr: desc.addr,
                            len: desc.len as usize,
                        },
                    }
                },
                None => Self::failed(VsockError::BufDescMissing),
            },
            state => RxAssembly { state },
        }
    }

    /// Hands the assembly the bytes that it asked for, or nothing if they cannot be had.
    pub fn fetched(self, fetched: Option<Fetched>) -> (assembly: Self)
        requires
            rx_wf(self@),
            fits(rx_request(self@), Answer::Fetched(fetched_view(fetched))),
        ensures
            assembly@ == rx_step(self@, Answer::Fetched(fetched_view(fetched))),
            rx_wf(assembly@),
    {
        let Fetched { addr: hdr_addr, bytes: hdr } = match fetched {
            Some(fetched) => fetched,
            None => return Self::failed(VsockError::GuestMemory),
        };
        match self.state {
            RxState::Header { head } => {
                if head.has_next {
                    return RxAssembly { state: RxState::Descriptor { hdr_addr, hdr } };
                }
                let len: usize = head.len as usize - VSOCK_PKT_HDR_SIZE;
                if len == 0 {
                    return Self::complete(hdr_addr, hdr, None);
                }
                match head.addr.checked_add(VSOCK_PKT_HDR_SIZE as u64) {
                    Some(addr) => RxAssembly { state: RxState::Room { hdr_addr, hdr, addr, len } },
                    None => Self::failed(VsockError::GuestMemory),
                }
            },
            state => RxAssembly { state },
        }
    }

    /// Hands the assembly the translated address of the room that it asked for, or nothing if it
    /// is not accessible.
    pub fn probed(self, probed: Option<u64>) -> (assembly: Self)
        requires
            rx_wf(self@),
            fits(rx_request(self@), Answer::Probed(probed)),
        ensures
            assembly@ == rx_step(self@, Answer::Probed(probed)),
            rx_wf(assembly@),
    {
        match self.state {
            RxState::Room { hdr_addr, hdr, len, .. } => match probed {
                Some(at) => Self::complete(hdr_addr, hdr, Some((at, len))),
                None => Self::failed(VsockError::GuestMemory),
            },
            state => RxAssembly { state },
        }
    }

    /// The packet, or why there is none.
    pub fn finish(self) -> (outcome: Result<VsockPacket, VsockError>)
        requires
            rx_request(self@) == Request::Finished,
        ensures
            self@ == RxPhase::Done(packet_view(outcome)),
    {
        match self.state {
            RxState::Done(outcome) => outcome,
            _ => vstd::pervasive::unreached(),
        }
    }

    fn failed(error: VsockError) -> (assembly: Self)
        ensures
            assembly@ == RxPhase::Done(Err(error)),
    {
        RxAssembly { state: RxState::Done(Err(error)) }
    }

    fn complete(hdr_addr: u64, hdr: Vec<u8>, room: Option<(u64, usize)>) -> (assembly: Self)
        requires
            hdr@.len() == VSOCK_PKT_HDR_SIZE,
        ensures
            assembly@ == RxPhase::Done(Ok(rx_packet(hdr_addr, hdr@, room))),
    {
        let packet = match room {
            Some((at, len)) => {
                let buf: Vec<u8> = vec![0u8; len];
                assert(buf@ =~= Seq::new(len as nat, |i: int| 0u8));
                VsockPacket::new(hdr_addr, &hdr, Some(buf), Some(at))
            },
            None => VsockPacket::new(hdr_addr, &hdr, None, None),
        };
        RxAssembly { state: RxState::Done(Ok(packet)) }
    }
}

/// That the guest gave `answers` to an assembly, one after the other, while it went through
/// `states`.
pub open spec fn rx_served(states: Seq<GuestState>, answers: Seq<Answer>) -> bool {
    &&& states.len() == answers.len() + 1
    &&& forall|i: int|
        0 <= i < answers.len() ==> answered(
            states[i],
            states[i + 1],
            rx_request(rx_run(answers.take(i))),
            #[trigger] answers[i],
        )
}

/// That the guest's answers brought an assembly to `phase` while the guest went from `before` to
/// `after`.
pub open spec fn rx_reached(before: GuestState, after: GuestState, phase: RxPhase) -> bool {
    exists|states: Seq<GuestState>, answers: Seq<Answer>|
        {
            &&& #[trigger] rx_served(states, answers)
            &&& states.first() == before
            &&& states.last() == after
            &&& rx_run(answers) == phase
        }
}

/// Before any answer, an assembly is in its first phase.
proof fn lemma_rx_reached_start(state: GuestState)
    ensures
        rx_reached(state, state, RxPhase::Head),
{
    reveal(rx_run);
    assert(rx_served(seq![state], Seq::empty()));
}

/// One more answer of the guest brings an assembly one step further.
proof fn lemma_rx_reached_step(
    start: GuestState,
    before: GuestState,
    after: GuestState,
    phase: RxPhase,
    answer: Answer,
)
    requires
        rx_reached(start, before, phase),
        answered(before, after, rx_request(phase), answer),
    ensures
        rx_reached(start, after, rx_step(phase, answer)),
{
    reveal(rx_run);
    let (states, answers) = choose|states: Seq<GuestState>, answers: Seq<Answer>|
        {
            &&& #[trigger] rx_served(states, answers)
            &&& states.first() == start
            &&& states.last() == before
            &&& rx_run(answers) == phase
        };
    let more_states = states.push(after);
    let more = answers.push(answer);
    assert(more.drop_last() =~= answers);
    assert(more.take(answers.len() as int) =~= answers);
    assert forall|i: int| 0 <= i < more.len() implies answered(
        more_states[i],
        more_states[i + 1],
        rx_request(rx_run(more.take(i))),
        #[trigger] more[i],
    ) by {
        if i < answers.len() {
            assert(more.take(i) =~= answers.take(i));
            assert(more[i] == answers[i]);
        }
    }
    assert(rx_served(more_states, more));
}

/// How many more answers an assembly takes at most.
pub open spec fn rx_rank(phase: RxPhase) -> nat {
    match phase {
        RxPhase::Head => 4,
        RxPhase::Header { .. } => 3,
        RxPhase::Descriptor { .. } => 2,
        RxPhase::Room { .. } => 1,
        RxPhase::Done(_) => 0,
    }
}

/// Every answer brings an assembly closer to its end.
pub proof fn law_rx_answer_lowers_rank(phase: RxPhase, answer: Answer)
    requires
        fits(rx_request(phase), answer),
    ensures
        rx_rank(rx_step(phase, answer)) < rx_rank(phase),
{
}

/// Takes one step of an assembly: gets from the guest what it needs, and hands it over.
fn rx_advance(
    assembly: RxAssembly,
    desc_chain: &mut GuestChain,
    access_platform: &mut Translator,
) -> (next: RxAssembly)
    requires
        rx_wf(assembly@),
        rx_request(assembly@) != Request::Finished,
    ensures
        rx_wf(next@),
        exists|answer: Answer|
            {
                &&& #[trigger] answered(
                    guest_state(old(desc_chain)@, old(access_platform)@),
                    guest_state(final(desc_chain)@, final(access_platform)@),
                    rx_request(assembly@),
                    answer,
                )
                &&& next@ == rx_step(assembly@, answer)
            },
        rx_rank(next@) < rx_rank(assembly@),
{
    match assembly.request() {
        Request::NextDescriptor => {
            let desc = desc_chain.next_descriptor();
            let ghost answer = Answer::Descriptor(desc);
            assert(answered(
                guest_state(old(desc_chain)@, old(access_platform)@),
                guest_state(desc_chain@, access_platform@),
                rx_request(assembly@),
                answer,
            ));
            proof {
                law_rx_answer_lowers_rank(assembly@, answer);
            }
            assembly.descriptor(desc)
        },
        Request::Fetch { addr, span, len } => {
            let fetched = desc_chain.fetch(access_platform, addr, span, len);
            let ghost answer = Answer::Fetched(fetched_view(fetched));
            assert(answered(
                guest_state(old(desc_chain)@, old(access_platform)@),
                guest_state(desc_chain@, access_platform@),
                rx_request(assembly@),
                answer,
            ));
            proof {
                law_rx_answer_lowers_rank(assembly@, answer);
            }
            assembly.fetched(fetched)
        },
        Request::Probe { addr, len } => {
            let probed = desc_chain.probe(access_platform, addr, len);
            let ghost answer = Answer::Probed(probed);
            assert(answered(
                guest_state(old(desc_chain)@, old(access_platform)@),
                guest_state(desc_chain@, access_platform@),
                rx_request(assembly@),
                answer,
            ));
            proof {
                law_rx_answer_lowers_rank(assembly@, answer);
            }
            assembly.probed(probed)
        },
        Request::Finished => assembly,
    }
}

impl VsockPacket {
    /// Takes a packet that the guest is to receive from a descriptor chain.
    ///
    /// The chain has a writable header descriptor and a writable data descriptor. The head
    /// descriptor may also hold both header and data.
    ///
    /// That guest memory can take the data is checked here, so that it can be written back later.
    /// The outcome is what the guest's answers amount to, see [`crate::outcome::rx_outcome`].
    /// Nothing but the translations in [`crate::outcome::rx_spans`] is asked of the platform, and
    /// nothing is written to guest memory.
    pub fn from_rx_virtq_head(
        desc_chain: &mut GuestChain,
        access_platform: &mut Translator,
    ) -> (result: Result<VsockPacket, VsockError>)
        ensures
            rx_received(
                guest_state(old(desc_chain)@, old(access_platform)@),
                guest_state(final(desc_chain)@, final(access_platform)@),
                packet_view(result),
            ),
            match result {
                Ok(packet) => {
                    &&& rx_complete(packet@)
                    &&& rx_committable(old(desc_chain)@.mem(), packet@)
                    &&& final(desc_chain)@.log.skip(old(desc_chain)@.log.len() as int)[1] == (
                    Access::Read {
                        addr: packet@.hdr_addr,
                        len: VSOCK_PKT_HDR_SIZE,
                        got: Some(packet@.hdr),
                    })
                    &&& match (packet@.buf, packet@.buf_addr) {
                        (Some(buf), Some(addr)) => final(desc_chain)@.log.last() == (
                        Access::Probed { addr, len: buf.len() as usize, ok: true }),
                        (None, None) => true,
                        _ => false,
                    }
                },
                Err(_) => true,
            },
            final(desc_chain)@.mem() == old(desc_chain)@.mem(),
            wrote_nothing(old(desc_chain)@.log, final(desc_chain)@.log),
    {
        let mut assembly = RxAssembly::new();
        let ghost start = guest_state(desc_chain@, access_platform@);
        proof {
            lemma_rx_reached_start(start);
        }
        while !matches!(assembly.request(), Request::Finished)
            invariant
                rx_wf(assembly@),
                rx_reached(start, guest_state(desc_chain@, access_platform@), assembly@),
            decreases rx_rank(assembly@),
        {
            let ghost before = guest_state(desc_chain@, access_platform@);
            let ghost phase = assembly@;
            assembly = rx_advance(assembly, desc_chain, access_platform);
            proof {
                let after = guest_state(desc_chain@, access_platform@);
                let answer = choose|answer: Answer|
                    {
                        &&& #[trigger] answered(before, after, rx_request(phase), answer)
                        &&& assembly@ == rx_step(phase, answer)
                    };
                lemma_rx_reached_step(start, before, after, phase, answer);
            }
        }
        let result = assembly.finish();
        proof {
            let end = guest_state(desc_chain@, access_platform@);
            law_rx_received(start, end, packet_view(result));
            if let Ok(packet) = &result {
                law_rx_header_is_what_was_read(start, end, packet@);
                law_rx_buffer_goes_to_the_room(start, end, packet@);
            }
        }
        result
    }
}

} // verus!
