//! Laws on the assembly of packets that the guest is to receive.

use crate::assembly::{answered, fits, span_of, Answer, Request};
use crate::defs::MAX_PKT_BUF_SIZE;
use crate::error::VsockError;
use crate::guest::{
    asked_just, guest_regions, in_one_region, lemma_region_is_mapped, mapped_prefix, spans,
    wrote_nothing, Access, FetchedView, GuestRam, GuestState, WriterView,
};
use crate::header::VSOCK_PKT_HDR_SIZE;
use crate::outcome::{
    descs_of, handed_out, header_of, lemma_descs_grow, lemma_descs_take, rx_answers_of, rx_outcome,
    rx_room, rx_spans, Guest,
};
use crate::packet::{law_hdr_is_written_whole, PacketView};
use crate::rx::{
    rx_complete, rx_packet, rx_rank, rx_reached, rx_request, rx_run, rx_served, rx_step, RxPhase,
};
use vstd::prelude::*;

verus! {

/// What an assembly still comes to when it is in `phase`.
spec fn rx_ahead(guest: Guest, phase: RxPhase) -> Result<PacketView, VsockError> {
    match phase {
        RxPhase::Room { hdr_addr, hdr, addr, len } => match (guest.probe)(addr, len) {
            Some(at) => Ok(rx_packet(hdr_addr, hdr, Some((at, len)))),
            None => Err(VsockError::GuestMemory),
        },
        RxPhase::Done(outcome) => outcome,
        _ => rx_outcome(guest),
    }
}

/// How `phase` and the number of descriptors handed out go together.
spec fn rx_in_step(guest: Guest, phase: RxPhase, handed: nat) -> bool {
    match phase {
        RxPhase::Head => handed == 0,
        RxPhase::Header { head } => {
            &&& handed == 1
            &&& guest.descs.len() > 0
            &&& head == guest.descs[0]
            &&& head.write_only
            &&& head.len >= VSOCK_PKT_HDR_SIZE
        },
        RxPhase::Descriptor { hdr_addr, hdr } => {
            &&& handed == 1
            &&& guest.descs.len() > 0
            &&& guest.descs[0].write_only
            &&& guest.descs[0].len >= VSOCK_PKT_HDR_SIZE
            &&& guest.descs[0].has_next
            &&& header_of(guest) == Some(FetchedView { addr: hdr_addr, bytes: hdr })
        },
        _ => true,
    }
}

/// After any number of answers of the guest, an assembly still comes to the same.
proof fn lemma_rx_ahead(guest: Guest, answers: Seq<Answer>)
    requires
        rx_answers_of(guest, answers),
    ensures
        rx_in_step(guest, rx_run(answers), handed_out(answers)),
        rx_ahead(guest, rx_run(answers)) == rx_outcome(guest),
    decreases answers.len(),
{
    reveal(rx_run);
    if answers.len() > 0 {
        let before = answers.drop_last();
        assert(before =~= answers.take(answers.len() - 1));
        assert forall|i: int| 0 <= i < before.len() implies #[trigger] before[i] == guest.answer(
            handed_out(before.take(i)),
            rx_request(rx_run(before.take(i))),
        ) by {
            assert(before.take(i) =~= answers.take(i));
            assert(before[i] == answers[i]);
        }
        lemma_rx_ahead(guest, before);
        assert(answers.last() == answers[answers.len() - 1]);
    }
}

/// An assembly that has all the answers it needs from a guest has found the packet that the guest
/// is to receive, or why there is none.
pub proof fn law_rx_outcome(guest: Guest, answers: Seq<Answer>)
    requires
        rx_answers_of(guest, answers),
        rx_request(rx_run(answers)) == Request::Finished,
    ensures
        rx_run(answers) == RxPhase::Done(rx_outcome(guest)),
{
    lemma_rx_ahead(guest, answers);
}

/// What is still to be translated when an assembly is in `phase`.
spec fn rx_spans_ahead(guest: Guest, phase: RxPhase) -> Seq<(u64, u64)> {
    match phase {
        RxPhase::Head => rx_spans(guest),
        RxPhase::Header { .. } => rx_spans(guest),
        RxPhase::Descriptor { .. } => match rx_room(guest) {
            Ok(Some((addr, len))) => seq![(addr, len as u64)],
            _ => Seq::empty(),
        },
        RxPhase::Room { addr, len, .. } => seq![(addr, len as u64)],
        RxPhase::Done(_) => Seq::empty(),
    }
}

/// What is translated for a request is no longer to be translated after its answer.
proof fn lemma_rx_spans_step(guest: Guest, phase: RxPhase, handed: nat)
    requires
        rx_in_step(guest, phase, handed),
    ensures
        ({
            let answer = guest.answer(handed, rx_request(phase));
            rx_spans_ahead(guest, phase) == span_of(rx_request(phase)) + rx_spans_ahead(
                guest,
                rx_step(phase, answer),
            )
        }),
{
    let answer = guest.answer(handed, rx_request(phase));
    let rest = rx_spans_ahead(guest, rx_step(phase, answer));
    assert(rx_spans_ahead(guest, phase) =~= span_of(rx_request(phase)) + rest);
}

/// With every answer of the guest, what was translated and what is still to be add up to the same.
proof fn lemma_rx_spans(guest: Guest, answers: Seq<Answer>)
    requires
        rx_answers_of(guest, answers),
    ensures
        rx_asked(answers) + rx_spans_ahead(guest, rx_run(answers)) == rx_spans(guest),
    decreases answers.len(),
{
    reveal(rx_run);
    if answers.len() == 0 {
        assert(rx_asked(answers) + rx_spans(guest) =~= rx_spans(guest));
    } else {
        let before = answers.drop_last();
        assert(before =~= answers.take(answers.len() - 1));
        assert forall|i: int| 0 <= i < before.len() implies #[trigger] before[i] == guest.answer(
            handed_out(before.take(i)),
            rx_request(rx_run(before.take(i))),
        ) by {
            assert(before.take(i) =~= answers.take(i));
            assert(before[i] == answers[i]);
        }
        lemma_rx_spans(guest, before);
        lemma_rx_ahead(guest, before);
        lemma_rx_spans_step(guest, rx_run(before), handed_out(before));
        assert(answers.last() == answers[answers.len() - 1]);
        let own = span_of(rx_request(rx_run(before)));
        let rest = rx_spans_ahead(guest, rx_run(answers));
        assert(rx_asked(before) + (own + rest) =~= (rx_asked(before) + own) + rest);
    }
}

/// What an assembly that has all the answers it needs from a guest had translated is what the
/// packet takes.
pub proof fn law_rx_spans(guest: Guest, answers: Seq<Answer>)
    requires
        rx_answers_of(guest, answers),
        rx_request(rx_run(answers)) == Request::Finished,
    ensures
        rx_asked(answers) == rx_spans(guest),
{
    lemma_rx_spans(guest, answers);
    assert(rx_asked(answers) + Seq::<(u64, u64)>::empty() =~= rx_asked(answers));
}

/// An assembly that is not finished needs only some more answers.
proof fn lemma_rx_completes(guest: Guest, answers: Seq<Answer>) -> (all: Seq<Answer>)
    requires
        rx_answers_of(guest, answers),
    ensures
        rx_answers_of(guest, all),
        rx_request(rx_run(all)) == Request::Finished,
    decreases rx_rank(rx_run(answers)),
{
    reveal(rx_run);
    let phase = rx_run(answers);
    if rx_request(phase) == Request::Finished {
        answers
    } else {
        let answer = guest.answer(handed_out(answers), rx_request(phase));
        let more = answers.push(answer);
        assert(more.drop_last() =~= answers);
        assert forall|i: int| 0 <= i < more.len() implies #[trigger] more[i] == guest.answer(
            handed_out(more.take(i)),
            rx_request(rx_run(more.take(i))),
        ) by {
            assert(more.take(i) =~= answers.take(i));
            if i < answers.len() {
                assert(more[i] == answers[i]);
            } else {
                assert(answers.take(i) =~= answers);
            }
        }
        lemma_rx_completes(guest, more)
    }
}

/// An assembly comes to an end with every guest.
pub proof fn law_rx_finishes(guest: Guest)
    ensures
        exists|answers: Seq<Answer>| #[trigger]
            rx_answers_of(guest, answers) && rx_run(answers) == RxPhase::Done(rx_outcome(guest)),
{
    let none = Seq::<Answer>::empty();
    assert(rx_answers_of(guest, none));
    let answers = lemma_rx_completes(guest, none);
    law_rx_outcome(guest, answers);
}

/// That the answer `i` is to a fetch with these arguments, after `handed` descriptors.
pub open spec fn rx_fetch_at(
    answers: Seq<Answer>,
    i: int,
    handed: nat,
    addr: u64,
    span: usize,
    len: usize,
) -> bool {
    &&& 0 <= i < answers.len()
    &&& handed_out(answers.take(i)) == handed
    &&& rx_request(rx_run(answers.take(i))) == Request::Fetch { addr, span, len }
}

/// That the answer `i` is to a probe with these arguments.
pub open spec fn rx_probe_at(answers: Seq<Answer>, i: int, addr: u64, len: usize) -> bool {
    &&& 0 <= i < answers.len()
    &&& rx_request(rx_run(answers.take(i))) == Request::Probe { addr, len }
}

/// What `answers` give for a fetch with these arguments, after `handed` descriptors.
pub open spec fn rx_fetch_in(
    answers: Seq<Answer>,
    handed: nat,
    addr: u64,
    span: usize,
    len: usize,
) -> Option<FetchedView> {
    if exists|i: int| rx_fetch_at(answers, i, handed, addr, span, len) {
        match answers[choose|i: int| rx_fetch_at(answers, i, handed, addr, span, len)] {
            Answer::Fetched(fetched) => fetched,
            _ => None,
        }
    } else {
        None
    }
}

/// What `answers` give for a probe with these arguments.
pub open spec fn rx_probe_in(answers: Seq<Answer>, addr: u64, len: usize) -> Option<u64> {
    if exists|i: int| rx_probe_at(answers, i, addr, len) {
        match answers[choose|i: int| rx_probe_at(answers, i, addr, len)] {
            Answer::Probed(probed) => probed,
            _ => None,
        }
    } else {
        None
    }
}

/// The guest that gives `answers`.
pub open spec fn rx_guest_of(answers: Seq<Answer>) -> Guest {
    Guest {
        descs: descs_of(answers),
        fetch: |handed: nat, addr: u64, span: usize, len: usize|
            rx_fetch_in(answers, handed, addr, span, len),
        probe: |addr: u64, len: usize| rx_probe_in(answers, addr, len),
    }
}

/// That each answer is of the kind that was asked for.
pub open spec fn rx_fit(answers: Seq<Answer>) -> bool {
    forall|i: int|
        0 <= i < answers.len() ==> fits(
            rx_request(rx_run(answers.take(i))),
            #[trigger] answers[i],
        )
}

/// One answer more, and where it brings the assembly.
pub proof fn lemma_rx_take(answers: Seq<Answer>, i: int)
    requires
        0 <= i < answers.len(),
    ensures
        rx_run(answers.take(i + 1)) == rx_step(rx_run(answers.take(i)), answers[i]),
{
    reveal(rx_run);
    assert(answers.take(i + 1).drop_last() =~= answers.take(i));
    assert(answers.take(i + 1).last() == answers[i]);
}

/// The request at `i`, and where its answer leads.
pub proof fn lemma_rx_at(answers: Seq<Answer>, i: int)
    requires
        rx_fit(answers),
        0 <= i < answers.len(),
    ensures
        ({
            let phase = rx_run(answers.take(i));
            let after = rx_run(answers.take(i + 1));
            &&& phase !is Done
            &&& answers[i] is Descriptor <==> rx_request(phase) == Request::NextDescriptor
            &&& answers[i] is Fetched <==> rx_request(phase) is Fetch
            &&& answers[i] is Probed <==> rx_request(phase) is Probe
            &&& answers[i] == Answer::Descriptor(None) ==> after is Done
            &&& rx_request(phase) is Fetch <==> phase is Header
            &&& rx_request(phase) is Probe <==> phase is Room
            &&& rx_rank(after) < rx_rank(phase)
        }),
{
    lemma_rx_take(answers, i);
    assert(fits(rx_request(rx_run(answers.take(i))), answers[i]));
}

/// Each answer brings an assembly closer to its end.
proof fn lemma_rx_ranks(answers: Seq<Answer>, i: int, j: int)
    requires
        rx_fit(answers),
        0 <= i < j <= answers.len(),
    ensures
        rx_rank(rx_run(answers.take(j))) < rx_rank(rx_run(answers.take(i))),
    decreases j - i,
{
    lemma_rx_at(answers, j - 1);
    if i < j - 1 {
        lemma_rx_ranks(answers, i, j - 1);
    }
}

/// As long as an assembly is not done, all the descriptors that it asked for were there.
proof fn lemma_rx_descs(answers: Seq<Answer>, i: int)
    requires
        rx_fit(answers),
        0 <= i <= answers.len(),
        rx_run(answers.take(i)) !is Done,
    ensures
        descs_of(answers.take(i)).len() == handed_out(answers.take(i)),
    decreases i,
{
    if i > 0 {
        lemma_rx_at(answers, i - 1);
        lemma_descs_take(answers, i - 1);
        lemma_rx_descs(answers, i - 1);
    } else {
        assert(answers.take(0) =~= Seq::empty());
    }
}

/// The answer to a request for a descriptor is the next of the descriptors among the answers.
proof fn lemma_rx_descriptor_answer(answers: Seq<Answer>, i: int)
    requires
        rx_fit(answers),
        0 <= i < answers.len(),
        rx_request(rx_run(answers.take(i))) == Request::NextDescriptor,
    ensures
        answers[i] == Answer::Descriptor(
            if handed_out(answers.take(i)) < descs_of(answers).len() {
                Some(descs_of(answers)[handed_out(answers.take(i)) as int])
            } else {
                None
            },
        ),
{
    let n = answers.len() as int;
    assert(answers.take(n) =~= answers);
    lemma_rx_at(answers, i);
    lemma_rx_descs(answers, i);
    lemma_descs_take(answers, i);
    lemma_descs_grow(answers, i + 1, n);
    if answers[i] == Answer::Descriptor(None) {
        if i + 1 < n {
            lemma_rx_at(answers, i + 1);
        }
    } else {
        let handed = handed_out(answers.take(i)) as int;
        assert(descs_of(answers.take(i + 1))[handed] == descs_of(answers)[handed]);
    }
}

/// There is only one fetch, that of the header, and only one probe. So what was looked at in the
/// header is what the packet holds.
pub proof fn law_rx_asks_once(answers: Seq<Answer>, i: int, j: int)
    requires
        rx_fit(answers),
        0 <= i < answers.len(),
        0 <= j < answers.len(),
        (answers[i] is Fetched && answers[j] is Fetched) || (answers[i] is Probed
            && answers[j] is Probed),
    ensures
        i == j,
{
    lemma_rx_at(answers, i);
    lemma_rx_at(answers, j);
    if i < j {
        lemma_rx_ranks(answers, i, j);
    } else if j < i {
        lemma_rx_ranks(answers, j, i);
    }
}

/// Whatever is answered to an assembly, there is a guest that gives just these answers.
proof fn lemma_rx_guest(answers: Seq<Answer>)
    requires
        rx_fit(answers),
    ensures
        rx_answers_of(rx_guest_of(answers), answers),
{
    let guest = rx_guest_of(answers);
    assert forall|i: int| 0 <= i < answers.len() implies #[trigger] answers[i] == guest.answer(
        handed_out(answers.take(i)),
        rx_request(rx_run(answers.take(i))),
    ) by {
        let handed = handed_out(answers.take(i));
        lemma_rx_at(answers, i);
        match rx_request(rx_run(answers.take(i))) {
            Request::NextDescriptor => lemma_rx_descriptor_answer(answers, i),
            Request::Fetch { addr, span, len } => {
                assert(rx_fetch_at(answers, i, handed, addr, span, len));
                let j = choose|j: int| rx_fetch_at(answers, j, handed, addr, span, len);
                lemma_rx_at(answers, j);
                law_rx_asks_once(answers, i, j);
            },
            Request::Probe { addr, len } => {
                assert(rx_probe_at(answers, i, addr, len));
                let j = choose|j: int| rx_probe_at(answers, j, addr, len);
                lemma_rx_at(answers, j);
                law_rx_asks_once(answers, i, j);
            },
            Request::Finished => {},
        }
    }
}

/// Whatever is answered to an assembly, it comes to what the answers as a whole amount to.
pub proof fn law_rx_outcome_of_answers(answers: Seq<Answer>)
    requires
        rx_fit(answers),
        rx_request(rx_run(answers)) == Request::Finished,
    ensures
        rx_run(answers) == RxPhase::Done(rx_outcome(rx_guest_of(answers))),
{
    lemma_rx_guest(answers);
    law_rx_outcome(rx_guest_of(answers), answers);
}

/// Whatever is answered to an assembly, it had translated what the answers as a whole take.
pub proof fn law_rx_spans_of_answers(answers: Seq<Answer>)
    requires
        rx_fit(answers),
        rx_request(rx_run(answers)) == Request::Finished,
    ensures
        rx_asked(answers) == rx_spans(rx_guest_of(answers)),
{
    lemma_rx_guest(answers);
    law_rx_spans(rx_guest_of(answers), answers);
}

/// That the header of a packet is backed by guest memory, and that what its buffer is to be written
/// back to lies in one region of it.
pub open spec fn rx_committable(mem: GuestRam, packet: PacketView) -> bool {
    &&& packet.hdr_bytes_committed(mem) == VSOCK_PKT_HDR_SIZE
    &&& match (packet.buf, packet.buf_addr) {
        (Some(buf), Some(addr)) => in_one_region(guest_regions(mem), addr, buf.len()),
        _ => true,
    }
}

/// What was found in guest memory can be written back there.
pub open spec fn rx_mapped(mem: GuestRam, phase: RxPhase) -> bool {
    match phase {
        RxPhase::Descriptor { hdr_addr, .. } => mapped_prefix(
            guest_regions(mem),
            hdr_addr as int,
            VSOCK_PKT_HDR_SIZE as nat,
        ) == VSOCK_PKT_HDR_SIZE,
        RxPhase::Room { hdr_addr, .. } => mapped_prefix(
            guest_regions(mem),
            hdr_addr as int,
            VSOCK_PKT_HDR_SIZE as nat,
        ) == VSOCK_PKT_HDR_SIZE,
        RxPhase::Done(Ok(packet)) => rx_committable(mem, packet),
        _ => true,
    }
}

/// What the guest gave is of the kind that was asked for, and can be written back.
pub proof fn lemma_rx_served(states: Seq<GuestState>, answers: Seq<Answer>, i: int)
    requires
        rx_served(states, answers),
        0 <= i <= answers.len(),
    ensures
        rx_fit(answers),
        states[i].chain.mem() == states[0].chain.mem(),
        states[i].platform.platform == states[0].platform.platform,
        rx_mapped(states[0].chain.mem(), rx_run(answers.take(i))),
        wrote_nothing(states[0].chain.log, states[i].chain.log),
    decreases i,
{
    assert forall|k: int| 0 <= k < answers.len() implies fits(
        rx_request(rx_run(answers.take(k))),
        #[trigger] answers[k],
    ) by {
        assert(answered(
            states[k],
            states[k + 1],
            rx_request(rx_run(answers.take(k))),
            answers[k],
        ));
    }
    if i == 0 {
        reveal(rx_run);
        assert(states[0].chain.log.take(states[0].chain.log.len() as int) =~= states[0].chain.log);
    } else {
        lemma_rx_served(states, answers, i - 1);
        lemma_rx_take(answers, i - 1);
        assert(answered(
            states[i - 1],
            states[i],
            rx_request(rx_run(answers.take(i - 1))),
            answers[i - 1],
        ));
        let start = states[0].chain.log;
        let before = states[i - 1].chain.log;
        let after = states[i].chain.log;
        assert(after.take(start.len() as int) =~= before.take(start.len() as int));
    }
}

/// What a platform was asked for `answers`: for each answer, what the request took.
pub open spec fn rx_asked(answers: Seq<Answer>) -> Seq<(u64, u64)>
    decreases answers.len(),
{
    if answers.len() == 0 {
        Seq::empty()
    } else {
        rx_asked(answers.drop_last()) + span_of(rx_request(rx_run(answers.drop_last())))
    }
}

/// Each request asks of the platform what it takes, and nothing else.
proof fn lemma_rx_asked(states: Seq<GuestState>, answers: Seq<Answer>, i: int)
    requires
        rx_served(states, answers),
        0 <= i <= answers.len(),
    ensures
        asked_just(states[0].platform, states[i].platform, rx_asked(answers.take(i))),
    decreases i,
{
    let start = states[0].platform;
    let n = start.log.len() as int;
    if i == 0 {
        assert(start.log.take(n) =~= start.log);
        assert(spans(start.log.skip(n)) =~= Seq::empty());
        assert(rx_asked(answers.take(0)) =~= Seq::empty());
    } else {
        lemma_rx_asked(states, answers, i - 1);
        assert(answers.take(i).drop_last() =~= answers.take(i - 1));
        let request = rx_request(rx_run(answers.take(i - 1)));
        let before = states[i - 1].platform;
        let after = states[i].platform;
        assert(answered(states[i - 1], states[i], request, answers[i - 1]));
        if before.platform is Some {
            assert(after.log.take(n) =~= before.log.take(n));
            assert(spans(after.log.skip(n)) =~= spans(before.log.skip(n)) + span_of(request));
        } else {
            assert(after == before);
        }
    }
}

/// That the guest's answers brought an assembly to its end with `outcome` while the guest went from
/// `before` to `after`, that the outcome is what the answers as a whole amount to, and that a
/// platform was asked just what this takes.
pub open spec fn rx_received(
    before: GuestState,
    after: GuestState,
    outcome: Result<PacketView, VsockError>,
) -> bool {
    exists|states: Seq<GuestState>, answers: Seq<Answer>|
        {
            &&& #[trigger] rx_served(states, answers)
            &&& states.first() == before
            &&& states.last() == after
            &&& rx_run(answers) == RxPhase::Done(outcome)
            &&& outcome == rx_outcome(rx_guest_of(answers))
            &&& asked_just(before.platform, after.platform, rx_spans(rx_guest_of(answers)))
        }
}

/// An assembly that the guest's answers brought to its end comes to what they amount to, asks no
/// more of a platform than this takes, and writes nothing. The packet can
/// be written back.
pub proof fn law_rx_received(
    before: GuestState,
    after: GuestState,
    outcome: Result<PacketView, VsockError>,
)
    requires
        rx_reached(before, after, RxPhase::Done(outcome)),
    ensures
        rx_received(before, after, outcome),
        after.chain.mem() == before.chain.mem(),
        wrote_nothing(before.chain.log, after.chain.log),
        outcome matches Ok(packet) ==> rx_committable(before.chain.mem(), packet),
{
    let (states, answers) = choose|states: Seq<GuestState>, answers: Seq<Answer>|
        {
            &&& #[trigger] rx_served(states, answers)
            &&& states.first() == before
            &&& states.last() == after
            &&& rx_run(answers) == RxPhase::Done(outcome)
        };
    let n = answers.len() as int;
    assert(answers.take(n) =~= answers);
    lemma_rx_served(states, answers, n);
    lemma_rx_asked(states, answers, n);
    law_rx_outcome_of_answers(answers);
    law_rx_spans_of_answers(answers);
}

/// A packet that was taken from a chain can be written back to the memory of the chain, whatever
/// was put into its buffer and header meanwhile, if only the length field counts no more data than
/// the buffer holds and a packet may have.
pub proof fn law_rx_commit_succeeds(mem: GuestRam, taken: PacketView, filled: PacketView)
    requires
        rx_complete(taken),
        rx_committable(mem, taken),
        filled.hdr_addr == taken.hdr_addr,
        filled.buf_addr == taken.buf_addr,
        match (filled.buf, taken.buf) {
            (Some(f), Some(t)) => f.len() == t.len() && filled.header().len <= f.len(),
            (None, None) => true,
            _ => false,
        },
        filled.header().len <= MAX_PKT_BUF_SIZE,
    ensures
        filled.commit_buf_result(mem) == Ok::<(), VsockError>(()),
        filled.commit_hdr_result(mem) == Ok::<(), VsockError>(()),
        filled.hdr_bytes_committed(mem) == VSOCK_PKT_HDR_SIZE,
{
    if let Ok(Some((addr, bytes))) = filled.data_to_commit() {
        lemma_region_is_mapped(guest_regions(mem), addr, taken.buf->0.len(), bytes.len());
    }
}

/// The buffer of a packet that the guest is to receive is as long as the guest has room for data,
/// and there is none if the guest has no room.
pub proof fn law_rx_buf_size(guest: Guest)
    ensures
        rx_outcome(guest) matches Ok(packet) ==> {
            let room = if guest.descs[0].has_next {
                guest.descs[1].len as int
            } else {
                guest.descs[0].len - VSOCK_PKT_HDR_SIZE
            };
            match packet.buf {
                Some(buf) => buf.len() == room && room > 0 && packet.buf_addr is Some,
                None => room == 0 && packet.buf_addr is None,
            }
        },
{
}

/// Every descriptor that a packet for the guest to receive was taken from is writable.
pub proof fn law_rx_writable(guest: Guest)
    requires
        rx_outcome(guest) is Ok,
    ensures
        guest.descs[0].write_only,
        guest.descs[0].has_next ==> guest.descs[1].write_only && !guest.descs[1].has_next,
{
}

/// A header that was written back is found again: if it is what is fetched, the packet has it.
pub proof fn law_committed_header_is_received(packet: PacketView, guest: Guest)
    requires
        header_of(guest) matches Some(f) && f.bytes == packet.hdr,
    ensures
        rx_outcome(guest) matches Ok(taken) ==> taken.hdr == packet.hdr && taken.hdr_addr
            == header_of(guest)->0.addr,
{
}

/// What an answer to `request` adds to the accesses when addresses translate to themselves.
spec fn rx_access(request: Request, answer: Answer) -> Access {
    match (request, answer) {
        (Request::Fetch { addr, len, .. }, Answer::Fetched(fetched)) => Access::Read {
            addr,
            len,
            got: match fetched {
                Some(f) => Some(f.bytes),
                None => None,
            },
        },
        (Request::Probe { addr, len }, Answer::Probed(at)) => Access::Probed {
            addr,
            len,
            ok: at is Some,
        },
        (_, Answer::Descriptor(desc)) => Access::Descriptor(desc),
        _ => Access::Descriptor(None),
    }
}

/// When addresses translate to themselves, there is one access for each answer.
proof fn lemma_rx_accesses(states: Seq<GuestState>, answers: Seq<Answer>, i: int, k: int)
    requires
        rx_served(states, answers),
        states[0].platform.platform is None,
        0 <= i <= answers.len(),
    ensures
        states[i].chain.log.len() == states[0].chain.log.len() + i,
        0 <= k < i ==> states[i].chain.log[states[0].chain.log.len() + k] == rx_access(
            rx_request(rx_run(answers.take(k))),
            answers[k],
        ),
    decreases i,
{
    if i > 0 {
        lemma_rx_accesses(states, answers, i - 1, k);
        lemma_rx_served(states, answers, i - 1);
        assert(answered(
            states[i - 1],
            states[i],
            rx_request(rx_run(answers.take(i - 1))),
            answers[i - 1],
        ));
    }
}

/// That two assemblies are in the same phase, but for the header, which is `hdr` in the second.
spec fn rx_alike(first: RxPhase, second: RxPhase, hdr: Seq<u8>) -> bool {
    match (first, second) {
        (RxPhase::Head, RxPhase::Head) => true,
        (RxPhase::Header { head }, RxPhase::Header { head: h }) => h == head,
        (
            RxPhase::Descriptor { hdr_addr, .. },
            RxPhase::Descriptor { hdr_addr: a, hdr: h },
        ) => a == hdr_addr && h == hdr,
        (
            RxPhase::Room { hdr_addr, addr, len, .. },
            RxPhase::Room { hdr_addr: a, hdr: h, addr: at, len: n },
        ) => a == hdr_addr && h == hdr && at == addr && n == len,
        (RxPhase::Done(Ok(packet)), RxPhase::Done(Ok(p))) => p == (PacketView { hdr, ..packet }),
        _ => false,
    }
}

/// Two assemblies that are alike stay so while they get the same descriptors from the same memory
/// and the first does not fail.
proof fn lemma_rx_alike_step(
    before: (GuestState, GuestState),
    after: (GuestState, GuestState),
    first: RxPhase,
    second: RxPhase,
    answers: (Answer, Answer),
    hdr: Seq<u8>,
)
    requires
        rx_alike(first, second, hdr),
        answered(before.0, after.0, rx_request(first), answers.0),
        answered(before.1, after.1, rx_request(second), answers.1),
        before.0.platform.platform is None,
        before.1.platform.platform is None,
        before.0.chain.mem() == before.1.chain.mem(),
        answers.0 is Descriptor ==> answers.1 == answers.0,
        answers.1 matches Answer::Fetched(Some(f)) ==> f.bytes == hdr,
        rx_step(first, answers.0) matches RxPhase::Done(outcome) ==> outcome is Ok,
    ensures
        rx_alike(rx_step(first, answers.0), rx_step(second, answers.1), hdr),
{
}

/// Once an assembly has its head descriptor, the header lies where that points to.
spec fn rx_header_at(phase: RxPhase, addr: u64) -> bool {
    match phase {
        RxPhase::Head => false,
        RxPhase::Header { head } => head.addr == addr,
        RxPhase::Descriptor { hdr_addr, .. } => hdr_addr == addr,
        RxPhase::Room { hdr_addr, .. } => hdr_addr == addr,
        RxPhase::Done(Ok(packet)) => packet.hdr_addr == addr,
        RxPhase::Done(Err(_)) => true,
    }
}

proof fn lemma_rx_header_at(
    states: Seq<GuestState>,
    answers: Seq<Answer>,
    i: int,
    j: int,
    addr: u64,
)
    requires
        rx_served(states, answers),
        states[0].platform.platform is None,
        0 <= i <= j <= answers.len(),
        rx_header_at(rx_run(answers.take(i)), addr),
    ensures
        rx_header_at(rx_run(answers.take(j)), addr),
    decreases j - i,
{
    if i < j {
        lemma_rx_header_at(states, answers, i, j - 1, addr);
        lemma_rx_served(states, answers, j - 1);
        lemma_rx_at(answers, j - 1);
        lemma_rx_take(answers, j - 1);
        assert(answered(
            states[j - 1],
            states[j],
            rx_request(rx_run(answers.take(j - 1))),
            answers[j - 1],
        ));
    }
}

/// That two chains handed out the same descriptors, as far as both were asked.
pub open spec fn same_descriptors(first: Seq<Access>, second: Seq<Access>) -> bool {
    forall|i: int|
        0 <= i < first.len() && i < second.len() && (#[trigger] first[i]) is Descriptor
            ==> second[i] == first[i]
}

/// That every read of just the bytes that were written gave these bytes.
pub open spec fn left_alone(written: Access, log: Seq<Access>) -> bool {
    forall|i: int|
        0 <= i < log.len() ==> match (written, #[trigger] log[i]) {
            (
                Access::Written { addr, bytes },
                Access::Read { addr: a, len, got: Some(b) },
            ) => a == addr && len == bytes.len() ==> b == bytes,
            _ => true,
        }
}

/// Two assemblies that get the same descriptors from the same memory are alike after any number of
/// answers.
proof fn lemma_rx_alike(
    first: (Seq<GuestState>, Seq<Answer>),
    second: (Seq<GuestState>, Seq<Answer>),
    taken: PacketView,
    hdr: Seq<u8>,
    i: int,
)
    requires
        rx_served(first.0, first.1),
        rx_served(second.0, second.1),
        rx_run(first.1) == RxPhase::Done(Ok(taken)),
        first.0[0].platform.platform is None,
        second.0[0].platform.platform is None,
        first.0[0].chain.mem() == second.0[0].chain.mem(),
        same_descriptors(
            first.0.last().chain.log.skip(first.0[0].chain.log.len() as int),
            second.0.last().chain.log.skip(second.0[0].chain.log.len() as int),
        ),
        left_alone(
            Access::Written { addr: taken.hdr_addr, bytes: hdr },
            second.0.last().chain.log.skip(second.0[0].chain.log.len() as int),
        ),
        hdr.len() == VSOCK_PKT_HDR_SIZE,
        0 <= i <= first.1.len(),
        i <= second.1.len(),
    ensures
        rx_alike(rx_run(first.1.take(i)), rx_run(second.1.take(i)), hdr),
    decreases i,
{
    if i == 0 {
        reveal(rx_run);
    } else {
        let k = i - 1;
        let n = first.1.len() as int;
        let m = second.1.len() as int;
        lemma_rx_alike(first, second, taken, hdr, k);
        lemma_rx_served(first.0, first.1, k);
        lemma_rx_served(second.0, second.1, k);
        lemma_rx_take(first.1, k);
        lemma_rx_take(second.1, k);
        lemma_rx_at(first.1, k);
        lemma_rx_at(second.1, k);
        let phases = (rx_run(first.1.take(k)), rx_run(second.1.take(k)));
        assert(answered(first.0[k], first.0[i], rx_request(phases.0), first.1[k]));
        assert(answered(second.0[k], second.0[i], rx_request(phases.1), second.1[k]));
        assert(first.1.take(n) =~= first.1);
        if i < n {
            lemma_rx_at(first.1, i);
        }
        lemma_rx_accesses(first.0, first.1, n, k);
        lemma_rx_accesses(second.0, second.1, m, k);
        let logs = (
            first.0.last().chain.log.skip(first.0[0].chain.log.len() as int),
            second.0.last().chain.log.skip(second.0[0].chain.log.len() as int),
        );
        assert(logs.0[k] == rx_access(rx_request(phases.0), first.1[k]));
        assert(logs.1[k] == rx_access(rx_request(phases.1), second.1[k]));
        if let RxPhase::Header { head } = phases.0 {
            lemma_rx_header_at(first.0, first.1, k, n, head.addr);
        }
        lemma_rx_alike_step(
            (first.0[k], second.0[k]),
            (first.0[i], second.0[i]),
            phases.0,
            phases.1,
            (first.1[k], second.1[k]),
            hdr,
        );
    }
}

/// A header that was committed is received again: when a packet was taken from a chain, its header
/// committed, and the same descriptors of the same memory come again, then a packet with just that
/// header is taken from them, provided that the guest left the header alone meanwhile. This is for
/// addresses that translate to themselves.
pub proof fn law_rx_takes_committed_header(
    first: (GuestState, GuestState),
    taken: PacketView,
    packet: PacketView,
    commit: (WriterView, WriterView),
    second: (GuestState, GuestState),
    outcome: Result<PacketView, VsockError>,
)
    requires
        rx_received(first.0, first.1, Ok(taken)),
        packet.hdr_addr == taken.hdr_addr,
        packet.hdr.len() == VSOCK_PKT_HDR_SIZE,
        packet.hdr_committed(commit.0, commit.1),
        packet.commit_hdr_result(commit.0.mem) is Ok,
        rx_received(second.0, second.1, outcome),
        first.0.platform.platform is None,
        second.0.platform.platform is None,
        second.0.chain.mem() == first.0.chain.mem(),
        same_descriptors(
            first.1.chain.log.skip(first.0.chain.log.len() as int),
            second.1.chain.log.skip(second.0.chain.log.len() as int),
        ),
        left_alone(
            commit.1.log.last(),
            second.1.chain.log.skip(second.0.chain.log.len() as int),
        ),
    ensures
        outcome == Ok::<PacketView, VsockError>(PacketView { hdr: packet.hdr, ..taken }),
{
    law_hdr_is_written_whole(packet, commit.0, commit.1);
    let (states, answers) = choose|states: Seq<GuestState>, answers: Seq<Answer>|
        {
            &&& #[trigger] rx_served(states, answers)
            &&& states.first() == first.0
            &&& states.last() == first.1
            &&& rx_run(answers) == RxPhase::Done(Ok::<PacketView, VsockError>(taken))
        };
    let (states2, answers2) = choose|states: Seq<GuestState>, answers: Seq<Answer>|
        {
            &&& #[trigger] rx_served(states, answers)
            &&& states.first() == second.0
            &&& states.last() == second.1
            &&& rx_run(answers) == RxPhase::Done(outcome)
        };
    let n = answers.len() as int;
    let m = answers2.len() as int;
    let both = if n < m {
        n
    } else {
        m
    };
    lemma_rx_alike((states, answers), (states2, answers2), taken, packet.hdr, both);
    assert(answers.take(n) =~= answers);
    assert(answers2.take(m) =~= answers2);
    lemma_rx_served(states, answers, n);
    lemma_rx_served(states2, answers2, m);
    if n < m {
        lemma_rx_at(answers2, n);
    } else if m < n {
        lemma_rx_at(answers, m);
    }
}

} // verus!
