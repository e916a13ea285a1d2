//! Laws on the assembly of packets that the guest sends.

use crate::assembly::{answered, fits, span_of, Answer, Request};
use crate::defs::MAX_PKT_BUF_SIZE;
use crate::error::VsockError;
use crate::guest::{
    asked_just, guest_regions, mapped_prefix, spans, wrote_nothing, Descriptor, FetchedView,
    GuestRam, GuestState,
};
use crate::header::{decode, VSOCK_PKT_HDR_SIZE};
use crate::outcome::{
    descs_of, handed_out, header_of, lemma_descs_grow, lemma_descs_take, tx_answers_of,
    tx_data_spans, tx_gather, tx_gather_spans, tx_outcome, tx_piece, tx_spans, Guest,
};
use crate::packet::PacketView;
use crate::tx::{
    tx_complete, tx_rank, tx_reached, tx_request, tx_run, tx_served, tx_step, TxPhase,
};
use vstd::prelude::*;

verus! {

/// The data after `data` was gathered and `rest` comes to it, as the outcome of the assembly.
spec fn tx_closed(
    hdr_addr: u64,
    hdr: Seq<u8>,
    data: Seq<u8>,
    rest: Result<Seq<u8>, VsockError>,
) -> Result<PacketView, VsockError> {
    match rest {
        Err(error) => Err(error),
        Ok(rest) => if (data + rest).len() < decode(hdr).len {
            Err(VsockError::BufDescTooSmall)
        } else {
            Ok(PacketView { hdr_addr, hdr, buf: Some(data + rest), buf_addr: None })
        },
    }
}

/// What an assembly still comes to when it is in `phase` after `handed` descriptors.
#[verifier::opaque]
spec fn tx_ahead(guest: Guest, phase: TxPhase, handed: nat) -> Result<PacketView, VsockError> {
    match phase {
        TxPhase::Head => tx_outcome(guest),
        TxPhase::Header { .. } => tx_outcome(guest),
        TxPhase::Descriptor { hdr_addr, hdr, data } => tx_closed(
            hdr_addr,
            hdr,
            data,
            tx_gather(guest, handed, (decode(hdr).len - data.len()) as nat),
        ),
        TxPhase::Data { hdr_addr, hdr, data, addr, span, len, more } => match (guest.fetch)(
            handed,
            addr,
            span,
            len,
        ) {
            None => Err(VsockError::GuestMemory),
            Some(f) => if more {
                tx_closed(
                    hdr_addr,
                    hdr,
                    data + f.bytes,
                    tx_gather(
                        guest,
                        handed,
                        (decode(hdr).len - data.len() - f.bytes.len()) as nat,
                    ),
                )
            } else {
                tx_closed(hdr_addr, hdr, data, Ok(f.bytes))
            },
        },
        TxPhase::Done(outcome) => outcome,
    }
}

/// How `phase` and the number of descriptors handed out go together.
#[verifier::opaque]
spec fn tx_in_step(guest: Guest, phase: TxPhase, handed: nat) -> bool {
    match phase {
        TxPhase::Head => handed == 0,
        TxPhase::Header { head } => {
            &&& handed == 1
            &&& guest.descs.len() > 0
            &&& head == guest.descs[0]
            &&& !head.write_only
            &&& head.len >= VSOCK_PKT_HDR_SIZE
        },
        TxPhase::Descriptor { hdr, data, .. } => data.len() <= decode(hdr).len,
        TxPhase::Data { hdr, data, len, .. } => data.len() + len <= decode(hdr).len && len > 0,
        TxPhase::Done(_) => true,
    }
}

/// That the answer of the guest in `phase` does not change what an assembly comes to.
spec fn tx_keeps_ahead(guest: Guest, phase: TxPhase, handed: nat) -> bool {
    let answer = guest.answer(handed, tx_request(phase));
    let after = if answer is Descriptor {
        handed + 1
    } else {
        handed
    };
    &&& tx_in_step(guest, tx_step(phase, answer), after)
    &&& tx_ahead(guest, tx_step(phase, answer), after) == tx_ahead(guest, phase, handed)
}

proof fn lemma_tx_ahead_header(guest: Guest, phase: TxPhase)
    requires
        guest.wf(),
        phase is Header,
        tx_in_step(guest, phase, 1),
    ensures
        tx_keeps_ahead(guest, phase, 1),
{
    reveal(tx_ahead);
    reveal(tx_in_step);
    let head = guest.descs[0];
    if let Some(f) = header_of(guest) {
        let len = decode(f.bytes).len;
        if 0 < len <= MAX_PKT_BUF_SIZE {
            if head.has_next {
                if let Ok(data) = tx_gather(guest, 1, len as nat) {
                    assert(Seq::<u8>::empty() + data =~= data);
                }
            } else if head.addr + VSOCK_PKT_HDR_SIZE <= u64::MAX {
                if let Some(g) = (guest.fetch)(
                    1,
                    (head.addr + VSOCK_PKT_HDR_SIZE) as u64,
                    len as usize,
                    len as usize,
                ) {
                    assert(Seq::<u8>::empty() + g.bytes =~= g.bytes);
                }
            }
        }
    }
}

proof fn lemma_tx_ahead_descriptor(guest: Guest, phase: TxPhase, handed: nat)
    requires
        guest.wf(),
        phase is Descriptor,
        tx_in_step(guest, phase, handed),
    ensures
        tx_keeps_ahead(guest, phase, handed),
{
    reveal(tx_ahead);
    reveal(tx_in_step);
    if let TxPhase::Descriptor { hdr_addr, hdr, data } = phase {
        let want = (decode(hdr).len - data.len()) as nat;
        assert(data + Seq::<u8>::empty() =~= data);
        if handed < guest.descs.len() {
            let desc = guest.descs[handed as int];
            if let Some(piece) = tx_piece(guest, handed, want) {
                if desc.has_next {
                    let rest = tx_gather(guest, handed + 1, (want - piece.len()) as nat);
                    if let Ok(r) = rest {
                        assert(data + (piece + r) =~= (data + piece) + r);
                        assert(Seq::<u8>::empty() + r =~= r);
                    }
                }
            }
        }
    }
}

proof fn lemma_tx_ahead_data(guest: Guest, phase: TxPhase, handed: nat)
    requires
        guest.wf(),
        phase is Data,
        tx_in_step(guest, phase, handed),
    ensures
        tx_keeps_ahead(guest, phase, handed),
{
    reveal(tx_ahead);
    reveal(tx_in_step);
    if let TxPhase::Data { hdr_addr, hdr, data, addr, span, len, more } = phase {
        if let Some(f) = (guest.fetch)(handed, addr, span, len) {
            assert(f.bytes.len() == len);
            assert((data + f.bytes).len() == data.len() + len);
        }
    }
}

proof fn lemma_tx_ahead_ends(guest: Guest, phase: TxPhase, handed: nat)
    requires
        phase is Head || phase is Done,
        tx_in_step(guest, phase, handed),
    ensures
        tx_keeps_ahead(guest, phase, handed),
{
    reveal(tx_ahead);
    reveal(tx_in_step);
}

proof fn lemma_tx_ahead_step(guest: Guest, phase: TxPhase, handed: nat)
    requires
        guest.wf(),
        tx_in_step(guest, phase, handed),
    ensures
        tx_keeps_ahead(guest, phase, handed),
{
    match phase {
        TxPhase::Header { .. } => {
            assert(handed == 1) by {
                reveal(tx_in_step);
            }
            lemma_tx_ahead_header(guest, phase);
        },
        TxPhase::Descriptor { .. } => lemma_tx_ahead_descriptor(guest, phase, handed),
        TxPhase::Data { .. } => lemma_tx_ahead_data(guest, phase, handed),
        _ => lemma_tx_ahead_ends(guest, phase, handed),
    }
}

/// After any number of answers of the guest, an assembly still comes to the same.
proof fn lemma_tx_ahead(guest: Guest, answers: Seq<Answer>)
    requires
        guest.wf(),
        tx_answers_of(guest, answers),
    ensures
        tx_in_step(guest, tx_run(answers), handed_out(answers)),
        tx_ahead(guest, tx_run(answers), handed_out(answers)) == tx_outcome(guest),
    decreases answers.len(),
{
    if answers.len() == 0 {
        reveal(tx_run);
        reveal(tx_ahead);
        reveal(tx_in_step);
    } else {
        let n = answers.len() - 1;
        let before = answers.take(n);
        assert forall|i: int| 0 <= i < before.len() implies #[trigger] before[i] == guest.answer(
            handed_out(before.take(i)),
            tx_request(tx_run(before.take(i))),
        ) by {
            assert(before.take(i) =~= answers.take(i));
            assert(before[i] == answers[i]);
        }
        lemma_tx_ahead(guest, before);
        lemma_tx_ahead_step(guest, tx_run(before), handed_out(before));
        lemma_tx_take(answers, n);
        lemma_descs_take(answers, n);
        assert(answers.take(n + 1) =~= answers);
        assert(answers[n] == guest.answer(handed_out(before), tx_request(tx_run(before))));
    }
}

/// An assembly that has all the answers it needs from a guest has found the packet that the guest
/// sends, or why there is none.
pub proof fn law_tx_outcome(guest: Guest, answers: Seq<Answer>)
    requires
        guest.wf(),
        tx_answers_of(guest, answers),
        tx_request(tx_run(answers)) == Request::Finished,
    ensures
        tx_run(answers) == TxPhase::Done(tx_outcome(guest)),
{
    lemma_tx_ahead(guest, answers);
    reveal(tx_ahead);
}

/// What is still to be translated when an assembly is in `phase` after `handed` descriptors.
#[verifier::opaque]
spec fn tx_spans_ahead(guest: Guest, phase: TxPhase, handed: nat) -> Seq<(u64, u64)> {
    match phase {
        TxPhase::Head => tx_spans(guest),
        TxPhase::Header { .. } => tx_spans(guest),
        TxPhase::Descriptor { hdr, data, .. } => tx_gather_spans(
            guest,
            handed,
            (decode(hdr).len - data.len()) as nat,
        ),
        TxPhase::Data { hdr, data, addr, span, len, more, .. } => {
            let fetched = (guest.fetch)(handed, addr, span, len);
            seq![(addr, span as u64)] + match fetched {
                Some(f) => if more {
                    tx_gather_spans(
                        guest,
                        handed,
                        (decode(hdr).len - data.len() - f.bytes.len()) as nat,
                    )
                } else {
                    Seq::empty()
                },
                None => Seq::empty(),
            }
        },
        TxPhase::Done(_) => Seq::empty(),
    }
}

/// What is translated for a request is no longer to be translated after its answer.
proof fn lemma_tx_spans_step(guest: Guest, phase: TxPhase, handed: nat)
    requires
        guest.wf(),
        tx_in_step(guest, phase, handed),
    ensures
        ({
            let answer = guest.answer(handed, tx_request(phase));
            let after = if answer is Descriptor {
                handed + 1
            } else {
                handed
            };
            tx_spans_ahead(guest, phase, handed) == span_of(tx_request(phase)) + tx_spans_ahead(
                guest,
                tx_step(phase, answer),
                after,
            )
        }),
{
    reveal(tx_in_step);
    reveal(tx_spans_ahead);
    let answer = guest.answer(handed, tx_request(phase));
    let after = if answer is Descriptor {
        handed + 1
    } else {
        handed
    };
    let rest = tx_spans_ahead(guest, tx_step(phase, answer), after);
    assert(Seq::<(u64, u64)>::empty() + rest =~= rest);
    match phase {
        TxPhase::Header { head } => {
            if let Some(f) = header_of(guest) {
                assert(rest =~= tx_data_spans(guest, decode(f.bytes).len));
            }
        },
        TxPhase::Descriptor { hdr, data, .. } => {
            let want = (decode(hdr).len - data.len()) as nat;
            if handed < guest.descs.len() {
                assert(rest =~= tx_gather_spans(guest, handed, want));
            }
        },
        _ => {},
    }
}

/// With every answer of the guest, what was translated and what is still to be add up to the same.
proof fn lemma_tx_spans(guest: Guest, answers: Seq<Answer>)
    requires
        guest.wf(),
        tx_answers_of(guest, answers),
    ensures
        tx_asked(answers) + tx_spans_ahead(guest, tx_run(answers), handed_out(answers))
            == tx_spans(guest),
    decreases answers.len(),
{
    if answers.len() == 0 {
        reveal(tx_run);
        reveal(tx_spans_ahead);
        assert(tx_asked(answers) + tx_spans(guest) =~= tx_spans(guest));
    } else {
        let n = answers.len() - 1;
        let before = answers.take(n);
        assert(before =~= answers.drop_last());
        assert forall|i: int| 0 <= i < before.len() implies #[trigger] before[i] == guest.answer(
            handed_out(before.take(i)),
            tx_request(tx_run(before.take(i))),
        ) by {
            assert(before.take(i) =~= answers.take(i));
            assert(before[i] == answers[i]);
        }
        lemma_tx_spans(guest, before);
        lemma_tx_ahead(guest, before);
        lemma_tx_spans_step(guest, tx_run(before), handed_out(before));
        lemma_tx_take(answers, n);
        lemma_descs_take(answers, n);
        assert(answers.take(n + 1) =~= answers);
        assert(answers[n] == guest.answer(handed_out(before), tx_request(tx_run(before))));
        let own = span_of(tx_request(tx_run(before)));
        let rest = tx_spans_ahead(guest, tx_run(answers), handed_out(answers));
        assert(tx_asked(before) + (own + rest) =~= (tx_asked(before) + own) + rest);
    }
}

/// What an assembly that has all the answers it needs from a guest had translated is what the
/// packet takes.
pub proof fn law_tx_spans(guest: Guest, answers: Seq<Answer>)
    requires
        guest.wf(),
        tx_answers_of(guest, answers),
        tx_request(tx_run(answers)) == Request::Finished,
    ensures
        tx_asked(answers) == tx_spans(guest),
{
    lemma_tx_spans(guest, answers);
    reveal(tx_spans_ahead);
    assert(tx_asked(answers) + Seq::<(u64, u64)>::empty() =~= tx_asked(answers));
}

/// `answers` and one more answer of the guest.
proof fn lemma_tx_answers_push(guest: Guest, answers: Seq<Answer>)
    requires
        tx_answers_of(guest, answers),
    ensures
        ({
            let answer = guest.answer(handed_out(answers), tx_request(tx_run(answers)));
            let more = answers.push(answer);
            &&& tx_answers_of(guest, more)
            &&& tx_run(more) == tx_step(tx_run(answers), answer)
            &&& handed_out(more) == handed_out(answers) + if answer is Descriptor {
                1nat
            } else {
                0nat
            }
        }),
{
    reveal(tx_run);
    let answer = guest.answer(handed_out(answers), tx_request(tx_run(answers)));
    let more = answers.push(answer);
    assert(more.drop_last() =~= answers);
    assert forall|i: int| 0 <= i < more.len() implies #[trigger] more[i] == guest.answer(
        handed_out(more.take(i)),
        tx_request(tx_run(more.take(i))),
    ) by {
        assert(more.take(i) =~= answers.take(i));
        if i < answers.len() {
            assert(more[i] == answers[i]);
        } else {
            assert(answers.take(i) =~= answers);
        }
    }
}

/// An assembly that is not finished needs only some more answers.
proof fn lemma_tx_completes(guest: Guest, answers: Seq<Answer>) -> (all: Seq<Answer>)
    requires
        guest.wf(),
        tx_answers_of(guest, answers),
    ensures
        tx_answers_of(guest, all),
        tx_request(tx_run(all)) == Request::Finished,
    decreases
            (if handed_out(answers) < guest.descs.len() {
                guest.descs.len() - handed_out(answers)
            } else {
                0
            }),
            tx_rank(tx_run(answers)),
{
    let phase = tx_run(answers);
    if tx_request(phase) == Request::Finished {
        answers
    } else {
        let answer = guest.answer(handed_out(answers), tx_request(phase));
        lemma_tx_answers_push(guest, answers);
        lemma_tx_completes(guest, answers.push(answer))
    }
}

/// An assembly comes to an end with every guest.
pub proof fn law_tx_finishes(guest: Guest)
    requires
        guest.wf(),
    ensures
        exists|answers: Seq<Answer>| #[trigger]
            tx_answers_of(guest, answers) && tx_run(answers) == TxPhase::Done(tx_outcome(guest)),
{
    reveal(tx_run);
    let none = Seq::<Answer>::empty();
    assert(tx_answers_of(guest, none));
    let answers = lemma_tx_completes(guest, none);
    law_tx_outcome(guest, answers);
}

/// That the answer `i` is to a fetch with these arguments, after `handed` descriptors.
pub open spec fn tx_fetch_at(
    answers: Seq<Answer>,
    i: int,
    handed: nat,
    addr: u64,
    span: usize,
    len: usize,
) -> bool {
    &&& 0 <= i < answers.len()
    &&& handed_out(answers.take(i)) == handed
    &&& tx_request(tx_run(answers.take(i))) == Request::Fetch { addr, span, len }
}

/// What `answers` give for a fetch with these arguments, after `handed` descriptors.
pub open spec fn tx_fetch_in(
    answers: Seq<Answer>,
    handed: nat,
    addr: u64,
    span: usize,
    len: usize,
) -> Option<FetchedView> {
    if exists|i: int| tx_fetch_at(answers, i, handed, addr, span, len) {
        match answers[choose|i: int| tx_fetch_at(answers, i, handed, addr, span, len)] {
            Answer::Fetched(fetched) => fetched,
            _ => None,
        }
    } else {
        None
    }
}

/// The guest that gives `answers`.
pub open spec fn tx_guest_of(answers: Seq<Answer>) -> Guest {
    Guest {
        descs: descs_of(answers),
        fetch: |handed: nat, addr: u64, span: usize, len: usize|
            tx_fetch_in(answers, handed, addr, span, len),
        probe: |addr: u64, len: usize| None,
    }
}

/// That each answer is of the kind that was asked for.
pub open spec fn tx_fit(answers: Seq<Answer>) -> bool {
    forall|i: int|
        0 <= i < answers.len() ==> fits(
            tx_request(tx_run(answers.take(i))),
            #[trigger] answers[i],
        )
}

/// One answer more, and where it brings the assembly.
pub proof fn lemma_tx_take(answers: Seq<Answer>, i: int)
    requires
        0 <= i < answers.len(),
    ensures
        tx_run(answers.take(i + 1)) == tx_step(tx_run(answers.take(i)), answers[i]),
{
    reveal(tx_run);
    assert(answers.take(i + 1).drop_last() =~= answers.take(i));
    assert(answers.take(i + 1).last() == answers[i]);
}

/// The request at `i`, and where its answer leads.
pub proof fn lemma_tx_at(answers: Seq<Answer>, i: int)
    requires
        tx_fit(answers),
        0 <= i < answers.len(),
    ensures
        ({
            let phase = tx_run(answers.take(i));
            let after = tx_run(answers.take(i + 1));
            &&& phase !is Done
            &&& answers[i] is Descriptor <==> tx_request(phase) == Request::NextDescriptor
            &&& answers[i] is Fetched <==> tx_request(phase) is Fetch
            &&& answers[i] is Descriptor || answers[i] is Fetched
            &&& answers[i] == Answer::Descriptor(None) ==> after is Done
            &&& phase is Data ==> tx_request(after) !is Fetch
            &&& phase is Header && tx_request(after) is Fetch ==> {
                &&& after is Data
                &&& tx_request(after)->Fetch_addr != tx_request(phase)->Fetch_addr
            }
            &&& tx_request(phase) is Fetch ==> phase is Header || phase is Data
        }),
{
    lemma_tx_take(answers, i);
    assert(fits(tx_request(tx_run(answers.take(i))), answers[i]));
}

/// As long as an assembly is not done, all the descriptors that it asked for were there.
proof fn lemma_tx_descs(answers: Seq<Answer>, i: int)
    requires
        tx_fit(answers),
        0 <= i <= answers.len(),
        tx_run(answers.take(i)) !is Done,
    ensures
        descs_of(answers.take(i)).len() == handed_out(answers.take(i)),
    decreases i,
{
    if i > 0 {
        lemma_tx_at(answers, i - 1);
        lemma_descs_take(answers, i - 1);
        lemma_tx_descs(answers, i - 1);
    } else {
        assert(answers.take(0) =~= Seq::empty());
    }
}

proof fn lemma_tx_fetches_differ(answers: Seq<Answer>, i: int, j: int)
    requires
        tx_fit(answers),
        0 <= i < j < answers.len(),
        tx_request(tx_run(answers.take(i))) is Fetch,
        tx_request(tx_run(answers.take(i))) == tx_request(tx_run(answers.take(j))),
    ensures
        handed_out(answers.take(i)) < handed_out(answers.take(j)),
{
    lemma_tx_at(answers, i);
    lemma_descs_take(answers, i);
    if i + 1 < j {
        lemma_tx_at(answers, i + 1);
        lemma_descs_take(answers, i + 1);
        lemma_descs_grow(answers, i + 2, j);
        if i + 2 < j {
            lemma_tx_at(answers, i + 2);
            lemma_descs_take(answers, i + 2);
            lemma_descs_grow(answers, i + 3, j);
        }
    }
}

/// The same bytes are fetched only once: after one descriptor, no two fetches are alike. So what
/// was looked at in the header is what the packet holds.
pub proof fn law_tx_fetches_once(
    answers: Seq<Answer>,
    i: int,
    j: int,
    handed: nat,
    addr: u64,
    span: usize,
    len: usize,
)
    requires
        tx_fit(answers),
        tx_fetch_at(answers, i, handed, addr, span, len),
        tx_fetch_at(answers, j, handed, addr, span, len),
    ensures
        i == j,
{
    if i < j {
        lemma_tx_fetches_differ(answers, i, j);
    } else if j < i {
        lemma_tx_fetches_differ(answers, j, i);
    }
}

/// The answer to a request for a descriptor is the next of the descriptors among the answers.
proof fn lemma_tx_descriptor_answer(answers: Seq<Answer>, i: int)
    requires
        tx_fit(answers),
        0 <= i < answers.len(),
        tx_request(tx_run(answers.take(i))) == Request::NextDescriptor,
    ensures
        answers[i] == Answer::Descriptor(
            if handed_out(answers.take(i)) < descs_of(answers).len() {
                Some(descs_of(answers)[handed_out(answers.take(i)) as int])
            } else {
                None
            },
        ),
{
    let n = answers.len() as int;
    assert(answers.take(n) =~= answers);
    lemma_tx_at(answers, i);
    lemma_tx_descs(answers, i);
    lemma_descs_take(answers, i);
    lemma_descs_grow(answers, i + 1, n);
    if answers[i] == Answer::Descriptor(None) {
        if i + 1 < n {
            lemma_tx_at(answers, i + 1);
        }
    } else {
        let handed = handed_out(answers.take(i)) as int;
        assert(descs_of(answers.take(i + 1))[handed] == descs_of(answers)[handed]);
    }
}

/// Whatever is answered to an assembly, there is a guest that gives just these answers.
proof fn lemma_tx_guest(answers: Seq<Answer>)
    requires
        tx_fit(answers),
    ensures
        tx_guest_of(answers).wf(),
        tx_answers_of(tx_guest_of(answers), answers),
{
    let guest = tx_guest_of(answers);
    assert forall|handed: nat, addr: u64, span: usize, len: usize| #[trigger]
        (guest.fetch)(handed, addr, span, len) is Some implies (guest.fetch)(
        handed,
        addr,
        span,
        len,
    )->0.bytes.len() == len by {
        let i = choose|i: int| tx_fetch_at(answers, i, handed, addr, span, len);
        assert(fits(tx_request(tx_run(answers.take(i))), answers[i]));
    }
    assert forall|i: int| 0 <= i < answers.len() implies #[trigger] answers[i] == guest.answer(
        handed_out(answers.take(i)),
        tx_request(tx_run(answers.take(i))),
    ) by {
        let handed = handed_out(answers.take(i));
        lemma_tx_at(answers, i);
        match tx_request(tx_run(answers.take(i))) {
            Request::NextDescriptor => lemma_tx_descriptor_answer(answers, i),
            Request::Fetch { addr, span, len } => {
                assert(tx_fetch_at(answers, i, handed, addr, span, len));
                let j = choose|j: int| tx_fetch_at(answers, j, handed, addr, span, len);
                law_tx_fetches_once(answers, i, j, handed, addr, span, len);
            },
            _ => {},
        }
    }
}

/// Whatever is answered to an assembly, it comes to what the answers as a whole amount to.
pub proof fn law_tx_outcome_of_answers(answers: Seq<Answer>)
    requires
        tx_fit(answers),
        tx_request(tx_run(answers)) == Request::Finished,
    ensures
        tx_run(answers) == TxPhase::Done(tx_outcome(tx_guest_of(answers))),
{
    lemma_tx_guest(answers);
    law_tx_outcome(tx_guest_of(answers), answers);
}

/// Whatever is answered to an assembly, it had translated what the answers as a whole take.
pub proof fn law_tx_spans_of_answers(answers: Seq<Answer>)
    requires
        tx_fit(answers),
        tx_request(tx_run(answers)) == Request::Finished,
    ensures
        tx_asked(answers) == tx_spans(tx_guest_of(answers)),
{
    lemma_tx_guest(answers);
    law_tx_spans(tx_guest_of(answers), answers);
}

/// Where the header of a packet was found, all of it is backed by guest memory.
pub open spec fn tx_hdr_mapped(mem: GuestRam, phase: TxPhase) -> bool {
    let at = match phase {
        TxPhase::Descriptor { hdr_addr, .. } => Some(hdr_addr),
        TxPhase::Data { hdr_addr, .. } => Some(hdr_addr),
        TxPhase::Done(Ok(packet)) => Some(packet.hdr_addr),
        _ => None,
    };
    match at {
        Some(addr) => mapped_prefix(guest_regions(mem), addr as int, VSOCK_PKT_HDR_SIZE as nat)
            == VSOCK_PKT_HDR_SIZE,
        None => true,
    }
}

/// What the guest gave is of the kind that was asked for, and the header is backed by memory.
pub proof fn lemma_tx_served(states: Seq<GuestState>, answers: Seq<Answer>, i: int)
    requires
        tx_served(states, answers),
        0 <= i <= answers.len(),
    ensures
        tx_fit(answers),
        states[i].chain.mem() == states[0].chain.mem(),
        states[i].platform.platform == states[0].platform.platform,
        tx_hdr_mapped(states[0].chain.mem(), tx_run(answers.take(i))),
        wrote_nothing(states[0].chain.log, states[i].chain.log),
    decreases i,
{
    assert forall|k: int| 0 <= k < answers.len() implies fits(
        tx_request(tx_run(answers.take(k))),
        #[trigger] answers[k],
    ) by {
        assert(answered(
            states[k],
            states[k + 1],
            tx_request(tx_run(answers.take(k))),
            answers[k],
        ));
    }
    if i == 0 {
        reveal(tx_run);
        assert(states[0].chain.log.take(states[0].chain.log.len() as int) =~= states[0].chain.log);
    } else {
        lemma_tx_served(states, answers, i - 1);
        lemma_tx_take(answers, i - 1);
        assert(answered(
            states[i - 1],
            states[i],
            tx_request(tx_run(answers.take(i - 1))),
            answers[i - 1],
        ));
        let start = states[0].chain.log;
        let before = states[i - 1].chain.log;
        let after = states[i].chain.log;
        assert(after.take(start.len() as int) =~= before.take(start.len() as int));
    }
}

/// What a platform was asked for `answers`: for each answer, what the request took.
pub open spec fn tx_asked(answers: Seq<Answer>) -> Seq<(u64, u64)>
    decreases answers.len(),
{
    if answers.len() == 0 {
        Seq::empty()
    } else {
        tx_asked(answers.drop_last()) + span_of(tx_request(tx_run(answers.drop_last())))
    }
}

/// Each request asks of the platform what it takes, and nothing else.
proof fn lemma_tx_asked(states: Seq<GuestState>, answers: Seq<Answer>, i: int)
    requires
        tx_served(states, answers),
        0 <= i <= answers.len(),
    ensures
        asked_just(states[0].platform, states[i].platform, tx_asked(answers.take(i))),
    decreases i,
{
    let start = states[0].platform;
    let n = start.log.len() as int;
    if i == 0 {
        assert(start.log.take(n) =~= start.log);
        assert(spans(start.log.skip(n)) =~= Seq::empty());
        assert(tx_asked(answers.take(0)) =~= Seq::empty());
    } else {
        lemma_tx_asked(states, answers, i - 1);
        assert(answers.take(i).drop_last() =~= answers.take(i - 1));
        let request = tx_request(tx_run(answers.take(i - 1)));
        let before = states[i - 1].platform;
        let after = states[i].platform;
        assert(answered(states[i - 1], states[i], request, answers[i - 1]));
        if before.platform is Some {
            assert(after.log.take(n) =~= before.log.take(n));
            assert(spans(after.log.skip(n)) =~= spans(before.log.skip(n)) + span_of(request));
        } else {
            assert(after == before);
        }
    }
}

/// That the guest's answers brought an assembly to its end with `outcome` while the guest went from
/// `before` to `after`, that the outcome is what the answers as a whole amount to, and that a
/// platform was asked just what this takes.
pub open spec fn tx_received(
    before: GuestState,
    after: GuestState,
    outcome: Result<PacketView, VsockError>,
) -> bool {
    exists|states: Seq<GuestState>, answers: Seq<Answer>|
        {
            &&& #[trigger] tx_served(states, answers)
            &&& states.first() == before
            &&& states.last() == after
            &&& tx_run(answers) == TxPhase::Done(outcome)
            &&& outcome == tx_outcome(tx_guest_of(answers))
            &&& asked_just(before.platform, after.platform, tx_spans(tx_guest_of(answers)))
        }
}

/// An assembly that the guest's answers brought to its end comes to what they amount to, asks no
/// more of a platform than this takes, and writes nothing. The header of the
/// packet lies in guest memory.
pub proof fn law_tx_received(
    before: GuestState,
    after: GuestState,
    outcome: Result<PacketView, VsockError>,
)
    requires
        tx_reached(before, after, TxPhase::Done(outcome)),
    ensures
        tx_received(before, after, outcome),
        after.chain.mem() == before.chain.mem(),
        wrote_nothing(before.chain.log, after.chain.log),
        outcome matches Ok(packet) ==> packet.hdr_bytes_committed(before.chain.mem())
            == VSOCK_PKT_HDR_SIZE,
{
    let (states, answers) = choose|states: Seq<GuestState>, answers: Seq<Answer>|
        {
            &&& #[trigger] tx_served(states, answers)
            &&& states.first() == before
            &&& states.last() == after
            &&& tx_run(answers) == TxPhase::Done(outcome)
        };
    let n = answers.len() as int;
    assert(answers.take(n) =~= answers);
    lemma_tx_served(states, answers, n);
    lemma_tx_asked(states, answers, n);
    law_tx_outcome_of_answers(answers);
    law_tx_spans_of_answers(answers);
}

/// How many bytes the descriptors from `i` on have room for.
pub open spec fn room(descs: Seq<Descriptor>, i: nat) -> nat
    decreases descs.len() - i,
{
    if i >= descs.len() {
        0
    } else {
        descs[i as int].len as nat + room(descs, i + 1)
    }
}

/// That nothing stands in the way of a packet: each descriptor of the chain is readable and says
/// rightly whether another follows, the head descriptor has room for the header, and everything
/// asked for can be fetched.
pub open spec fn tx_clear(guest: Guest) -> bool {
    &&& guest.descs.len() > 0
    &&& guest.descs[0].len >= VSOCK_PKT_HDR_SIZE
    &&& guest.descs[0].addr + VSOCK_PKT_HDR_SIZE <= u64::MAX
    &&& forall|i: int|
        0 <= i < guest.descs.len() ==> {
            &&& !(#[trigger] guest.descs[i]).write_only
            &&& guest.descs[i].has_next == (i + 1 < guest.descs.len())
        }
    &&& forall|handed: nat, addr: u64, span: usize, len: usize| #[trigger]
        (guest.fetch)(handed, addr, span, len) is Some
}

proof fn lemma_tx_gather(guest: Guest, i: nat, want: nat)
    requires
        guest.wf(),
        tx_clear(guest),
        i < guest.descs.len(),
        want <= MAX_PKT_BUF_SIZE,
    ensures
        tx_gather(guest, i, want) matches Ok(data) && data.len() == if room(guest.descs, i) < want {
            room(guest.descs, i)
        } else {
            want
        },
    decreases guest.descs.len() - i,
{
    let piece = tx_piece(guest, i, want)->0;
    if i + 1 < guest.descs.len() {
        lemma_tx_gather(guest, i + 1, (want - piece.len()) as nat);
    } else {
        assert(room(guest.descs, i + 1) == 0);
    }
}

/// With nothing else in the way, a packet with data can be taken from a chain exactly if the chain
/// has room for the data that the header counts.
pub proof fn law_tx_needs_room(guest: Guest)
    requires
        guest.wf(),
        tx_clear(guest),
        0 < decode(header_of(guest)->0.bytes).len <= MAX_PKT_BUF_SIZE,
    ensures
        ({
            let len = decode(header_of(guest)->0.bytes).len;
            let has = if guest.descs.len() > 1 {
                room(guest.descs, 1) as int
            } else {
                guest.descs[0].len - VSOCK_PKT_HDR_SIZE
            };
            if has < len {
                tx_outcome(guest) == Err::<PacketView, VsockError>(VsockError::BufDescTooSmall)
            } else {
                tx_outcome(guest) is Ok
            }
        }),
{
    let len = decode(header_of(guest)->0.bytes).len;
    if guest.descs.len() > 1 {
        lemma_tx_gather(guest, 1, len as nat);
    }
}

/// No more data is gathered than is missing.
proof fn lemma_tx_gather_len(guest: Guest, i: nat, want: nat)
    requires
        guest.wf(),
        want <= MAX_PKT_BUF_SIZE,
    ensures
        tx_gather(guest, i, want) matches Ok(data) ==> data.len() <= want,
    decreases guest.descs.len() - i,
{
    if i < guest.descs.len() {
        if let Some(piece) = tx_piece(guest, i, want) {
            assert(piece.len() <= want);
            lemma_tx_gather_len(guest, i + 1, (want - piece.len()) as nat);
        }
    }
}

/// A packet that the guest sends has data exactly if the length field of its header is not zero,
/// and the data is as long as that field says.
pub proof fn law_tx_buf_size(guest: Guest)
    requires
        guest.wf(),
    ensures
        tx_outcome(guest) matches Ok(packet) ==> tx_complete(packet),
{
    if let Ok(packet) = tx_outcome(guest) {
        lemma_tx_gather_len(guest, 1, packet.header().len as nat);
    }
}

/// That the descriptors from `i` to `last` are readable, and that each but the last says that
/// another follows.
pub open spec fn tx_readable_run(descs: Seq<Descriptor>, i: int, last: int) -> bool {
    &&& 0 <= i <= last < descs.len()
    &&& !descs[last].has_next
    &&& forall|k: int| i <= k <= last ==> !(#[trigger] descs[k]).write_only
    &&& forall|k: int| i <= k < last ==> (#[trigger] descs[k]).has_next
}

/// Data is gathered from the descriptors up to the first that no other follows. All of these are
/// readable.
pub proof fn law_tx_walks_to_the_end(guest: Guest, i: nat, want: nat)
    requires
        tx_gather(guest, i, want) is Ok,
    ensures
        exists|last: int| tx_readable_run(guest.descs, i as int, last),
    decreases guest.descs.len() - i,
{
    if guest.descs[i as int].has_next {
        let piece = tx_piece(guest, i, want)->0;
        law_tx_walks_to_the_end(guest, i + 1, (want - piece.len()) as nat);
        let next = (i + 1) as int;
        let last = choose|last: int| tx_readable_run(guest.descs, next, last);
        assert(tx_readable_run(guest.descs, i as int, last));
    } else {
        assert(tx_readable_run(guest.descs, i as int, i as int));
    }
}

/// That the descriptors from `i` on hold `data` and no other follows them: what is fetched of each
/// is its share of the data.
pub open spec fn tx_holds(guest: Guest, i: nat, data: Seq<u8>) -> bool
    decreases guest.descs.len() - i,
{
    let desc = guest.descs[i as int];
    let share = if desc.len < data.len() {
        desc.len as nat
    } else {
        data.len()
    };
    &&& i < guest.descs.len()
    &&& !desc.write_only
    &&& share > 0 ==> {
        &&& (guest.fetch)(i + 1, desc.addr, desc.len as usize, share as usize) matches Some(f)
        &&& f.bytes == data.take(share as int)
    }
    &&& if desc.has_next {
        tx_holds(guest, i + 1, data.skip(share as int))
    } else {
        share == data.len()
    }
}

/// What the descriptors hold is what is gathered from them.
proof fn lemma_tx_holds(guest: Guest, i: nat, data: Seq<u8>)
    requires
        tx_holds(guest, i, data),
        data.len() <= MAX_PKT_BUF_SIZE,
    ensures
        tx_gather(guest, i, data.len()) == Ok::<Seq<u8>, VsockError>(data),
    decreases guest.descs.len() - i,
{
    let desc = guest.descs[i as int];
    let share = if desc.len < data.len() {
        desc.len as nat
    } else {
        data.len()
    };
    let piece = data.take(share as int);
    assert(share == 0 ==> piece =~= Seq::empty());
    assert(tx_piece(guest, i, data.len()) == Some(piece));
    if desc.has_next {
        let rest = data.skip(share as int);
        lemma_tx_holds(guest, i + 1, rest);
        assert(piece + rest =~= data);
    } else {
        assert(piece =~= data);
    }
}

/// That the head descriptor is readable and holds the header of `packet`.
pub open spec fn tx_holds_header(guest: Guest, packet: PacketView) -> bool {
    &&& guest.descs.len() > 0
    &&& !guest.descs[0].write_only
    &&& guest.descs[0].len >= VSOCK_PKT_HDR_SIZE
    &&& header_of(guest) matches Some(f)
    &&& f.bytes == packet.hdr
}

/// A packet that was written back can be sent: from descriptors that hold its header and, in any
/// number of shares, the data written back, the same header and data are taken.
pub proof fn law_committed_packet_can_be_sent(
    packet: PacketView,
    at: u64,
    data: Seq<u8>,
    guest: Guest,
)
    requires
        packet.data_to_commit() == Ok::<Option<(u64, Seq<u8>)>, VsockError>(Some((at, data))),
        tx_holds_header(guest, packet),
        guest.descs[0].has_next,
        tx_holds(guest, 1, data),
    ensures
        tx_outcome(guest) == Ok::<PacketView, VsockError>(
            PacketView {
                hdr_addr: header_of(guest)->0.addr,
                hdr: packet.hdr,
                buf: Some(data),
                buf_addr: None,
            },
        ),
{
    assert(data.len() == packet.header().len);
    lemma_tx_holds(guest, 1, data);
}

/// The same holds of one descriptor with the data behind the header.
pub proof fn law_committed_packet_can_be_sent_in_one(
    packet: PacketView,
    at: u64,
    data: Seq<u8>,
    guest: Guest,
)
    requires
        packet.data_to_commit() == Ok::<Option<(u64, Seq<u8>)>, VsockError>(Some((at, data))),
        tx_holds_header(guest, packet),
        !guest.descs[0].has_next,
        guest.descs[0].len >= VSOCK_PKT_HDR_SIZE + data.len(),
        guest.descs[0].addr + VSOCK_PKT_HDR_SIZE <= u64::MAX,
        (guest.fetch)(
            1,
            (guest.descs[0].addr + VSOCK_PKT_HDR_SIZE) as u64,
            data.len() as usize,
            data.len() as usize,
        ) matches Some(f) && f.bytes == data,
    ensures
        tx_outcome(guest) == Ok::<PacketView, VsockError>(
            PacketView {
                hdr_addr: header_of(guest)->0.addr,
                hdr: packet.hdr,
                buf: Some(data),
                buf_addr: None,
            },
        ),
{
    assert(data.len() == packet.header().len);
}

/// A header that was written back for a packet without data can be sent: from a descriptor that
/// holds it, the same header is taken, whatever follows.
pub proof fn law_committed_header_can_be_sent(packet: PacketView, guest: Guest)
    requires
        packet.header().len == 0,
        tx_holds_header(guest, packet),
    ensures
        tx_outcome(guest) == Ok::<PacketView, VsockError>(
            PacketView {
                hdr_addr: header_of(guest)->0.addr,
                hdr: packet.hdr,
                buf: None,
                buf_addr: None,
            },
        ),
{
}

} // verus!
