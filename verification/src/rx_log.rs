//! What the log of a chain says of a packet that the guest is to receive.

use crate::assembly::{answered, Answer};
use crate::error::VsockError;
use crate::guest::{guest_regions, Access, AccessPlatform, GuestState, Translation};
use crate::guest_laws::{
    answer_for, follows_the_map, law_probe_gives_the_translation, lemma_only_looks_push, looks,
    only_looks, refused,
};
use crate::packet::PacketView;
use crate::rx::{rx_request, rx_run, rx_served, rx_step, RxPhase};
use crate::rx_laws::{lemma_rx_served, lemma_rx_take, rx_received};
use vstd::prelude::*;

verus! {

/// That the accesses start with a writable head descriptor that has room for a header, and the read
/// of that header.
pub open spec fn rx_starts(
    platform: Option<&dyn AccessPlatform>,
    log: Seq<Access>,
    asked: Seq<Translation>,
    hdr_addr: u64,
    hdr: Seq<u8>,
) -> bool {
    &&& log.len() >= 2
    &&& log[0] matches Access::Descriptor(Some(head))
    &&& head.write_only
    &&& head.len >= 44
    &&& hdr.len() == 44
    &&& log[1] == Access::Read { addr: hdr_addr, len: 44, got: Some(hdr) }
    &&& answer_for(platform, asked, 0, head.addr as int, 44, hdr_addr)
}

/// That the accesses are those of a packet without room for data.
spec fn rx_ends_without_room(log: Seq<Access>) -> bool {
    &&& log[0] matches Access::Descriptor(Some(head))
    &&& if head.has_next {
        &&& log.len() == 3
        &&& log[2] matches Access::Descriptor(Some(d))
        &&& d.write_only
        &&& !d.has_next
        &&& d.len == 0
    } else {
        &&& log.len() == 2
        &&& head.len == 44
    }
}

/// The room for data, as its address and size: that of the data descriptor, if one follows the head
/// descriptor, and else what this has left behind the header.
pub open spec fn rx_room_in(log: Seq<Access>) -> (int, int) {
    match log[0] {
        Access::Descriptor(Some(head)) => if head.has_next {
            match log[2] {
                Access::Descriptor(Some(d)) => (d.addr as int, d.len as int),
                _ => (0, 0),
            }
        } else {
            (head.addr + 44, head.len - 44)
        },
        _ => (0, 0),
    }
}

/// That the accesses are those up to the room for data, and that this is not empty.
pub open spec fn rx_has_room(log: Seq<Access>) -> bool {
    &&& rx_room_in(log).1 > 0
    &&& log[0] matches Access::Descriptor(Some(head))
    &&& head.has_next ==> {
        &&& log.len() >= 3
        &&& log[2] matches Access::Descriptor(Some(d))
        &&& d.write_only
        &&& !d.has_next
    }
}

/// How many of the accesses come before the look at the room for data.
pub open spec fn rx_before_room(log: Seq<Access>) -> int {
    if log[0] matches Access::Descriptor(Some(head)) && head.has_next {
        3
    } else {
        2
    }
}

/// How many questions there are to a platform, if there is one.
spec fn questions(platform: Option<&dyn AccessPlatform>, n: nat) -> nat {
    if platform is Some {
        n
    } else {
        0
    }
}

/// What the accesses and the questions to the platform are in each phase.
spec fn rx_traced(
    platform: Option<&dyn AccessPlatform>,
    log: Seq<Access>,
    asked: Seq<Translation>,
    phase: RxPhase,
) -> bool {
    match phase {
        RxPhase::Head => log.len() == 0 && asked.len() == 0,
        RxPhase::Header { head } => {
            &&& log.len() == 1
            &&& log[0] == Access::Descriptor(Some(head))
            &&& head.write_only
            &&& head.len >= 44
            &&& asked.len() == 0
        },
        RxPhase::Descriptor { hdr_addr, hdr } => {
            &&& rx_starts(platform, log, asked, hdr_addr, hdr)
            &&& log.len() == 2
            &&& rx_before_room(log) == 3
            &&& asked.len() == questions(platform, 1)
        },
        RxPhase::Room { hdr_addr, hdr, addr, len } => {
            &&& rx_starts(platform, log, asked, hdr_addr, hdr)
            &&& rx_has_room(log)
            &&& rx_room_in(log) == (addr as int, len as int)
            &&& log.len() == rx_before_room(log)
            &&& asked.len() == questions(platform, 1)
        },
        RxPhase::Done(Ok(packet)) => {
            &&& rx_starts(platform, log, asked, packet.hdr_addr, packet.hdr)
            &&& match (packet.buf, packet.buf_addr) {
                (Some(buf), Some(at)) => {
                    let (addr, len) = rx_room_in(log);
                    &&& rx_has_room(log)
                    &&& log.len() == rx_before_room(log) + 1
                    &&& log.last() == Access::Probed { addr: at, len: len as usize, ok: true }
                    &&& buf.len() == len
                    &&& forall|i: int| 0 <= i < buf.len() ==> #[trigger] buf[i] == 0
                    &&& answer_for(platform, asked, 1, addr, len, at)
                    &&& asked.len() == questions(platform, 2)
                },
                (None, None) => {
                    &&& rx_ends_without_room(log)
                    &&& asked.len() == questions(platform, 1)
                },
                _ => false,
            }
        },
        RxPhase::Done(Err(error)) => rx_explains(platform, log, asked, error),
    }
}

/// That the last access or the last question to the platform is reason for the error, and that what
/// came before is what it takes.
pub open spec fn rx_explains(
    platform: Option<&dyn AccessPlatform>,
    log: Seq<Access>,
    asked: Seq<Translation>,
    error: VsockError,
) -> bool {
    match error {
        VsockError::HdrDescMissing => log.len() == 1 && log[0] == Access::Descriptor(None),
        VsockError::HdrDescTooSmall(len) => {
            &&& log.len() == 1
            &&& log[0] matches Access::Descriptor(Some(head))
            &&& head.write_only
            &&& head.len == len
            &&& len < 44
        },
        VsockError::UnwritableDescriptor => {
            ||| log.len() == 1 && (log[0] matches Access::Descriptor(Some(head))
                && !head.write_only)
            ||| rx_follows(platform, log, asked) && (log[2] matches Access::Descriptor(Some(d))
                && !d.write_only && !d.has_next)
        },
        VsockError::BufDescMissing => {
            &&& rx_follows(platform, log, asked)
            &&& log[2] == Access::Descriptor(None)
        },
        VsockError::BufDescTooSmall => {
            &&& rx_follows(platform, log, asked)
            &&& log[2] matches Access::Descriptor(Some(d))
            &&& d.has_next
        },
        VsockError::GuestMemory => {
            // The header could not be translated
            ||| log.len() == 1 && (log[0] matches Access::Descriptor(Some(head)) && head.write_only
                && head.len >= 44 && refused(platform, asked, 0, head.addr as int, 44))
            // or read,
            ||| {
                &&& log.len() == 2
                &&& log[0] matches Access::Descriptor(Some(head))
                &&& head.write_only
                &&& head.len >= 44
                &&& log[1] matches Access::Read { addr, len, got }
                &&& len == 44
                &&& got is None
                &&& answer_for(platform, asked, 0, head.addr as int, 44, addr)
            }
            // there is no address behind it,
            ||| {
                &&& rx_read(platform, log, asked)
                &&& log.len() == 2
                &&& log[0] matches Access::Descriptor(Some(head))
                &&& !head.has_next
                &&& head.len > 44
                &&& head.addr + 44 > u64::MAX
            }
            // or the room for data could not be translated
            ||| {
                &&& rx_read(platform, log, asked)
                &&& rx_has_room(log)
                &&& log.len() == rx_before_room(log)
                &&& refused(platform, asked, 1, rx_room_in(log).0, rx_room_in(log).1)
            }
            // or is not there in one piece.
            ||| {
                let (addr, len) = rx_room_in(log);
                &&& rx_read(platform, log, asked)
                &&& rx_has_room(log)
                &&& log.len() == rx_before_room(log) + 1
                &&& log.last() matches Access::Probed { addr: at, len: n, ok }
                &&& !ok
                &&& n == len
                &&& answer_for(platform, asked, 1, addr, len, at)
            }
        },
        VsockError::InvalidPktLen(_) => false,
        VsockError::UnreadableDescriptor => false,
    }
}

/// That a writable head descriptor with room for a header came, and the header was read.
pub open spec fn rx_read(
    platform: Option<&dyn AccessPlatform>,
    log: Seq<Access>,
    asked: Seq<Translation>,
) -> bool {
    &&& log.len() >= 2
    &&& log[1] matches Access::Read { addr, len, got: Some(bytes) }
    &&& len == 44
    &&& rx_starts(platform, log, asked, addr, bytes)
}

/// That the header was read and the descriptor that is to follow was asked for.
pub open spec fn rx_follows(
    platform: Option<&dyn AccessPlatform>,
    log: Seq<Access>,
    asked: Seq<Translation>,
) -> bool {
    &&& rx_read(platform, log, asked)
    &&& log.len() == 3
    &&& log[0] matches Access::Descriptor(Some(head))
    &&& head.has_next
}

/// An answer of the guest leads from one phase to the next with the accesses that go with it.
proof fn lemma_rx_traced_step(
    start: GuestState,
    before: GuestState,
    after: GuestState,
    phase: RxPhase,
    answer: Answer,
)
    requires
        before.platform.platform == start.platform.platform,
        start.chain.log.len() <= before.chain.log.len(),
        start.platform.log.len() <= before.platform.log.len(),
        rx_traced(
            start.platform.platform,
            before.chain.log.skip(start.chain.log.len() as int),
            before.platform.log.skip(start.platform.log.len() as int),
            phase,
        ),
        before.chain.mem() == start.chain.mem(),
        follows_the_map(
            guest_regions(start.chain.mem()),
            before.chain.log.skip(start.chain.log.len() as int),
        ),
        only_looks(
            start.platform.platform,
            before.chain.log.skip(start.chain.log.len() as int),
            before.platform.log.skip(start.platform.log.len() as int),
        ),
        phase !is Done && start.platform.platform is Some ==> before.platform.log.skip(
            start.platform.log.len() as int,
        ).len() == looks(before.chain.log.skip(start.chain.log.len() as int)),
        before.chain.log.take(start.chain.log.len() as int) == start.chain.log,
        before.platform.log.take(start.platform.log.len() as int) == start.platform.log,
        answered(before, after, rx_request(phase), answer),
    ensures
        start.chain.log.len() <= after.chain.log.len(),
        start.platform.log.len() <= after.platform.log.len(),
        rx_traced(
            start.platform.platform,
            after.chain.log.skip(start.chain.log.len() as int),
            after.platform.log.skip(start.platform.log.len() as int),
            rx_step(phase, answer),
        ),
        follows_the_map(
            guest_regions(start.chain.mem()),
            after.chain.log.skip(start.chain.log.len() as int),
        ),
        only_looks(
            start.platform.platform,
            after.chain.log.skip(start.chain.log.len() as int),
            after.platform.log.skip(start.platform.log.len() as int),
        ),
        rx_step(phase, answer) !is Done && start.platform.platform is Some
            ==> after.platform.log.skip(start.platform.log.len() as int).len() == looks(
            after.chain.log.skip(start.chain.log.len() as int),
        ),
        after.chain.log.take(start.chain.log.len() as int) == start.chain.log,
        after.platform.log.take(start.platform.log.len() as int) == start.platform.log,
{
    let n = start.chain.log.len() as int;
    let m = start.platform.log.len() as int;
    let log = before.chain.log.skip(n);
    let asked = before.platform.log.skip(m);
    let log2 = after.chain.log.skip(n);
    let asked2 = after.platform.log.skip(m);
    if after.chain.log != before.chain.log {
        assert(log2 =~= log.push(after.chain.log.last()));
        assert(after.chain.log.take(n) =~= before.chain.log.take(n));
    }
    if after.platform.log != before.platform.log {
        assert(asked2 =~= asked.push(after.platform.log.last()));
        assert(after.platform.log.take(m) =~= before.platform.log.take(m));
    }
    if after.chain.log != before.chain.log {
        lemma_only_looks_push(start.platform.platform, log, asked, after.chain.log.last());
    }
    match phase {
        RxPhase::Head => {
            assert(rx_traced(start.platform.platform, log2, asked2, rx_step(phase, answer)));
        },
        RxPhase::Header { .. } => {
            assert(rx_traced(start.platform.platform, log2, asked2, rx_step(phase, answer)));
        },
        RxPhase::Descriptor { hdr_addr, hdr } => {
            assert(rx_starts(start.platform.platform, log2, asked2, hdr_addr, hdr));
            assert(rx_traced(start.platform.platform, log2, asked2, rx_step(phase, answer)));
        },
        RxPhase::Room { hdr_addr, hdr, addr, len } => {
            assert(rx_starts(start.platform.platform, log2, asked2, hdr_addr, hdr));
            assert(rx_has_room(log2));
            assert(rx_room_in(log2) == rx_room_in(log));
            if let Answer::Probed(out) = answer {
                law_probe_gives_the_translation(before, after, addr, len, out);
            }
            assert(rx_traced(start.platform.platform, log2, asked2, rx_step(phase, answer)));
        },
        RxPhase::Done(_) => {},
    }
}

proof fn lemma_rx_traced(states: Seq<GuestState>, answers: Seq<Answer>, i: int)
    requires
        rx_served(states, answers),
        0 <= i <= answers.len(),
    ensures
        states[0].chain.log.len() <= states[i].chain.log.len(),
        states[0].platform.log.len() <= states[i].platform.log.len(),
        rx_traced(
            states[0].platform.platform,
            states[i].chain.log.skip(states[0].chain.log.len() as int),
            states[i].platform.log.skip(states[0].platform.log.len() as int),
            rx_run(answers.take(i)),
        ),
        follows_the_map(
            guest_regions(states[0].chain.mem()),
            states[i].chain.log.skip(states[0].chain.log.len() as int),
        ),
        only_looks(
            states[0].platform.platform,
            states[i].chain.log.skip(states[0].chain.log.len() as int),
            states[i].platform.log.skip(states[0].platform.log.len() as int),
        ),
        rx_run(answers.take(i)) !is Done && states[0].platform.platform is Some
            ==> states[i].platform.log.skip(states[0].platform.log.len() as int).len() == looks(
            states[i].chain.log.skip(states[0].chain.log.len() as int),
        ),
        states[i].chain.log.take(states[0].chain.log.len() as int) == states[0].chain.log,
        states[i].platform.log.take(states[0].platform.log.len() as int) == states[0].platform.log,
    decreases i,
{
    if i == 0 {
        reveal(rx_run);
        let s = states[0];
        assert(s.chain.log.take(s.chain.log.len() as int) =~= s.chain.log);
        assert(s.platform.log.take(s.platform.log.len() as int) =~= s.platform.log);
    } else {
        lemma_rx_traced(states, answers, i - 1);
        lemma_rx_served(states, answers, i - 1);
        lemma_rx_take(answers, i - 1);
        assert(answered(
            states[i - 1],
            states[i],
            rx_request(rx_run(answers.take(i - 1))),
            answers[i - 1],
        ));
        lemma_rx_traced_step(
            states[0],
            states[i - 1],
            states[i],
            rx_run(answers.take(i - 1)),
            answers[i - 1],
        );
    }
}

proof fn lemma_rx_received(
    before: GuestState,
    after: GuestState,
    outcome: Result<PacketView, VsockError>,
)
    requires
        rx_received(before, after, outcome),
    ensures
        before.chain.log.len() <= after.chain.log.len(),
        before.platform.log.len() <= after.platform.log.len(),
        rx_traced(
            before.platform.platform,
            after.chain.log.skip(before.chain.log.len() as int),
            after.platform.log.skip(before.platform.log.len() as int),
            RxPhase::Done(outcome),
        ),
        follows_the_map(
            guest_regions(before.chain.mem()),
            after.chain.log.skip(before.chain.log.len() as int),
        ),
        only_looks(
            before.platform.platform,
            after.chain.log.skip(before.chain.log.len() as int),
            after.platform.log.skip(before.platform.log.len() as int),
        ),
        after.chain.log.take(before.chain.log.len() as int) == before.chain.log,
        after.platform.log.take(before.platform.log.len() as int) == before.platform.log,
{
    let (states, answers) = choose|states: Seq<GuestState>, answers: Seq<Answer>|
        {
            &&& #[trigger] rx_served(states, answers)
            &&& states.first() == before
            &&& states.last() == after
            &&& rx_run(answers) == RxPhase::Done(outcome)
        };
    let n = answers.len() as int;
    assert(answers.take(n) =~= answers);
    lemma_rx_traced(states, answers, n);
}

/// The header of a packet that the guest is to receive is what one read gave, from where the
/// writable head descriptor points to. Its address is the translation of that.
pub proof fn law_rx_header_is_what_was_read(
    before: GuestState,
    after: GuestState,
    packet: PacketView,
)
    requires
        rx_received(before, after, Ok(packet)),
    ensures
        ({
            let log = after.chain.log.skip(before.chain.log.len() as int);
            let asked = after.platform.log.skip(before.platform.log.len() as int);
            &&& log.len() >= 2
            &&& log[0] matches Access::Descriptor(Some(head))
            &&& head.write_only
            &&& head.len >= 44
            &&& packet.hdr.len() == 44
            &&& log[1] == Access::Read { addr: packet.hdr_addr, len: 44, got: Some(packet.hdr) }
            &&& answer_for(
                before.platform.platform,
                asked,
                0,
                head.addr as int,
                44,
                packet.hdr_addr,
            )
        }),
{
    lemma_rx_received(before, after, Ok(packet));
}

/// The buffer of a packet that the guest is to receive is zeroed, as large as the data descriptor,
/// and goes to where that points to. If none follows the head descriptor, it is as large as what
/// this has left behind the header, and goes right behind the header. There is no buffer, and no
/// place for one, exactly if that leaves no byte.
pub proof fn law_rx_buffer_goes_to_the_room(
    before: GuestState,
    after: GuestState,
    packet: PacketView,
)
    requires
        rx_received(before, after, Ok(packet)),
    ensures
        ({
            let log = after.chain.log.skip(before.chain.log.len() as int);
            let asked = after.platform.log.skip(before.platform.log.len() as int);
            &&& log[0] matches Access::Descriptor(Some(head))
            &&& head.has_next ==> log.len() >= 3 && (log[2] matches Access::Descriptor(Some(d))
                && d.write_only && !d.has_next)
            &&& {
                let (addr, len) = match log[2] {
                    Access::Descriptor(Some(d)) if head.has_next => (d.addr as int, d.len as int),
                    _ => (head.addr + 44, head.len - 44),
                };
                if len == 0 {
                    packet.buf is None && packet.buf_addr is None
                } else {
                    &&& packet.buf matches Some(buf)
                    &&& buf.len() == len
                    &&& forall|i: int| 0 <= i < len ==> #[trigger] buf[i] == 0
                    &&& packet.buf_addr matches Some(at)
                    &&& answer_for(before.platform.platform, asked, 1, addr, len, at)
                    &&& log.last() matches Access::Probed { addr: a, len: l, ok }
                    &&& a == at && l == len && ok
                }
            }
        }),
{
    lemma_rx_received(before, after, Ok(packet));
}

/// Without a platform, the buffer of a packet whose chain is one descriptor goes right behind the
/// header: the two do not overlap, and both lie in the descriptor.
pub proof fn law_rx_buffer_lies_behind_the_header(
    before: GuestState,
    after: GuestState,
    packet: PacketView,
)
    requires
        rx_received(before, after, Ok(packet)),
        before.platform.platform is None,
        packet.buf is Some,
    ensures
        ({
            let log = after.chain.log.skip(before.chain.log.len() as int);
            &&& packet.buf_addr is Some
            &&& log[0] matches Access::Descriptor(Some(head))
            &&& packet.hdr_addr == head.addr
            &&& if head.has_next {
                log[2] matches Access::Descriptor(Some(d)) && packet.buf_addr == Some(d.addr)
                    && packet.buf->0.len() == d.len
            } else {
                &&& packet.buf_addr->0 == packet.hdr_addr + 44
                &&& packet.buf_addr->0 + packet.buf->0.len() == head.addr + head.len
            }
        }),
{
    lemma_rx_received(before, after, Ok(packet));
}

/// Taking a packet that the guest is to receive only adds to the logs, asks a platform for one
/// translation of the header and one of the room for data, if there is any, and writes nothing.
/// Each access succeeds exactly where the memory map says so.
pub proof fn law_rx_accesses(before: GuestState, after: GuestState, packet: PacketView)
    requires
        rx_received(before, after, Ok(packet)),
    ensures
        ({
            let log = after.chain.log.skip(before.chain.log.len() as int);
            let asked = after.platform.log.skip(before.platform.log.len() as int);
            &&& after.chain.log == before.chain.log + log
            &&& after.platform.log == before.platform.log + asked
            &&& asked.len() == if before.platform.platform is None {
                0int
            } else if packet.buf is Some {
                2
            } else {
                1
            }
            &&& 2 <= log.len() <= 4
            &&& forall|i: int| 0 <= i < log.len() ==> (#[trigger] log[i]) !is Written
            &&& follows_the_map(guest_regions(before.chain.mem()), log)
        }),
{
    lemma_rx_received(before, after, Ok(packet));
    let log = after.chain.log.skip(before.chain.log.len() as int);
    let asked = after.platform.log.skip(before.platform.log.len() as int);
    assert(after.chain.log =~= before.chain.log + log);
    assert(after.platform.log =~= before.platform.log + asked);
}

/// When there is no packet that the guest is to receive, the logs show why, and each access
/// succeeded exactly where the memory map says so. Nothing was written.
pub proof fn law_rx_error_has_a_reason(before: GuestState, after: GuestState, error: VsockError)
    requires
        rx_received(before, after, Err(error)),
    ensures
        ({
            let log = after.chain.log.skip(before.chain.log.len() as int);
            let asked = after.platform.log.skip(before.platform.log.len() as int);
            &&& after.chain.log == before.chain.log + log
            &&& rx_explains(before.platform.platform, log, asked, error)
            &&& only_looks(before.platform.platform, log, asked)
            &&& follows_the_map(guest_regions(before.chain.mem()), log)
        }),
{
    lemma_rx_received(before, after, Err(error));
    let log = after.chain.log.skip(before.chain.log.len() as int);
    assert(after.chain.log =~= before.chain.log + log);
}

} // verus!
