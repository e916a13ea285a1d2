//! What the log of a chain says of a packet that the guest sends.

use crate::assembly::{answered, Answer, Request};
use crate::error::VsockError;
use crate::guest::{
    bytes_read, guest_regions, reads, Access, AccessPlatform, Descriptor, FetchedView, GuestState,
    Translation,
};
use crate::guest_laws::{
    answer_for, follows_the_map, law_fetch_gives_what_was_read, lemma_only_looks_push, looks,
    only_looks, refused,
};
use crate::header::decode;
use crate::packet::PacketView;
use crate::tx::{tx_request, tx_run, tx_served, tx_step, TxPhase};
use crate::tx_laws::{lemma_tx_take, tx_received};
use vstd::prelude::*;

verus! {

/// The header among the accesses: what the first read gave.
pub open spec fn tx_hdr_in(log: Seq<Access>) -> Seq<u8> {
    match log[1] {
        Access::Read { got: Some(bytes), .. } => bytes,
        _ => Seq::empty(),
    }
}

/// How many bytes of data the header among the accesses counts.
pub open spec fn tx_len_in(log: Seq<Access>) -> int {
    decode(tx_hdr_in(log)).len as int
}

/// That the accesses start with a readable head descriptor that has room for a header, and the read
/// of that header.
pub open spec fn tx_starts(
    platform: Option<&dyn AccessPlatform>,
    log: Seq<Access>,
    asked: Seq<Translation>,
) -> bool {
    &&& log.len() >= 2
    &&& log[0] matches Access::Descriptor(Some(head))
    &&& !head.write_only
    &&& head.len >= 44
    &&& log[1] matches Access::Read { addr, len, got: Some(bytes) }
    &&& len == 44
    &&& bytes.len() == 44
    &&& answer_for(platform, asked, 0, head.addr as int, 44, addr)
}

/// Whether another descriptor comes after the one at `i`, right behind it or behind a read.
pub open spec fn tx_followed(log: Seq<Access>, i: int) -> bool {
    let next = if i + 1 < log.len() && log[i + 1] is Read {
        i + 2
    } else {
        i + 1
    };
    next < log.len() && log[next] is Descriptor
}

/// Whether something of the descriptor at `i` is needed: it is not empty, and the reads before it
/// gave less than the header and the data.
pub open spec fn tx_wanted(log: Seq<Access>, i: int) -> bool {
    &&& log[i] matches Access::Descriptor(Some(d))
    &&& d.len > 0
    &&& bytes_read(log.take(i)).len() < 44 + tx_len_in(log)
}

/// What the access at `i` is. A descriptor is readable, comes after another or after the read from
/// it, says that another follows exactly if one does or is still to, and is read from, if it is a
/// data descriptor, exactly if it is wanted. A read of data gave what it was to: all of the
/// descriptor before it, or as much as was missing; or all of the data, from behind the header, if
/// no descriptor follows.
pub open spec fn tx_entry(
    platform: Option<&dyn AccessPlatform>,
    log: Seq<Access>,
    asked: Seq<Translation>,
    tail: bool,
    reading: bool,
    i: int,
) -> bool {
    match log[i] {
        Access::Descriptor(Some(d)) => {
            &&& !d.write_only
            &&& i >= 2 ==> log[i - 1] is Descriptor || log[i - 2] is Descriptor
            &&& d.has_next <==> tx_followed(log, i) || tail
            &&& i >= 2 ==> (tx_wanted(log, i) <==> (i + 1 < log.len() && log[i + 1] is Read) || (
            reading && i + 1 == log.len()))
        },
        Access::Read { addr, len, got } => {
            &&& got matches Some(bytes)
            &&& bytes.len() == len
            &&& i >= 2 ==> {
                let missing = 44 + tx_len_in(log) - bytes_read(log.take(i)).len();
                let k = reads(log.take(i)) as int;
                match log[i - 1] {
                    Access::Descriptor(Some(d)) => {
                        &&& len == if d.len < missing {
                            d.len as int
                        } else {
                            missing
                        }
                        &&& answer_for(platform, asked, k, d.addr as int, d.len as int, addr)
                    },
                    _ => {
                        &&& i == 2
                        &&& log[0] matches Access::Descriptor(Some(head))
                        &&& !head.has_next
                        &&& head.len >= 44 + tx_len_in(log)
                        &&& len == tx_len_in(log)
                        &&& answer_for(platform, asked, k, head.addr + 44, len as int, addr)
                    },
                }
            }
        },
        _ => false,
    }
}

/// That the accesses are those of a packet with data, so far. If `tail`, another descriptor is to
/// follow, and if `reading`, the last one is to be read from.
pub open spec fn tx_going(
    platform: Option<&dyn AccessPlatform>,
    log: Seq<Access>,
    asked: Seq<Translation>,
    tail: bool,
    reading: bool,
) -> bool {
    &&& tx_starts(platform, log, asked)
    &&& 0 < tx_len_in(log) <= 0x1_0000
    &&& bytes_read(log).len() <= 44 + tx_len_in(log)
    &&& asked.len() == if platform is Some {
        reads(log)
    } else {
        0
    }
    &&& forall|i: int|
        0 <= i < log.len() ==> #[trigger] tx_entry(platform, log, asked, tail, reading, i)
}

/// What is read from next, as its address and size: the last descriptor, if it is not the head, and
/// else the data behind the header.
pub open spec fn tx_source(log: Seq<Access>) -> (int, int) {
    if log.len() == 2 {
        match log[0] {
            Access::Descriptor(Some(head)) => (head.addr + 44, tx_len_in(log)),
            _ => (0, 0),
        }
    } else {
        match log.last() {
            Access::Descriptor(Some(d)) => (d.addr as int, d.len as int),
            _ => (0, 0),
        }
    }
}

/// How much is read from there: all of it, or as much as is missing.
pub open spec fn tx_share(log: Seq<Access>) -> int {
    let missing = 44 + tx_len_in(log) - bytes_read(log).len();
    if tx_source(log).1 < missing {
        tx_source(log).1
    } else {
        missing
    }
}

/// Whether the last descriptor says that another follows.
pub open spec fn tx_more(log: Seq<Access>) -> bool {
    if log.len() == 2 {
        log[0] matches Access::Descriptor(Some(head)) && head.has_next
    } else {
        log.last() matches Access::Descriptor(Some(d)) && d.has_next
    }
}

/// That the header was read, counts data that a packet can have, and no descriptor follows the head
/// descriptor, as far as this says.
pub open spec fn tx_alone(
    platform: Option<&dyn AccessPlatform>,
    log: Seq<Access>,
    asked: Seq<Translation>,
) -> bool {
    &&& tx_starts(platform, log, asked)
    &&& log.len() == 2
    &&& 0 < tx_len_in(log) <= 0x1_0000
    &&& !tx_more(log)
}

/// That the last descriptor is to be read from.
pub open spec fn tx_reading(
    platform: Option<&dyn AccessPlatform>,
    log: Seq<Access>,
    asked: Seq<Translation>,
) -> bool {
    &&& tx_going(platform, log, asked, tx_more(log), true)
    &&& tx_share(log) > 0
    &&& if log.len() == 2 {
        &&& !tx_more(log)
        &&& log[0] matches Access::Descriptor(Some(head))
        &&& head.len >= 44 + tx_len_in(log)
        &&& bytes_read(log).len() == 44
    } else {
        log.last() is Descriptor
    }
}

/// That the last access or the last question to the platform is reason for the error, and that what
/// came before is what it takes.
pub open spec fn tx_explains(
    platform: Option<&dyn AccessPlatform>,
    log: Seq<Access>,
    asked: Seq<Translation>,
    error: VsockError,
) -> bool {
    match error {
        VsockError::HdrDescMissing => log.len() == 1 && log[0] == Access::Descriptor(None),
        VsockError::HdrDescTooSmall(len) => {
            &&& log.len() == 1
            &&& log[0] matches Access::Descriptor(Some(head))
            &&& !head.write_only
            &&& head.len == len
            &&& len < 44
        },
        VsockError::UnreadableDescriptor => {
            ||| log.len() == 1 && (log[0] matches Access::Descriptor(Some(head)) && head.write_only)
            ||| {
                &&& log.len() > 2
                &&& tx_going(platform, log.drop_last(), asked, true, false)
                &&& log.last() matches Access::Descriptor(Some(d))
                &&& d.write_only
            }
        },
        VsockError::BufDescMissing => {
            &&& log.len() > 2
            &&& tx_going(platform, log.drop_last(), asked, true, false)
            &&& log.last() == Access::Descriptor(None)
        },
        VsockError::InvalidPktLen(len) => {
            &&& tx_starts(platform, log, asked)
            &&& log.len() == 2
            &&& tx_len_in(log) == len
            &&& len > 0x1_0000
        },
        VsockError::BufDescTooSmall => {
            ||| tx_alone(platform, log, asked) && (log[0] matches Access::Descriptor(Some(head))
                && head.len < 44 + tx_len_in(log))
            ||| {
                &&& log.len() > 2
                &&& tx_going(platform, log, asked, false, false)
                &&& bytes_read(log).len() < 44 + tx_len_in(log)
            }
        },
        VsockError::GuestMemory => {
            // The header could not be translated
            ||| log.len() == 1 && (log[0] matches Access::Descriptor(Some(head)) && !head.write_only
                && head.len >= 44 && refused(platform, asked, 0, head.addr as int, 44))
            // or read,
            ||| {
                &&& log.len() == 2
                &&& log[0] matches Access::Descriptor(Some(head))
                &&& !head.write_only
                &&& head.len >= 44
                &&& log[1] matches Access::Read { addr, len, got }
                &&& len == 44
                &&& got is None
                &&& answer_for(platform, asked, 0, head.addr as int, 44, addr)
            }
            // there is no address behind it,
            ||| tx_alone(platform, log, asked) && (log[0] matches Access::Descriptor(Some(head))
                && head.len >= 44 + tx_len_in(log) && head.addr + 44 > u64::MAX)
            // or data could not be translated
            ||| {
                &&& asked.len() > 0
                &&& tx_reading(platform, log, asked.drop_last())
                &&& refused(
                    platform,
                    asked,
                    reads(log) as int,
                    tx_source(log).0,
                    tx_source(log).1,
                )
            }
            // or read.
            ||| {
                let so_far = log.drop_last();
                &&& log.len() > 2
                &&& tx_reading(
                    platform,
                    so_far,
                    if platform is Some {
                        asked.drop_last()
                    } else {
                        asked
                    },
                )
                &&& log.last() matches Access::Read { addr, len, got }
                &&& got is None
                &&& len == tx_share(so_far)
                &&& answer_for(
                    platform,
                    asked,
                    reads(so_far) as int,
                    tx_source(so_far).0,
                    tx_source(so_far).1,
                    addr,
                )
            }
        },
        VsockError::UnwritableDescriptor => false,
    }
}

/// That the header of a packet, and its address, are those among the accesses, and that the header
/// and `data` are all that was read.
spec fn tx_carries(log: Seq<Access>, hdr_addr: u64, hdr: Seq<u8>, data: Seq<u8>) -> bool {
    &&& log[1] == Access::Read { addr: hdr_addr, len: 44, got: Some(hdr) }
    &&& bytes_read(log) == hdr + data
}

/// What the accesses and the questions to the platform are in each phase.
spec fn tx_traced(
    platform: Option<&dyn AccessPlatform>,
    log: Seq<Access>,
    asked: Seq<Translation>,
    phase: TxPhase,
) -> bool {
    match phase {
        TxPhase::Head => log.len() == 0 && asked.len() == 0,
        TxPhase::Header { head } => {
            &&& log.len() == 1
            &&& log[0] == Access::Descriptor(Some(head))
            &&& !head.write_only
            &&& head.len >= 44
            &&& asked.len() == 0
        },
        TxPhase::Descriptor { hdr_addr, hdr, data } => {
            &&& tx_going(platform, log, asked, true, false)
            &&& tx_carries(log, hdr_addr, hdr, data)
        },
        TxPhase::Data { hdr_addr, hdr, data, addr, span, len, more } => {
            &&& tx_reading(platform, log, asked)
            &&& tx_carries(log, hdr_addr, hdr, data)
            &&& tx_source(log) == (addr as int, span as int)
            &&& tx_share(log) == len
            &&& tx_more(log) == more
        },
        TxPhase::Done(Ok(packet)) => {
            &&& packet.buf_addr is None
            &&& match packet.buf {
                Some(data) => {
                    &&& tx_going(platform, log, asked, false, false)
                    &&& tx_carries(log, packet.hdr_addr, packet.hdr, data)
                    &&& data.len() == tx_len_in(log)
                    &&& log.len() > 2
                },
                None => {
                    &&& tx_starts(platform, log, asked)
                    &&& tx_carries(log, packet.hdr_addr, packet.hdr, Seq::empty())
                    &&& tx_len_in(log) == 0
                    &&& log.len() == 2
                    &&& asked.len() == if platform is Some {
                        1nat
                    } else {
                        0nat
                    }
                },
            }
        },
        TxPhase::Done(Err(error)) => tx_explains(platform, log, asked, error),
    }
}

proof fn lemma_push(log: Seq<Access>, access: Access)
    ensures
        bytes_read(log.push(access)) == bytes_read(log) + match access {
            Access::Read { got: Some(bytes), .. } => bytes,
            _ => Seq::empty(),
        },
        reads(log.push(access)) == reads(log) + if access is Read {
            1nat
        } else {
            0nat
        },
        log.push(access).drop_last() == log,
{
    assert(log.push(access).drop_last() =~= log);
}

/// There are no more reads than accesses, and all reads up to `i` are before it.
proof fn lemma_reads_grow(log: Seq<Access>, i: int)
    requires
        0 <= i < log.len(),
    ensures
        reads(log.take(i)) + if log[i] is Read {
            1nat
        } else {
            0nat
        } <= reads(log),
    decreases log.len(),
{
    let rest = log.drop_last();
    if i < rest.len() {
        lemma_reads_grow(rest, i);
        assert(rest.take(i) =~= log.take(i));
    } else {
        assert(log.take(i) =~= rest);
    }
}

/// One more descriptor.
proof fn lemma_going_push_descriptor(
    platform: Option<&dyn AccessPlatform>,
    log: Seq<Access>,
    asked: Seq<Translation>,
    d: Descriptor,
    reading: bool,
)
    requires
        tx_going(platform, log, asked, true, false),
        !d.write_only,
        reading <==> d.len > 0 && bytes_read(log).len() < 44 + tx_len_in(log),
    ensures
        tx_going(
            platform,
            log.push(Access::Descriptor(Some(d))),
            asked,
            d.has_next,
            reading,
        ),
{
    let x = Access::Descriptor(Some(d));
    let more = log.push(x);
    lemma_push(log, x);
    assert(bytes_read(more) =~= bytes_read(log));
    assert(tx_entry(platform, log, asked, true, false, 0));
    assert(tx_hdr_in(more) == tx_hdr_in(log));
    assert forall|i: int| 0 <= i < more.len() implies #[trigger] tx_entry(
        platform,
        more,
        asked,
        d.has_next,
        reading,
        i,
    ) by {
        assert(more.take(i) =~= log.take(i));
        if i < log.len() {
            assert(tx_entry(platform, log, asked, true, false, i));
            if i + 1 < log.len() {
                assert(tx_entry(platform, log, asked, true, false, i + 1));
                if i + 2 < log.len() {
                    assert(tx_entry(platform, log, asked, true, false, i + 2));
                }
            }
        } else {
            assert(log.take(i) =~= log);
            assert(tx_entry(platform, log, asked, true, false, i - 1));
        }
    }
}

/// One more read of data.
proof fn lemma_going_push_read(
    platform: Option<&dyn AccessPlatform>,
    log: Seq<Access>,
    asked: Seq<Translation>,
    asked2: Seq<Translation>,
    addr: u64,
    bytes: Seq<u8>,
)
    requires
        tx_reading(platform, log, asked),
        bytes.len() == tx_share(log),
        bytes.len() <= usize::MAX,
        asked2.len() == if platform is Some {
            asked.len() + 1
        } else {
            0
        },
        platform is Some ==> asked2.drop_last() == asked,
        answer_for(
            platform,
            asked2,
            reads(log) as int,
            tx_source(log).0,
            tx_source(log).1,
            addr,
        ),
    ensures
        ({
            let x = Access::Read { addr, len: bytes.len() as usize, got: Some(bytes) };
            tx_going(platform, log.push(x), asked2, tx_more(log), false)
        }),
{
    let x = Access::Read { addr, len: bytes.len() as usize, got: Some(bytes) };
    let more = log.push(x);
    let tail = tx_more(log);
    lemma_push(log, x);
    lemma_reads_grow(log, 1);
    assert(tx_hdr_in(more) == tx_hdr_in(log));
    assert forall|i: int| 0 <= i < more.len() implies #[trigger] tx_entry(
        platform,
        more,
        asked2,
        tail,
        false,
        i,
    ) by {
        assert(more.take(i) =~= log.take(i));
        if i < log.len() {
            assert(tx_entry(platform, log, asked, tail, true, i));
            lemma_reads_grow(log, i);
        } else {
            assert(log.take(i) =~= log);
            assert(tx_entry(platform, log, asked, tail, true, i - 1));
        }
    }
}

/// The facts that go with every phase.
spec fn tx_kept(start: GuestState, now: GuestState, phase: TxPhase) -> bool {
    let log = now.chain.log.skip(start.chain.log.len() as int);
    let asked = now.platform.log.skip(start.platform.log.len() as int);
    &&& now.platform.platform == start.platform.platform
    &&& now.chain.mem() == start.chain.mem()
    &&& start.chain.log.len() <= now.chain.log.len()
    &&& start.platform.log.len() <= now.platform.log.len()
    &&& now.chain.log.take(start.chain.log.len() as int) == start.chain.log
    &&& now.platform.log.take(start.platform.log.len() as int) == start.platform.log
    &&& follows_the_map(guest_regions(start.chain.mem()), log)
    &&& only_looks(start.platform.platform, log, asked)
    &&& phase !is Done && start.platform.platform is Some ==> asked.len() == looks(log)
    &&& tx_traced(start.platform.platform, log, asked, phase)
}

proof fn lemma_tx_traced_fetch(
    platform: Option<&dyn AccessPlatform>,
    log: Seq<Access>,
    asked: Seq<Translation>,
    log2: Seq<Access>,
    asked2: Seq<Translation>,
    phase: TxPhase,
    addr: u64,
    span: usize,
    len: usize,
    out: Option<FetchedView>,
)
    requires
        tx_traced(platform, log, asked, phase),
        tx_request(phase) == (Request::Fetch { addr, span, len }),
        match out {
            Some(f) => {
                &&& f.bytes.len() == len
                &&& log2 == log.push(Access::Read { addr: f.addr, len, got: Some(f.bytes) })
                &&& match platform {
                    Some(p) => {
                        &&& p.translates(addr, span as u64, Some(f.addr))
                        &&& asked2 == asked.push(
                            Translation { addr, size: span as u64, out: Some(f.addr) },
                        )
                    },
                    None => f.addr == addr && asked2 == asked,
                }
            },
            None => {
                ||| {
                    &&& platform matches Some(p)
                    &&& p.translates(addr, span as u64, None)
                    &&& asked2 == asked.push(Translation { addr, size: span as u64, out: None })
                    &&& log2 == log
                }
                ||| exists|at: u64|
                    {
                        &&& log2 == log.push(#[trigger] tx_failed_read(at, len))
                        &&& match platform {
                            Some(p) => {
                                &&& p.translates(addr, span as u64, Some(at))
                                &&& asked2 == asked.push(
                                    Translation { addr, size: span as u64, out: Some(at) },
                                )
                            },
                            None => at == addr && asked2 == asked,
                        }
                    }
            },
        },
    ensures
        tx_traced(platform, log2, asked2, tx_step(phase, Answer::Fetched(out))),
{
    match out {
        Some(f) => {
            let x = Access::Read { addr: f.addr, len, got: Some(f.bytes) };
            lemma_push(log, x);
            if platform is Some {
                assert(asked2.drop_last() =~= asked);
            }
            match phase {
                TxPhase::Header { head } => {
                    reveal_with_fuel(bytes_read, 3);
                    reveal_with_fuel(reads, 3);
                    assert(log.drop_last() =~= Seq::empty());
                    assert(bytes_read(log2) =~= f.bytes + Seq::empty());
                    assert(tx_starts(platform, log2, asked2));
                    assert forall|i: int| 0 <= i < 2 && head.has_next implies #[trigger] tx_entry(
                        platform,
                        log2,
                        asked2,
                        true,
                        false,
                        i,
                    ) by {}
                    assert forall|i: int| 0 <= i < 2 && !head.has_next implies #[trigger] tx_entry(
                        platform,
                        log2,
                        asked2,
                        false,
                        true,
                        i,
                    ) by {}
                },
                TxPhase::Data { hdr_addr, hdr, data, more, .. } => {
                    lemma_going_push_read(platform, log, asked, asked2, f.addr, f.bytes);
                    assert((hdr + data) + f.bytes =~= hdr + (data + f.bytes));
                },
                _ => {},
            }
        },
        None => {
            if log2 != log {
                let at = choose|at: u64| log2 == log.push(#[trigger] tx_failed_read(at, len));
                lemma_push(log, tx_failed_read(at, len));
            }
            if platform is Some {
                assert(asked2.drop_last() =~= asked);
            }
        },
    }
}

/// A read that failed.
spec fn tx_failed_read(at: u64, len: usize) -> Access {
    Access::Read { addr: at, len, got: None }
}

proof fn lemma_tx_traced_descriptor(
    platform: Option<&dyn AccessPlatform>,
    log: Seq<Access>,
    asked: Seq<Translation>,
    phase: TxPhase,
    desc: Option<Descriptor>,
)
    requires
        tx_traced(platform, log, asked, phase),
        tx_request(phase) == Request::NextDescriptor,
    ensures
        tx_traced(
            platform,
            log.push(Access::Descriptor(desc)),
            asked,
            tx_step(phase, Answer::Descriptor(desc)),
        ),
{
    let x = Access::Descriptor(desc);
    let more = log.push(x);
    lemma_push(log, x);
    assert(bytes_read(more) =~= bytes_read(log));
    if let TxPhase::Descriptor { hdr_addr, hdr, data } = phase {
        assert(tx_hdr_in(more) == tx_hdr_in(log));
        if let Some(d) = desc {
            if !d.write_only {
                let reading = d.len > 0 && bytes_read(log).len() < 44 + tx_len_in(log);
                lemma_going_push_descriptor(platform, log, asked, d, reading);
                assert(tx_more(more) == d.has_next);
            }
        }
    }
}

proof fn lemma_tx_traced_step(
    start: GuestState,
    before: GuestState,
    after: GuestState,
    phase: TxPhase,
    answer: Answer,
)
    requires
        tx_kept(start, before, phase),
        answered(before, after, tx_request(phase), answer),
    ensures
        tx_kept(start, after, tx_step(phase, answer)),
{
    let n = start.chain.log.len() as int;
    let m = start.platform.log.len() as int;
    let platform = start.platform.platform;
    let log = before.chain.log.skip(n);
    let asked = before.platform.log.skip(m);
    let log2 = after.chain.log.skip(n);
    let asked2 = after.platform.log.skip(m);
    if after.chain.log != before.chain.log {
        assert(log2 =~= log.push(after.chain.log.last()));
        assert(after.chain.log.take(n) =~= before.chain.log.take(n));
    }
    if after.platform.log != before.platform.log {
        assert(asked2 =~= asked.push(after.platform.log.last()));
        assert(after.platform.log.take(m) =~= before.platform.log.take(m));
    }
    if after.chain.log != before.chain.log {
        lemma_only_looks_push(platform, log, asked, after.chain.log.last());
    }
    match (tx_request(phase), answer) {
        (Request::NextDescriptor, Answer::Descriptor(desc)) => {
            lemma_tx_traced_descriptor(platform, log, asked, phase, desc);
        },
        (Request::Fetch { addr, span, len }, Answer::Fetched(out)) => {
            law_fetch_gives_what_was_read(before, after, addr, span, len, out);
            if out is None && after.chain.log != before.chain.log {
                assert(log2.last() is Read);
                let at = match log2.last() {
                    Access::Read { addr: at, .. } => at,
                    _ => 0u64,
                };
                assert(log2 == log.push(tx_failed_read(at, len)));
            }
            lemma_tx_traced_fetch(
                platform,
                log,
                asked,
                log2,
                asked2,
                phase,
                addr,
                span,
                len,
                out,
            );
        },
        _ => {},
    }
}

proof fn lemma_tx_traced(states: Seq<GuestState>, answers: Seq<Answer>, i: int)
    requires
        tx_served(states, answers),
        0 <= i <= answers.len(),
    ensures
        tx_kept(states[0], states[i], tx_run(answers.take(i))),
    decreases i,
{
    if i == 0 {
        reveal(tx_run);
        let s = states[0];
        assert(s.chain.log.take(s.chain.log.len() as int) =~= s.chain.log);
        assert(s.platform.log.take(s.platform.log.len() as int) =~= s.platform.log);
    } else {
        lemma_tx_traced(states, answers, i - 1);
        lemma_tx_take(answers, i - 1);
        assert(answered(
            states[i - 1],
            states[i],
            tx_request(tx_run(answers.take(i - 1))),
            answers[i - 1],
        ));
        lemma_tx_traced_step(
            states[0],
            states[i - 1],
            states[i],
            tx_run(answers.take(i - 1)),
            answers[i - 1],
        );
    }
}

proof fn lemma_tx_received(
    before: GuestState,
    after: GuestState,
    outcome: Result<PacketView, VsockError>,
)
    requires
        tx_received(before, after, outcome),
    ensures
        tx_kept(before, after, TxPhase::Done(outcome)),
{
    let (states, answers) = choose|states: Seq<GuestState>, answers: Seq<Answer>|
        {
            &&& #[trigger] tx_served(states, answers)
            &&& states.first() == before
            &&& states.last() == after
            &&& tx_run(answers) == TxPhase::Done(outcome)
        };
    let n = answers.len() as int;
    assert(answers.take(n) =~= answers);
    lemma_tx_traced(states, answers, n);
}

/// The header and the data of a packet that the guest sends, one after the other, are all the bytes
/// that were read, in the order of the reads, and the header is what the first read gave. There is
/// data exactly if the header counts any, and as much as it counts.
pub proof fn law_tx_packet_is_what_was_read(
    before: GuestState,
    after: GuestState,
    packet: PacketView,
)
    requires
        tx_received(before, after, Ok(packet)),
    ensures
        ({
            let log = after.chain.log.skip(before.chain.log.len() as int);
            let len = packet.header().len;
            &&& log.len() >= 2
            &&& log[1] == Access::Read { addr: packet.hdr_addr, len: 44, got: Some(packet.hdr) }
            &&& packet.hdr.len() == 44
            &&& packet.buf_addr is None
            &&& len <= 0x1_0000
            &&& match packet.buf {
                Some(data) => {
                    &&& len > 0
                    &&& data.len() == len
                    &&& bytes_read(log) == packet.hdr + data
                },
                None => len == 0 && bytes_read(log) == packet.hdr,
            }
        }),
{
    lemma_tx_received(before, after, Ok(packet));
    assert(packet.hdr + Seq::<u8>::empty() =~= packet.hdr);
}

/// The header of a packet that the guest sends lies where the readable head descriptor points to.
pub proof fn law_tx_header_lies_in_the_head(
    before: GuestState,
    after: GuestState,
    packet: PacketView,
)
    requires
        tx_received(before, after, Ok(packet)),
    ensures
        ({
            let log = after.chain.log.skip(before.chain.log.len() as int);
            let asked = after.platform.log.skip(before.platform.log.len() as int);
            &&& log[0] matches Access::Descriptor(Some(head))
            &&& !head.write_only
            &&& head.len >= 44
            &&& answer_for(
                before.platform.platform,
                asked,
                0,
                head.addr as int,
                44,
                packet.hdr_addr,
            )
        }),
{
    lemma_tx_received(before, after, Ok(packet));
}

/// Each read of data is from where the descriptor before it points to, and takes all of it or as
/// much as is missing. If no descriptor follows the head descriptor, there is one read of all data,
/// right behind the header, and the head descriptor has room for it. A descriptor that is not empty
/// is read from as long as something is missing.
pub proof fn law_tx_data_lies_in_the_descriptors(
    before: GuestState,
    after: GuestState,
    packet: PacketView,
    i: int,
)
    requires
        tx_received(before, after, Ok(packet)),
        2 <= i < after.chain.log.len() - before.chain.log.len(),
    ensures
        ({
            let log = after.chain.log.skip(before.chain.log.len() as int);
            let asked = after.platform.log.skip(before.platform.log.len() as int);
            let platform = before.platform.platform;
            let missing = 44 + packet.header().len - bytes_read(log.take(i)).len();
            let k = reads(log.take(i)) as int;
            match (log[i - 1], log[i]) {
                (Access::Descriptor(Some(d)), Access::Read { addr, len, got }) => {
                    &&& got matches Some(bytes)
                    &&& bytes.len() == len
                    &&& len > 0
                    &&& len == d.len && d.len <= missing || len == missing && missing <= d.len
                    &&& answer_for(platform, asked, k, d.addr as int, d.len as int, addr)
                },
                (Access::Read { .. }, Access::Read { addr, len, got }) => {
                    &&& i == 2
                    &&& log.len() == 3
                    &&& log[0] matches Access::Descriptor(Some(head))
                    &&& !head.has_next
                    &&& head.len >= 44 + len
                    &&& got matches Some(bytes)
                    &&& bytes.len() == len
                    &&& len == packet.header().len
                    &&& answer_for(platform, asked, 1, head.addr + 44, len as int, addr)
                },
                (_, Access::Descriptor(Some(d))) => d.len > 0 && missing > 0 ==> i + 1 < log.len()
                    && log[i + 1] is Read,
                _ => false,
            }
        }),
{
    lemma_tx_received(before, after, Ok(packet));
    let log = after.chain.log.skip(before.chain.log.len() as int);
    let asked = after.platform.log.skip(before.platform.log.len() as int);
    let platform = before.platform.platform;
    assert(tx_entry(platform, log, asked, false, false, i));
    assert(tx_entry(platform, log, asked, false, false, i - 1));
    assert(tx_entry(platform, log, asked, false, false, 0));
    if log[i - 1] is Descriptor && i == 2 {
        assert(log[1] is Read);
    }
    if log[i] is Read && log[i - 1] is Descriptor {
        assert(tx_wanted(log, i - 1));
        lemma_push(log.take(i - 1), log[i - 1]);
        assert(log.take(i) =~= log.take(i - 1).push(log[i - 1]));
    }
    if log[i] is Read && log[i - 1] is Read {
        lemma_behind_the_header(platform, log, asked);
        reveal_with_fuel(reads, 3);
        assert(log.take(2).drop_last() =~= log.take(1));
        assert(log.take(1).drop_last() =~= log.take(0));
    }
}

/// Nothing comes after the data behind the header.
proof fn lemma_behind_the_header(
    platform: Option<&dyn AccessPlatform>,
    log: Seq<Access>,
    asked: Seq<Translation>,
)
    requires
        tx_going(platform, log, asked, false, false),
        log.len() > 2,
        log[2] is Read,
    ensures
        log.len() == 3,
{
    assert(tx_entry(platform, log, asked, false, false, 0));
    assert(tx_entry(platform, log, asked, false, false, 1));
    assert(tx_entry(platform, log, asked, false, false, 2));
    if log.len() > 3 {
        assert(tx_entry(platform, log, asked, false, false, 3));
    }
}

/// All descriptors that a packet with data is taken from are readable, each says that another
/// follows exactly if one does, and the walk goes on to the last. A packet without data is taken
/// from the head descriptor alone.
pub proof fn law_tx_walks_the_chain(
    before: GuestState,
    after: GuestState,
    packet: PacketView,
    i: int,
)
    requires
        tx_received(before, after, Ok(packet)),
        0 <= i < after.chain.log.len() - before.chain.log.len(),
    ensures
        ({
            let log = after.chain.log.skip(before.chain.log.len() as int);
            if packet.header().len == 0 {
                log.len() == 2
            } else {
                &&& log.len() > 2
                &&& log[i] is Descriptor || log[i] is Read
                &&& log[i] matches Access::Descriptor(desc) ==> {
                    let next = if i + 1 < log.len() && log[i + 1] is Read {
                        i + 2
                    } else {
                        i + 1
                    };
                    &&& desc matches Some(d)
                    &&& !d.write_only
                    &&& i >= 2 ==> log[i - 1] is Descriptor || log[i - 2] is Descriptor
                    &&& d.has_next <==> next < log.len() && log[next] is Descriptor
                }
            }
        }),
{
    lemma_tx_received(before, after, Ok(packet));
    let log = after.chain.log.skip(before.chain.log.len() as int);
    let asked = after.platform.log.skip(before.platform.log.len() as int);
    if packet.buf is Some {
        assert(tx_entry(before.platform.platform, log, asked, false, false, i));
    }
}

/// Taking a packet that the guest sends only adds to the logs, asks a platform for one translation
/// for each read, and writes nothing. Each access succeeds exactly where the memory map says so.
pub proof fn law_tx_accesses(before: GuestState, after: GuestState, packet: PacketView)
    requires
        tx_received(before, after, Ok(packet)),
    ensures
        ({
            let log = after.chain.log.skip(before.chain.log.len() as int);
            let asked = after.platform.log.skip(before.platform.log.len() as int);
            &&& after.chain.log == before.chain.log + log
            &&& after.platform.log == before.platform.log + asked
            &&& asked.len() == if before.platform.platform is None {
                0
            } else {
                reads(log)
            }
            &&& forall|i: int| 0 <= i < log.len() ==> (#[trigger] log[i]) !is Written
            &&& follows_the_map(guest_regions(before.chain.mem()), log)
        }),
{
    lemma_tx_received(before, after, Ok(packet));
    let platform = before.platform.platform;
    let log = after.chain.log.skip(before.chain.log.len() as int);
    let asked = after.platform.log.skip(before.platform.log.len() as int);
    assert(after.chain.log =~= before.chain.log + log);
    assert(after.platform.log =~= before.platform.log + asked);
    if packet.buf is Some {
        assert forall|i: int| 0 <= i < log.len() implies (#[trigger] log[i]) !is Written by {
            assert(tx_entry(platform, log, asked, false, false, i));
        }
    } else {
        reveal_with_fuel(reads, 3);
        assert(log.drop_last().drop_last() =~= Seq::empty());
        assert(log.drop_last().last() == log[0]);
    }
}

/// When there is no packet that the guest sends, the logs show why: the last access, or the last
/// question to the platform, is what the error says, and what came before was in order. Nothing was
/// written.
pub proof fn law_tx_error_has_a_reason(before: GuestState, after: GuestState, error: VsockError)
    requires
        tx_received(before, after, Err(error)),
    ensures
        ({
            let log = after.chain.log.skip(before.chain.log.len() as int);
            let asked = after.platform.log.skip(before.platform.log.len() as int);
            &&& after.chain.log == before.chain.log + log
            &&& follows_the_map(guest_regions(before.chain.mem()), log)
            &&& only_looks(before.platform.platform, log, asked)
            &&& tx_explains(before.platform.platform, log, asked, error)
        }),
{
    lemma_tx_received(before, after, Err(error));
    let log = after.chain.log.skip(before.chain.log.len() as int);
    assert(after.chain.log =~= before.chain.log + log);
}

} // verus!
