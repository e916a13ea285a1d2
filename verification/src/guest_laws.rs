//! Laws on single accesses to a guest.

use crate::guest::{
    fetch_gives, fetched_view, guest_regions, guest_state, in_one_region, mapped, mapped_prefix,
    probe_gives, translated, write_gives, Access, AccessPlatform, ChainView, Fetched, FetchedView,
    GuestState, Translation, TranslatorView, WriterView,
};
use vstd::prelude::*;

verus! {

/// An address is backed by memory exactly if it lies in one of the regions.
pub proof fn law_mapped(regions: Seq<(u64, u64)>, addr: int)
    ensures
        mapped(regions, addr) <==> exists|i: int|
            #![trigger regions[i]]
            0 <= i < regions.len() && regions[i].0 <= addr && addr - regions[i].0 < regions[i].1,
{
}

/// The bytes counted as backed by memory are, and the next one is not, unless it was not asked for.
pub proof fn law_mapped_prefix(regions: Seq<(u64, u64)>, addr: int, len: nat)
    ensures
        mapped_prefix(regions, addr, len) <= len,
        forall|i: int|
            0 <= i < mapped_prefix(regions, addr, len) ==> #[trigger] mapped(regions, addr + i),
        mapped_prefix(regions, addr, len) < len ==> !mapped(
            regions,
            addr + mapped_prefix(regions, addr, len),
        ),
    decreases len,
{
    if len > 0 && mapped(regions, addr) {
        let rest = mapped_prefix(regions, addr + 1, (len - 1) as nat);
        law_mapped_prefix(regions, addr + 1, (len - 1) as nat);
        assert forall|i: int| 0 <= i < rest + 1 implies #[trigger] mapped(regions, addr + i) by {
            if i > 0 {
                assert(mapped(regions, (addr + 1) + (i - 1)));
            }
        }
    }
}

/// Bytes lie in one piece exactly if some region holds the first and the last of them.
pub proof fn law_in_one_region(regions: Seq<(u64, u64)>, addr: u64, len: nat)
    requires
        len > 0,
    ensures
        in_one_region(regions, addr, len) <==> exists|i: int|
            #![trigger regions[i]]
            0 <= i < regions.len() && regions[i].0 <= addr && addr + len - 1 < regions[i].0
                + regions[i].1,
{
}

/// With a platform, a translation is the platform's own answer to just this question, which is
/// logged. Without one, an address translates to itself.
pub proof fn law_translation_is_the_answer(
    before: TranslatorView,
    after: TranslatorView,
    addr: u64,
    size: usize,
    out: Option<u64>,
)
    requires
        translated(before, after, addr, size, out),
    ensures
        after.platform == before.platform,
        match before.platform {
            Some(platform) => {
                &&& platform.translates(addr, size as u64, out)
                &&& after.log.len() == before.log.len() + 1
                &&& after.log.drop_last() == before.log
                &&& after.log.last().addr == addr
                &&& after.log.last().size == size
                &&& after.log.last().out == out
            },
            None => out == Some(addr) && after.log == before.log,
        },
{
    if before.platform is Some {
        assert(after.log.drop_last() =~= before.log);
    }
}

/// That `at` is what a translator that went from `before` to `after` gave for the `size` bytes from
/// `addr` on, all of which is in its log.
pub open spec fn translation_of(
    before: TranslatorView,
    after: TranslatorView,
    addr: u64,
    size: usize,
    at: Option<u64>,
) -> bool {
    match before.platform {
        Some(platform) => {
            &&& platform.translates(addr, size as u64, at)
            &&& after.log == before.log.push(Translation { addr, size: size as u64, out: at })
        },
        None => at == Some(addr) && after.log == before.log,
    }
}

/// That `at` is what the `size` bytes from `addr` on were translated to: without a platform, `addr`
/// itself, and else the platform's answer to the question number `k` among those asked.
pub open spec fn answer_for(
    platform: Option<&dyn AccessPlatform>,
    asked: Seq<Translation>,
    k: int,
    addr: int,
    size: int,
    at: u64,
) -> bool {
    match platform {
        Some(p) => {
            &&& 0 <= k < asked.len()
            &&& asked[k].addr == addr
            &&& asked[k].size == size
            &&& asked[k].out == Some(at)
            &&& p.translates(asked[k].addr, asked[k].size, asked[k].out)
        },
        None => at == addr,
    }
}

/// That the platform refused to translate the `size` bytes from `addr` on, which was the question
/// number `k`, the last among those asked.
pub open spec fn refused(
    platform: Option<&dyn AccessPlatform>,
    asked: Seq<Translation>,
    k: int,
    addr: int,
    size: int,
) -> bool {
    &&& platform matches Some(p)
    &&& asked.len() == k + 1
    &&& asked[k].addr == addr
    &&& asked[k].size == size
    &&& asked[k].out is None
    &&& p.translates(asked[k].addr, asked[k].size, asked[k].out)
}

/// That the accesses only look: none of them writes, and a platform, if there is one, was asked
/// once for each access to memory, and then once more only if it refused.
pub open spec fn only_looks(
    platform: Option<&dyn AccessPlatform>,
    log: Seq<Access>,
    asked: Seq<Translation>,
) -> bool {
    &&& forall|i: int| 0 <= i < log.len() ==> (#[trigger] log[i]) !is Written
    &&& match platform {
        Some(_) => asked.len() == looks(log) || asked.len() == looks(log) + 1 && asked.last().out
            is None,
        None => asked.len() == 0,
    }
}

/// The number of accesses to memory in `log`.
pub open spec fn looks(log: Seq<Access>) -> nat
    decreases log.len(),
{
    if log.len() == 0 {
        0
    } else {
        looks(log.drop_last()) + if log.last() is Descriptor {
            0nat
        } else {
            1nat
        }
    }
}

/// One access more, and one question more if it is to memory or the platform refused.
pub proof fn lemma_only_looks_push(
    platform: Option<&dyn AccessPlatform>,
    log: Seq<Access>,
    asked: Seq<Translation>,
    access: Access,
)
    requires
        only_looks(platform, log, asked),
        access !is Written,
    ensures
        looks(log.push(access)) == looks(log) + if access is Descriptor {
            0nat
        } else {
            1nat
        },
        forall|i: int|
            0 <= i < log.push(access).len() ==> (#[trigger] log.push(access)[i]) !is Written,
{
    assert(log.push(access).drop_last() =~= log);
}

/// That each access to guest memory succeeded exactly where the memory map says so.
pub open spec fn follows_the_map(regions: Seq<(u64, u64)>, log: Seq<Access>) -> bool {
    forall|i: int|
        0 <= i < log.len() ==> match #[trigger] log[i] {
            Access::Read { addr, len, got } => match got {
                Some(bytes) => bytes.len() == len && mapped_prefix(
                    regions,
                    addr as int,
                    len as nat,
                ) == len,
                None => mapped_prefix(regions, addr as int, len as nat) < len,
            },
            Access::Probed { addr, len, ok } => ok == in_one_region(regions, addr, len as nat),
            _ => true,
        }
}

/// A fetch gives just the bytes that one read of guest memory gave, which is logged, from the
/// translated address on. It gives nothing only if the translation was refused, or if the read
/// failed because not all of the bytes are backed by memory.
pub proof fn law_fetch_gives_what_was_read(
    before: GuestState,
    after: GuestState,
    addr: u64,
    span: usize,
    len: usize,
    out: Option<FetchedView>,
)
    requires
        fetch_gives(before, after, addr, span, len, out),
    ensures
        after.chain.chain == before.chain.chain,
        match out {
            Some(f) => {
                &&& translation_of(before.platform, after.platform, addr, span, Some(f.addr))
                &&& after.chain.log == before.chain.log.push(
                    Access::Read { addr: f.addr, len, got: Some(f.bytes) },
                )
                &&& f.bytes.len() == len
                &&& forall|i: int|
                    0 <= i < len ==> #[trigger] mapped(
                        guest_regions(before.chain.mem()),
                        f.addr + i,
                    )
            },
            None => {
                ||| translation_of(before.platform, after.platform, addr, span, None)
                    && after.chain.log == before.chain.log
                ||| exists|at: u64, i: int|
                    #![trigger mapped(guest_regions(before.chain.mem()), at + i)]
                    {
                        &&& translation_of(before.platform, after.platform, addr, span, Some(at))
                        &&& after.chain.log == before.chain.log.push(
                            Access::Read { addr: at, len, got: None },
                        )
                        &&& 0 <= i < len
                        &&& !mapped(guest_regions(before.chain.mem()), at + i)
                    }
            },
        },
{
    let regions = guest_regions(before.chain.mem());
    let at = choose|at: Option<u64>| #[trigger]
        translated(before.platform, after.platform, addr, span, at) && match (at, out) {
            (Some(a), Some(f)) => {
                &&& f.addr == a
                &&& f.bytes.len() == len
                &&& mapped_prefix(regions, a as int, len as nat) == len
                &&& after.chain == before.chain.and(
                    Access::Read { addr: a, len, got: Some(f.bytes) },
                )
            },
            (Some(a), None) => {
                &&& mapped_prefix(regions, a as int, len as nat) < len
                &&& after.chain == before.chain.and(Access::Read { addr: a, len, got: None })
            },
            (None, Some(_)) => false,
            (None, None) => after.chain == before.chain,
        };
    if let Some(a) = at {
        law_mapped_prefix(regions, a as int, len as nat);
        if out is None {
            let n = mapped_prefix(regions, a as int, len as nat);
            assert(!mapped(regions, a + n));
        }
    }
}

/// A probe gives the translated address if one region holds all of the bytes, and nothing if the
/// translation was refused or no region does. The look at guest memory is logged.
pub proof fn law_probe_gives_the_translation(
    before: GuestState,
    after: GuestState,
    addr: u64,
    len: usize,
    out: Option<u64>,
)
    requires
        probe_gives(before, after, addr, len, out),
    ensures
        after.chain.chain == before.chain.chain,
        match out {
            Some(at) => {
                &&& translation_of(before.platform, after.platform, addr, len, Some(at))
                &&& after.chain.log == before.chain.log.push(
                    Access::Probed { addr: at, len, ok: true },
                )
                &&& in_one_region(guest_regions(before.chain.mem()), at, len as nat)
            },
            None => {
                ||| translation_of(before.platform, after.platform, addr, len, None)
                    && after.chain.log == before.chain.log
                ||| exists|at: u64|
                    {
                        &&& !(#[trigger] in_one_region(
                            guest_regions(before.chain.mem()),
                            at,
                            len as nat,
                        ))
                        &&& translation_of(before.platform, after.platform, addr, len, Some(at))
                        &&& after.chain.log == before.chain.log.push(
                            Access::Probed { addr: at, len, ok: false },
                        )
                    }
            },
        },
{
}

/// A write puts the bytes in guest memory from its address on, up to the first address that is not
/// backed by memory, and touches nothing else.
pub proof fn law_write(before: WriterView, after: WriterView, addr: u64, bytes: Seq<u8>)
    requires
        write_gives(before, after, addr, bytes),
        bytes.len() > 0,
    ensures
        after.mem == before.mem,
        after.log == before.log && !mapped(guest_regions(before.mem), addr as int) || {
            &&& after.log.len() == before.log.len() + 1
            &&& after.log.drop_last() == before.log
            &&& after.log.last() matches Access::Written { addr: at, bytes: reached }
            &&& at == addr
            &&& 0 < reached.len() <= bytes.len()
            &&& forall|i: int| 0 <= i < reached.len() ==> #[trigger] reached[i] == bytes[i]
            &&& reached.len() < bytes.len() ==> !mapped(
                guest_regions(before.mem),
                addr + reached.len(),
            )
        },
{
    law_mapped_prefix(guest_regions(before.mem), addr as int, bytes.len());
    if after.log != before.log {
        assert(after.log.drop_last() =~= before.log);
    }
}

/// The guest side of an assembly is the chain and the platform, as they are.
pub proof fn law_guest_state(chain: ChainView, platform: TranslatorView)
    ensures
        guest_state(chain, platform).chain == chain,
        guest_state(chain, platform).platform == platform,
{
}

/// What was fetched is what it holds.
pub proof fn law_fetched_view(fetched: Fetched)
    ensures
        fetched_view(None) is None,
        fetched_view(Some(fetched)) == Some(
            FetchedView { addr: fetched.addr, bytes: fetched.bytes@ },
        ),
{
}

} // verus!
