//! The guest side of a packet: the descriptor chain that it arrives in, the memory that its
//! descriptors point into, and the translation of the addresses that they hold.
//!
//! The guest may write to its memory at any time, so nothing is claimed of what that memory holds.
//! What is fixed is the memory map: which addresses are backed by memory.
//!
//! All that is asked of a guest goes through a [`GuestChain`], a [`Translator`] or a
//! [`GuestWriter`], which keep a log of it. The logs exist for proofs only.

use virtio_queue::DescriptorChain;
use vm_memory::{Bytes, GuestAddress, GuestMemory, GuestMemoryError, GuestMemoryMmap};
use vstd::prelude::*;

verus! {

/// The memory-mapped guest memory of the vm-memory crate, with an arbitrary dirty bitmap.
#[verifier::external_type_specification]
#[verifier::external_body]
#[verifier::reject_recursive_types(B)]
pub struct ExGuestMemoryMmap<B>(GuestMemoryMmap<B>);

/// The error that the vm-memory crate reports for a guest memory access.
#[verifier::external_type_specification]
#[verifier::external_body]
pub struct ExGuestMemoryError(GuestMemoryError);

/// The descriptor chain of the virtio-queue crate, over an arbitrary handle to guest memory.
#[verifier::external_type_specification]
#[verifier::external_body]
#[verifier::reject_recursive_types(M)]
pub struct ExDescriptorChain<M>(DescriptorChain<M>);

/// Guest memory without dirty page tracking.
pub type GuestRam = GuestMemoryMmap<()>;

/// A descriptor chain over such memory.
pub type VirtqChain<'a> = DescriptorChain<&'a GuestRam>;

/// What a virtio descriptor says about the buffer that it describes.
#[derive(Clone, Copy, Debug, PartialEq, Eq)]
pub struct Descriptor {
    /// Where the buffer starts, before translation.
    pub addr: u64,
    /// The size of the buffer, in bytes.
    pub len: u32,
    /// Whether the device may only write to the buffer; if not, it may only read from it.
    pub write_only: bool,
    /// Whether another descriptor is to follow in the chain.
    pub has_next: bool,
}

/// Bytes read from guest memory, with the translated address that they were read from.
#[derive(Debug)]
pub struct Fetched {
    pub addr: u64,
    pub bytes: Vec<u8>,
}

/// The contents of a [`Fetched`].
pub struct FetchedView {
    pub addr: u64,
    pub bytes: Seq<u8>,
}

impl View for Fetched {
    type V = FetchedView;

    open spec fn view(&self) -> FetchedView {
        FetchedView { addr: self.addr, bytes: self.bytes@ }
    }
}

/// The contents of an optional [`Fetched`].
pub open spec fn fetched_view(fetched: Option<Fetched>) -> Option<FetchedView> {
    match fetched {
        Some(f) => Some(f@),
        None => None,
    }
}

/// The regions that make up guest memory, each as its first address and its size. They lie in
/// ascending order and do not overlap.
pub uninterp spec fn guest_regions(mem: GuestRam) -> Seq<(u64, u64)>;

/// The guest memory that a chain walks its descriptors in.
pub uninterp spec fn chain_memory(chain: VirtqChain) -> GuestRam;

/// An upper bound for the number of descriptors that a chain still hands out.
pub uninterp spec fn chain_budget(chain: VirtqChain) -> nat;

/// That a step of the chain `before` once gave `desc` and left the chain `after`. The descriptors
/// lie in guest memory, so this says nothing of what another step gives.
pub uninterp spec fn chain_step(
    before: VirtqChain,
    after: VirtqChain,
    desc: Option<Descriptor>,
) -> bool;

/// Whether the byte at `addr` is backed by guest memory.
pub open spec fn mapped(regions: Seq<(u64, u64)>, addr: int) -> bool {
    exists|i: int|
        0 <= i < regions.len() && (#[trigger] regions[i]).0 <= addr < regions[i].0 + regions[i].1
}

/// How many of the `len` bytes from `addr` on come before the first that is not backed by guest
/// memory.
pub open spec fn mapped_prefix(regions: Seq<(u64, u64)>, addr: int, len: nat) -> nat
    decreases len,
{
    if len == 0 || !mapped(regions, addr) {
        0
    } else {
        1 + mapped_prefix(regions, addr + 1, (len - 1) as nat)
    }
}

/// Whether one region of guest memory holds `addr` and the `len` bytes from there on.
pub open spec fn in_one_region(regions: Seq<(u64, u64)>, addr: u64, len: nat) -> bool {
    exists|i: int|
        0 <= i < regions.len() && (#[trigger] regions[i]).0 <= addr < regions[i].0 + regions[i].1
            && addr + len <= regions[i].0 + regions[i].1
}

/// One access to a descriptor chain or to guest memory, and what came of it.
pub enum Access {
    /// The chain was asked for its next descriptor.
    Descriptor(Option<Descriptor>),
    /// `len` bytes were to be read from `addr` on.
    Read { addr: u64, len: usize, got: Option<Seq<u8>> },
    /// `len` bytes from `addr` on were to be accessed in one piece.
    Probed { addr: u64, len: usize, ok: bool },
    /// These bytes were written from `addr` on.
    Written { addr: u64, bytes: Seq<u8> },
}

/// A descriptor chain, with all accesses to it and to its memory.
pub struct ChainView<'a> {
    pub chain: VirtqChain<'a>,
    pub log: Seq<Access>,
}

impl<'a> ChainView<'a> {
    /// The guest memory that the chain lies in.
    pub open spec fn mem(self) -> GuestRam {
        chain_memory(self.chain)
    }

    /// What comes after one more access to memory.
    pub open spec fn and(self, access: Access) -> ChainView<'a> {
        ChainView { log: self.log.push(access), ..self }
    }
}

/// The bytes that the reads in `log` gave, one after the other.
pub open spec fn bytes_read(log: Seq<Access>) -> Seq<u8>
    decreases log.len(),
{
    if log.len() == 0 {
        Seq::empty()
    } else {
        bytes_read(log.drop_last()) + match log.last() {
            Access::Read { got: Some(bytes), .. } => bytes,
            _ => Seq::empty(),
        }
    }
}

/// The number of reads in `log`.
pub open spec fn reads(log: Seq<Access>) -> nat
    decreases log.len(),
{
    if log.len() == 0 {
        0
    } else {
        reads(log.drop_last()) + if log.last() is Read {
            1nat
        } else {
            0nat
        }
    }
}

/// That the accesses in `after` are those in `before` and some more, none of which is a write.
pub open spec fn wrote_nothing(before: Seq<Access>, after: Seq<Access>) -> bool {
    &&& before.len() <= after.len()
    &&& after.take(before.len() as int) == before
    &&& forall|i: int| before.len() <= i < after.len() ==> (#[trigger] after[i]) !is Written
}

/// A descriptor chain. It gives no write access to the memory that it lies in.
///
/// The chain and its memory are private to this module, where only the functions that log it access
/// them.
pub struct GuestChain<'a> {
    chain: VirtqChain<'a>,
    log: Ghost<Seq<Access>>,
}

impl<'a> View for GuestChain<'a> {
    type V = ChainView<'a>;

    closed spec fn view(&self) -> ChainView<'a> {
        ChainView { chain: self.chain, log: self.log@ }
    }
}

impl<'a> GuestChain<'a> {
    /// A chain that was not accessed yet.
    pub fn new(chain: VirtqChain<'a>) -> (guest: Self)
        ensures
            guest@ == (ChainView { chain, log: Seq::empty() }),
    {
        GuestChain { chain, log: Ghost(Seq::empty()) }
    }

    /// Gives the chain back, with its descriptors taken as far as they were.
    pub fn into_inner(self) -> (chain: VirtqChain<'a>)
        ensures
            chain == self@.chain,
    {
        self.chain
    }

    /// Calls `Iterator::next` on the chain, which the virtio-queue crate implements: it hands out
    /// the next descriptor, if there is one, and moves on. There is a bound for how many
    /// descriptors it still hands out, which no step raises and each descriptor lowers, and no step
    /// changes the memory that the chain lies in. Which descriptor comes is up to the guest.
    #[verifier::external_body]
    pub(crate) fn next_descriptor(&mut self) -> (desc: Option<Descriptor>)
        ensures
            chain_step(old(self)@.chain, final(self)@.chain, desc),
            final(self)@.log == old(self)@.log.push(Access::Descriptor(desc)),
            chain_memory(final(self)@.chain) == chain_memory(old(self)@.chain),
            chain_budget(final(self)@.chain) <= chain_budget(old(self)@.chain),
            desc is Some ==> chain_budget(final(self)@.chain) < chain_budget(old(self)@.chain),
    {
        match self.chain.next() {
            Some(desc) => Some(
                Descriptor {
                    addr: desc.addr().0,
                    len: desc.len(),
                    write_only: desc.is_write_only(),
                    has_next: desc.has_next(),
                },
            ),
            None => None,
        }
    }

    /// Calls `Bytes::read_slice`, which the vm-memory crate implements for guest memory, on what
    /// `DescriptorChain::memory` of the virtio-queue crate gives, the memory that the chain lies
    /// in: it reads `len` bytes from `addr` on, and fails if one of them is not backed by memory.
    /// Which bytes come is up to the guest.
    #[verifier::external_body]
    fn read_slice(&mut self, addr: u64, len: usize) -> (read: Result<Vec<u8>, GuestMemoryError>)
        requires
            len > 0,
        ensures
            match read {
                Ok(bytes) => {
                    let regions = guest_regions(old(self)@.mem());
                    &&& bytes@.len() == len
                    &&& mapped_prefix(regions, addr as int, len as nat) == len
                    &&& final(self)@ == old(self)@.and(
                        Access::Read { addr, len, got: Some(bytes@) },
                    )
                },
                Err(_) => {
                    let regions = guest_regions(old(self)@.mem());
                    &&& mapped_prefix(regions, addr as int, len as nat) < len
                    &&& final(self)@ == old(self)@.and(Access::Read { addr, len, got: None })
                },
            },
    {
        let mut bytes = vec![0u8; len];
        match self.chain.memory().read_slice(&mut bytes, GuestAddress(addr)) {
            Ok(()) => Ok(bytes),
            Err(error) => Err(error),
        }
    }

    /// Calls `GuestMemory::get_slice` of the vm-memory crate on what `DescriptorChain::memory` of
    /// the virtio-queue crate gives, the memory that the chain lies in: it gives access to the
    /// `len` bytes from `addr` on, and fails if no one region of guest memory holds them all.
    #[verifier::external_body]
    fn get_slice(&mut self, addr: u64, len: usize) -> (got: Result<(), GuestMemoryError>)
        ensures
            got is Ok <==> in_one_region(guest_regions(old(self)@.mem()), addr, len as nat),
            final(self)@ == old(self)@.and(Access::Probed { addr, len, ok: got is Ok }),
    {
        match self.chain.memory().get_slice(GuestAddress(addr), len) {
            Ok(_) => Ok(()),
            Err(error) => Err(error),
        }
    }

    /// Translates the `span` bytes from `addr` on, and reads the first `len` of them.
    pub fn fetch(
        &mut self,
        access_platform: &mut Translator,
        addr: u64,
        span: usize,
        len: usize,
    ) -> (out: Option<Fetched>)
        requires
            len > 0,
        ensures
            fetch_gives(
                guest_state(old(self)@, old(access_platform)@),
                guest_state(final(self)@, final(access_platform)@),
                addr,
                span,
                len,
                fetched_view(out),
            ),
    {
        match access_platform.translate_gva(addr, span) {
            Some(at) => match self.read_slice(at, len) {
                Ok(bytes) => Some(Fetched { addr: at, bytes }),
                Err(_) => None,
            },
            None => None,
        }
    }

    /// Translates the `len` bytes from `addr` on, and checks that they can be accessed in one
    /// piece.
    pub fn probe(
        &mut self,
        access_platform: &mut Translator,
        addr: u64,
        len: usize,
    ) -> (out: Option<u64>)
        ensures
            probe_gives(
                guest_state(old(self)@, old(access_platform)@),
                guest_state(final(self)@, final(access_platform)@),
                addr,
                len,
                out,
            ),
    {
        match access_platform.translate_gva(addr, len) {
            Some(at) => match self.get_slice(at, len) {
                Ok(()) => Some(at),
                Err(_) => None,
            },
            None => None,
        }
    }
}

/// Guest memory, with all that was written to it through a [`GuestWriter`].
pub struct WriterView {
    pub mem: GuestRam,
    pub log: Seq<Access>,
}

/// That an attempt to write `bytes` to guest memory, from `addr` on, led from `before` to `after`:
/// those before the first address that is not backed by memory were written, and nothing else.
pub open spec fn write_gives(
    before: WriterView,
    after: WriterView,
    addr: u64,
    bytes: Seq<u8>,
) -> bool {
    let n = mapped_prefix(guest_regions(before.mem), addr as int, bytes.len());
    &&& after.mem == before.mem
    &&& after.log == if n > 0 {
        before.log.push(Access::Written { addr, bytes: bytes.take(n as int) })
    } else {
        before.log
    }
}

/// Write access to guest memory.
///
/// The memory is private to this module, where only the function that logs it accesses it. So the
/// log holds all that was written through here.
pub struct GuestWriter<'a> {
    mem: &'a GuestRam,
    log: Ghost<Seq<Access>>,
}

impl<'a> View for GuestWriter<'a> {
    type V = WriterView;

    closed spec fn view(&self) -> WriterView {
        WriterView { mem: *self.mem, log: self.log@ }
    }
}

impl<'a> GuestWriter<'a> {
    /// Write access to `mem`, through which nothing was written yet.
    pub fn new(mem: &'a GuestRam) -> (writer: Self)
        ensures
            writer@ == (WriterView { mem: *mem, log: Seq::empty() }),
    {
        GuestWriter { mem, log: Ghost(Seq::empty()) }
    }

    /// Calls `Bytes::write_slice`, which the vm-memory crate implements for guest memory: it writes
    /// `bytes` from `addr` on, and fails if one of them falls on an address that is not backed by
    /// memory. Those before that one have then been written all the same. Nothing else is written.
    #[verifier::external_body]
    pub(crate) fn write_slice(&mut self, bytes: &[u8], addr: u64) -> (written: Result<
        (),
        GuestMemoryError,
    >)
        requires
            bytes@.len() > 0,
        ensures
            write_gives(old(self)@, final(self)@, addr, bytes@),
            written is Ok ==> mapped_prefix(
                guest_regions(old(self)@.mem),
                addr as int,
                bytes@.len(),
            ) == bytes@.len(),
            written is Err ==> mapped_prefix(
                guest_regions(old(self)@.mem),
                addr as int,
                bytes@.len(),
            ) < bytes@.len(),
    {
        self.mem.write_slice(bytes, GuestAddress(addr))
    }
}

/// What translates the addresses that a device finds in its descriptors, when they are not guest
/// physical addresses.
pub trait AccessPlatform {
    /// That `out` is an answer that the platform may give for the `size` bytes from `base` on. A
    /// platform that leaves this as it is promises nothing of its answers.
    open spec fn translates(&self, base: u64, size: u64, out: Option<u64>) -> bool {
        true
    }

    /// The guest physical address of the `size` bytes from `base` on, if they have one.
    fn translate_gva(&self, base: u64, size: u64) -> (out: Option<u64>)
        ensures
            self.translates(base, size, out),
    ;
}

/// A question to an [`AccessPlatform`], and its answer.
pub struct Translation {
    pub addr: u64,
    pub size: u64,
    pub out: Option<u64>,
}

/// The platform that translates addresses, if there is one, with all that it was asked.
pub struct TranslatorView<'a> {
    pub platform: Option<&'a dyn AccessPlatform>,
    pub log: Seq<Translation>,
}

/// What a platform was asked to translate, each as the address and the number of bytes.
pub open spec fn spans(log: Seq<Translation>) -> Seq<(u64, u64)> {
    log.map_values(|t: Translation| (t.addr, t.size))
}

/// That a platform was asked just `list` between `before` and `after`, in this order. Without one,
/// nothing was asked.
pub open spec fn asked_just(
    before: TranslatorView,
    after: TranslatorView,
    list: Seq<(u64, u64)>,
) -> bool {
    &&& after.platform == before.platform
    &&& before.log.len() <= after.log.len()
    &&& after.log.take(before.log.len() as int) == before.log
    &&& spans(after.log.skip(before.log.len() as int)) == if before.platform is Some {
        list
    } else {
        Seq::empty()
    }
}

/// That the `size` bytes from `addr` on translate to `out`, and what was asked of the platform went
/// from `before` to `after` with it: without a platform, an address translates to itself, and else
/// the platform was asked once.
pub open spec fn translated(
    before: TranslatorView,
    after: TranslatorView,
    addr: u64,
    size: usize,
    out: Option<u64>,
) -> bool {
    match before.platform {
        Some(platform) => {
            let asked = Translation { addr, size: size as u64, out };
            &&& platform.translates(addr, size as u64, out)
            &&& after.platform == before.platform
            &&& after.log == before.log.push(asked)
        },
        None => out == Some(addr) && after == before,
    }
}

/// Translates addresses, through a platform if there is one.
///
/// The platform is private to this module, where [`Translator::translate_gva`] alone calls it. So
/// the log holds all that was asked of it through here.
pub struct Translator<'a> {
    platform: Option<&'a dyn AccessPlatform>,
    log: Ghost<Seq<Translation>>,
}

impl<'a> View for Translator<'a> {
    type V = TranslatorView<'a>;

    closed spec fn view(&self) -> TranslatorView<'a> {
        TranslatorView { platform: self.platform, log: self.log@ }
    }
}

impl<'a> Translator<'a> {
    /// Translation through `platform`, of which nothing was asked yet.
    pub fn new(platform: Option<&'a dyn AccessPlatform>) -> (translator: Self)
        ensures
            translator@ == (TranslatorView { platform, log: Seq::empty() }),
    {
        Translator { platform, log: Ghost(Seq::empty()) }
    }

    /// Translates the `size` bytes from `addr` on.
    pub fn translate_gva(&mut self, addr: u64, size: usize) -> (out: Option<u64>)
        ensures
            translated(old(self)@, final(self)@, addr, size, out),
    {
        match self.platform {
            Some(platform) => {
                let out = platform.translate_gva(addr, size as u64);
                proof {
                    self.log@ = self.log@.push(Translation { addr, size: size as u64, out });
                }
                out
            },
            None => Some(addr),
        }
    }
}

/// The guest side of an assembly.
pub struct GuestState<'a> {
    pub chain: ChainView<'a>,
    pub platform: TranslatorView<'a>,
}

/// The guest side of an assembly with this chain and this platform.
pub open spec fn guest_state<'a>(
    chain: ChainView<'a>,
    platform: TranslatorView<'a>,
) -> GuestState<'a> {
    GuestState { chain, platform }
}

/// That a fetch gave `out` and led from `before` to `after`: one translation and, if there is
/// something at the translated address, one read there. It gives the bytes asked for if all of them
/// are backed by memory, and nothing if not.
pub open spec fn fetch_gives(
    before: GuestState,
    after: GuestState,
    addr: u64,
    span: usize,
    len: usize,
    out: Option<FetchedView>,
) -> bool {
    let regions = guest_regions(before.chain.mem());
    exists|at: Option<u64>| #[trigger]
        translated(before.platform, after.platform, addr, span, at) && match (at, out) {
            (Some(a), Some(f)) => {
                &&& f.addr == a
                &&& f.bytes.len() == len
                &&& mapped_prefix(regions, a as int, len as nat) == len
                &&& after.chain == before.chain.and(
                    Access::Read { addr: a, len, got: Some(f.bytes) },
                )
            },
            (Some(a), None) => {
                &&& mapped_prefix(regions, a as int, len as nat) < len
                &&& after.chain == before.chain.and(Access::Read { addr: a, len, got: None })
            },
            (None, Some(_)) => false,
            (None, None) => after.chain == before.chain,
        }
}

/// That a probe gave `out` and led from `before` to `after`: one translation and, if there is
/// something at the translated address, one look at guest memory. It gives the translated address
/// if one region holds all of the bytes asked for, and nothing if not.
pub open spec fn probe_gives(
    before: GuestState,
    after: GuestState,
    addr: u64,
    len: usize,
    out: Option<u64>,
) -> bool {
    let regions = guest_regions(before.chain.mem());
    exists|at: Option<u64>| #[trigger]
        translated(before.platform, after.platform, addr, len, at) && match at {
            Some(a) => {
                &&& out == if in_one_region(regions, a, len as nat) {
                    Some(a)
                } else {
                    None
                }
                &&& after.chain == before.chain.and(
                    Access::Probed { addr: a, len, ok: out is Some },
                )
            },
            None => out is None && after.chain == before.chain,
        }
}

/// No more bytes are backed by memory than were asked for.
pub proof fn lemma_mapped_prefix_fits(regions: Seq<(u64, u64)>, addr: int, len: nat)
    ensures
        mapped_prefix(regions, addr, len) <= len,
    decreases len,
{
    if len > 0 {
        lemma_mapped_prefix_fits(regions, addr + 1, (len - 1) as nat);
    }
}

/// Bytes that lie in one region are all backed by memory.
pub proof fn lemma_region_is_mapped(regions: Seq<(u64, u64)>, addr: u64, room: nat, len: nat)
    requires
        in_one_region(regions, addr, room),
        len <= room,
    ensures
        mapped_prefix(regions, addr as int, len) == len,
{
    let i = choose|i: int|
        0 <= i < regions.len() && (#[trigger] regions[i]).0 <= addr < regions[i].0 + regions[i].1
            && addr + room <= regions[i].0 + regions[i].1;
    lemma_mapped_run(regions, i, addr as int, len);
}

/// Bytes that lie in the region `i` are all backed by memory.
proof fn lemma_mapped_run(regions: Seq<(u64, u64)>, i: int, addr: int, len: nat)
    requires
        0 <= i < regions.len(),
        regions[i].0 <= addr,
        addr + len <= regions[i].0 + regions[i].1,
    ensures
        mapped_prefix(regions, addr, len) == len,
    decreases len,
{
    if len > 0 {
        assert(mapped(regions, addr));
        lemma_mapped_run(regions, i, addr + 1, (len - 1) as nat);
    }
}

} // verus!
