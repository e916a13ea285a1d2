//! How a packet is put together: an assembly asks for what it needs from the guest, one thing at a
//! time, and is handed the answers.

use crate::guest::{
    chain_step, fetch_gives, probe_gives, Access, Descriptor, FetchedView, GuestState,
};
use vstd::prelude::*;

verus! {

/// What an assembly needs next.
#[derive(Clone, Copy, Debug, PartialEq, Eq)]
pub enum Request {
    /// The next descriptor of the chain.
    NextDescriptor,
    /// The `len` bytes of guest memory at the translation of `addr`, where `span` bytes are to be
    /// translated.
    Fetch { addr: u64, span: usize, len: usize },
    /// The translation of the `len` bytes from `addr` on, which must lie in one piece of guest
    /// memory.
    Probe { addr: u64, len: usize },
    /// Nothing more.
    Finished,
}

/// What an assembly is handed.
pub enum Answer {
    /// A descriptor, or none if the chain has no more.
    Descriptor(Option<Descriptor>),
    /// The bytes and their translated address, or nothing if they cannot be had.
    Fetched(Option<FetchedView>),
    /// The translated address, or nothing if the bytes cannot be accessed there.
    Probed(Option<u64>),
}

/// Whether `answer` is of the kind that `request` asks for.
pub open spec fn fits(request: Request, answer: Answer) -> bool {
    match (request, answer) {
        (Request::NextDescriptor, Answer::Descriptor(_)) => true,
        (Request::Fetch { len, .. }, Answer::Fetched(fetched)) => match fetched {
            Some(f) => f.bytes.len() == len,
            None => true,
        },
        (Request::Probe { .. }, Answer::Probed(_)) => true,
        _ => false,
    }
}

/// That the guest gave `answer` to `request`, and went from `before` to `after` with it.
pub open spec fn answered(
    before: GuestState,
    after: GuestState,
    request: Request,
    answer: Answer,
) -> bool {
    match (request, answer) {
        (Request::NextDescriptor, Answer::Descriptor(desc)) => {
            &&& after.platform == before.platform
            &&& chain_step(before.chain.chain, after.chain.chain, desc)
            &&& after.chain.mem() == before.chain.mem()
            &&& after.chain.log == before.chain.log.push(Access::Descriptor(desc))
        },
        (Request::Fetch { addr, span, len }, Answer::Fetched(fetched)) => fetch_gives(
            before,
            after,
            addr,
            span,
            len,
            fetched,
        ),
        (Request::Probe { addr, len }, Answer::Probed(at)) => probe_gives(
            before,
            after,
            addr,
            len,
            at,
        ),
        _ => false,
    }
}

/// What a platform is asked to translate for `request`.
pub open spec fn span_of(request: Request) -> Seq<(u64, u64)> {
    match request {
        Request::Fetch { addr, span, .. } => seq![(addr, span as u64)],
        Request::Probe { addr, len } => seq![(addr, len as u64)],
        _ => Seq::empty(),
    }
}

} // verus!
