//! Turning a hostname into addresses, and connecting to the first that answers.
use vstd::prelude::*;
use vstd::string::{StringExecFns, StringSliceAdditionalSpecFns};

use crate::reactor::error::{Errno, Result};
use crate::reactor::net::Step;
use crate::reactor::platform::{af_inet, af_inet6, econnrefused};
use crate::reactor::socket::{contains_nul, reported_addr, Addr, AddrView, SockAddr};
use crate::reactor::socket::law_an_address_reads_back_as_itself;
use crate::text::{decimal_chars, push_signed};

verus! {

/// Why [`resolve`] produced no addresses.
#[derive(Debug, Clone, Copy, PartialEq, Eq, Structural)]
pub enum ResolveError {
    /// The host contained a NUL, so it cannot be handed to the resolver.
    Nul,
    /// The resolver failed. The number is the platform's `EAI_*` code, which
    /// is not an errno and must not be compared with one.
    Failed(i32),
    /// The call succeeded and returned nothing that can be connected to.
    Empty,
}

impl ResolveError {
    /// What went wrong, in words.
    pub fn message(&self) -> (text: String)
        ensures
            text@ == (match self {
                ResolveError::Nul => "host has a nul byte"@,
                ResolveError::Failed(code) => "getaddrinfo failed ("@ + decimal_chars(*code as int)
                    + ")"@,
                ResolveError::Empty => "resolver returned no address"@,
            }),
    {
        match self {
            ResolveError::Nul => String::from_str("host has a nul byte"),
            ResolveError::Failed(code) => {
                let mut text: String = String::from_str("getaddrinfo failed (");
                push_signed(&mut text, *code);
                text.append(")");
                text
            },
            ResolveError::Empty => String::from_str("resolver returned no address"),
        }
    }
}

/// The host cannot be handed to the resolver, which reads it up to a NUL.
pub open spec fn has_nul(host: &str) -> bool {
    host.spec_bytes().contains(0u8)
}

/// The address that an answer of the resolver gives at `port`, in a family
/// that is spoken here.
pub open spec fn found(entry: SockAddr, port: u16) -> Option<AddrView> {
    if entry.family == 2 {
        Some(AddrView::V4(entry.data@.subrange(2, 6), port))
    } else if entry.family == 10 {
        Some(AddrView::V6(entry.data@.subrange(6, 22), port))
    } else {
        None
    }
}

/// All of the addresses that the answers give, in the order of the resolver.
pub open spec fn all_found(entries: Seq<SockAddr>, port: u16) -> Seq<AddrView>
    decreases entries.len(),
{
    if entries.len() == 0 {
        Seq::empty()
    } else {
        let before = all_found(entries.drop_last(), port);
        match found(entries.last(), port) {
            Some(addr) => before.push(addr),
            None => before,
        }
    }
}

/// The addresses as their users see them.
pub open spec fn views(addrs: Seq<Addr>) -> Seq<AddrView> {
    addrs.map_values(|addr: Addr| addr@)
}

/// What a lookup that was answered comes to.
pub open spec fn outcome(
    answer: core::result::Result<Vec<SockAddr>, i32>,
    port: u16,
    result: core::result::Result<Vec<Addr>, ResolveError>,
) -> bool {
    match answer {
        Err(code) => result == Err::<Vec<Addr>, ResolveError>(ResolveError::Failed(code)),
        Ok(entries) => if all_found(entries@, port).len() == 0 {
            result == Err::<Vec<Addr>, ResolveError>(ResolveError::Empty)
        } else {
            result is Ok && views(result->Ok_0@) == all_found(entries@, port)
        },
    }
}

/// Resolve `host` to every address the platform offers, at `port`. The call is
/// to ask the platform's resolver, and `answer` is what it said.
///
/// All of them, in the resolver's order, rather than just the first: on a
/// machine where only one family actually works, taking the first answer fails
/// outright. A family that is not spoken here is skipped, and the port is the
/// caller's.
pub fn resolve(
    host: &str,
    port: u16,
    answer: Option<core::result::Result<Vec<SockAddr>, i32>>,
) -> (step: Step<core::result::Result<Vec<Addr>, ResolveError>>)
    ensures
        has_nul(host) ==> step == Step::Ready(Err::<Vec<Addr>, ResolveError>(ResolveError::Nul)),
        step == Step::Ready(Err::<Vec<Addr>, ResolveError>(ResolveError::Nul))
            <==> host.spec_bytes().contains(0u8),
        !has_nul(host) && answer is None ==> step is Call,
        !has_nul(host) && answer is Some ==> step is Ready && outcome(
            answer->0,
            port,
            step->Ready_0,
        ),
{
    if contains_nul(host.as_bytes()) {
        return Step::Ready(Err(ResolveError::Nul));
    }
    match answer {
        None => Step::Call,
        Some(answer) => Step::Ready(collect(answer, port)),
    }
}

fn collect(answer: core::result::Result<Vec<SockAddr>, i32>, port: u16) -> (result:
    core::result::Result<Vec<Addr>, ResolveError>)
    ensures
        outcome(answer, port, result),
{
    let entries: Vec<SockAddr> = match answer {
        Err(code) => {
            return Err(ResolveError::Failed(code));
        },
        Ok(entries) => entries,
    };
    let mut addrs: Vec<Addr> = Vec::new();
    let mut i: usize = 0;
    assert(entries@.take(0) =~= Seq::<SockAddr>::empty());
    assert(views(addrs@) =~= Seq::<AddrView>::empty());
    while i < entries.len()
        invariant
            i <= entries@.len(),
            views(addrs@) == all_found(entries@.take(i as int), port),
        decreases entries@.len() - i,
    {
        let ghost before = addrs@;
        proof {
            assert(entries@.take(i + 1).drop_last() =~= entries@.take(i as int));
        }
        let entry = &entries[i];
        match at_port(entry, port) {
            Some(addr) => {
                addrs.push(addr);
                assert(views(addrs@) =~= views(before).push(addr@));
            },
            None => {},
        }
        i = i + 1;
    }
    assert(entries@.take(i as int) =~= entries@);
    assert(views(addrs@).len() == addrs@.len());
    if addrs.len() == 0 {
        return Err(ResolveError::Empty);
    }
    Ok(addrs)
}

/// One answer of the resolver, at `port`.
fn at_port(entry: &SockAddr, port: u16) -> (addr: Option<Addr>)
    ensures
        (match found(*entry, port) {
            Some(view) => addr is Some && addr->0@ == view,
            None => addr is None,
        }),
{
    let family: i32 = entry.family as i32;
    if family == af_inet() || family == af_inet6() {
        match Addr::read_from(entry, 0) {
            Some(Addr::V4(octets, _)) => Some(Addr::V4(octets, port)),
            Some(Addr::V6(octets, _)) => Some(Addr::V6(octets, port)),
            _ => None,
        }
    } else {
        None
    }
}

/// Trying addresses in turn until one accepts a connection.
///
/// Sequential rather than raced: what is needed is only that a host answering
/// on one family is reachable.
pub struct ConnectAny {
    tried: usize,
    last: Errno,
}

impl ConnectAny {
    /// How many addresses have been tried.
    pub closed spec fn tried(self) -> nat {
        self.tried as nat
    }

    /// The error to end with if there is no further address.
    pub closed spec fn last(self) -> Errno {
        self.last
    }

    /// Nothing tried yet. A list with nothing in it fails like one whose every
    /// attempt was refused.
    pub fn new() -> (attempt: Self)
        ensures
            attempt.tried() == 0,
            attempt.last() == Errno(111),
    {
        ConnectAny { tried: 0, last: Errno(econnrefused()) }
    }

    /// The address to try next, out of `count`, or the error to end with.
    pub fn next(&self, count: usize) -> (next: Result<usize>)
        ensures
            next == (if self.tried() < count {
                Ok(self.tried() as usize)
            } else {
                Err(self.last())
            }),
    {
        if self.tried < count {
            Ok(self.tried)
        } else {
            Err(self.last)
        }
    }

    /// The address that was tried failed like this.
    pub fn failed(&mut self, error: Errno)
        requires
            old(self).tried() < usize::MAX,
        ensures
            final(self).tried() == old(self).tried() + 1,
            final(self).last() == error,
    {
        self.tried = self.tried + 1;
        self.last = error;
    }
}

/// The address with this port in place of its own.
pub open spec fn at(addr: AddrView, port: u16) -> AddrView {
    match addr {
        AddrView::V4(octets, _) => AddrView::V4(octets, port),
        AddrView::V6(octets, _) => AddrView::V6(octets, port),
        other => other,
    }
}

/// An answer that holds an address as the kernel lays it out is found as that
/// address, byte for byte, at the caller's port.
pub proof fn law_an_answer_is_the_address_it_holds(
    addr: AddrView,
    entry: SockAddr,
    port: u16,
)
    requires
        addr.valid(),
        !(addr is Path),
        entry.family == addr.family(),
        entry.data@ == addr.written(Seq::new(126, |i: int| 0u8)),
    ensures
        (match addr {
            AddrView::V4(octets, _) => found(entry, port) == Some(AddrView::V4(octets, port)),
            AddrView::V6(octets, _) => found(entry, port) == Some(AddrView::V6(octets, port)),
            AddrView::Path(_) => true,
        }),
{
    law_an_address_reads_back_as_itself(addr);
    law_an_answer_is_read_as_the_kernel_reports_it(entry, addr.sockaddr_len(), port);
}

/// What a lookup finds in an answer is what the kernel reports in the same
/// bytes, at the caller's port; and nothing where that is no address of the
/// network.
pub proof fn law_an_answer_is_read_as_the_kernel_reports_it(entry: SockAddr, len: nat, port: u16)
    ensures
        (match reported_addr(entry.family as int, entry.data@, len) {
            Some(AddrView::Path(_)) => found(entry, port) is None,
            Some(addr) => found(entry, port) == Some(at(addr, port)),
            None => found(entry, port) is None,
        }),
{
}

/// A lookup gives what the parts of the answer give, in the order of the
/// resolver: one answer gives its address, or nothing where its family is not
/// spoken here.
pub proof fn law_a_lookup_keeps_the_resolvers_order(
    first: Seq<SockAddr>,
    second: Seq<SockAddr>,
    one: SockAddr,
    port: u16,
)
    ensures
        all_found(first + second, port) == all_found(first, port) + all_found(second, port),
        all_found(seq![one], port) == (match found(one, port) {
            Some(addr) => seq![addr],
            None => Seq::empty(),
        }),
        all_found(Seq::empty(), port) == Seq::<AddrView>::empty(),
    decreases second.len(),
{
    reveal_with_fuel(all_found, 2);
    assert(seq![one].drop_last() =~= Seq::<SockAddr>::empty());
    assert(all_found(seq![one], port) =~= (match found(one, port) {
        Some(addr) => seq![addr],
        None => Seq::empty(),
    }));
    if second.len() == 0 {
        assert(first + second =~= first);
        assert(all_found(first, port) + all_found(second, port) =~= all_found(first, port));
    } else {
        law_a_lookup_keeps_the_resolvers_order(first, second.drop_last(), one, port);
        assert((first + second).drop_last() =~= first + second.drop_last());
        assert((first + second).last() == second.last());
        assert(all_found(first + second, port) =~= all_found(first, port) + all_found(second, port));
    }
}

/// A lookup that was answered ends in addresses or in the reason why there are
/// none: the resolver's own code, or that nothing in the answer can be connected
/// to. It never ends in an empty list.
pub proof fn law_a_lookup_gives_addresses_or_the_reason(
    entries: Vec<SockAddr>,
    code: i32,
    port: u16,
    result: core::result::Result<Vec<Addr>, ResolveError>,
)
    ensures
        outcome(Err(code), port, result) ==> result == Err::<Vec<Addr>, ResolveError>(
            ResolveError::Failed(code),
        ),
        outcome(Ok(entries), port, result) ==> {
            &&& result is Ok ==> {
                &&& result->Ok_0@.len() > 0
                &&& result->Ok_0@.len() == all_found(entries@, port).len()
                &&& forall|i: int|
                    0 <= i < result->Ok_0@.len() ==> (#[trigger] result->Ok_0@[i])@ == all_found(
                        entries@,
                        port,
                    )[i]
            }
            &&& result is Err ==> {
                &&& result->Err_0 is Empty
                &&& forall|k: int|
                    0 <= k < entries@.len() ==> found(#[trigger] entries@[k], port) is None
            }
        },
{
    if outcome(Ok(entries), port, result) {
        if result is Ok {
            let addrs = result->Ok_0@;
            assert(views(addrs).len() == addrs.len());
            assert forall|i: int| 0 <= i < addrs.len() implies (#[trigger] addrs[i])@ == all_found(
                entries@,
                port,
            )[i] by {
                assert(views(addrs)[i] == addrs[i]@);
            }
        } else {
            assert forall|k: int| 0 <= k < entries@.len() implies found(
                #[trigger] entries@[k],
                port,
            ) is None by {
                if found(entries@[k], port) is Some {
                    law_every_family_is_kept(entries@, port, k);
                }
            }
        }
    }
}

/// Every address that a lookup gives carries the caller's port.
pub proof fn law_every_address_has_the_callers_port(entries: Seq<SockAddr>, port: u16, i: int)
    requires
        0 <= i < all_found(entries, port).len(),
    ensures
        (match all_found(entries, port)[i] {
            AddrView::V4(_, p) => p == port,
            AddrView::V6(_, p) => p == port,
            AddrView::Path(_) => false,
        }),
    decreases entries.len(),
{
    let before = all_found(entries.drop_last(), port);
    if i < before.len() {
        law_every_address_has_the_callers_port(entries.drop_last(), port, i);
    }
}

/// No answer in a family that is spoken here is left out.
pub proof fn law_every_family_is_kept(entries: Seq<SockAddr>, port: u16, k: int)
    requires
        0 <= k < entries.len(),
        found(entries[k], port) is Some,
    ensures
        all_found(entries, port).contains(found(entries[k], port)->0),
    decreases entries.len(),
{
    let all = all_found(entries, port);
    let before = all_found(entries.drop_last(), port);
    if k == entries.len() - 1 {
        assert(all.last() == found(entries[k], port)->0);
    } else {
        law_every_family_is_kept(entries.drop_last(), port, k);
        let addr = found(entries[k], port)->0;
        let at = before.index_of(addr);
        assert(all[at] == addr);
    }
}

} // verus!
