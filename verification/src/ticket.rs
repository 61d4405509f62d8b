//! What a ticket carries of the sender's addresses, and how each side
//! decides whether to use address lookup.

use crate::cli::AddrInfoOptions;
use vstd::prelude::*;

verus! {

/// The kind of one of an endpoint's transport addresses.
#[derive(Debug, Clone, Copy, PartialEq, Eq, Structural)]
pub enum TransportKind {
    /// A relay server's URL.
    Relay,
    /// A direct IP address.
    Ip,
    /// Any other kind of address.
    Other,
}

/// A transport address of the caller's type, with its kind.
pub struct TicketAddr<A> {
    pub kind: TransportKind,
    pub addr: A,
}

/// Whether a ticket of kind `opts` keeps an address of kind `kind`.
pub open spec fn keeps(opts: AddrInfoOptions, kind: TransportKind) -> bool {
    match opts {
        AddrInfoOptions::Id => false,
        AddrInfoOptions::RelayAndAddresses => true,
        AddrInfoOptions::Relay => kind == TransportKind::Relay,
        AddrInfoOptions::Addresses => kind == TransportKind::Ip,
    }
}

/// The addresses that a ticket of kind `opts` keeps, in their order.
pub open spec fn kept_addrs<A>(addrs: Seq<TicketAddr<A>>, opts: AddrInfoOptions) -> Seq<
    TicketAddr<A>,
>
    decreases addrs.len(),
{
    if addrs.len() == 0 {
        Seq::empty()
    } else {
        let front = kept_addrs(addrs.drop_last(), opts);
        if keeps(opts, addrs.last().kind) {
            front.push(addrs.last())
        } else {
            front
        }
    }
}

/// Trims an endpoint's addresses to what a ticket of kind `opts` carries:
/// none for `Id`, all for `RelayAndAddresses`, the relay URLs for `Relay`
/// and the direct IP addresses for `Addresses`.
pub fn apply_options<A>(addrs: &mut Vec<TicketAddr<A>>, opts: AddrInfoOptions)
    ensures
        final(addrs)@ == kept_addrs(old(addrs)@, opts),
{
    let ghost all = addrs@;
    let total = addrs.len();
    let mut rest: Vec<TicketAddr<A>> = Vec::new();
    std::mem::swap(&mut rest, addrs);
    let mut done: usize = 0;
    assert(all.take(0) =~= Seq::<TicketAddr<A>>::empty());
    while rest.len() > 0
        invariant
            0 <= done <= all.len(),
            rest@ =~= all.skip(done as int),
            rest.len() + done == all.len(),
            all.len() == total,
            addrs@ =~= kept_addrs(all.take(done as int), opts),
        decreases rest.len(),
    {
        let a = rest.remove(0);
        proof {
            assert(all.take(done + 1).drop_last() =~= all.take(done as int));
            assert(all.take(done + 1).last() == a);
        }
        let keep = match opts {
            AddrInfoOptions::Id => false,
            AddrInfoOptions::RelayAndAddresses => true,
            AddrInfoOptions::Relay => match a.kind {
                TransportKind::Relay => true,
                _ => false,
            },
            AddrInfoOptions::Addresses => match a.kind {
                TransportKind::Ip => true,
                _ => false,
            },
        };
        if keep {
            addrs.push(a);
        }
        done = done + 1;
    }
    assert(all.take(all.len() as int) =~= all);
}

/// Whether the sending endpoint publishes its address for lookup: when the
/// ticket carries only its id.
pub fn publishes_address(ticket_type: AddrInfoOptions) -> (r: bool)
    ensures
        r == (ticket_type == AddrInfoOptions::Id),
{
    match ticket_type {
        AddrInfoOptions::Id => true,
        _ => false,
    }
}

/// Whether the receiving endpoint looks the sender's address up: when the
/// ticket carries neither a relay URL nor a direct address.
pub fn needs_address_lookup(kinds: &Vec<TransportKind>) -> (r: bool)
    ensures
        r == (forall|i: int|
            0 <= i < kinds.len() ==> kinds[i] != TransportKind::Relay && kinds[i]
                != TransportKind::Ip),
{
    let mut i: usize = 0;
    while i < kinds.len()
        invariant
            0 <= i <= kinds.len(),
            forall|j: int|
                0 <= j < i ==> kinds[j] != TransportKind::Relay && kinds[j] != TransportKind::Ip,
        decreases kinds.len() - i,
    {
        match kinds[i] {
            TransportKind::Relay => {
                return false;
            },
            TransportKind::Ip => {
                return false;
            },
            TransportKind::Other => {},
        }
        i = i + 1;
    }
    true
}

/// Law: an `Id` ticket carries no address, and a `RelayAndAddresses` ticket
/// carries them all.
pub proof fn law_id_and_full_tickets<A>(addrs: Seq<TicketAddr<A>>)
    ensures
        kept_addrs(addrs, AddrInfoOptions::Id) == Seq::<TicketAddr<A>>::empty(),
        kept_addrs(addrs, AddrInfoOptions::RelayAndAddresses) == addrs,
    decreases addrs.len(),
{
    if addrs.len() > 0 {
        law_id_and_full_tickets(addrs.drop_last());
        assert(addrs.drop_last().push(addrs.last()) =~= addrs);
    }
}

/// Law: trimming is idempotent: trimming trimmed addresses again changes
/// nothing.
pub proof fn law_trim_idempotent<A>(addrs: Seq<TicketAddr<A>>, opts: AddrInfoOptions)
    ensures
        kept_addrs(kept_addrs(addrs, opts), opts) == kept_addrs(addrs, opts),
    decreases addrs.len(),
{
    if addrs.len() > 0 {
        law_trim_idempotent(addrs.drop_last(), opts);
        let front = kept_addrs(addrs.drop_last(), opts);
        if keeps(opts, addrs.last().kind) {
            let k = front.push(addrs.last());
            assert(k.drop_last() =~= front);
            assert(k.last() == addrs.last());
        }
    }
}

/// Law: every address a ticket carries is of a kind its ticket kind keeps.
pub proof fn law_kept_addresses_match<A>(addrs: Seq<TicketAddr<A>>, opts: AddrInfoOptions)
    ensures
        forall|i: int|
            0 <= i < kept_addrs(addrs, opts).len() ==> keeps(
                opts,
                #[trigger] kept_addrs(addrs, opts)[i].kind,
            ),
    decreases addrs.len(),
{
    if addrs.len() > 0 {
        law_kept_addresses_match(addrs.drop_last(), opts);
        let front = kept_addrs(addrs.drop_last(), opts);
        let k = kept_addrs(addrs, opts);
        assert forall|i: int| 0 <= i < k.len() implies keeps(opts, #[trigger] k[i].kind) by {
            if i < front.len() {
                assert(k[i] == front[i]);
            }
        }
    }
}

/// Law: trimming never adds an address: every address a ticket carries is
/// one of the endpoint's, and there are no more of them.
pub proof fn law_trim_only_removes<A>(addrs: Seq<TicketAddr<A>>, opts: AddrInfoOptions)
    ensures
        kept_addrs(addrs, opts).len() <= addrs.len(),
        forall|i: int|
            0 <= i < kept_addrs(addrs, opts).len() ==> addrs.contains(
                #[trigger] kept_addrs(addrs, opts)[i],
            ),
    decreases addrs.len(),
{
    if addrs.len() > 0 {
        let rest = addrs.drop_last();
        law_trim_only_removes(rest, opts);
        let front = kept_addrs(rest, opts);
        let k = kept_addrs(addrs, opts);
        assert forall|i: int| 0 <= i < k.len() implies addrs.contains(#[trigger] k[i]) by {
            if i < front.len() {
                assert(k[i] == front[i]);
                assert(rest.contains(front[i]));
                let j = choose|j: int| 0 <= j < rest.len() && rest[j] == front[i];
                assert(addrs[j] == rest[j]);
            } else {
                assert(k[i] == addrs.last());
                assert(addrs[addrs.len() - 1] == addrs.last());
            }
        }
    }
}

} // verus!
