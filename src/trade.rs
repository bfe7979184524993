use crate::ids::ResourceEntry;
use vstd::prelude::*;

verus! {

/// A proposed exchange between two players: what the maker gives and what it asks
/// for. Either list may be empty.
#[derive(Debug)]
pub struct Offer {
    pub offering: Vec<ResourceEntry>,
    pub requesting: Vec<ResourceEntry>,
}

/// An offer and the other party to it.
#[derive(Debug)]
pub struct Trade {
    pub peer: String,
    pub offer: Offer,
}

/// A player's open trades: those offered to it, and those it made, in the order
/// they came.
#[derive(Debug)]
pub struct Ledger {
    pub inbound: Vec<Trade>,
    pub outbound: Vec<Trade>,
}

/// The two offers hold the same entries in the same order.
pub open spec fn same_offer(a: Offer, b: Offer) -> bool {
    a.offering@ == b.offering@ && a.requesting@ == b.requesting@
}

/// The trade is `offer` with `peer`.
pub open spec fn trade_matches(t: Trade, peer: Seq<char>, offer: Offer) -> bool {
    t.peer@ == peer && same_offer(t.offer, offer)
}

impl Ledger {
    /// A ledger with no trades.
    pub fn new() -> (l: Ledger)
        ensures
            l.inbound@.len() == 0,
            l.outbound@.len() == 0,
    {
        Ledger { inbound: Vec::new(), outbound: Vec::new() }
    }
}

fn same_entries(a: &Vec<ResourceEntry>, b: &Vec<ResourceEntry>) -> (r: bool)
    ensures
        r == (a@ == b@),
{
    if a.len() != b.len() {
        return false;
    }
    let mut i: usize = 0;
    while i < a.len()
        invariant
            a@.len() == b@.len(),
            i <= a@.len(),
            forall|k: int| 0 <= k < i ==> a@[k] == b@[k],
        decreases a@.len() - i,
    {
        if a[i] != b[i] {
            return false;
        }
        i = i + 1;
    }
    assert(a@ =~= b@);
    true
}

impl Offer {
    /// Whether the two offers hold the same entries in the same order.
    pub fn same_as(&self, other: &Offer) -> (r: bool)
        ensures
            r == same_offer(*self, *other),
    {
        same_entries(&self.offering, &other.offering) && same_entries(&self.requesting, &other.requesting)
    }
}

/// Takes out of `offers` the first trade that is `offer` with `with`.
///
/// Fails, changing nothing, if there is none.
pub fn remove_offer(with: &String, offer: &Offer, offers: &mut Vec<Trade>) -> (r: Result<(), crate::player::EconomyError>)
    ensures
        r is Ok <==> exists|i: int| 0 <= i < old(offers)@.len() && trade_matches(#[trigger] old(offers)@[i], with@, *offer),
        r is Err ==> r == Err::<(), crate::player::EconomyError>(crate::player::EconomyError::NoSuchTrade) && *final(offers) == *old(offers),
        r is Ok ==> exists|i: int|
            0 <= i < old(offers)@.len() && trade_matches(#[trigger] old(offers)@[i], with@, *offer) && (forall|j: int|
                0 <= j < i ==> !trade_matches(old(offers)@[j], with@, *offer)) && final(offers)@
                == old(offers)@.remove(i),
{
    let mut i: usize = 0;
    while i < offers.len()
        invariant
            i <= offers@.len(),
            *offers == *old(offers),
            forall|j: int| 0 <= j < i ==> !trade_matches(offers@[j], with@, *offer),
        decreases offers@.len() - i,
    {
        if offers[i].peer == *with && offers[i].offer.same_as(offer) {
            let ghost before = offers@;
            offers.remove(i);
            assert(trade_matches(before[i as int], with@, *offer));
            return Ok(());
        }
        i = i + 1;
    }
    Err(crate::player::EconomyError::NoSuchTrade)
}

} // verus!
