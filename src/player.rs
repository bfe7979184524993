use crate::buildings::{AllBuildings, Building, DependencyTree};
use crate::generator::{gen_map, solved_ratios, Generator};
use crate::ids::{lemma_total_in, names, names_in, total_amount, total_in, total_of, BuildingID, Position, ResourceEntry, ResourceID, ID_SPACE};
use crate::owned::{OwnedBuilding, Population, Stockpile, DEFAULT_MAXIMUM};
use crate::tile::Tile;
use crate::trade::{remove_offer, trade_matches, Ledger, Offer, Trade};
use vstd::prelude::*;

verus! {

/// Why a command was refused. A refused command changes nothing.
#[derive(Debug, Clone, Copy, PartialEq, Eq, Structural)]
pub enum EconomyError {
    /// More buildings asked for than free slots or stocks allow.
    InsufficientSlotOrResource(BuildingID),
    /// The count or the posts of the building type would pass the largest `u32`.
    TooMany(BuildingID),
    /// More buildings to tear down than the player owns.
    InsufficientOwned(BuildingID),
    /// The player owns no building of the type.
    NoSuchBuilding(BuildingID),
    /// More people to hire than free posts.
    InsufficientCapacity(BuildingID),
    /// More people to let go than are employed.
    InsufficientHired(BuildingID),
    /// No room in the stockpile for that much.
    StockpileFull(ResourceID),
    /// Not that much of the resource in stock.
    InsufficientStock(ResourceID),
    /// No such trade is open.
    NoSuchTrade,
}

/// Free slots for building type `id` over the first `n` tiles.
pub open spec fn free_in(tiles: Seq<&Tile>, id: BuildingID, n: int) -> int
    decreases n,
{
    if n <= 0 {
        0
    } else {
        free_in(tiles, id, n - 1) + tiles[n - 1].spec_free(id)
    }
}

/// Current stock of a resource; nothing without a stockpile.
pub open spec fn current_of(o: Option<Stockpile>) -> int {
    match o {
        Some(s) => s.spec_current(),
        None => 0,
    }
}

/// Room of a stockpile; the default room for one not made yet.
pub open spec fn maximum_of(o: Option<Stockpile>) -> int {
    match o {
        Some(s) => s.spec_maximum(),
        None => DEFAULT_MAXIMUM as int,
    }
}

/// Buildings that the stock of one cost entry pays for.
pub open spec fn cost_cap(stocks: Seq<Option<Stockpile>>, e: ResourceEntry) -> int {
    match stocks[e.id.0 as int] {
        None => 0,
        Some(s) => if e.amount == 0 {
            u32::MAX as int
        } else {
            s.spec_current() / e.amount as int
        },
    }
}

/// Buildings that the stocks pay for, over the first `n` cost entries.
pub open spec fn cost_cap_below(stocks: Seq<Option<Stockpile>>, costs: Seq<ResourceEntry>, n: int) -> int
    decreases n,
{
    if n <= 0 {
        u32::MAX as int
    } else {
        let c = cost_cap(stocks, costs[n - 1]);
        let prev = cost_cap_below(stocks, costs, n - 1);
        if c < prev {
            c
        } else {
            prev
        }
    }
}

/// Buildings of type `id` that the tiles have room for: the free slots for an
/// extractor, up to the largest `u32`; no limit otherwise.
pub open spec fn slot_cap(tiles: Seq<&Tile>, id: BuildingID, bd: Building) -> int {
    if bd.extractor {
        let f = free_in(tiles, id, tiles.len() as int);
        if f < u32::MAX {
            f
        } else {
            u32::MAX as int
        }
    } else {
        u32::MAX as int
    }
}

/// Most buildings of type `id` that the player can put up on the tiles.
pub open spec fn buildable(stocks: Seq<Option<Stockpile>>, tiles: Seq<&Tile>, id: BuildingID, bd: Building) -> int {
    let s = slot_cap(tiles, id, bd);
    let c = cost_cap_below(stocks, bd.construction_cost@, bd.construction_cost@.len() as int);
    if s < c {
        s
    } else {
        c
    }
}

/// A player's realm: its buildings, people, stocks and trades, with the cache of what
/// they make per tick.
#[derive(Debug)]
pub struct Player {
    buildings: Vec<OwnedBuilding>,
    people: Population,
    resources: Vec<Option<Stockpile>>,
    contacts: Vec<(String, u32)>,
    lands: Vec<Position>,
    trades: Ledger,
    gen: Generator,
}

impl Player {
    /// Entry `i` is what the player has of building type `i`.
    pub closed spec fn spec_owned(&self) -> Seq<OwnedBuilding> {
        self.buildings@
    }

    /// Entry `i` is the player's stockpile of resource `i`, if it has one.
    pub closed spec fn spec_stocks(&self) -> Seq<Option<Stockpile>> {
        self.resources@
    }

    pub closed spec fn spec_people(&self) -> Population {
        self.people
    }

    pub closed spec fn spec_trades(&self) -> Ledger {
        self.trades
    }

    pub closed spec fn spec_gen(&self) -> Generator {
        self.gen
    }

    pub closed spec fn spec_lands(&self) -> Seq<Position> {
        self.lands@
    }

    pub closed spec fn spec_contacts(&self) -> Seq<(String, u32)> {
        self.contacts@
    }

    /// Every table complete and every part within its bounds.
    pub open spec fn wf(&self) -> bool {
        &&& self.spec_owned().len() == ID_SPACE
        &&& forall|i: int| 0 <= i < ID_SPACE ==> (#[trigger] self.spec_owned()[i]).wf()
        &&& self.spec_stocks().len() == ID_SPACE
        &&& forall|i: int| 0 <= i < ID_SPACE ==> (#[trigger] self.spec_stocks()[i] matches Some(s)
            ==> s.wf())
        &&& self.spec_people().wf()
        &&& self.spec_gen().wf()
    }

    /// Everything but the buildings of type `id` and the cache flag is as in `p`.
    pub open spec fn same_but_building(&self, p: Player, id: BuildingID) -> bool {
        &&& self.spec_owned().len() == p.spec_owned().len()
        &&& forall|i: int|
            0 <= i < p.spec_owned().len() && i != id.0 ==> #[trigger] self.spec_owned()[i]
                == p.spec_owned()[i]
        &&& self.spec_stocks() == p.spec_stocks()
        &&& self.spec_people() == p.spec_people()
        &&& self.spec_trades() == p.spec_trades()
        &&& self.spec_lands() == p.spec_lands()
        &&& self.spec_gen().spec_map() == p.spec_gen().spec_map()
        &&& self.spec_gen().spec_ratios() == p.spec_gen().spec_ratios()
    }

    /// Everything but the stockpiles and the cache flag is as in `p`.
    pub open spec fn same_but_stocks(&self, p: Player) -> bool {
        &&& self.spec_owned() == p.spec_owned()
        &&& self.spec_people() == p.spec_people()
        &&& self.spec_trades() == p.spec_trades()
        &&& self.spec_lands() == p.spec_lands()
        &&& self.spec_gen().spec_map() == p.spec_gen().spec_map()
        &&& self.spec_gen().spec_ratios() == p.spec_gen().spec_ratios()
    }

    /// A player with no buildings, empty stocks and five idle people.
    pub fn empty() -> (p: Player)
        ensures
            p.wf(),
            forall|c: AllBuildings| #[trigger] p.starting_below(c, 0),
    {
        let mut buildings: Vec<OwnedBuilding> = Vec::new();
        let mut resources: Vec<Option<Stockpile>> = Vec::new();
        let mut i: usize = 0;
        while i < ID_SPACE
            invariant
                i <= ID_SPACE,
                buildings@.len() == i,
                resources@.len() == i,
                forall|k: int|
                    0 <= k < i ==> (#[trigger] buildings@[k]).wf() && buildings@[k].spec_count() == 0
                        && buildings@[k].spec_hired() == 0 && buildings@[k].spec_capacity() == 0
                        && forall|q: Position| buildings@[k].spec_placed(q) == 0,
                forall|k: int| 0 <= k < i ==> #[trigger] resources@[k] is None,
            decreases ID_SPACE - i,
        {
            buildings.push(OwnedBuilding::new());
            resources.push(None);
            i = i + 1;
        }
        let ledger = Ledger::new();
        Player {
            buildings,
            people: Population::new(),
            resources,
            contacts: Vec::new(),
            lands: Vec::new(),
            trades: ledger,
            gen: Generator::new(),
        }
    }

    /// The state of a new player once the starting types below `b` are placed: one
    /// building of each such type that the catalog holds, at the origin, with its
    /// posts and nobody employed; no stockpile, no land, no contact, no trade; five
    /// idle people with room for ten; a cache to be worked out.
    pub open spec fn starting_below(&self, catalog: AllBuildings, b: int) -> bool {
        &&& forall|i: int|
            0 <= i < ID_SPACE ==> (#[trigger] self.spec_owned()[i]).spec_count() == if i < b
                && catalog.spec_table()[i] is Some {
                1int
            } else {
                0int
            }
        &&& forall|i: int|
            0 <= i < ID_SPACE ==> (#[trigger] self.spec_owned()[i]).spec_capacity() == if i < b
                && catalog.spec_table()[i] is Some {
                catalog.spec_table()[i]->0.max_workers as int
            } else {
                0int
            }
        &&& forall|i: int| 0 <= i < ID_SPACE ==> (#[trigger] self.spec_owned()[i]).spec_hired() == 0
        &&& forall|i: int, q: Position|
            0 <= i < ID_SPACE ==> #[trigger] self.spec_owned()[i].spec_placed(q) == if q == (Position {
                x: 0,
                y: 0,
            }) {
                self.spec_owned()[i].spec_count()
            } else {
                0
            }
        &&& forall|i: int| 0 <= i < ID_SPACE ==> #[trigger] self.spec_stocks()[i] is None
        &&& self.spec_people().spec_idle() == 5
        &&& self.spec_people().spec_total() == 5
        &&& self.spec_people().spec_maximum() == 10
        &&& self.spec_lands().len() == 0
        &&& self.spec_contacts().len() == 0
        &&& self.spec_trades().inbound@.len() == 0
        &&& self.spec_trades().outbound@.len() == 0
        &&& self.spec_gen().spec_dirty()
    }

    /// A new player, given one building of each starting type (0 and 1) that the
    /// catalog holds, at the origin.
    pub fn new(buildings: &AllBuildings) -> (p: Player)
        requires
            buildings.wf(),
        ensures
            p.wf(),
            p.starting_below(*buildings, 2),
            posts_match(p, *buildings),
    {
        let mut p = Player::empty();
        proof {
            assert(p.starting_below(*buildings, 0));
        }
        let origin = Position { x: 0, y: 0 };
        let mut b: usize = 0;
        while b < 2
            invariant
                b <= 2,
                buildings.wf(),
                p.wf(),
                p.starting_below(*buildings, b as int),
                origin == (Position { x: 0, y: 0 }),
            decreases 2 - b,
        {
            let ghost p0 = p;
            match buildings.get(BuildingID(b as u8)) {
                Some(bd) => {
                    p.buildings[b].add(&origin, 1, bd.max_workers);
                    proof {
                        assert forall|i: int| 0 <= i < ID_SPACE && i != b implies #[trigger] p.spec_owned()[i]
                            == p0.spec_owned()[i] by {}
                        assert(p.spec_people() == p0.spec_people());
                        assert(p.spec_lands() == p0.spec_lands());
                        assert(p.spec_contacts() == p0.spec_contacts());
                        assert(p.spec_trades() == p0.spec_trades());
                        assert(p.spec_stocks() == p0.spec_stocks());
                        assert(p.spec_gen() == p0.spec_gen());
                        assert forall|i: int, q: Position| 0 <= i < ID_SPACE implies #[trigger] p.spec_owned()[i].spec_placed(q)
                            == if q == (Position { x: 0, y: 0 }) {
                            p.spec_owned()[i].spec_count()
                        } else {
                            0
                        } by {
                            if i != b {
                                assert(p.spec_owned()[i] == p0.spec_owned()[i]);
                                assert(p.spec_owned()[i].spec_placed(q) == p0.spec_owned()[i].spec_placed(q));
                                assert(p0.spec_owned()[i].spec_placed(q) == if q == (Position { x: 0, y: 0 }) {
                                    p0.spec_owned()[i].spec_count()
                                } else {
                                    0
                                });
                            } else {
                                let e0 = p0.spec_owned()[i];
                                let e1 = p.spec_owned()[i];
                                assert(e0.spec_placed(q) == if q == (Position { x: 0, y: 0 }) {
                                    e0.spec_count()
                                } else {
                                    0
                                });
                                assert(e1.spec_count() == e0.spec_count() + 1);
                                if q == origin {
                                    assert(e0.spec_placed(origin) == e0.spec_count());
                                    assert(e1.spec_placed(origin) == e0.spec_placed(origin) + 1);
                                    assert(e1.spec_placed(q) == e1.spec_count());
                                } else {
                                    assert(e1.spec_placed(q) == e0.spec_placed(q));
                                    assert(e1.spec_placed(q) == 0);
                                }
                            }
                        }
                    }
                },
                None => {},
            }
            b = b + 1;
        }
        p
    }

    /// A player rebuilt from the parts that a save file holds, with a cache that must
    /// be worked out before use; none if a part is not well formed.
    pub fn restore(
        buildings: Vec<OwnedBuilding>,
        people: Population,
        resources: Vec<Option<Stockpile>>,
        contacts: Vec<(String, u32)>,
        lands: Vec<Position>,
        trades: Ledger,
    ) -> (p: Option<Player>)
        ensures
            p is Some <==> buildings@.len() == ID_SPACE && resources@.len() == ID_SPACE && people.wf()
                && (forall|i: int| 0 <= i < ID_SPACE ==> (#[trigger] buildings@[i]).wf()) && (forall|i: int|
                0 <= i < ID_SPACE ==> (#[trigger] resources@[i] matches Some(s) ==> s.wf())),
            p matches Some(q) ==> q.wf() && q.spec_owned() == buildings@ && q.spec_stocks() == resources@
                && q.spec_people() == people && q.spec_trades() == trades && q.spec_lands() == lands@
                && q.spec_gen().spec_dirty(),
    {
        if buildings.len() != ID_SPACE || resources.len() != ID_SPACE {
            return None;
        }
        if !(people.idle() <= people.total() && people.total() <= people.maximum()) {
            return None;
        }
        let mut i: usize = 0;
        while i < ID_SPACE
            invariant
                buildings@.len() == ID_SPACE,
                resources@.len() == ID_SPACE,
                i <= ID_SPACE,
                forall|k: int| 0 <= k < i ==> (#[trigger] buildings@[k]).wf(),
                forall|k: int| 0 <= k < i ==> (#[trigger] resources@[k] matches Some(s) ==> s.wf()),
            decreases ID_SPACE - i,
        {
            if !buildings[i].is_valid() {
                return None;
            }
            match resources[i] {
                Some(s) => {
                    proof {
                        s.lemma_ranges();
                    }
                    if s.current() > s.maximum() {
                        return None;
                    }
                },
                None => {},
            }
            i = i + 1;
        }
        Some(Player { buildings, people, resources, contacts, lands, trades, gen: Generator::new() })
    }

    /// Other players this one can reach, with the number of tiles they share.
    pub fn contacts(&self) -> (c: &Vec<(String, u32)>)
        ensures
            c@ == self.spec_contacts(),
    {
        &self.contacts
    }

    /// Tiles the player counts as its territory.
    pub fn lands(&self) -> (l: &Vec<Position>)
        ensures
            l@ == self.spec_lands(),
    {
        &self.lands
    }

    /// Whether each building type has as many posts as its count times the posts
    /// per building that `catalog` gives it.
    pub fn posts_agree(&self, catalog: &AllBuildings) -> (b: bool)
        requires
            self.wf(),
            catalog.wf(),
        ensures
            b == posts_match(*self, *catalog),
    {
        let mut i: usize = 0;
        while i < ID_SPACE
            invariant
                self.wf(),
                catalog.wf(),
                i <= ID_SPACE,
                forall|k: int|
                    0 <= k < i ==> (#[trigger] self.spec_owned()[k]).spec_capacity() == self.spec_owned()[k].spec_count()
                        * posts_per(*catalog, k),
            decreases ID_SPACE - i,
        {
            let o = &self.buildings[i];
            let per: u64 = match catalog.get(BuildingID(i as u8)) {
                Some(bd) => bd.max_workers as u64,
                None => 0,
            };
            proof {
                o.lemma_ranges();
                assert(o.spec_count() * per <= 0xffff_ffff * 0xffff_ffff) by (nonlinear_arith)
                    requires 0 <= o.spec_count() <= 0xffff_ffff, per <= 0xffff_ffff;
                assert(posts_per(*catalog, i as int) == per);
            }
            if o.capacity() as u64 != o.count() as u64 * per {
                return false;
            }
            i = i + 1;
        }
        true
    }

    /// Whether the tile at `pos` is part of the player's territory.
    pub fn owns_land(&self, pos: &Position) -> (b: bool)
        ensures
            b == self.spec_lands().contains(*pos),
    {
        let mut i: usize = 0;
        while i < self.lands.len()
            invariant
                i <= self.lands@.len(),
                forall|k: int| 0 <= k < i ==> self.lands@[k] != *pos,
            decreases self.lands@.len() - i,
        {
            if self.lands[i] == *pos {
                return true;
            }
            i = i + 1;
        }
        false
    }

    /// The player's stockpile of resource `id`, if it has one.
    pub fn stockpile(&self, id: ResourceID) -> (s: Option<Stockpile>)
        requires
            self.wf(),
        ensures
            s == self.spec_stocks()[id.0 as int],
    {
        self.resources[id.0 as usize]
    }

    /// What the player has of building type `id`.
    pub fn owned(&self, id: BuildingID) -> (o: &OwnedBuilding)
        requires
            self.wf(),
        ensures
            *o == self.spec_owned()[id.0 as int],
    {
        &self.buildings[id.0 as usize]
    }

    pub fn population(&self) -> (p: Population)
        ensures
            p == self.spec_people(),
    {
        self.people
    }

    /// The cache of ratios and net changes.
    pub fn generator(&self) -> (g: &Generator)
        ensures
            *g == self.spec_gen(),
    {
        &self.gen
    }

    /// The player's open trades.
    pub fn ledger(&self) -> (l: &Ledger)
        ensures
            *l == self.spec_trades(),
    {
        &self.trades
    }

    /// Returns the most buildings of type `id` that the player can currently put up
    /// on `tiles`: for an extractor, no more than the free slots; and no more than
    /// each construction cost allows from the stocks, none where a stockpile is
    /// missing.
    pub fn max_buildable(&self, tiles: Vec<&Tile>, id: BuildingID, building: &Building) -> (m: u32)
        requires
            self.wf(),
            forall|i: int| 0 <= i < tiles@.len() ==> (#[trigger] tiles@[i]).wf(),
        ensures
            m as int == buildable(self.spec_stocks(), tiles@, id, *building),
    {
        let mut slots: u64 = u32::MAX as u64;
        if building.extractor {
            let mut sum: u64 = 0;
            let mut i: usize = 0;
            while i < tiles.len()
                invariant
                    i <= tiles@.len(),
                    forall|k: int| 0 <= k < tiles@.len() ==> (#[trigger] tiles@[k]).wf(),
                    sum as int == if free_in(tiles@, id, i as int) < u32::MAX {
                        free_in(tiles@, id, i as int)
                    } else {
                        u32::MAX as int
                    },
                    free_in(tiles@, id, i as int) >= 0,
                decreases tiles@.len() - i,
            {
                let free: u64 = match tiles[i].slot(id) {
                    Some(s) => if s.used <= s.total {
                        (s.total - s.used) as u64
                    } else {
                        0
                    },
                    None => 0,
                };
                sum = sum + free;
                if sum > u32::MAX as u64 {
                    sum = u32::MAX as u64;
                }
                i = i + 1;
            }
            slots = sum;
        }
        let costs = &building.construction_cost;
        let mut cap: u64 = u32::MAX as u64;
        let mut j: usize = 0;
        while j < costs.len()
            invariant
                self.wf(),
                j <= costs@.len(),
                cap as int == cost_cap_below(self.spec_stocks(), costs@, j as int),
                cap <= u32::MAX,
            decreases costs@.len() - j,
        {
            let e = costs[j];
            let c: u64 = match self.resources[e.id.0 as usize] {
                None => 0,
                Some(s) => if e.amount == 0 {
                    u32::MAX as u64
                } else {
                    (s.current() / e.amount) as u64
                },
            };
            proof {
                match self.spec_stocks()[e.id.0 as int] {
                    Some(s) => {
                        s.lemma_ranges();
                        if e.amount != 0 {
                            vstd::arithmetic::div_mod::lemma_div_is_ordered_by_denominator(
                                s.spec_current(),
                                1,
                                e.amount as int,
                            );
                        }
                    },
                    None => {},
                }
            }
            if c < cap {
                cap = c;
            }
            j = j + 1;
        }
        if slots < cap {
            slots as u32
        } else {
            cap as u32
        }
    }

    /// Puts up `amount` buildings of type `id` at `pos`, on `tile`, with their posts,
    /// and marks as many of the tile's slots for the type as used where the tile has
    /// any. Only an extractor is limited by the free slots. Construction costs are a
    /// limit on the number, not spent.
    ///
    /// Fails, changing nothing, if that is more than `max_buildable` allows on this
    /// tile, or if the count, the posts or the tile's used slots of the type would pass
    /// the largest `u32`.
    pub fn build(&mut self, pos: &Position, tile: &mut Tile, id: BuildingID, building: &Building, amount: u32) -> (r:
        Result<(), EconomyError>)
        requires
            old(self).wf(),
            old(tile).wf(),
        ensures
            final(self).wf(),
            final(tile).wf(),
            r == Err::<(), EconomyError>(EconomyError::InsufficientSlotOrResource(id)) <==> amount
                > buildable(old(self).spec_stocks(), seq![&*old(tile)], id, *building),
            r == Err::<(), EconomyError>(EconomyError::TooMany(id)) <==> amount <= buildable(
                old(self).spec_stocks(),
                seq![&*old(tile)],
                id,
                *building,
            ) && !fits(*old(self), *old(tile), id, *building, amount as int),
            r is Ok <==> amount <= buildable(old(self).spec_stocks(), seq![&*old(tile)], id, *building) && fits(
                *old(self),
                *old(tile),
                id,
                *building,
                amount as int,
            ),
            r is Ok ==> built(*old(self), *old(tile), *pos, id, *building, amount as int, *final(self), *final(tile)),
            r is Err ==> *final(self) == *old(self) && *final(tile) == *old(tile),
    {
        let tiles = vec![&*tile];
        let ghost ts = tiles@;
        let cap = self.max_buildable(tiles, id, building);
        proof {
            assert(ts == seq![&*tile]);
            assert(free_in(ts, id, 0) == 0);
            assert(free_in(ts, id, 1) == tile.spec_free(id));
        }
        if amount > cap {
            return Err(EconomyError::InsufficientSlotOrResource(id));
        }
        let ob = &self.buildings[id.0 as usize];
        proof {
            ob.lemma_ranges();
        }
        proof {
            assert(amount as u64 * building.max_workers as u64 <= 0xffff_fffe_0000_0001) by (nonlinear_arith)
                requires amount <= u32::MAX, building.max_workers <= u32::MAX;
        }
        let posts: u64 = amount as u64 * building.max_workers as u64;
        let slots_full = match tile.slot(id) {
            Some(s) => s.used as u64 + amount as u64 > u32::MAX as u64,
            None => false,
        };
        if ob.count() as u64 + amount as u64 > u32::MAX as u64 || ob.capacity() as u64 + posts > u32::MAX as u64
            || slots_full {
            return Err(EconomyError::TooMany(id));
        }
        self.buildings[id.0 as usize].add(pos, amount, posts as u32);
        tile.occupy(id, amount);
        self.gen.invalidate();
        Ok(())
    }

    /// Tears down `amount` buildings of type `id` at `pos`, on `tile`, and lets go
    /// the people beyond the posts that remain; as many of the tile's slots for the
    /// type are freed where the tile has any.
    ///
    /// Fails if the player owns fewer than `amount` buildings of the type. The
    /// position and the tile must hold the buildings that are torn down.
    pub fn demolish(&mut self, pos: &Position, tile: &mut Tile, id: BuildingID, building: &Building, amount: u32) -> (r:
        Result<(), EconomyError>)
        requires
            old(self).wf(),
            old(tile).wf(),
            amount <= old(self).spec_owned()[id.0 as int].spec_count() ==> demolishable(
                *old(self),
                *old(tile),
                *pos,
                id,
                *building,
                amount as int,
            ),
        ensures
            final(self).wf(),
            final(tile).wf(),
            r == Err::<(), EconomyError>(EconomyError::InsufficientOwned(id)) <==> amount > old(
                self,
            ).spec_owned()[id.0 as int].spec_count(),
            r is Ok <==> amount <= old(self).spec_owned()[id.0 as int].spec_count(),
            r is Ok ==> demolished(*old(self), *old(tile), *pos, id, *building, amount as int, *final(self), *final(tile)),
            r is Err ==> *final(self) == *old(self) && *final(tile) == *old(tile),
    {
        if self.buildings[id.0 as usize].count() < amount {
            return Err(EconomyError::InsufficientOwned(id));
        }
        proof {
            assert(amount as u64 * building.max_workers as u64 <= 0xffff_fffe_0000_0001) by (nonlinear_arith)
                requires amount <= u32::MAX, building.max_workers <= u32::MAX;
            self.buildings@[id.0 as int].lemma_ranges();
        }
        let posts = amount as u64 * building.max_workers as u64;
        self.buildings[id.0 as usize].remove(pos, amount, posts as u32);
        tile.vacate(id, amount);
        self.gen.invalidate();
        Ok(())
    }

    /// Employs `amount` more people in buildings of type `id`.
    ///
    /// Fails if the player owns no building of the type, or has fewer free posts
    /// there than `amount`.
    pub fn hire(&mut self, id: BuildingID, amount: u32) -> (r: Result<(), EconomyError>)
        requires
            old(self).wf(),
        ensures
            final(self).wf(),
            r == Err::<(), EconomyError>(EconomyError::NoSuchBuilding(id)) <==> old(self).spec_owned()[id.0 as int].spec_count() == 0,
            r == Err::<(), EconomyError>(EconomyError::InsufficientCapacity(id)) <==> old(self).spec_owned()[id.0 as int].spec_count() != 0
                && old(self).spec_owned()[id.0 as int].spec_capacity() - old(self).spec_owned()[id.0 as int].spec_hired() < amount,
            r is Ok <==> old(self).spec_owned()[id.0 as int].spec_count() != 0
                && old(self).spec_owned()[id.0 as int].spec_capacity() - old(self).spec_owned()[id.0 as int].spec_hired() >= amount,
            r is Ok ==> staffed(*old(self), *final(self), id, old(self).spec_owned()[id.0 as int].spec_hired() + amount),
            r is Err ==> *final(self) == *old(self),
    {
        let ob = &self.buildings[id.0 as usize];
        if ob.count() == 0 {
            return Err(EconomyError::NoSuchBuilding(id));
        }
        if ob.capacity() - ob.hired() < amount {
            return Err(EconomyError::InsufficientCapacity(id));
        }
        self.buildings[id.0 as usize].employ(amount);
        self.gen.invalidate();
        Ok(())
    }

    /// Lets `amount` people go from buildings of type `id`.
    ///
    /// Fails if the player owns no building of the type, or employs fewer people
    /// there than `amount`.
    pub fn fire(&mut self, id: BuildingID, amount: u32) -> (r: Result<(), EconomyError>)
        requires
            old(self).wf(),
        ensures
            final(self).wf(),
            r == Err::<(), EconomyError>(EconomyError::NoSuchBuilding(id)) <==> old(self).spec_owned()[id.0 as int].spec_count() == 0,
            r == Err::<(), EconomyError>(EconomyError::InsufficientHired(id)) <==> old(self).spec_owned()[id.0 as int].spec_count() != 0
                && old(self).spec_owned()[id.0 as int].spec_hired() < amount,
            r is Ok <==> old(self).spec_owned()[id.0 as int].spec_count() != 0
                && old(self).spec_owned()[id.0 as int].spec_hired() >= amount,
            r is Ok ==> staffed(*old(self), *final(self), id, old(self).spec_owned()[id.0 as int].spec_hired() - amount),
            r is Err ==> *final(self) == *old(self),
    {
        let ob = &self.buildings[id.0 as usize];
        if ob.count() == 0 {
            return Err(EconomyError::NoSuchBuilding(id));
        }
        if ob.hired() < amount {
            return Err(EconomyError::InsufficientHired(id));
        }
        self.buildings[id.0 as usize].dismiss(amount);
        self.gen.invalidate();
        Ok(())
    }

    /// Adds `amount` of resource `id` to its stockpile, making an empty one of the
    /// default size if there is none.
    ///
    /// Fails if the stockpile has less room left than `amount`.
    pub fn deposit(&mut self, id: ResourceID, amount: u32) -> (r: Result<(), EconomyError>)
        requires
            old(self).wf(),
        ensures
            final(self).wf(),
            r is Err <==> maximum_of(old(self).spec_stocks()[id.0 as int]) - current_of(old(self).spec_stocks()[id.0 as int]) < amount,
            r is Err ==> r == Err::<(), EconomyError>(EconomyError::StockpileFull(id)) && *final(self) == *old(self),
            r is Ok ==> restocked(*old(self), *final(self), id, current_of(old(self).spec_stocks()[id.0 as int]) + amount),
    {
        let stock = match self.resources[id.0 as usize] {
            Some(s) => s,
            None => Stockpile::new(),
        };
        if stock.maximum() - stock.current() < amount {
            return Err(EconomyError::StockpileFull(id));
        }
        self.resources.set(id.0 as usize, Some(Stockpile::with(stock.current() + amount, stock.maximum())));
        self.gen.invalidate();
        Ok(())
    }

    /// Advances the player by one tick: brings the cache up to date if needed, then
    /// applies each resource's net change, keeping every stock between zero and its
    /// room. Marks the cache out of date where the next tick could not draw as much.
    pub fn generate(&mut self, all_buildings: &AllBuildings, tree: &DependencyTree)
        requires
            old(self).wf(),
            all_buildings.wf(),
            all_buildings.all_wf(),
            tree.indexes(*all_buildings),
        ensures
            final(self).wf(),
            forall|r: int|
                0 <= r < ID_SPACE ==> (#[trigger] final(self).spec_stocks()[r] matches Some(s) ==> 0
                    <= s.spec_current() <= s.spec_maximum()),
            ticked(*old(self), *final(self), *all_buildings, *tree),
            final(self).spec_owned() == old(self).spec_owned(),
            final(self).spec_people() == old(self).spec_people(),
            final(self).spec_trades() == old(self).spec_trades(),
    {
        self.gen.ensure_fresh(all_buildings, tree, &self.buildings, &self.resources);
        let ghost before = self.resources@;
        let ghost fresh = self.gen;
        let ghost owned0 = self.buildings@;
        let ghost people0 = self.people;
        let ghost trades0 = self.trades;
        let ghost lands0 = self.lands;
        let ghost contacts0 = self.contacts;
        let mut short = false;
        let mut r: usize = 0;
        while r < ID_SPACE
            invariant
                r <= ID_SPACE,
                self.wf(),
                !self.gen.spec_dirty(),
                self.gen == fresh,
                self.buildings@ == owned0,
                self.people == people0,
                self.trades == trades0,
                self.lands == lands0,
                self.contacts == contacts0,
                self.resources@.len() == ID_SPACE,
                before.len() == ID_SPACE,
                forall|k: int| r <= k < ID_SPACE ==> #[trigger] self.resources@[k] == before[k],
                forall|k: int|
                    0 <= k < r ==> match #[trigger] self.gen.spec_map()[k] {
                        Some(d) => self.resources@[k] is Some && current_of(self.resources@[k])
                            == clamped(current_of(before[k]), d, maximum_of(before[k])) && maximum_of(
                            self.resources@[k],
                        ) == maximum_of(before[k]),
                        None => self.resources@[k] == before[k],
                    },
                short == short_below(self.resources@, self.gen.spec_map(), r as int),
            decreases ID_SPACE - r,
        {
            let ghost mid = self.resources@;
            match self.gen.delta(ResourceID(r as u8)) {
                Some(d) => {
                    let stock = match self.resources[r] {
                        Some(s) => s,
                        None => Stockpile::new(),
                    };
                    let sum: i128 = stock.current() as i128 + d;
                    let next: u32 = if sum < 0 {
                        0
                    } else if sum > stock.maximum() as i128 {
                        stock.maximum()
                    } else {
                        sum as u32
                    };
                    self.resources.set(r, Some(Stockpile::with(next, stock.maximum())));
                    if d < 0 && (next as i128) < -d {
                        short = true;
                    }
                },
                None => {},
            }
            proof {
                assert forall|k: int| 0 <= k < r implies self.resources@[k] == mid[k] by {}
                lemma_short_frame(mid, self.resources@, self.gen.spec_map(), r as int);
            }
            r = r + 1;
        }
        if short {
            self.gen.invalidate();
        }
        proof {
            assert forall|k: int| 0 <= k < ID_SPACE implies match #[trigger] self.gen.spec_map()[k] {
                Some(d) => self.resources@[k] is Some && current_of(self.resources@[k]) == clamped(
                    current_of(before[k]),
                    d,
                    maximum_of(before[k]),
                ) && maximum_of(self.resources@[k]) == maximum_of(before[k]),
                None => self.resources@[k] == before[k],
            } by {}
            assert forall|r: int| 0 <= r < ID_SPACE implies (#[trigger] self.spec_stocks()[r] matches Some(
                s,
            ) ==> 0 <= s.spec_current() <= s.spec_maximum()) by {
                match self.spec_stocks()[r] {
                    Some(s) => {
                        s.lemma_ranges();
                    },
                    None => {},
                }
            }
        }
    }

    /// The first resource of the list that the player cannot cover, if any.
    fn shortfall(&self, resources: &Vec<ResourceEntry>) -> (r: Option<ResourceID>)
        requires
            self.wf(),
        ensures
            r is None <==> covers(self.spec_stocks(), resources@),
            r matches Some(id) ==> names(resources@, id) && !affordable(self.spec_stocks(), resources@, id),
    {
        let mut i: usize = 0;
        while i < resources.len()
            invariant
                self.wf(),
                i <= resources@.len(),
                forall|k: int| 0 <= k < i ==> affordable(self.spec_stocks(), resources@, #[trigger] resources@[k].id),
            decreases resources@.len() - i,
        {
            let id = resources[i].id;
            proof {
                assert(names_in(resources@, resources@.len() as int, resources@[i as int].id));
            }
            match self.resources[id.0 as usize] {
                None => {
                    return Some(id);
                },
                Some(s) => {
                    if (s.current() as u128) < total_amount(resources, id) {
                        return Some(id);
                    }
                },
            }
            i = i + 1;
        }
        None
    }

    /// Offers a trade to `with`, setting aside at once what the player gives.
    ///
    /// Fails, changing nothing, if the player does not hold all that it offers.
    pub fn open_trade(&mut self, with: String, offer: Offer) -> (r: Result<(), EconomyError>)
        requires
            old(self).wf(),
        ensures
            final(self).wf(),
            r is Err <==> !covers(old(self).spec_stocks(), offer.offering@),
            r matches Err(e) ==> (e matches EconomyError::InsufficientStock(id) && names(offer.offering@, id)
                && !affordable(old(self).spec_stocks(), offer.offering@, id)),
            r is Err ==> *final(self) == *old(self),
            r is Ok ==> escrowed(old(self).spec_stocks(), offer.offering@, final(self).spec_stocks()),
            r is Ok ==> final(self).spec_trades().outbound@ == old(self).spec_trades().outbound@.push(
                Trade { peer: with, offer },
            ),
            r is Ok ==> final(self).spec_trades().inbound@ == old(self).spec_trades().inbound@,
            r is Ok ==> final(self).spec_owned() == old(self).spec_owned() && final(self).spec_people()
                == old(self).spec_people() && final(self).spec_gen().spec_dirty(),
    {
        match self.shortfall(&offer.offering) {
            Some(id) => {
                return Err(EconomyError::InsufficientStock(id));
            },
            None => {},
        }
        let ghost before = self.resources@;
        let list = &offer.offering;
        let mut j: usize = 0;
        while j < list.len()
            invariant
                self.wf(),
                j <= list@.len(),
                before.len() == ID_SPACE,
                covers(before, list@),
                self.resources@.len() == ID_SPACE,
                forall|r: int|
                    0 <= r < ID_SPACE ==> if names(list@, ResourceID(r as u8)) {
                        &&& #[trigger] self.resources@[r] is Some
                        &&& current_of(self.resources@[r]) == current_of(before[r]) - total_in(
                            list@,
                            j as int,
                            ResourceID(r as u8),
                        )
                        &&& maximum_of(self.resources@[r]) == maximum_of(before[r])
                    } else {
                        self.resources@[r] == before[r]
                    },
                self.buildings@ == old(self).buildings@,
                self.people == old(self).people,
                self.trades == old(self).trades,
                self.gen == old(self).gen,
            decreases list@.len() - j,
        {
            let e = list[j];
            let rid = e.id;
            proof {
                assert(names_in(list@, list@.len() as int, rid));
                assert(affordable(before, list@, list@[j as int].id));
                lemma_total_in(list@, list@.len() as int, rid);
                lemma_total_in(list@, j as int + 1, rid);
                assert(total_in(list@, j as int + 1, rid) == total_in(list@, j as int, rid) + e.amount);
                assert(ResourceID(rid.0 as u8) == rid);
            }
            let s = match self.resources[rid.0 as usize] {
                Some(s) => s,
                None => Stockpile::new(),
            };
            self.resources.set(rid.0 as usize, Some(Stockpile::with(s.current() - e.amount, s.maximum())));
            proof {
                assert forall|r: int| 0 <= r < ID_SPACE && r != rid.0 implies #[trigger] total_in(list@, j as int + 1, ResourceID(r as u8))
                    == total_in(list@, j as int, ResourceID(r as u8)) by {
                    assert(ResourceID(r as u8) != rid);
                }
            }
            j = j + 1;
        }
        proof {
            assert(escrowed(before, list@, self.resources@));
        }
        self.trades.outbound.push(Trade { peer: with, offer });
        self.gen.invalidate();
        Ok(())
    }

    /// Withdraws an offer the player made to `with`, giving back what it set aside;
    /// what a stockpile has no room for is lost.
    ///
    /// Fails, changing nothing, if no such offer is open.
    pub fn cancel_trade(&mut self, with: &String, offer: &Offer) -> (r: Result<(), EconomyError>)
        requires
            old(self).wf(),
        ensures
            final(self).wf(),
            r is Ok <==> exists|i: int|
                0 <= i < old(self).spec_trades().outbound@.len() && trade_matches(
                    #[trigger] old(self).spec_trades().outbound@[i],
                    with@,
                    *offer,
                ),
            r is Err ==> r == Err::<(), EconomyError>(EconomyError::NoSuchTrade) && *final(self) == *old(self),
            r is Ok ==> refunded_in(
                old(self).spec_stocks(),
                offer.offering@,
                offer.offering@.len() as int,
                final(self).spec_stocks(),
            ),
            r is Ok ==> exists|i: int|
                0 <= i < old(self).spec_trades().outbound@.len() && trade_matches(
                    #[trigger] old(self).spec_trades().outbound@[i],
                    with@,
                    *offer,
                ) && (forall|j: int|
                    0 <= j < i ==> !trade_matches(old(self).spec_trades().outbound@[j], with@, *offer))
                    && final(self).spec_trades().outbound@ == old(self).spec_trades().outbound@.remove(i),
            r is Ok ==> final(self).spec_trades().inbound@ == old(self).spec_trades().inbound@,
            r is Ok ==> final(self).spec_owned() == old(self).spec_owned() && final(self).spec_people()
                == old(self).spec_people() && final(self).spec_gen().spec_dirty(),
    {
        let ghost outbound0 = self.trades.outbound@;
        match remove_offer(with, offer, &mut self.trades.outbound) {
            Ok(()) => {},
            Err(e) => {
                return Err(e);
            },
        }
        proof {
            assert(outbound0 == old(self).spec_trades().outbound@);
            let i = choose|i: int|
                0 <= i < outbound0.len() && trade_matches(#[trigger] outbound0[i], with@, *offer) && (forall|j: int|
                    0 <= j < i ==> !trade_matches(outbound0[j], with@, *offer)) && self.trades.outbound@
                    == outbound0.remove(i);
            assert(trade_matches(old(self).spec_trades().outbound@[i], with@, *offer));
        }
        let ghost before = self.resources@;
        let ghost trades1 = self.trades;
        let list = &offer.offering;
        let mut j: usize = 0;
        while j < list.len()
            invariant
                self.wf(),
                j <= list@.len(),
                before.len() == ID_SPACE,
                refunded_in(before, list@, j as int, self.resources@),
                self.buildings@ == old(self).buildings@,
                self.people == old(self).people,
                self.trades == trades1,
                self.gen == old(self).gen,
            decreases list@.len() - j,
        {
            let e = list[j];
            let rid = e.id;
            let s = match self.resources[rid.0 as usize] {
                Some(s) => s,
                None => Stockpile::new(),
            };
            let sum: u64 = s.current() as u64 + e.amount as u64;
            let next: u32 = if sum > s.maximum() as u64 {
                s.maximum()
            } else {
                sum as u32
            };
            let ghost mid = self.resources@;
            self.resources.set(rid.0 as usize, Some(Stockpile::with(next, s.maximum())));
            proof {
                lemma_total_in(list@, j as int, rid);
                assert(total_in(list@, j as int + 1, rid) == total_in(list@, j as int, rid) + e.amount);
                assert(names_in(list@, j as int + 1, rid));
                assert forall|r: int| 0 <= r < ID_SPACE && r != rid.0 implies #[trigger] total_in(list@, j as int + 1, ResourceID(r as u8))
                    == total_in(list@, j as int, ResourceID(r as u8)) && names_in(list@, j as int + 1, ResourceID(r as u8))
                    == names_in(list@, j as int, ResourceID(r as u8)) by {
                    assert(ResourceID(r as u8) != rid);
                    if names_in(list@, j as int + 1, ResourceID(r as u8)) {
                        let k = choose|k: int| 0 <= k < j as int + 1 && list@[k].id == ResourceID(r as u8);
                        assert(k < j);
                    }
                }
                assert(ResourceID(rid.0 as u8) == rid);
                assert(refunded_in(before, list@, j as int + 1, self.resources@));
            }
            j = j + 1;
        }
        self.gen.invalidate();
        Ok(())
    }

    /// Records an offer that `with` made to the player.
    pub fn receive_trade(&mut self, with: String, offer: Offer)
        requires
            old(self).wf(),
        ensures
            final(self).wf(),
            final(self).spec_trades().inbound@ == old(self).spec_trades().inbound@.push(Trade { peer: with, offer }),
            final(self).spec_trades().outbound@ == old(self).spec_trades().outbound@,
            final(self).spec_stocks() == old(self).spec_stocks(),
            final(self).spec_owned() == old(self).spec_owned(),
            final(self).spec_gen() == old(self).spec_gen(),
    {
        self.trades.inbound.push(Trade { peer: with, offer });
    }

    /// Accepts an offer that `with` made to the player.
    ///
    /// Fails if the player does not hold all that the offer asks for, or if no such
    /// offer is open; either way nothing changes.
    pub fn accept_trade(&mut self, with: &String, offer: &Offer) -> (r: Result<(), EconomyError>)
        requires
            old(self).wf(),
        ensures
            final(self).wf(),
            r is Ok <==> covers(old(self).spec_stocks(), offer.requesting@) && exists|i: int|
                0 <= i < old(self).spec_trades().inbound@.len() && trade_matches(
                    #[trigger] old(self).spec_trades().inbound@[i],
                    with@,
                    *offer,
                ),
            r matches Err(EconomyError::InsufficientStock(id)) ==> names(offer.requesting@, id)
                && !affordable(old(self).spec_stocks(), offer.requesting@, id),
            !covers(old(self).spec_stocks(), offer.requesting@) ==> r is Err && r != Err::<(), EconomyError>(EconomyError::NoSuchTrade),
            covers(old(self).spec_stocks(), offer.requesting@) && r is Err ==> r == Err::<(), EconomyError>(EconomyError::NoSuchTrade),
            r is Err ==> *final(self) == *old(self),
            r is Ok ==> exists|i: int|
                0 <= i < old(self).spec_trades().inbound@.len() && trade_matches(
                    #[trigger] old(self).spec_trades().inbound@[i],
                    with@,
                    *offer,
                ) && (forall|j: int|
                    0 <= j < i ==> !trade_matches(old(self).spec_trades().inbound@[j], with@, *offer))
                    && final(self).spec_trades().inbound@ == old(self).spec_trades().inbound@.remove(i),
            r is Ok ==> final(self).spec_trades().outbound@ == old(self).spec_trades().outbound@,
            r is Ok ==> final(self).spec_stocks() == old(self).spec_stocks() && final(self).spec_owned()
                == old(self).spec_owned() && final(self).spec_gen() == old(self).spec_gen(),
    {
        match self.shortfall(&offer.requesting) {
            Some(id) => Err(EconomyError::InsufficientStock(id)),
            None => {
                let ghost inbound0 = self.trades.inbound@;
                let r = remove_offer(with, offer, &mut self.trades.inbound);
                proof {
                    assert(inbound0 == old(self).spec_trades().inbound@);
                    if r is Ok {
                        let i = choose|i: int|
                            0 <= i < inbound0.len() && trade_matches(#[trigger] inbound0[i], with@, *offer) && (forall|j: int|
                                0 <= j < i ==> !trade_matches(inbound0[j], with@, *offer)) && self.trades.inbound@
                                == inbound0.remove(i);
                        assert(trade_matches(old(self).spec_trades().inbound@[i], with@, *offer));
                    } else {
                        assert forall|i: int| 0 <= i < inbound0.len() implies !trade_matches(
                            #[trigger] old(self).spec_trades().inbound@[i],
                            with@,
                            *offer,
                        ) by {
                            assert(old(self).spec_trades().inbound@[i] == inbound0[i]);
                        }
                    }
                }
                r
            },
        }
    }

    /// Takes `amount` of resource `id` out of its stockpile. A missing stockpile
    /// counts as an empty one of the default size, and is made on success.
    ///
    /// Fails, changing nothing, if the player holds less than `amount` of it.
    pub fn withdraw(&mut self, id: ResourceID, amount: u32) -> (r: Result<(), EconomyError>)
        requires
            old(self).wf(),
        ensures
            final(self).wf(),
            r is Err <==> current_of(old(self).spec_stocks()[id.0 as int]) < amount,
            r is Err ==> r == Err::<(), EconomyError>(EconomyError::InsufficientStock(id)) && *final(self) == *old(self),
            r is Ok ==> restocked(*old(self), *final(self), id, current_of(old(self).spec_stocks()[id.0 as int]) - amount),
    {
        let stock = match self.resources[id.0 as usize] {
            Some(s) => s,
            None => Stockpile::new(),
        };
        if stock.current() < amount {
            return Err(EconomyError::InsufficientStock(id));
        }
        self.resources.set(id.0 as usize, Some(Stockpile::with(stock.current() - amount, stock.maximum())));
        self.gen.invalidate();
        Ok(())
    }
}

/// Stock after a tick's change: the sum, kept between zero and the room.
pub open spec fn clamped(current: int, delta: int, maximum: int) -> int {
    if current + delta < 0 {
        0
    } else if current + delta > maximum {
        maximum
    } else {
        current + delta
    }
}

/// Some resource below `n` with a negative change holds less than one more tick
/// would draw.
pub open spec fn short_below(stocks: Seq<Option<Stockpile>>, m: Seq<Option<int>>, n: int) -> bool
    decreases n,
{
    if n <= 0 {
        false
    } else {
        short_below(stocks, m, n - 1) || (m[n - 1] matches Some(d) && d < 0 && current_of(
            stocks[n - 1],
        ) < -d)
    }
}

/// `after` holds the stocks `before` with the net changes `m` applied and kept
/// within bounds; a resource without a change keeps its stockpile, or its lack of one.
pub open spec fn applied(before: Seq<Option<Stockpile>>, m: Seq<Option<int>>, after: Seq<Option<Stockpile>>) -> bool {
    &&& after.len() == before.len()
    &&& forall|r: int|
        0 <= r < before.len() ==> match #[trigger] m[r] {
            Some(d) => after[r] is Some && current_of(after[r]) == clamped(
                current_of(before[r]),
                d,
                maximum_of(before[r]),
            ) && maximum_of(after[r]) == maximum_of(before[r]),
            None => after[r] == before[r],
        }
}

/// The stocks hold, for each resource of the list, at least the list's total of it.
pub open spec fn covers(stocks: Seq<Option<Stockpile>>, list: Seq<ResourceEntry>) -> bool {
    forall|i: int| 0 <= i < list.len() ==> affordable(stocks, list, #[trigger] list[i].id)
}

/// The stockpile of `r` exists and holds at least the list's total of it.
pub open spec fn affordable(stocks: Seq<Option<Stockpile>>, list: Seq<ResourceEntry>, r: ResourceID) -> bool {
    stocks[r.0 as int] is Some && current_of(stocks[r.0 as int]) >= total_of(list, r)
}

/// `after` is `before` less what the list holds, resource by resource.
pub open spec fn escrowed(before: Seq<Option<Stockpile>>, list: Seq<ResourceEntry>, after: Seq<Option<Stockpile>>) -> bool {
    &&& after.len() == before.len()
    &&& forall|r: int|
        0 <= r < before.len() ==> if names(list, ResourceID(r as u8)) {
            &&& #[trigger] after[r] is Some
            &&& current_of(after[r]) == current_of(before[r]) - total_of(list, ResourceID(r as u8))
            &&& maximum_of(after[r]) == maximum_of(before[r])
        } else {
            after[r] == before[r]
        }
}

/// Stock after a refund: the sum, up to the room.
pub open spec fn refilled(current: int, amount: int, maximum: int) -> int {
    if current + amount > maximum {
        maximum
    } else {
        current + amount
    }
}

/// `after` is `before` with what the first `n` entries of the list hold given back,
/// beyond the room of each stockpile thrown away; a stockpile is made where one is
/// missing.
pub open spec fn refunded_in(before: Seq<Option<Stockpile>>, list: Seq<ResourceEntry>, n: int, after: Seq<Option<Stockpile>>) -> bool {
    &&& after.len() == before.len()
    &&& forall|r: int|
        0 <= r < before.len() ==> if names_in(list, n, ResourceID(r as u8)) {
            &&& #[trigger] after[r] is Some
            &&& current_of(after[r]) == refilled(
                current_of(before[r]),
                total_in(list, n, ResourceID(r as u8)),
                maximum_of(before[r]),
            )
            &&& maximum_of(after[r]) == maximum_of(before[r])
        } else {
            after[r] == before[r]
        }
}

/// `p1` is `p0` one tick later: the cache brought up to date from `p0`'s buildings
/// and stocks if it was out of date, each net change applied within bounds, and the
/// cache marked out of date where the next tick could not draw as much.
pub open spec fn ticked(p0: Player, p1: Player, catalog: AllBuildings, tree: DependencyTree) -> bool {
    &&& p0.spec_gen().spec_dirty() ==> p1.spec_gen().spec_ratios() == solved_ratios(
        catalog,
        tree,
        p0.spec_owned(),
        p0.spec_stocks(),
    ) && p1.spec_gen().spec_map() == gen_map(catalog, p0.spec_owned(), p1.spec_gen().spec_ratios())
    &&& !p0.spec_gen().spec_dirty() ==> p1.spec_gen().spec_ratios() == p0.spec_gen().spec_ratios()
        && p1.spec_gen().spec_map() == p0.spec_gen().spec_map()
    &&& applied(p0.spec_stocks(), p1.spec_gen().spec_map(), p1.spec_stocks())
    &&& p1.spec_gen().spec_dirty() == short_below(p1.spec_stocks(), p1.spec_gen().spec_map(), ID_SPACE as int)
    &&& p1.spec_owned() == p0.spec_owned()
    &&& p1.spec_people() == p0.spec_people()
    &&& p1.spec_trades() == p0.spec_trades()
    &&& p1.spec_lands() == p0.spec_lands()
    &&& p1.spec_contacts() == p0.spec_contacts()
}

/// Posts of each building type of the catalog, per building.
pub open spec fn posts_per(catalog: AllBuildings, i: int) -> int {
    match catalog.spec_table()[i] {
        Some(bd) => bd.max_workers as int,
        None => 0,
    }
}

/// Each building type has as many posts as its count times the posts per building
/// that the catalog gives it.
pub open spec fn posts_match(p: Player, catalog: AllBuildings) -> bool {
    forall|i: int|
        0 <= i < ID_SPACE ==> (#[trigger] p.spec_owned()[i]).spec_capacity() == p.spec_owned()[i].spec_count()
            * posts_per(catalog, i)
}

/// Counts and posts unchanged keep the posts in line with the catalog.
pub proof fn lemma_posts_frame(p0: Player, p1: Player, catalog: AllBuildings)
    requires
        posts_match(p0, catalog),
        forall|i: int|
            0 <= i < ID_SPACE ==> (#[trigger] p1.spec_owned()[i]).spec_count() == p0.spec_owned()[i].spec_count()
                && p1.spec_owned()[i].spec_capacity() == p0.spec_owned()[i].spec_capacity(),
    ensures
        posts_match(p1, catalog),
{
    assert forall|i: int| 0 <= i < ID_SPACE implies (#[trigger] p1.spec_owned()[i]).spec_capacity()
        == p1.spec_owned()[i].spec_count() * posts_per(catalog, i) by {
        assert(p0.spec_owned()[i].spec_capacity() == p0.spec_owned()[i].spec_count() * posts_per(catalog, i));
    }
}

/// Building the catalog's type keeps the posts in line with the catalog.
pub proof fn lemma_built_posts(
    p0: Player,
    t0: Tile,
    pos: Position,
    id: BuildingID,
    amount: int,
    p1: Player,
    t1: Tile,
    catalog: AllBuildings,
)
    requires
        p0.wf(),
        posts_match(p0, catalog),
        catalog.spec_get(id) is Some,
        built(p0, t0, pos, id, catalog.spec_get(id)->0, amount, p1, t1),
    ensures
        posts_match(p1, catalog),
{
    let bd = catalog.spec_get(id)->0;
    assert forall|i: int| 0 <= i < ID_SPACE implies (#[trigger] p1.spec_owned()[i]).spec_capacity()
        == p1.spec_owned()[i].spec_count() * posts_per(catalog, i) by {
        assert(p0.spec_owned()[i].spec_capacity() == p0.spec_owned()[i].spec_count() * posts_per(catalog, i));
        if i == id.0 {
            let c = p0.spec_owned()[i].spec_count();
            let m = bd.max_workers as int;
            assert(c * m + amount * m == (c + amount) * m) by (nonlinear_arith);
        } else {
            assert(p1.spec_owned()[i] == p0.spec_owned()[i]);
        }
    }
}

/// Tearing down buildings of the catalog's type keeps the posts in line with the
/// catalog.
pub proof fn lemma_demolished_posts(
    p0: Player,
    t0: Tile,
    pos: Position,
    id: BuildingID,
    amount: int,
    p1: Player,
    t1: Tile,
    catalog: AllBuildings,
)
    requires
        p0.wf(),
        posts_match(p0, catalog),
        catalog.spec_get(id) is Some,
        demolished(p0, t0, pos, id, catalog.spec_get(id)->0, amount, p1, t1),
    ensures
        posts_match(p1, catalog),
{
    let bd = catalog.spec_get(id)->0;
    assert forall|i: int| 0 <= i < ID_SPACE implies (#[trigger] p1.spec_owned()[i]).spec_capacity()
        == p1.spec_owned()[i].spec_count() * posts_per(catalog, i) by {
        assert(p0.spec_owned()[i].spec_capacity() == p0.spec_owned()[i].spec_count() * posts_per(catalog, i));
        if i == id.0 {
            let c = p0.spec_owned()[i].spec_count();
            let m = bd.max_workers as int;
            assert(c * m - amount * m == (c - amount) * m) by (nonlinear_arith);
        } else {
            assert(p1.spec_owned()[i] == p0.spec_owned()[i]);
        }
    }
}

/// Hiring or firing keeps the posts in line with the catalog.
pub proof fn lemma_staffed_posts(p0: Player, p1: Player, id: BuildingID, hired: int, catalog: AllBuildings)
    requires
        p0.wf(),
        posts_match(p0, catalog),
        staffed(p0, p1, id, hired),
    ensures
        posts_match(p1, catalog),
{
    assert forall|i: int| 0 <= i < ID_SPACE implies (#[trigger] p1.spec_owned()[i]).spec_count()
        == p0.spec_owned()[i].spec_count() && p1.spec_owned()[i].spec_capacity()
        == p0.spec_owned()[i].spec_capacity() by {
        if i != id.0 {
            assert(p1.spec_owned()[i] == p0.spec_owned()[i]);
        }
    }
    lemma_posts_frame(p0, p1, catalog);
}

/// `p1` is `p0` with `hired` people employed in buildings of type `id`, and the
/// cache marked out of date; nothing else changed.
pub open spec fn staffed(p0: Player, p1: Player, id: BuildingID, hired: int) -> bool {
    let o0 = p0.spec_owned()[id.0 as int];
    let o1 = p1.spec_owned()[id.0 as int];
    &&& o1.spec_hired() == hired
    &&& o1.spec_count() == o0.spec_count()
    &&& o1.spec_capacity() == o0.spec_capacity()
    &&& forall|q: Position| #[trigger] o1.spec_placed(q) == o0.spec_placed(q)
    &&& p1.same_but_building(p0, id)
    &&& p1.spec_gen().spec_dirty()
}

/// `p1` is `p0` with `current` of resource `id` in stock, in a stockpile of the
/// same room (made if missing), and the cache marked out of date; nothing else
/// changed.
pub open spec fn restocked(p0: Player, p1: Player, id: ResourceID, current: int) -> bool {
    &&& (p1.spec_stocks()[id.0 as int] matches Some(s) && s.spec_current() == current && s.spec_maximum()
        == maximum_of(p0.spec_stocks()[id.0 as int]))
    &&& p1.spec_stocks().len() == p0.spec_stocks().len()
    &&& forall|i: int|
        0 <= i < p0.spec_stocks().len() && i != id.0 ==> #[trigger] p1.spec_stocks()[i] == p0.spec_stocks()[i]
    &&& p1.same_but_stocks(p0)
    &&& p1.spec_gen().spec_dirty()
}

/// The count and the posts of building type `id`, and the used slots of the type on
/// tile `t`, stay within `u32` after `amount` more are built.
pub open spec fn fits(p: Player, t: Tile, id: BuildingID, bd: Building, amount: int) -> bool {
    &&& p.spec_owned()[id.0 as int].spec_count() + amount <= u32::MAX
    &&& p.spec_owned()[id.0 as int].spec_capacity() + amount * bd.max_workers <= u32::MAX
    &&& t.spec_slot(id) matches Some(s) ==> s.used + amount <= u32::MAX
}

/// `p1` and `t1` are `p0` and `t0` after `amount` buildings of type `id` went up at
/// `pos`.
pub open spec fn built(
    p0: Player,
    t0: Tile,
    pos: Position,
    id: BuildingID,
    bd: Building,
    amount: int,
    p1: Player,
    t1: Tile,
) -> bool {
    let o0 = p0.spec_owned()[id.0 as int];
    let o1 = p1.spec_owned()[id.0 as int];
    &&& o1.spec_count() == o0.spec_count() + amount
    &&& o1.spec_capacity() == o0.spec_capacity() + amount * bd.max_workers
    &&& o1.spec_hired() == o0.spec_hired()
    &&& o1.spec_placed(pos) == o0.spec_placed(pos) + amount
    &&& forall|q: Position| q != pos ==> #[trigger] o1.spec_placed(q) == o0.spec_placed(q)
    &&& p1.same_but_building(p0, id)
    &&& p1.spec_gen().spec_dirty()
    &&& match t0.spec_slot(id) {
        Some(sl) => sl.used + amount <= u32::MAX && t1.spec_slots() == t0.spec_slots().update(
            id.0 as int,
            Some(crate::tile::Slots { used: (sl.used + amount) as u32, total: sl.total }),
        ),
        None => t1.spec_slots() == t0.spec_slots(),
    }
}

/// What a demolition of `amount` buildings of type `id` at `pos` needs: they stand
/// there, their posts are counted, and the tile's slots for the type are marked used.
pub open spec fn demolishable(p: Player, t: Tile, pos: Position, id: BuildingID, bd: Building, amount: int) -> bool {
    let o = p.spec_owned()[id.0 as int];
    &&& amount <= o.spec_placed(pos)
    &&& amount * bd.max_workers <= o.spec_capacity()
    &&& t.spec_slot(id) matches Some(s) ==> amount <= s.used
}

/// `p1` and `t1` are `p0` and `t0` after `amount` buildings of type `id` at `pos`
/// were torn down and the people beyond the remaining posts let go.
pub open spec fn demolished(
    p0: Player,
    t0: Tile,
    pos: Position,
    id: BuildingID,
    bd: Building,
    amount: int,
    p1: Player,
    t1: Tile,
) -> bool {
    let o0 = p0.spec_owned()[id.0 as int];
    let o1 = p1.spec_owned()[id.0 as int];
    &&& o1.spec_count() == o0.spec_count() - amount
    &&& o1.spec_capacity() == o0.spec_capacity() - amount * bd.max_workers
    &&& o1.spec_hired() == if o0.spec_hired() <= o1.spec_capacity() {
        o0.spec_hired()
    } else {
        o1.spec_capacity()
    }
    &&& o1.spec_placed(pos) == o0.spec_placed(pos) - amount
    &&& forall|q: Position| q != pos ==> #[trigger] o1.spec_placed(q) == o0.spec_placed(q)
    &&& p1.same_but_building(p0, id)
    &&& p1.spec_gen().spec_dirty()
    &&& match t0.spec_slot(id) {
        Some(sl) => t1.spec_slots() == t0.spec_slots().update(
            id.0 as int,
            Some(crate::tile::Slots { used: (sl.used - amount) as u32, total: sl.total }),
        ),
        None => t1.spec_slots() == t0.spec_slots(),
    }
}

proof fn lemma_short_frame(a: Seq<Option<Stockpile>>, b: Seq<Option<Stockpile>>, m: Seq<Option<int>>, n: int)
    requires
        0 <= n <= a.len(),
        a.len() == b.len(),
        forall|k: int| 0 <= k < n ==> a[k] == b[k],
    ensures
        short_below(a, m, n) == short_below(b, m, n),
    decreases n,
{
    if n > 0 {
        lemma_short_frame(a, b, m, n - 1);
    }
}

/// Putting up buildings and then tearing down as many at the same place gives back
/// the count, the posts, the people employed, the placements and the tile's slots.
pub proof fn lemma_build_then_demolish(
    p0: Player,
    t0: Tile,
    pos: Position,
    id: BuildingID,
    bd: Building,
    amount: int,
    p1: Player,
    t1: Tile,
    p2: Player,
    t2: Tile,
)
    requires
        p0.wf(),
        t0.wf(),
        0 <= amount <= u32::MAX,
        built(p0, t0, pos, id, bd, amount, p1, t1),
        demolished(p1, t1, pos, id, bd, amount, p2, t2),
    ensures
        p2.spec_owned()[id.0 as int].spec_count() == p0.spec_owned()[id.0 as int].spec_count(),
        p2.spec_owned()[id.0 as int].spec_capacity() == p0.spec_owned()[id.0 as int].spec_capacity(),
        p2.spec_owned()[id.0 as int].spec_hired() == p0.spec_owned()[id.0 as int].spec_hired(),
        forall|q: Position| #[trigger] p2.spec_owned()[id.0 as int].spec_placed(q) == p0.spec_owned()[id.0 as int].spec_placed(q),
        t2.spec_slots() == t0.spec_slots(),
        p2.spec_stocks() == p0.spec_stocks(),
{
    assert(p0.spec_owned()[id.0 as int].wf());
    assert forall|q: Position| #[trigger] p2.spec_owned()[id.0 as int].spec_placed(q) == p0.spec_owned()[id.0 as int].spec_placed(q) by {
        if q != pos {
            assert(p1.spec_owned()[id.0 as int].spec_placed(q) == p0.spec_owned()[id.0 as int].spec_placed(q));
        }
    }
    if t0.spec_slot(id) is Some {
        let s0 = t0.spec_slot(id)->0;
        assert(t1.spec_slot(id) == Some(crate::tile::Slots { used: (s0.used + amount) as u32, total: s0.total }));
        assert(t2.spec_slot(id) == Some(s0));
        assert(t2.spec_slots() =~= t0.spec_slots());
    }
}

} // verus!
