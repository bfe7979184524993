use crate::buildings::{catalog_valid, load_buildings, AllBuildings, DataError, DependencyTree};
use crate::ids::Position;
use crate::player::{
    buildable, built, covers, current_of, demolishable, demolished, escrowed, fits, maximum_of, restocked, staffed,
    ticked, posts_match, lemma_built_posts, lemma_demolished_posts, lemma_staffed_posts, EconomyError, Player,
};
use crate::trade::Trade;
use crate::resources::AllResources;
use crate::response::{Action, Event, Exception, World};
use crate::tile::Tile;
use vstd::prelude::*;

verus! {

/// Index of the first entry named `name` among the first `n`, or `-1`.
pub open spec fn index_below(players: Seq<(String, Player)>, name: Seq<char>, n: int) -> int
    decreases n,
{
    if n <= 0 {
        -1
    } else if index_below(players, name, n - 1) >= 0 {
        index_below(players, name, n - 1)
    } else if players[n - 1].0@ == name {
        n - 1
    } else {
        -1
    }
}

/// Index of the player named `name`, or `-1` if there is none.
pub open spec fn index_of(players: Seq<(String, Player)>, name: Seq<char>) -> int {
    index_below(players, name, players.len() as int)
}

proof fn lemma_index_below(players: Seq<(String, Player)>, name: Seq<char>, n: int)
    requires
        0 <= n <= players.len(),
    ensures
        -1 <= index_below(players, name, n) < n,
        index_below(players, name, n) >= 0 ==> players[index_below(players, name, n)].0@ == name,
        index_below(players, name, n) == -1 <==> forall|k: int| 0 <= k < n ==> players[k].0@ != name,
    decreases n,
{
    if n > 0 {
        lemma_index_below(players, name, n - 1);
    }
}

/// Index of the first tile at `pos` among the first `n`, or `-1`.
pub open spec fn tile_at(world: Seq<(Position, Tile)>, pos: Position, n: int) -> int
    decreases n,
{
    if n <= 0 {
        -1
    } else if tile_at(world, pos, n - 1) >= 0 {
        tile_at(world, pos, n - 1)
    } else if world[n - 1].0 == pos {
        n - 1
    } else {
        -1
    }
}

proof fn lemma_tile_at(world: Seq<(Position, Tile)>, pos: Position, n: int)
    requires
        0 <= n <= world.len(),
    ensures
        -1 <= tile_at(world, pos, n) < n,
        tile_at(world, pos, n) >= 0 ==> world[tile_at(world, pos, n)].0 == pos,
        tile_at(world, pos, n) == -1 <==> forall|k: int| 0 <= k < n ==> world[k].0 != pos,
    decreases n,
{
    if n > 0 {
        lemma_tile_at(world, pos, n - 1);
    }
}

proof fn lemma_tile_at_from(world: Seq<(Position, Tile)>, pos: Position, k: int, n: int)
    requires
        0 <= k < n <= world.len(),
        world[k].0 == pos,
        tile_at(world, pos, k) == -1,
    ensures
        tile_at(world, pos, n) == k,
    decreases n,
{
    if n > k + 1 {
        lemma_tile_at_from(world, pos, k, n - 1);
    }
}

/// How a refused command is told to the client.
pub open spec fn exception_of(e: EconomyError) -> Exception {
    match e {
        EconomyError::InsufficientSlotOrResource(b) => Exception::InsufficientSlot(b),
        EconomyError::InsufficientStock(r) => Exception::InsufficientResource(r),
        EconomyError::StockpileFull(r) => Exception::InsufficientStockpile(r),
        EconomyError::NoSuchTrade => Exception::NotFound,
        _ => Exception::PlaceHolder,
    }
}

/// Tells a refused command to the client.
pub fn to_exception(e: EconomyError) -> (x: Exception)
    ensures
        x == exception_of(e),
{
    match e {
        EconomyError::InsufficientSlotOrResource(b) => Exception::InsufficientSlot(b),
        EconomyError::InsufficientStock(r) => Exception::InsufficientResource(r),
        EconomyError::StockpileFull(r) => Exception::InsufficientStockpile(r),
        EconomyError::NoSuchTrade => Exception::NotFound,
        _ => Exception::PlaceHolder,
    }
}

/// The shared state of a game: its map and its players.
#[derive(Debug)]
pub struct GameData {
    world: Vec<(Position, Tile)>,
    players: Vec<(String, Player)>,
}

/// A running game: the catalog, read by all, and each player's realm, changed one
/// command or one tick at a time.
#[derive(Debug)]
pub struct Game {
    data: GameData,
    buildings: AllBuildings,
    resources: AllResources,
    dep_tree: DependencyTree,
}

impl Game {
    pub closed spec fn spec_players(&self) -> Seq<(String, Player)> {
        self.data.players@
    }

    pub closed spec fn spec_world(&self) -> Seq<(Position, Tile)> {
        self.data.world@
    }

    pub closed spec fn spec_catalog(&self) -> AllBuildings {
        self.buildings
    }

    pub closed spec fn spec_resources(&self) -> AllResources {
        self.resources
    }

    pub closed spec fn spec_tree(&self) -> DependencyTree {
        self.dep_tree
    }

    /// A valid catalog with its index, and every player and tile well formed.
    pub open spec fn wf(&self) -> bool {
        &&& self.spec_catalog().wf()
        &&& self.spec_catalog().all_wf()
        &&& self.spec_tree().indexes(self.spec_catalog())
        &&& forall|i: int|
            0 <= i < self.spec_players().len() ==> (#[trigger] self.spec_players()[i]).1.wf() && posts_match(
                self.spec_players()[i].1,
                self.spec_catalog(),
            )
        &&& forall|i: int| 0 <= i < self.spec_world().len() ==> (#[trigger] self.spec_world()[i]).1.wf()
    }

    /// A game without players or tiles over a catalog that is checked first.
    pub fn new(buildings: AllBuildings, resources: AllResources) -> (r: Result<Game, DataError>)
        requires
            buildings.wf(),
            resources.wf(),
        ensures
            r is Ok <==> catalog_valid(buildings, resources),
            r matches Ok(g) ==> g.wf() && g.spec_players().len() == 0 && g.spec_world().len() == 0
                && g.spec_catalog() == buildings,
    {
        match load_buildings(buildings, &resources) {
            Ok((buildings, dep_tree)) => Ok(
                Game {
                    data: GameData { world: Vec::new(), players: Vec::new() },
                    buildings,
                    resources,
                    dep_tree,
                },
            ),
            Err(e) => Err(e),
        }
    }

    pub fn get_players(&self) -> (p: &Vec<(String, Player)>)
        ensures
            p@ == self.spec_players(),
    {
        &self.data.players
    }

    pub fn get_buildings(&self) -> (b: &AllBuildings)
        ensures
            *b == self.spec_catalog(),
    {
        &self.buildings
    }

    pub fn get_resources(&self) -> (r: &AllResources)
        ensures
            *r == self.spec_resources(),
    {
        &self.resources
    }

    /// The map: each tile with its position.
    pub fn get_world(&self) -> (w: &Vec<(Position, Tile)>)
        ensures
            w@ == self.spec_world(),
    {
        &self.data.world
    }

    /// Registers `player`, rebuilt from a save file, under `name`. Its posts must
    /// agree with the game's catalog (see `Player::posts_agree`).
    ///
    /// Fails, changing nothing, if the name is taken.
    pub fn restore_player(&mut self, name: String, player: Player) -> (r: Result<(), Exception>)
        requires
            old(self).wf(),
            player.wf(),
            posts_match(player, old(self).spec_catalog()),
        ensures
            final(self).wf(),
            r is Err <==> index_of(old(self).spec_players(), name@) >= 0,
            r is Err ==> r == Err::<(), Exception>(Exception::AlreadyRegistered) && *final(self) == *old(self),
            r is Ok ==> final(self).spec_players() == old(self).spec_players().push((name, player)),
    {
        if self.find_player(&name).is_some() {
            return Err(Exception::AlreadyRegistered);
        }
        self.data.players.push((name, player));
        proof {
            assert(self.spec_world() == old(self).spec_world());
            assert forall|i: int| 0 <= i < self.spec_players().len() implies (#[trigger] self.spec_players()[i]).1.wf()
                && posts_match(self.spec_players()[i].1, self.spec_catalog()) by {
                if i < old(self).spec_players().len() {
                    assert(self.spec_players()[i] == old(self).spec_players()[i]);
                }
            }
        }
        Ok(())
    }

    fn find_player(&self, name: &String) -> (i: Option<usize>)
        ensures
            i matches Some(k) ==> k as int == index_of(self.spec_players(), name@) && k < self.spec_players().len(),
            i is None ==> index_of(self.spec_players(), name@) == -1,
            -1 <= index_of(self.spec_players(), name@) < self.spec_players().len(),
    {
        proof {
            lemma_index_below(self.spec_players(), name@, self.spec_players().len() as int);
        }
        let mut k: usize = 0;
        while k < self.data.players.len()
            invariant
                k <= self.spec_players().len(),
                forall|j: int| 0 <= j < k ==> self.spec_players()[j].0@ != name@,
            decreases self.spec_players().len() - k,
        {
            if self.data.players[k].0 == *name {
                proof {
                    lemma_index_below(self.spec_players(), name@, k as int);
                    lemma_index_below_prefix(self.spec_players(), name@, k as int);
                }
                return Some(k);
            }
            k = k + 1;
        }
        None
    }

    /// Index of the first tile at `pos`, or `-1`.
    pub open spec fn tile_of(&self, pos: Position) -> int {
        tile_at(self.spec_world(), pos, self.spec_world().len() as int)
    }

    fn find_tile(&self, pos: &Position) -> (i: Option<usize>)
        ensures
            i matches Some(k) ==> k < self.spec_world().len() && self.spec_world()[k as int].0 == *pos
                && k as int == self.tile_of(*pos),
            i is None ==> forall|k: int| 0 <= k < self.spec_world().len() ==> self.spec_world()[k].0 != *pos,
            i is None <==> self.tile_of(*pos) == -1,
    {
        proof {
            lemma_tile_at(self.spec_world(), *pos, self.spec_world().len() as int);
        }
        let mut k: usize = 0;
        while k < self.data.world.len()
            invariant
                k <= self.spec_world().len(),
                forall|j: int| 0 <= j < k ==> self.spec_world()[j].0 != *pos,
            decreases self.spec_world().len() - k,
        {
            if self.data.world[k].0 == *pos {
                proof {
                    lemma_tile_at(self.spec_world(), *pos, k as int);
                    lemma_tile_at_from(self.spec_world(), *pos, k as int, self.spec_world().len() as int);
                }
                return Some(k);
            }
            k = k + 1;
        }
        None
    }

    /// Registers a new player under `name`, with the starting buildings.
    ///
    /// Fails, changing nothing, if the name is taken.
    pub fn add_player(&mut self, name: String) -> (r: Result<(), Exception>)
        requires
            old(self).wf(),
        ensures
            final(self).wf(),
            r is Err <==> index_of(old(self).spec_players(), name@) >= 0,
            r is Err ==> r == Err::<(), Exception>(Exception::AlreadyRegistered) && *final(self) == *old(self),
            r is Ok ==> final(self).spec_players().len() == old(self).spec_players().len() + 1
                && final(self).spec_players().drop_last() == old(self).spec_players()
                && final(self).spec_players().last().0@ == name@
                && final(self).spec_players().last().1.starting_below(old(self).spec_catalog(), 2),
            final(self).spec_world() == old(self).spec_world(),
            final(self).spec_catalog() == old(self).spec_catalog(),
    {
        if self.find_player(&name).is_some() {
            return Err(Exception::AlreadyRegistered);
        }
        let p = Player::new(&self.buildings);
        self.data.players.push((name, p));
        proof {
            assert(self.spec_players().drop_last() =~= old(self).spec_players());
            assert(self.spec_world() == old(self).spec_world());
            assert forall|i: int| 0 <= i < self.spec_players().len() implies (#[trigger] self.spec_players()[i]).1.wf() by {
                if i < old(self).spec_players().len() {
                    assert(self.spec_players()[i] == old(self).spec_players()[i]);
                }
            }
        }
        Ok(())
    }

    /// Drops the player named `name` and all it owns.
    pub fn remove_player(&mut self, name: &String)
        requires
            old(self).wf(),
        ensures
            final(self).wf(),
            index_of(old(self).spec_players(), name@) == -1 ==> *final(self) == *old(self),
            index_of(old(self).spec_players(), name@) >= 0 ==> final(self).spec_players() == old(
                self,
            ).spec_players().remove(index_of(old(self).spec_players(), name@)),
    {
        match self.find_player(name) {
            Some(k) => {
                self.data.players.remove(k);
                proof {
                    assert(self.spec_world() == old(self).spec_world());
                    assert forall|i: int| 0 <= i < self.spec_players().len() implies (#[trigger] self.spec_players()[i]).1.wf() by {
                        if i < k {
                            assert(self.spec_players()[i] == old(self).spec_players()[i]);
                        } else {
                            assert(self.spec_players()[i] == old(self).spec_players()[i + 1]);
                        }
                    }
                }
            },
            None => {},
        }
    }

    /// Adds a tile to the map at `pos`, in place of any tile there.
    pub fn add_tile(&mut self, pos: Position, tile: Tile)
        requires
            old(self).wf(),
            tile.wf(),
        ensures
            final(self).wf(),
            final(self).spec_players() == old(self).spec_players(),
            exists|k: int| 0 <= k < final(self).spec_world().len() && #[trigger] final(self).spec_world()[k] == (pos, tile),
    {
        match self.find_tile(&pos) {
            Some(k) => {
                self.data.world.set(k, (pos, tile));
                assert(self.spec_players() == old(self).spec_players());
                assert(self.spec_world()[k as int] == (pos, tile));
                assert forall|i: int| 0 <= i < self.spec_world().len() implies (#[trigger] self.spec_world()[i]).1.wf() by {
                    if i != k {
                        assert(self.spec_world()[i] == old(self).spec_world()[i]);
                    }
                }
            },
            None => {
                self.data.world.push((pos, tile));
                assert(self.spec_players() == old(self).spec_players());
                assert(self.spec_world()[self.spec_world().len() - 1] == (pos, tile));
                assert forall|i: int| 0 <= i < self.spec_world().len() implies (#[trigger] self.spec_world()[i]).1.wf() by {
                    if i < old(self).spec_world().len() {
                        assert(self.spec_world()[i] == old(self).spec_world()[i]);
                    }
                }
            },
        }
    }

    /// Advances every player by one tick, one after the other.
    pub fn generate(&mut self)
        requires
            old(self).wf(),
        ensures
            final(self).wf(),
            final(self).spec_players().len() == old(self).spec_players().len(),
            forall|i: int|
                0 <= i < final(self).spec_players().len() ==> (#[trigger] final(self).spec_players()[i]).0
                    == old(self).spec_players()[i].0 && ticked(
                    old(self).spec_players()[i].1,
                    final(self).spec_players()[i].1,
                    old(self).spec_catalog(),
                    old(self).spec_tree(),
                ),
            final(self).spec_world() == old(self).spec_world(),
            final(self).spec_catalog() == old(self).spec_catalog(),
            final(self).spec_resources() == old(self).spec_resources(),
            final(self).spec_tree() == old(self).spec_tree(),
    {
        let mut i: usize = 0;
        while i < self.data.players.len()
            invariant
                self.wf(),
                i <= self.spec_players().len(),
                self.spec_players().len() == old(self).spec_players().len(),
                forall|k: int|
                    0 <= k < self.spec_players().len() ==> (#[trigger] self.spec_players()[k]).0
                        == old(self).spec_players()[k].0,
                forall|k: int|
                    0 <= k < i ==> ticked(
                        old(self).spec_players()[k].1,
                        #[trigger] self.spec_players()[k].1,
                        old(self).spec_catalog(),
                        old(self).spec_tree(),
                    ),
                forall|k: int| i <= k < self.spec_players().len() ==> #[trigger] self.spec_players()[k] == old(self).spec_players()[k],
                self.buildings == old(self).buildings,
                self.resources == old(self).resources,
                self.dep_tree == old(self).dep_tree,
                self.data.world == old(self).data.world,
            decreases self.spec_players().len() - i,
        {
            let ghost before = self.spec_players();
            let ghost g0 = *self;
            self.data.players[i].1.generate(&self.buildings, &self.dep_tree);
            proof {
                assert(self.spec_world() == g0.spec_world());
                assert(self.spec_catalog() == g0.spec_catalog());
                assert(self.spec_tree() == g0.spec_tree());
                assert forall|k: int| 0 <= k < self.spec_world().len() implies (#[trigger] self.spec_world()[k]).1.wf() by {
                    assert(self.spec_world()[k] == g0.spec_world()[k]);
                }
                assert forall|k: int| 0 <= k < self.spec_players().len() implies (
                #[trigger] self.spec_players()[k]).1.wf() by {
                    if k != i {
                        assert(self.spec_players()[k] == before[k]);
                    }
                }
                assert forall|k: int| 0 <= k < self.spec_players().len() implies (
                #[trigger] self.spec_players()[k]).0 == old(self).spec_players()[k].0 by {
                    if k != i {
                        assert(self.spec_players()[k] == before[k]);
                    }
                }
                assert forall|k: int| 0 <= k < i + 1 implies ticked(
                    old(self).spec_players()[k].1,
                    #[trigger] self.spec_players()[k].1,
                    old(self).spec_catalog(),
                    old(self).spec_tree(),
                ) by {
                    if k != i {
                        assert(self.spec_players()[k] == before[k]);
                    } else {
                        assert(before[k] == old(self).spec_players()[k]);
                    }
                }
                assert forall|k: int| i + 1 <= k < self.spec_players().len() implies #[trigger] self.spec_players()[k]
                    == old(self).spec_players()[k] by {
                    assert(self.spec_players()[k] == before[k]);
                }
            }
            i = i + 1;
        }
    }

    /// Runs one event sent by the player `username`.
    ///
    /// Fails with `Unregistered` if there is no such player, with `NotFound` where
    /// the event names a tile or a building type that does not exist or a demolition
    /// names buildings that do not stand there, and with the exception of the refused
    /// command otherwise.
    pub fn process(&mut self, username: &String, event: Event) -> (r: Result<Option<Event>, Exception>)
        requires
            old(self).wf(),
        ensures
            final(self).wf(),
            final(self).spec_players().len() == old(self).spec_players().len(),
            r == Err::<Option<Event>, Exception>(Exception::Unregistered) <==> index_of(
                old(self).spec_players(),
                username@,
            ) == -1,
            index_of(old(self).spec_players(), username@) == -1 ==> *final(self) == *old(self),
            index_of(old(self).spec_players(), username@) >= 0 ==> {
                let i = index_of(old(self).spec_players(), username@);
                let p0 = old(self).spec_players()[i].1;
                let p1 = final(self).spec_players()[i].1;
                &&& forall|k: int|
                    0 <= k < old(self).spec_players().len() && k != i ==> #[trigger] final(self).spec_players()[k]
                        == old(self).spec_players()[k]
                &&& (event matches Event::Player(Action::Hire { building, amount }) ==> (r is Ok <==> (
                p0.spec_owned()[building.0 as int].spec_count() != 0 && p0.spec_owned()[building.0 as int].spec_capacity()
                    - p0.spec_owned()[building.0 as int].spec_hired() >= amount)) && (r is Ok ==> staffed(
                    p0,
                    p1,
                    building,
                    p0.spec_owned()[building.0 as int].spec_hired() + amount,
                )))
                &&& (event matches Event::Player(Action::Fire { building, amount }) ==> (r is Ok <==> (
                p0.spec_owned()[building.0 as int].spec_count() != 0 && p0.spec_owned()[building.0 as int].spec_hired()
                    >= amount)) && (r is Ok ==> staffed(
                    p0,
                    p1,
                    building,
                    p0.spec_owned()[building.0 as int].spec_hired() - amount,
                )))
                &&& (event matches Event::Player(Action::Deposit { resource, amount }) ==> (r is Ok <==> (
                maximum_of(p0.spec_stocks()[resource.0 as int]) - current_of(p0.spec_stocks()[resource.0 as int])
                    >= amount)) && (r is Ok ==> restocked(
                    p0,
                    p1,
                    resource,
                    current_of(p0.spec_stocks()[resource.0 as int]) + amount,
                )))
                &&& (event matches Event::Player(Action::Withdraw { resource, amount }) ==> (r is Ok <==> (
                current_of(p0.spec_stocks()[resource.0 as int]) >= amount)) && (r is Ok ==> restocked(
                    p0,
                    p1,
                    resource,
                    current_of(p0.spec_stocks()[resource.0 as int]) - amount,
                )))
                &&& (event matches Event::Player(Action::Trade { from, to, offer }) ==> {
                    &&& r is Ok <==> covers(p0.spec_stocks(), offer.offering@)
                    &&& r is Ok ==> escrowed(p0.spec_stocks(), offer.offering@, p1.spec_stocks())
                        && p1.spec_trades().outbound@ == p0.spec_trades().outbound@.push(Trade { peer: to, offer })
                })
                &&& (event matches Event::Player(Action::Build { pos, building, amount }) ==> {
                    let t = old(self).tile_of(pos);
                    &&& (t == -1 || old(self).spec_catalog().spec_get(building) is None) ==> r == Err::<
                        Option<Event>,
                        Exception,
                    >(Exception::NotFound) && *final(self) == *old(self)
                    &&& r is Ok <==> t >= 0 && old(self).spec_catalog().spec_get(building) is Some && amount
                        <= buildable(
                        p0.spec_stocks(),
                        seq![&old(self).spec_world()[t].1],
                        building,
                        old(self).spec_catalog().spec_get(building)->0,
                    ) && fits(
                        p0,
                        old(self).spec_world()[t].1,
                        building,
                        old(self).spec_catalog().spec_get(building)->0,
                        amount as int,
                    )
                    &&& r is Ok ==> t >= 0 && built(
                        p0,
                        old(self).spec_world()[t].1,
                        pos,
                        building,
                        old(self).spec_catalog().spec_get(building)->0,
                        amount as int,
                        p1,
                        final(self).spec_world()[t].1,
                    )
                })
                &&& (event matches Event::Player(Action::Demolish { pos, building, amount }) ==> {
                    let t = old(self).tile_of(pos);
                    &&& (t == -1 || old(self).spec_catalog().spec_get(building) is None) ==> r == Err::<
                        Option<Event>,
                        Exception,
                    >(Exception::NotFound) && *final(self) == *old(self)
                    &&& r is Ok <==> t >= 0 && old(self).spec_catalog().spec_get(building) is Some && amount
                        <= p0.spec_owned()[building.0 as int].spec_count() && demolishable(
                        p0,
                        old(self).spec_world()[t].1,
                        pos,
                        building,
                        old(self).spec_catalog().spec_get(building)->0,
                        amount as int,
                    )
                    &&& r is Ok ==> t >= 0 && demolished(
                        p0,
                        old(self).spec_world()[t].1,
                        pos,
                        building,
                        old(self).spec_catalog().spec_get(building)->0,
                        amount as int,
                        p1,
                        final(self).spec_world()[t].1,
                    )
                })
                &&& (event matches Event::World(World::GetTile(pos)) ==> (r is Ok <==> p0.spec_lands().contains(pos)
                    && exists|t: int| 0 <= t < old(self).spec_world().len() && #[trigger] old(self).spec_world()[t].0 == pos)
                    && (r == Err::<Option<Event>, Exception>(Exception::TileNotOwned(pos)) <==> !p0.spec_lands().contains(pos))
                    && (r is Ok ==> (r matches Ok(Some(Event::World(World::Tile(tl)))) && tl.spec_slots()
                    == old(self).spec_world()[old(self).tile_of(pos)].1.spec_slots())))
                &&& (event matches Event::World(World::Tile(_)) ==> r == Err::<Option<Event>, Exception>(Exception::NotFound))
                &&& (event is Player && r is Ok ==> r == Ok::<Option<Event>, Exception>(None))
            },
            r is Err ==> final(self).spec_players() == old(self).spec_players() && final(self).spec_world()
                == old(self).spec_world(),
    {
        let k = match self.find_player(username) {
            Some(k) => k,
            None => {
                return Err(Exception::Unregistered);
            },
        };
        let ghost players0 = self.spec_players();
        let ghost world0 = self.spec_world();

        let r = match event {
            Event::Player(action) => match action {
                Action::Build { pos, building, amount } => {
                    let t = match self.find_tile(&pos) {
                        Some(t) => t,
                        None => {
                            return Err(Exception::NotFound);
                        },
                    };
                    let bd = match self.buildings.get(building) {
                        Some(bd) => bd,
                        None => {
                            return Err(Exception::NotFound);
                        },
                    };
                    let ghost t0 = self.spec_world()[t as int].1;
                    let player = &mut self.data.players[k].1;
                    let tile = &mut self.data.world[t].1;
                    let res = player.build(&pos, tile, building, bd, amount);
                    proof {
                        if res is Ok {
                            lemma_built_posts(
                                players0[k as int].1,
                                t0,
                                pos,
                                building,
                                amount as int,
                                self.spec_players()[k as int].1,
                                self.spec_world()[t as int].1,
                                self.spec_catalog(),
                            );
                        }
                    }
                    match res {
                        Ok(()) => Ok(None),
                        Err(e) => Err(to_exception(e)),
                    }
                },
                Action::Demolish { pos, building, amount } => {
                    let t = match self.find_tile(&pos) {
                        Some(t) => t,
                        None => {
                            return Err(Exception::NotFound);
                        },
                    };
                    let bd = match self.buildings.get(building) {
                        Some(bd) => bd,
                        None => {
                            return Err(Exception::NotFound);
                        },
                    };
                    let ob = self.data.players[k].1.owned(building);
                    proof {
                        ob.lemma_ranges();
                        assert(amount as u64 * bd.max_workers as u64 <= 0xffff_fffe_0000_0001) by (nonlinear_arith)
                            requires amount <= u32::MAX, bd.max_workers <= u32::MAX;
                    }
                    if amount <= ob.count() {
                        let fits_here = amount <= ob.placed(&pos) && amount as u64 * bd.max_workers as u64
                            <= ob.capacity() as u64 && match self.data.world[t].1.slot(building) {
                            Some(s) => amount <= s.used,
                            None => true,
                        };
                        if !fits_here {
                            return Err(Exception::NotFound);
                        }
                    }
                    let ghost t0 = self.spec_world()[t as int].1;
                    let player = &mut self.data.players[k].1;
                    let tile = &mut self.data.world[t].1;
                    let res = player.demolish(&pos, tile, building, bd, amount);
                    proof {
                        if res is Ok {
                            lemma_demolished_posts(
                                players0[k as int].1,
                                t0,
                                pos,
                                building,
                                amount as int,
                                self.spec_players()[k as int].1,
                                self.spec_world()[t as int].1,
                                self.spec_catalog(),
                            );
                        }
                    }
                    match res {
                        Ok(()) => Ok(None),
                        Err(e) => Err(to_exception(e)),
                    }
                },
                Action::Hire { building, amount } => {
                    let res = self.data.players[k].1.hire(building, amount);
                    proof {
                        if res is Ok {
                            lemma_staffed_posts(
                                players0[k as int].1,
                                self.spec_players()[k as int].1,
                                building,
                                players0[k as int].1.spec_owned()[building.0 as int].spec_hired() + amount,
                                self.spec_catalog(),
                            );
                        }
                    }
                    match res {
                        Ok(()) => Ok(None),
                        Err(e) => Err(to_exception(e)),
                    }
                },
                Action::Fire { building, amount } => {
                    let res = self.data.players[k].1.fire(building, amount);
                    proof {
                        if res is Ok {
                            lemma_staffed_posts(
                                players0[k as int].1,
                                self.spec_players()[k as int].1,
                                building,
                                players0[k as int].1.spec_owned()[building.0 as int].spec_hired() - amount,
                                self.spec_catalog(),
                            );
                        }
                    }
                    match res {
                        Ok(()) => Ok(None),
                        Err(e) => Err(to_exception(e)),
                    }
                },
                Action::Deposit { resource, amount } => {
                    let res = self.data.players[k].1.deposit(resource, amount);
                    match res {
                        Ok(()) => Ok(None),
                        Err(e) => Err(to_exception(e)),
                    }
                },
                Action::Withdraw { resource, amount } => {
                    let res = self.data.players[k].1.withdraw(resource, amount);
                    match res {
                        Ok(()) => Ok(None),
                        Err(e) => Err(to_exception(e)),
                    }
                },
                Action::Trade { from, to, offer } => match self.data.players[k].1.open_trade(to, offer) {
                    Ok(()) => Ok(None),
                    Err(e) => Err(to_exception(e)),
                },
            },
            Event::World(world) => match world {
                World::GetTile(pos) => {
                    if !self.data.players[k].1.owns_land(&pos) {
                        Err(Exception::TileNotOwned(pos))
                    } else {
                        match self.find_tile(&pos) {
                            Some(t) => Ok(Some(Event::World(World::Tile(self.data.world[t].1.duplicate())))),
                            None => Err(Exception::NotFound),
                        }
                    }
                },
                World::Tile(_) => Err(Exception::NotFound),
            },
        };
        proof {
            assert forall|j: int| 0 <= j < self.spec_players().len() implies (#[trigger] self.spec_players()[j]).1.wf()
                && posts_match(self.spec_players()[j].1, self.spec_catalog()) by {
                if j != k {
                    assert(self.spec_players()[j] == players0[j]);
                } else {
                    assert(players0[j].1.wf() && posts_match(players0[j].1, self.spec_catalog()));
                }
            }
            if r is Err {
                assert(self.spec_players() =~= players0);
                assert(self.spec_world() =~= world0);
            }
        }
        r
    }
}

proof fn lemma_index_below_prefix(players: Seq<(String, Player)>, name: Seq<char>, k: int)
    requires
        0 <= k < players.len(),
        players[k].0@ == name,
        forall|j: int| 0 <= j < k ==> players[j].0@ != name,
    ensures
        index_below(players, name, players.len() as int) == k,
{
    lemma_index_below(players, name, k);
    lemma_index_below_from(players, name, k, players.len() as int);
}

proof fn lemma_index_below_from(players: Seq<(String, Player)>, name: Seq<char>, k: int, n: int)
    requires
        0 <= k < n <= players.len(),
        players[k].0@ == name,
        index_below(players, name, k) == -1,
    ensures
        index_below(players, name, n) == k,
    decreases n,
{
    if n > k + 1 {
        lemma_index_below_from(players, name, k, n - 1);
    }
}

} // verus!
