use game_core::buildings::{load_buildings, AllBuildings, Building, DataError, DependencyTree};
use game_core::generator::RATIO_ONE;
use game_core::ids::{BuildingID, Position, ResourceEntry, ResourceID};
use game_core::owned::{OwnedBuilding, Population, Stockpile};
use game_core::player::{EconomyError, Player};
use game_core::resources::AllResources;
use game_core::tile::{Slots, Tile};
use game_core::trade::{Ledger, Offer};

const IRON: ResourceID = ResourceID(0);
const STEEL: ResourceID = ResourceID(1);
const MINE: BuildingID = BuildingID(0);
const FACTORY: BuildingID = BuildingID(1);

fn entry(id: ResourceID, amount: u32) -> ResourceEntry {
    ResourceEntry { id, amount }
}

fn building(name: &str, produced: Vec<ResourceEntry>, consumed: Vec<ResourceEntry>, max_workers: u32) -> Building {
    Building {
        name: name.to_string(),
        extractor: false,
        prerequisites: Vec::new(),
        produced,
        consumed,
        max_workers,
        construction_cost: Vec::new(),
    }
}

fn resources() -> AllResources {
    let mut r = AllResources::new();
    r.insert(IRON, "Iron".to_string());
    r.insert(STEEL, "Steel".to_string());
    r
}

/// Mine: 10 Iron per worker, 5 workers. Factory: 5 Iron into 3 Steel per worker, 2 workers.
fn catalog() -> (AllBuildings, DependencyTree) {
    let mut c = AllBuildings::new();
    c.insert(MINE, building("Mine", vec![entry(IRON, 10)], Vec::new(), 5));
    c.insert(FACTORY, building("Factory", vec![entry(STEEL, 3)], vec![entry(IRON, 5)], 2));
    load_buildings(c, &resources()).unwrap()
}

fn origin() -> Position {
    Position { x: 0, y: 0 }
}

#[test]
fn mine_with_two_workers_makes_twenty_iron() {
    let (cat, tree) = catalog();
    let mut p = Player::empty();
    let mut tile = Tile::new();
    let mine = cat.get(MINE).unwrap();
    assert_eq!(p.build(&origin(), &mut tile, MINE, mine, 1), Ok(()));
    assert_eq!(p.hire(MINE, 2), Ok(()));
    p.generate(&cat, &tree);
    assert_eq!(p.stockpile(IRON).unwrap().current(), 20);
}

#[test]
fn mine_output_is_clamped_to_the_room() {
    let (cat, tree) = catalog();
    let mut p = Player::empty();
    let mut tile = Tile::new();
    let mine = cat.get(MINE).unwrap();
    p.build(&origin(), &mut tile, MINE, mine, 2).unwrap();
    p.hire(MINE, 10).unwrap();
    p.generate(&cat, &tree);
    assert_eq!(p.stockpile(IRON).unwrap().current(), 100);
    assert_eq!(p.stockpile(IRON).unwrap().maximum(), 100);
}

#[test]
fn scarce_iron_throttles_the_factory() {
    let (cat, tree) = catalog();
    let mut p = Player::empty();
    let mut tile = Tile::new();
    let factory = cat.get(FACTORY).unwrap();
    p.deposit(IRON, 6).unwrap();
    p.build(&origin(), &mut tile, FACTORY, factory, 1).unwrap();
    p.hire(FACTORY, 2).unwrap();
    p.generate(&cat, &tree);
    let g = p.generator();
    // needed 10, available 6: ratio 0.6
    assert_eq!(g.ratio(FACTORY), Some(600_000));
    assert_eq!(g.delta(IRON), Some(-6));
    // 3 * 2 * 0.6 = 3.6, rounded toward zero
    assert_eq!(g.delta(STEEL), Some(3));
    assert_eq!(p.stockpile(IRON).unwrap().current(), 0);
    assert_eq!(p.stockpile(STEEL).unwrap().current(), 3);
    // the next tick could not draw 6 iron again
    assert!(p.generator().is_dirty());
}

#[test]
fn withdraw_more_than_held_fails_and_changes_nothing() {
    let (cat, tree) = catalog();
    let mut p = Player::empty();
    p.deposit(IRON, 30).unwrap();
    p.generate(&cat, &tree);
    assert!(!p.generator().is_dirty());
    assert_eq!(p.withdraw(IRON, 31), Err(EconomyError::InsufficientStock(IRON)));
    assert_eq!(p.stockpile(IRON).unwrap().current(), 30);
    assert!(!p.generator().is_dirty());
    assert_eq!(p.withdraw(IRON, 30), Ok(()));
    assert_eq!(p.stockpile(IRON).unwrap().current(), 0);
    assert!(p.generator().is_dirty());
}

#[test]
fn withdraw_without_stockpile_fails() {
    let mut p = Player::empty();
    assert_eq!(p.withdraw(STEEL, 1), Err(EconomyError::InsufficientStock(STEEL)));
    assert_eq!(p.stockpile(STEEL), None);
    // a missing stockpile holds nothing: taking nothing from it succeeds
    assert_eq!(p.withdraw(STEEL, 0), Ok(()));
    assert_eq!(p.stockpile(STEEL), Some(Stockpile::with(0, 100)));
}

#[test]
fn unaffordable_offer_is_refused_and_nothing_is_reserved() {
    let mut p = Player::empty();
    p.deposit(IRON, 10).unwrap();
    let offer = Offer { offering: vec![entry(IRON, 12)], requesting: Vec::new() };
    assert_eq!(p.open_trade("Toude".to_string(), offer), Err(EconomyError::InsufficientStock(IRON)));
    assert_eq!(p.stockpile(IRON).unwrap().current(), 10);
    assert_eq!(p.ledger().outbound.len(), 0);
}

#[test]
fn repeated_entries_count_together_in_an_offer() {
    let mut p = Player::empty();
    p.deposit(IRON, 8).unwrap();
    let offer = Offer { offering: vec![entry(IRON, 5), entry(IRON, 5)], requesting: Vec::new() };
    assert_eq!(p.open_trade("Toude".to_string(), offer), Err(EconomyError::InsufficientStock(IRON)));
    assert_eq!(p.stockpile(IRON).unwrap().current(), 8);
}

#[test]
fn open_trade_reserves_and_cancel_gives_back() {
    let mut p = Player::empty();
    p.deposit(IRON, 12).unwrap();
    let offer = Offer { offering: vec![entry(IRON, 12)], requesting: Vec::new() };
    assert_eq!(p.open_trade("Toude".to_string(), offer), Ok(()));
    assert_eq!(p.stockpile(IRON).unwrap().current(), 0);
    assert_eq!(p.ledger().outbound.len(), 1);
    assert_eq!(p.ledger().outbound[0].peer, "Toude");
    let same = Offer { offering: vec![entry(IRON, 12)], requesting: Vec::new() };
    assert_eq!(p.cancel_trade(&"Toude".to_string(), &same), Ok(()));
    assert_eq!(p.stockpile(IRON).unwrap().current(), 12);
    assert_eq!(p.ledger().outbound.len(), 0);
    assert_eq!(p.cancel_trade(&"Toude".to_string(), &same), Err(EconomyError::NoSuchTrade));
}

#[test]
fn refund_beyond_the_room_is_lost() {
    let mut p = Player::empty();
    p.deposit(IRON, 60).unwrap();
    let offer = Offer { offering: vec![entry(IRON, 50)], requesting: Vec::new() };
    p.open_trade("Toude".to_string(), offer).unwrap();
    p.deposit(IRON, 90).unwrap();
    let same = Offer { offering: vec![entry(IRON, 50)], requesting: Vec::new() };
    p.cancel_trade(&"Toude".to_string(), &same).unwrap();
    assert_eq!(p.stockpile(IRON).unwrap().current(), 100);
}

#[test]
fn accept_trade_needs_the_request_and_the_offer() {
    let mut p = Player::empty();
    let offer = Offer { offering: Vec::new(), requesting: vec![entry(STEEL, 2)] };
    let same = Offer { offering: Vec::new(), requesting: vec![entry(STEEL, 2)] };
    assert_eq!(p.accept_trade(&"Toude".to_string(), &same), Err(EconomyError::InsufficientStock(STEEL)));
    p.deposit(STEEL, 2).unwrap();
    assert_eq!(p.accept_trade(&"Toude".to_string(), &same), Err(EconomyError::NoSuchTrade));
    p.receive_trade("Toude".to_string(), offer);
    assert_eq!(p.accept_trade(&"Other".to_string(), &same), Err(EconomyError::NoSuchTrade));
    assert_eq!(p.accept_trade(&"Toude".to_string(), &same), Ok(()));
    assert_eq!(p.ledger().inbound.len(), 0);
}

fn extractor_catalog() -> (AllBuildings, DependencyTree) {
    let mut c = AllBuildings::new();
    let mut mine = building("Mine", vec![entry(IRON, 10)], Vec::new(), 5);
    mine.extractor = true;
    mine.construction_cost = vec![entry(IRON, 4)];
    c.insert(MINE, mine);
    load_buildings(c, &resources()).unwrap()
}

#[test]
fn build_then_demolish_restores_counts_and_slots() {
    let (cat, _) = extractor_catalog();
    let mut p = Player::empty();
    p.deposit(IRON, 100).unwrap();
    let mut tile = Tile::new();
    tile.set_slots(MINE, 5);
    let mine = cat.get(MINE).unwrap();
    p.build(&origin(), &mut tile, MINE, mine, 1).unwrap();
    p.hire(MINE, 3).unwrap();
    let before = (p.owned(MINE).count(), p.owned(MINE).capacity(), p.owned(MINE).hired(), tile.slot(MINE).unwrap().used);
    assert_eq!(before, (1, 5, 3, 1));
    p.build(&origin(), &mut tile, MINE, mine, 3).unwrap();
    assert_eq!(p.owned(MINE).count(), 4);
    assert_eq!(p.owned(MINE).capacity(), 20);
    assert_eq!(p.owned(MINE).placed(&origin()), 4);
    assert_eq!(tile.slot(MINE).unwrap().used, 4);
    p.demolish(&origin(), &mut tile, MINE, mine, 3).unwrap();
    let after = (p.owned(MINE).count(), p.owned(MINE).capacity(), p.owned(MINE).hired(), tile.slot(MINE).unwrap().used);
    assert_eq!(after, before);
}

#[test]
fn max_buildable_takes_the_lowest_cap() {
    let (cat, _) = extractor_catalog();
    let mine = cat.get(MINE).unwrap();
    let mut p = Player::empty();
    let mut a = Tile::new();
    a.set_slots(MINE, 3);
    let mut b = Tile::new();
    b.set_slots(MINE, 4);
    // no iron stockpile: the cost caps at zero
    assert_eq!(p.max_buildable(vec![&a, &b], MINE, mine), 0);
    p.deposit(IRON, 100).unwrap();
    // slots 3 + 4 = 7, iron 100 / 4 = 25
    assert_eq!(p.max_buildable(vec![&a, &b], MINE, mine), 7);
    p.withdraw(IRON, 80).unwrap();
    // iron 20 / 4 = 5
    assert_eq!(p.max_buildable(vec![&a, &b], MINE, mine), 5);
    // no tile: no slot
    assert_eq!(p.max_buildable(Vec::new(), MINE, mine), 0);
}

#[test]
fn build_errors() {
    let (cat, _) = extractor_catalog();
    let mine = cat.get(MINE).unwrap();
    let mut p = Player::empty();
    p.deposit(IRON, 100).unwrap();
    let mut tile = Tile::new();
    tile.set_slots(MINE, 2);
    assert_eq!(p.build(&origin(), &mut tile, MINE, mine, 3), Err(EconomyError::InsufficientSlotOrResource(MINE)));
    assert_eq!(p.owned(MINE).count(), 0);
    assert_eq!(tile.slot(MINE).unwrap().used, 0);
    let free = building("Camp", Vec::new(), Vec::new(), 2);
    let mut empty = Tile::new();
    assert_eq!(p.build(&origin(), &mut empty, BuildingID(7), &free, u32::MAX), Err(EconomyError::TooMany(BuildingID(7))));
    assert_eq!(p.owned(BuildingID(7)).count(), 0);
}

#[test]
fn demolish_more_than_owned_fails() {
    let (cat, _) = catalog();
    let mine = cat.get(MINE).unwrap();
    let mut p = Player::empty();
    let mut tile = Tile::new();
    p.build(&origin(), &mut tile, MINE, mine, 1).unwrap();
    assert_eq!(p.demolish(&origin(), &mut tile, MINE, mine, 2), Err(EconomyError::InsufficientOwned(MINE)));
    assert_eq!(p.owned(MINE).count(), 1);
}

#[test]
fn demolish_lets_go_people_beyond_the_posts() {
    let (cat, _) = catalog();
    let mine = cat.get(MINE).unwrap();
    let mut p = Player::empty();
    let mut tile = Tile::new();
    p.build(&origin(), &mut tile, MINE, mine, 2).unwrap();
    p.hire(MINE, 8).unwrap();
    p.demolish(&origin(), &mut tile, MINE, mine, 1).unwrap();
    assert_eq!(p.owned(MINE).capacity(), 5);
    assert_eq!(p.owned(MINE).hired(), 5);
}

#[test]
fn hire_and_fire_errors() {
    let (cat, _) = catalog();
    let mine = cat.get(MINE).unwrap();
    let mut p = Player::empty();
    assert_eq!(p.hire(MINE, 1), Err(EconomyError::NoSuchBuilding(MINE)));
    assert_eq!(p.fire(MINE, 1), Err(EconomyError::NoSuchBuilding(MINE)));
    let mut tile = Tile::new();
    p.build(&origin(), &mut tile, MINE, mine, 1).unwrap();
    assert_eq!(p.hire(MINE, 6), Err(EconomyError::InsufficientCapacity(MINE)));
    assert_eq!(p.hire(MINE, 5), Ok(()));
    assert_eq!(p.fire(MINE, 6), Err(EconomyError::InsufficientHired(MINE)));
    assert_eq!(p.fire(MINE, 2), Ok(()));
    assert_eq!(p.owned(MINE).hired(), 3);
}

#[test]
fn deposit_beyond_the_room_fails() {
    let mut p = Player::empty();
    assert_eq!(p.deposit(IRON, 101), Err(EconomyError::StockpileFull(IRON)));
    assert_eq!(p.stockpile(IRON), None);
    assert_eq!(p.deposit(IRON, 100), Ok(()));
    assert_eq!(p.deposit(IRON, 1), Err(EconomyError::StockpileFull(IRON)));
    assert_eq!(p.stockpile(IRON), Some(Stockpile::with(100, 100)));
}

#[test]
fn refreshing_twice_gives_the_same_deltas() {
    let (cat, tree) = catalog();
    let mut p = Player::empty();
    let mut tile = Tile::new();
    let mine = cat.get(MINE).unwrap();
    p.build(&origin(), &mut tile, MINE, mine, 1).unwrap();
    p.hire(MINE, 1).unwrap();
    p.generate(&cat, &tree);
    let first = p.generator().delta(IRON);
    assert!(!p.generator().is_dirty());
    p.generate(&cat, &tree);
    assert_eq!(p.generator().delta(IRON), first);
    assert_eq!(first, Some(10));
    assert_eq!(p.stockpile(IRON).unwrap().current(), 20);
}

#[test]
fn free_building_types_run_at_full_ratio() {
    let (cat, tree) = catalog();
    let mut p = Player::new(&cat);
    p.generate(&cat, &tree);
    assert_eq!(p.generator().ratio(MINE), Some(RATIO_ONE));
    // nobody employed in the factory: nothing is needed, full ratio
    assert_eq!(p.generator().ratio(FACTORY), Some(RATIO_ONE));
    assert_eq!(tree.free(), &vec![MINE]);
    assert_eq!(tree.consumers_of(IRON), &vec![FACTORY]);
    assert!(tree.consumers_of(STEEL).is_empty());
}

#[test]
fn new_player_starts_with_one_of_each_starting_type() {
    let (cat, _) = catalog();
    let p = Player::new(&cat);
    assert_eq!(p.owned(MINE).count(), 1);
    assert_eq!(p.owned(MINE).capacity(), 5);
    assert_eq!(p.owned(FACTORY).count(), 1);
    assert_eq!(p.owned(FACTORY).capacity(), 2);
    assert_eq!(p.owned(MINE).placed(&origin()), 1);
    assert_eq!(p.population().idle(), 5);
    assert_eq!(p.population().total(), 5);
    assert_eq!(p.population().maximum(), 10);
    assert_eq!(p.owned(FACTORY).placed(&origin()), 1);
    assert_eq!(p.owned(FACTORY).placed(&Position { x: 1, y: 0 }), 0);
    assert_eq!(p.owned(MINE).hired(), 0);
    assert!(p.lands().is_empty());
    assert!(p.contacts().is_empty());
    assert!(p.ledger().inbound.is_empty());
    assert!(p.ledger().outbound.is_empty());
    assert_eq!(p.stockpile(IRON), None);
    assert!(p.generator().is_dirty());
}

#[test]
fn catalog_errors() {
    let mut c = AllBuildings::new();
    c.insert(MINE, building("Mine", vec![entry(ResourceID(9), 1)], Vec::new(), 1));
    assert_eq!(load_buildings(c, &resources()).err(), Some(DataError::MissingResource(MINE, ResourceID(9))));

    let mut c = AllBuildings::new();
    let mut b = building("Mine", Vec::new(), Vec::new(), 1);
    b.prerequisites = vec![BuildingID(3)];
    c.insert(MINE, b);
    assert_eq!(load_buildings(c, &resources()).err(), Some(DataError::MissingPrerequisite(MINE, BuildingID(3))));

    let mut c = AllBuildings::new();
    c.insert(MINE, building("Mine", Vec::new(), vec![entry(IRON, 1), entry(IRON, 2)], 1));
    assert_eq!(load_buildings(c, &resources()).err(), Some(DataError::RepeatedResource(MINE)));
}

#[test]
fn restored_player_starts_with_an_out_of_date_cache() {
    let mut buildings: Vec<OwnedBuilding> = (0..256).map(|_| OwnedBuilding::new()).collect();
    buildings[0] = OwnedBuilding::from_parts(2, (3, 10), vec![(origin(), 2)]);
    let mut resources: Vec<Option<Stockpile>> = vec![None; 256];
    resources[0] = Some(Stockpile::with(40, 100));
    let people = Population::restore(5, 5, 10).unwrap();
    let p = Player::restore(buildings, people, resources, Vec::new(), Vec::new(), Ledger::new()).unwrap();
    assert!(p.generator().is_dirty());
    assert_eq!(p.owned(MINE).count(), 2);
    assert_eq!(p.owned(MINE).hired(), 3);
    assert_eq!(p.stockpile(IRON).unwrap().current(), 40);
    let (cat, tree) = catalog();
    let mut p = p;
    p.generate(&cat, &tree);
    assert_eq!(p.stockpile(IRON).unwrap().current(), 70);
}

#[test]
fn inconsistent_parts_are_refused() {
    assert!(Population::restore(6, 5, 10).is_none());
    // placements add up to 3, not 2
    assert!(!OwnedBuilding::from_parts(2, (0, 10), vec![(origin(), 3)]).is_valid());
    // more people than posts
    assert!(!OwnedBuilding::from_parts(1, (6, 5), vec![(origin(), 1)]).is_valid());
    // one position twice
    assert!(!OwnedBuilding::from_parts(2, (0, 10), vec![(origin(), 1), (origin(), 1)]).is_valid());
    assert!(OwnedBuilding::from_parts(2, (0, 10), vec![(origin(), 1), (Position { x: 1, y: 0 }, 1)]).is_valid());
    let mut buildings: Vec<OwnedBuilding> = (0..256).map(|_| OwnedBuilding::new()).collect();
    buildings[3] = OwnedBuilding::from_parts(2, (0, 10), vec![(origin(), 3)]);
    let people = Population::restore(5, 5, 10).unwrap();
    assert!(Player::restore(buildings, people, vec![None; 256], Vec::new(), Vec::new(), Ledger::new()).is_none());
    let short: Vec<OwnedBuilding> = (0..3).map(|_| OwnedBuilding::new()).collect();
    let people = Population::restore(5, 5, 10).unwrap();
    assert!(Player::restore(short, people, vec![None; 256], Vec::new(), Vec::new(), Ledger::new()).is_none());
}

#[test]
fn tile_restore_checks_the_slots() {
    let mut slots: Vec<Option<Slots>> = vec![None; 256];
    slots[0] = Some(Slots { used: 2, total: 5 });
    let t = Tile::restore(slots.clone()).unwrap();
    assert_eq!(t.slot(MINE), Some(Slots { used: 2, total: 5 }));
    // a type that is not an extractor may stand on more slots than there are
    slots[1] = Some(Slots { used: 6, total: 5 });
    let t = Tile::restore(slots).unwrap();
    assert_eq!(t.slot(FACTORY), Some(Slots { used: 6, total: 5 }));
    assert!(Tile::restore(vec![None; 3]).is_none());
}

#[test]
fn build_succeeds_exactly_within_max_buildable() {
    let (cat, _) = extractor_catalog();
    let mine = cat.get(MINE).unwrap();
    let mut p = Player::empty();
    p.deposit(IRON, 12).unwrap();
    let mut tile = Tile::new();
    tile.set_slots(MINE, 5);
    // iron 12 / 4 = 3 < 5 free slots
    let m = p.max_buildable(vec![&tile], MINE, mine);
    assert_eq!(m, 3);
    assert_eq!(p.build(&origin(), &mut tile, MINE, mine, m + 1), Err(EconomyError::InsufficientSlotOrResource(MINE)));
    assert_eq!(p.build(&origin(), &mut tile, MINE, mine, m), Ok(()));
    assert_eq!(p.owned(MINE).count(), 3);
    assert_eq!(tile.slot(MINE), Some(Slots { used: 3, total: 5 }));
}

#[test]
fn other_building_types_also_move_the_slot_counter() {
    let (cat, _) = catalog();
    let factory = cat.get(FACTORY).unwrap();
    let mut p = Player::empty();
    let mut tile = Tile::new();
    tile.set_slots(FACTORY, 5);
    assert_eq!(p.build(&origin(), &mut tile, FACTORY, factory, 1), Ok(()));
    assert_eq!(tile.slot(FACTORY), Some(Slots { used: 1, total: 5 }));
    // not an extractor: the slots do not limit it
    assert_eq!(p.build(&origin(), &mut tile, FACTORY, factory, 6), Ok(()));
    assert_eq!(tile.slot(FACTORY), Some(Slots { used: 7, total: 5 }));
    assert_eq!(p.demolish(&origin(), &mut tile, FACTORY, factory, 4), Ok(()));
    assert_eq!(tile.slot(FACTORY), Some(Slots { used: 3, total: 5 }));
    assert_eq!(p.owned(FACTORY).count(), 3);
    // a tile without slots for the type keeps none
    let mut bare = Tile::new();
    assert_eq!(p.build(&origin(), &mut bare, FACTORY, factory, 1), Ok(()));
    assert_eq!(bare.slot(FACTORY), None);
}

#[test]
fn posts_follow_the_catalog() {
    let (cat, _) = catalog();
    let mine = cat.get(MINE).unwrap();
    let mut p = Player::new(&cat);
    assert!(p.posts_agree(&cat));
    let mut tile = Tile::new();
    p.build(&origin(), &mut tile, MINE, mine, 3).unwrap();
    assert_eq!(p.owned(MINE).capacity(), 20);
    assert!(p.posts_agree(&cat));
    p.demolish(&origin(), &mut tile, MINE, mine, 2).unwrap();
    assert_eq!(p.owned(MINE).capacity(), 10);
    assert!(p.posts_agree(&cat));
    let mut buildings: Vec<OwnedBuilding> = (0..256).map(|_| OwnedBuilding::new()).collect();
    buildings[0] = OwnedBuilding::from_parts(1, (0, 4), vec![(origin(), 1)]);
    let people = Population::restore(5, 5, 10).unwrap();
    let q = Player::restore(buildings, people, vec![None; 256], Vec::new(), Vec::new(), Ledger::new()).unwrap();
    assert!(!q.posts_agree(&cat));
}
