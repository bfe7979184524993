use game_core::buildings::{AllBuildings, Building};
use game_core::game::Game;
use game_core::ids::{BuildingID, Position, ResourceEntry, ResourceID};
use game_core::trade::Offer;
use game_core::resources::AllResources;
use game_core::response::{Action, Event, Exception, Token, World};
use game_core::owned::{OwnedBuilding, Population};
use game_core::player::Player;
use game_core::tile::{Slots, Tile};
use game_core::trade::Ledger;

fn game() -> Game {
    let mut r = AllResources::new();
    r.insert(ResourceID(0), "Iron".to_string());
    let mut c = AllBuildings::new();
    c.insert(
        BuildingID(0),
        Building {
            name: "Mine".to_string(),
            extractor: false,
            prerequisites: Vec::new(),
            produced: vec![ResourceEntry { id: ResourceID(0), amount: 10 }],
            consumed: Vec::new(),
            max_workers: 5,
            construction_cost: Vec::new(),
        },
    );
    let mut g = Game::new(c, r).unwrap();
    g.add_tile(Position { x: 0, y: 0 }, Tile::new());
    g
}

fn act(a: Action) -> Event {
    Event::Player(a)
}

#[test]
fn unknown_player_is_unregistered() {
    let mut g = game();
    let r = g.process(&"nobody".to_string(), act(Action::Hire { building: BuildingID(0), amount: 1 }));
    assert_eq!(r.err(), Some(Exception::Unregistered));
}

#[test]
fn players_register_once() {
    let mut g = game();
    assert_eq!(g.add_player("Toude".to_string()), Ok(()));
    assert_eq!(g.add_player("Toude".to_string()), Err(Exception::AlreadyRegistered));
    assert_eq!(g.get_players().len(), 1);
    g.remove_player(&"Toude".to_string());
    assert_eq!(g.get_players().len(), 0);
}

#[test]
fn commands_reach_the_player_and_ticks_produce() {
    let mut g = game();
    g.add_player("Toude".to_string()).unwrap();
    let name = "Toude".to_string();
    let pos = Position { x: 0, y: 0 };
    assert!(g.process(&name, act(Action::Build { pos, building: BuildingID(0), amount: 1 })).unwrap().is_none());
    assert!(g.process(&name, act(Action::Hire { building: BuildingID(0), amount: 3 })).is_ok());
    assert_eq!(
        g.process(&name, act(Action::Hire { building: BuildingID(0), amount: 100 })).err(),
        Some(Exception::PlaceHolder)
    );
    g.generate();
    let p = &g.get_players()[0].1;
    // starting mine plus the new one, three people at 10 iron each
    assert_eq!(p.owned(BuildingID(0)).count(), 2);
    assert_eq!(p.stockpile(ResourceID(0)).unwrap().current(), 30);
    assert_eq!(
        g.process(&name, act(Action::Deposit { resource: ResourceID(0), amount: 71 })).err(),
        Some(Exception::InsufficientStockpile(ResourceID(0)))
    );
    assert!(g.process(&name, act(Action::Withdraw { resource: ResourceID(0), amount: 30 })).is_ok());
    assert_eq!(
        g.process(&name, act(Action::Withdraw { resource: ResourceID(0), amount: 1 })).err(),
        Some(Exception::InsufficientResource(ResourceID(0)))
    );
}

#[test]
fn missing_tile_or_type_is_not_found() {
    let mut g = game();
    g.add_player("Toude".to_string()).unwrap();
    let name = "Toude".to_string();
    let far = Position { x: 5, y: 5 };
    assert_eq!(
        g.process(&name, act(Action::Build { pos: far, building: BuildingID(0), amount: 1 })).err(),
        Some(Exception::NotFound)
    );
    let pos = Position { x: 0, y: 0 };
    assert_eq!(
        g.process(&name, act(Action::Build { pos, building: BuildingID(9), amount: 1 })).err(),
        Some(Exception::NotFound)
    );
    assert_eq!(g.process(&name, Event::World(World::GetTile(pos))).err(), Some(Exception::TileNotOwned(pos)));
}

#[test]
fn token_is_fixed() {
    assert_eq!(Token::new(), Token(3421545));
}

#[test]
fn demolishing_elsewhere_is_not_found() {
    let mut g = game();
    g.add_tile(Position { x: 1, y: 0 }, Tile::new());
    g.add_player("Toude".to_string()).unwrap();
    let name = "Toude".to_string();
    let elsewhere = Position { x: 1, y: 0 };
    // the starting mine stands at the origin
    assert_eq!(
        g.process(&name, act(Action::Demolish { pos: elsewhere, building: BuildingID(0), amount: 1 })).err(),
        Some(Exception::NotFound)
    );
    let pos = Position { x: 0, y: 0 };
    assert_eq!(
        g.process(&name, act(Action::Demolish { pos, building: BuildingID(0), amount: 2 })).err(),
        Some(Exception::PlaceHolder)
    );
    assert!(g.process(&name, act(Action::Demolish { pos, building: BuildingID(0), amount: 1 })).is_ok());
    assert_eq!(g.get_players()[0].1.owned(BuildingID(0)).count(), 0);
}

#[test]
fn a_tile_of_the_territory_is_sent_back() {
    let mut g = game();
    let buildings: Vec<OwnedBuilding> = (0..256).map(|_| OwnedBuilding::new()).collect();
    let people = Population::restore(5, 5, 10).unwrap();
    let here = Position { x: 0, y: 0 };
    let far = Position { x: 9, y: 9 };
    let p = Player::restore(buildings, people, vec![None; 256], Vec::new(), vec![here, far], Ledger::new()).unwrap();
    assert_eq!(g.restore_player("Toude".to_string(), p), Ok(()));
    let mut slots: Vec<Option<Slots>> = vec![None; 256];
    slots[0] = Some(Slots { used: 1, total: 4 });
    g.add_tile(here, Tile::restore(slots).unwrap());
    let name = "Toude".to_string();
    match g.process(&name, Event::World(World::GetTile(here))) {
        Ok(Some(Event::World(World::Tile(t)))) => assert_eq!(t.slot(BuildingID(0)), Some(Slots { used: 1, total: 4 })),
        other => panic!("unexpected answer {:?}", other),
    }
    // in the territory but not on the map
    assert_eq!(g.process(&name, Event::World(World::GetTile(far))).err(), Some(Exception::NotFound));
    assert_eq!(
        g.process(&name, Event::World(World::GetTile(Position { x: 1, y: 1 }))).err(),
        Some(Exception::TileNotOwned(Position { x: 1, y: 1 }))
    );
    let fresh = Player::new(g.get_buildings());
    assert_eq!(g.restore_player("Toude".to_string(), fresh), Err(Exception::AlreadyRegistered));
}

#[test]
fn trades_through_process_and_refusals_change_nothing() {
    let mut g = game();
    g.add_player("Toude".to_string()).unwrap();
    let name = "Toude".to_string();
    let offer = |n: u32| Offer { offering: vec![ResourceEntry { id: ResourceID(0), amount: n }], requesting: Vec::new() };
    assert!(g.process(&name, act(Action::Deposit { resource: ResourceID(0), amount: 10 })).is_ok());
    let r = g.process(&name, act(Action::Trade { from: name.clone(), to: "Other".to_string(), offer: offer(11) }));
    assert_eq!(r.err(), Some(Exception::InsufficientResource(ResourceID(0))));
    assert_eq!(g.get_players()[0].1.stockpile(ResourceID(0)).unwrap().current(), 10);
    assert!(g.get_players()[0].1.ledger().outbound.is_empty());
    let r = g.process(&name, act(Action::Trade { from: name.clone(), to: "Other".to_string(), offer: offer(4) }));
    assert!(r.unwrap().is_none());
    assert_eq!(g.get_players()[0].1.stockpile(ResourceID(0)).unwrap().current(), 6);
    assert_eq!(g.get_players()[0].1.ledger().outbound[0].peer, "Other");
    // a refused build leaves the player and the map as they were
    let pos = Position { x: 0, y: 0 };
    let r = g.process(&name, act(Action::Build { pos, building: BuildingID(0), amount: u32::MAX }));
    assert_eq!(r.err(), Some(Exception::PlaceHolder));
    assert_eq!(g.get_players()[0].1.owned(BuildingID(0)).count(), 1);
    // a new player starts with the starting set
    let p = &g.get_players()[0].1;
    assert_eq!(p.owned(BuildingID(0)).capacity(), 5);
    assert_eq!(p.owned(BuildingID(0)).placed(&pos), 1);
}
