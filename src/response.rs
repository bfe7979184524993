use crate::ids::{BuildingID, Position, ResourceID};
use crate::tile::Tile;
use crate::trade::Offer;
use vstd::prelude::*;

verus! {

/// Name under which a player is known.
pub type Username = String;

/// Pass that a user shows to log in. It is a plain number and offers no
/// cryptographic guarantee.
#[derive(Debug, Clone, Copy, PartialEq, Eq, Structural)]
pub struct Token(pub u32);

impl Token {
    /// The pass handed to every newly registered user.
    pub fn new() -> (t: Token)
        ensures
            t.0 == 3421545,
    {
        Token(3421545)
    }
}

/// A message between a client and the server.
#[derive(Debug)]
pub enum Response {
    Auth(Auth),
    Event(Event),
    Exception(Exception),
}

/// Requests made by a player.
#[derive(Debug)]
pub enum Event {
    Player(Action),
    World(World),
}

/// Messages about authentication.
#[derive(Debug)]
pub enum Auth {
    /// Logging in as an already registered user.
    Login(Username, Token),
    /// Asking to register a new user and player.
    Register(Username),
    /// The pass for a user whose registration succeeded.
    NewToken(Token),
    /// Closing the connection.
    Disconnect,
}

/// Requests about the world.
#[derive(Debug)]
pub enum World {
    GetTile(Position),
    Tile(Tile),
}

/// Commands that affect only the player who sends them.
#[derive(Debug)]
pub enum Action {
    /// See `Player::build`.
    Build { pos: Position, building: BuildingID, amount: u32 },
    /// See `Player::demolish`.
    Demolish { pos: Position, building: BuildingID, amount: u32 },
    /// See `Player::hire`.
    Hire { building: BuildingID, amount: u32 },
    /// See `Player::fire`.
    Fire { building: BuildingID, amount: u32 },
    /// See `Player::deposit`.
    Deposit { resource: ResourceID, amount: u32 },
    /// See `Player::withdraw`.
    Withdraw { resource: ResourceID, amount: u32 },
    /// See `Player::open_trade`.
    Trade { from: Username, to: Username, offer: Offer },
}

/// Errors that answer an event.
#[derive(Debug, Clone, Copy, PartialEq, Eq, Structural)]
pub enum Exception {
    PlaceHolder,
    InsufficientResource(ResourceID),
    InsufficientSlot(BuildingID),
    InsufficientStockpile(ResourceID),
    NotFound,
    TileNotOwned(Position),
    /// The pass does not match the one given at registration.
    InvalidToken,
    /// The user is not registered.
    Unregistered,
    /// The user name is already taken.
    AlreadyRegistered,
    /// An event came from a client that is not logged in.
    LoggedOut,
}

} // verus!
