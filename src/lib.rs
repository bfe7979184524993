//! The production-chain resource engine of a multiplayer strategy game:
//! the building catalog and its dependency index, each player's economy,
//! the efficiency-ratio solver, the generation cache and the tick engine, with the
//! clock that paces the ticks and the session rules of the game server.
pub mod ids;
pub mod clock;
pub mod resources;
pub mod buildings;
pub mod tile;
pub mod owned;
pub mod generator;
pub mod trade;
pub mod player;
pub mod response;
pub mod game;
pub mod pos;
pub mod session;
