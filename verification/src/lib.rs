//! The rules of a falling-block puzzle on a board of ten columns and twenty rows:
//! piece geometry, collision, locking, line clearing, the bag that deals the pieces,
//! and the step that one frame of play takes.
//!
//! Every function carries a contract that Verus proves. Three contracts are
//! assumed instead: those of `fastrand::shuffle` (in `deal`), of std's
//! `reverse` on slices (in `grid`) and of std's `String::push` (in `render`).
//!
//! The modules, from the leaves to the root:
//! - `tile`: tiles, board coordinates and the three turns;
//! - `grid`: shape grids, their transposition and their turns;
//! - `piece`: pieces, their spawn values, moves and turns, and the blocks they cover;
//! - `state`: the game state, collision, moves on the state, locking and row clearing;
//! - `deal`: bags and the dealing of pieces;
//! - `sweep`: the clearing of all full rows;
//! - `engine`: what a frame and an action of the player do to a session;
//! - `render`: the screen as text;
//! - `menu`: the title menu and the keys of play.

pub mod tile;
pub mod grid;
pub mod piece;
pub mod state;
pub mod deal;
pub mod sweep;
pub mod engine;
pub mod render;
pub mod menu;
