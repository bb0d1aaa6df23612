//! FreeCell solitaire: the rules engine behind a drag-and-drop card table.
//!
//! - [`card`]: the cards and the predicates that every rule is built from.
//! - [`geometry`]: screen coordinates.
//! - [`components`]: the piles (cascades, free cells, foundations), the hand
//!   that carries cards between them, the reset button and the victory
//!   animation.
//! - [`game`]: the controller. It owns the piles, turns pointer events into
//!   moves and says which sound goes with each. [`game::table`] describes a
//!   game and its moves as mathematics, [`game::laws`] proves what holds of
//!   every game, and [`game::init`] lays out the table and deals.
//! - [`tileset`]: the tiles of the sheet of cards and the queue of tiles to
//!   draw.
//!
//! The library reads no device and draws nothing itself: a front end hands it
//! pointer positions and elapsed time, and gets back sounds to play and tiles
//! to draw.

pub mod card;
pub mod components;
pub mod game;
pub mod geometry;
mod random;
pub mod tileset;
