//! The core of a fixed-size Reversi move picker: a board model with
//! move legality, move application and a static evaluation, and a
//! depth-limited minimax search over it that answers a single
//! board-and-mover request with the best next coordinate.

use vstd::prelude::*;

pub mod board;
pub mod counting;
pub mod laws;
pub mod search;
pub mod stone;

pub use board::params_to_ban;
pub use board::Ban;
pub use board::BanModel;
pub use search::get_position_score;
pub use search::handle_request;
pub use search::RequestError;
pub use stone::Stone;

verus! {

/// The board is a fixed-size square grid.
pub const BAN_SIZE: usize = 6;

/// Number of cells in the grid.
pub const CELL_COUNT: usize = BAN_SIZE * BAN_SIZE;

/// Depth of the minimax search used when answering a request.
pub const SEARCH_DEPTH: usize = 5;

} // verus!
