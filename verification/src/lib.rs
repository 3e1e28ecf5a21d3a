//! Rules engine and adversarial search for a two-player game of stacking
//! pieces on a hexagonal board of 29 cells.
//!
//! A position holds the pieces of each side in three bit planes. The rules
//! say which moves are legal, what a move does (a piece is taken where two
//! pieces of the mover threaten its cell) and when the game is won. The
//! search ranks the legal moves by alpha-beta over these rules, with a table
//! of earlier results.
//!
//! Every function states what it returns over a model of its data: a set of
//! positions for a mask, a map from cells to species for the pieces of a
//! side, and spec functions of the same names for the rules and the search.

pub mod bits;
pub mod bitboards;
pub mod board;
pub mod delta;
pub mod editor;
pub mod gameplay;
pub mod heuristic;
pub mod history;
pub mod laws;
pub mod matches;
pub mod notation;
pub mod piecemap;
pub mod position;
pub mod ranking;
pub mod score;
pub mod search;
pub mod shortest;
pub mod table;
pub mod tile;

pub use bitboards::{BitSet, DoubleCounterBitset};
pub use board::{Captured, Piece, Player, PlayerMap, Species, Tall};
pub use delta::{neighbours_attack, neighbours_move};
pub use history::HistoryEntry;
pub use matches::{HalfOpening, HalfOpeningDetectionError, MatchState};
pub use notation::{PlyParseError, TileParseError};
pub use piecemap::PieceMap;
pub use position::{MoveApplyReport, Position};
pub use score::{EvalResult, Score};
pub use table::TranspositionalTable;
pub use tile::{Ply, Tile};
