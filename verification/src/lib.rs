//! Single-agent heuristic search on a grid maze.
//!
//! An agent walks over a board of non-negative point values for a fixed
//! number of turns and collects the value of every cell it steps on. The
//! crate holds the transition rules of that game and the ways to pick the
//! next move: at random, by a one-ply greedy look-ahead, and by a beam
//! search over a frontier that is ordered by score.
//!
//! Every executable function is specified against [`model::Maze`], the
//! mathematical value that a [`state::MazeState`] stands for:
//!
//! - [`model`] and [`totals`]: the game as mathematics, and the sum of a
//!   board;
//! - [`coord`], [`state`], [`setup`]: positions, the executable state with
//!   its transitions, and its validated constructor;
//! - [`ranking`], [`frontier`]: the order of states and the frontier built
//!   on it;
//! - [`search`], [`greedy`], [`beam`]: the selectors;
//! - [`generate`]: games from a seed;
//! - [`play`], [`render`]: whole games, and a state as text;
//! - [`laws`]: what holds of every game and of every search.

pub mod beam;
pub mod coord;
pub mod frontier;
pub mod generate;
pub mod greedy;
pub mod laws;
pub mod model;
pub mod play;
pub mod ranking;
pub mod render;
pub mod search;
pub mod setup;
pub mod state;
pub mod totals;

pub use coord::Coord;
pub use frontier::Frontier;
pub use search::SearchError;
pub use setup::StateError;
pub use state::MazeState;
