//! A solver for the puzzles of the game Splice.
//!
//! A puzzle is a strand: a rooted, ordered tree of cells with at most two
//! children each. A player splices it, moving a cell under another parent or
//! exchanging the two children of a cell, and between splices its special
//! cells mutate. A level is solved when the strand has the shape of a target.
//!
//! - [`forest`]: the model of a strand that the contracts speak of, and the
//!   left-to-right depth-first walk.
//! - [`children`], [`convert`], [`traversal`]: what the library has from the
//!   crates `arrayvec`, `itertools`, `to_trait` and `petgraph`.
//! - [`strand`], [`building`], [`edits`], [`mutation`], [`equality`]: the
//!   strand, how it is made, edited, mutated and compared.
//! - [`level_solver`]: the moves, the successors of a step and the search
//!   for a shortest solution, made by the crate `pathfinding`.
//! - [`level_maker`], [`selection`]: the catalogue of levels and the choice
//!   of one.
//! - [`captions`], [`graph_utils`], [`visuals`]: what is shown of a solution.
//! - [`laws`], [`readiness`]: what holds of all strands and solutions.
#![allow(non_snake_case)]

pub mod building;
pub mod captions;
pub mod children;
pub mod convert;
pub mod edits;
pub mod equality;
pub mod forest;
pub mod graph_utils;
pub mod laws;
pub mod level_maker;
pub mod level_solver;
pub mod mutation;
pub mod readiness;
pub mod selection;
pub mod strand;
pub mod traversal;
pub mod visuals;
