//! Rooms that each carry one vibe value, a windowed predictor per room,
//! gossip messages, and the graph that ties them together.
//!
//! The value type `T` stands for the vibe scalar; the arithmetic on it is
//! done by the caller, and this crate keeps the structure that the
//! arithmetic runs on.

pub mod cell_graph;
pub mod jepa;
pub mod murmur;
pub mod room;

pub use cell_graph::CellGraph;
pub use jepa::{Jepa, JepaModel};
pub use murmur::Murmur;
pub use room::Room;
