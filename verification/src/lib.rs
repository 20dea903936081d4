//! A reinforcement learner for the 3x3 two-player marking game.
//!
//! The engine learns purely by reward and punishment of weighted choices:
//! each board state a side has visited owns a matchbox of per-move weights,
//! moves are drawn from those weights (best or weight-proportional random),
//! and finished self-play games feed back into the weights of every store
//! visited on the way.

pub mod bead;
pub mod board;
pub mod matchbox;
pub mod player;
pub mod select;
pub mod train;
