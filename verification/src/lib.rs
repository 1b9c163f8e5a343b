//! Collatz trajectories, produced lazily as a sequence of status snapshots.
//!
//! A [`Computation`] is created for a starting value and pulled repeatedly.
//! Each pull applies one Collatz step and hands out a copy of the updated
//! [`ComputationStatus`], until the trajectory reaches 1; the terminal
//! snapshot is handed out once more with `finished` set, and every later
//! pull reports completion.
//!
//! All values are `u128`. A step that would leave that range is reported as
//! [`Overflow`] instead of being taken.

pub mod trajectory;
pub mod status;
pub mod computation;
pub mod trace;
pub mod laws;

pub use computation::Computation;
pub use status::{ComputationStatus, Overflow, Phase};
pub use trajectory::step;

