//! A speedcubing practice timer core: the four-state timing sequence, the
//! double-buffered scramble pipeline, the session history and its cached
//! statistics. Every function is synchronous and is meant to be driven once
//! per tick by a host loop.

pub mod cache;
pub mod clock;
pub mod history;
pub mod laws;
pub mod moves;
pub mod pipeline;
pub mod solve;
pub mod state;
pub mod stats;
pub mod timer;

pub use cache::CachedSessionSolves;
pub use history::{History, Session, StoreError};
pub use moves::{Move, Scramble};
pub use pipeline::ScramblePipeline;
pub use solve::{Penalty, Solve, SolveType, TimedMove};
pub use state::{DisplayColor, InputSnapshot, Precision, TimeDisplay, TimerState};
pub use timer::{Supplies, TickInput, TickOutput, Timer};
