//! The persisted records: players, contests and contest results.

pub mod contest;
pub mod layout;
pub mod player;
pub mod ranking;

pub use contest::{Contest, ContestResult, ContestStatus, ContestView};
pub use player::Player;
