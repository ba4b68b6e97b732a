//! What holds of the records over whole histories of operations.

pub mod contests;
pub mod players;
