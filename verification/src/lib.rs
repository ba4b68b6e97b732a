//! Verified core of a multiplayer typing-speed contest that runs on an
//! account-based ledger.
//!
//! Clients send signed commands; the program checks the accounts a command
//! comes with, moves the records on, and writes them back. Everything here
//! is proved against its contract:
//!
//! - [`address`]: identities, and the derivation of the address at which an
//!   owner's record lives;
//! - [`state`]: the player and contest records, the rules that change them,
//!   their stored form, and the ranking of results;
//! - [`instruction`]: the commands and their bytes;
//! - [`processor`]: the dispatcher, one entry point per command;
//! - [`error`]: the reasons for a rejection;
//! - [`wire`]: the encodings of integers, times and identities;
//! - [`laws`]: what holds over whole histories of operations.
//!
//! Two things are taken on trust from the ledger's own library, and marked
//! where they stand: the search for a derived address, and the reading of
//! the ledger's clock.

pub mod address;
pub mod error;
pub mod instruction;
pub mod laws;
pub mod processor;
pub mod state;
pub mod wire;
