//! A ledger of time windows logged against categories: the store that
//! keeps them apart, the rules for closing what is open at the end of the
//! working day, deletion by range, and the figures of an export.

pub mod window;
pub mod error;
pub mod text;
pub mod clock;
pub mod ledger;
pub mod rollover;
pub mod config;
pub mod commands;
pub mod cli;
pub mod export;
pub mod timespec;
pub mod laws;
