//! Verified core of the `gap` peer-to-peer file pipe: export-name
//! validation, canonical path names, transfer bookkeeping and the small
//! decisions that the command-line tool takes while sending and receiving.

pub mod path;
pub mod progress;
pub mod provider;
pub mod import;
pub mod cli;
pub mod ticket;
pub mod store;
pub mod receive;
pub mod session;
