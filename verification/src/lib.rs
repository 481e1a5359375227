//! A pooled-wager escrow library.
//!
//! A `Brawl` is one escrow pool: participants deposit value on one of several
//! named options, an authority later declares the winning option, and winners
//! split the whole pool in proportion to their share of the winning option's
//! deposits. A `Contract` (the factory) validates and prices requests to stand
//! up new pools and decides how a failed provisioning attempt is compensated.
//!
//! The library works on plain values: identities are strings, token amounts
//! are `u128`. The surrounding platform supplies caller identity and attached
//! value and carries out the value transfers and the remote provisioning that
//! the library's results describe.

pub mod account;
pub mod errors;
pub mod factory;
pub mod pool;
