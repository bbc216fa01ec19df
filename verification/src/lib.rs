//! Reconstruction of a wallet's transfers of one fungible token from the
//! balance snapshots that a ledger records around every transaction.

pub mod aggregate;
pub mod config;
pub mod inference;
pub mod models;
pub mod reconstruction;
pub mod resolver;
pub mod scanner;
pub mod session;
pub mod window;
