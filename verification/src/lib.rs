//! A constant-product automated market maker: a fungible-token ledger and a
//! liquidity pool that prices swaps between two such ledgers.
//!
//! The hosting platform supplies authorization, the ledger sequence counter
//! and persistence. It hands each operation a [`types::Context`] and owns the
//! [`token::TokenContract`] and [`swap::SwapContract`] values that hold the
//! state. Every operation is all-or-nothing: when it returns an error, no
//! state has changed.

pub mod math;
pub mod sum;
pub mod swap;
pub mod token;
pub mod types;
