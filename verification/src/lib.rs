//! A verified sale/escrow engine for a tokenized asset offering.
//!
//! Investors reserve units of a fixed supply against per-investor escrow
//! accounts; the sale resolves exactly once, either to acceptance (funds
//! settle to a treasury and one ownership record is minted per unit) or to
//! rejection (escrowed funds are refunded to their original senders).
//! The engine itself is pure state plus decisions; the surrounding host
//! performs the actual ledger calls and feeds their results back in.

pub mod identity;
pub mod subaccount;
pub mod account_identifier;
pub mod models;
pub mod escrow;
pub mod metadata;
pub mod tokens;
pub mod state;
pub mod service;

use vstd::prelude::*;

verus! {

} // verus!
