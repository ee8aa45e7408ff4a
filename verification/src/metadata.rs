//! The sale's economic parameters, set once at initialization: unit price,
//! supply cap, and the identities of the treasury, the funds ledger, its
//! transaction-history index, the collection owner and the companion asset
//! store. Descriptive fields of the offering live outside the engine.

use vstd::prelude::*;
use crate::identity::Identity;

verus! {

/// The fixed fee the funds ledger charges per transfer, in base units.
pub const TRANSFER_FEE: u64 = 10_000;

/// The engine's economic parameters.
pub struct Metadata {
    /// The price of the whole offering, in base units.
    pub purchase_price: u128,
    /// The price of one unit, in base units.
    pub price: u64,
    /// How many units may be booked in total.
    pub supply_cap: u128,
    /// Where settled funds go.
    pub treasury: Identity,
    /// The funds ledger that holds escrow balances.
    pub token: Identity,
    /// The transaction-history index of the funds ledger.
    pub index: Identity,
    /// The party allowed to resolve the sale.
    pub collection_owner: Identity,
    /// The companion asset store whose edit rights follow ownership.
    pub asset_canister: Identity,
}

impl Metadata {
    /// Settlement arithmetic stays within machine bounds: the full supply
    /// at unit price fits the widest integer the engine computes in.
    pub open spec fn wf(&self) -> bool {
        self.supply_cap * self.price <= u128::MAX
    }
}

/// The metadata record together with the running total of minted units.
pub struct MetaDataState {
    pub metadata: Metadata,
    pub total_supply: u64,
}

} // verus!
