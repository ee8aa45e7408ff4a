//! The engine's whole state: the sale metadata, the escrow ledger, the
//! ownership ledger, and the global transaction index. One instance owns
//! all of it; every entry point takes the state by reference.

use vstd::prelude::*;
use crate::escrow::EscrowStore;
use crate::escrow::SaleStatus;
use crate::metadata::Metadata;
use crate::metadata::MetaDataState;
use crate::tokens::TokenState;

verus! {

/// The running index of recorded transactions.
pub struct TxnIndexStore {
    pub index: u128,
}

impl TxnIndexStore {
    pub fn default() -> (r: TxnIndexStore)
        ensures
            r.index == 0,
    {
        TxnIndexStore { index: 0 }
    }

    pub fn index(&self) -> (r: u128)
        ensures
            r == self.index,
    {
        self.index
    }
}

/// The engine's state.
pub struct State {
    pub metadata: Option<MetaDataState>,
    pub escrow: EscrowStore,
    pub transactions: TxnIndexStore,
    pub tokens: TokenState,
}

impl State {
    /// The engine's invariant: both ledgers are well formed, and once
    /// metadata is set, its arithmetic bounds hold and the booked total
    /// never exceeds the supply cap.
    pub open spec fn wf(&self) -> bool {
        &&& self.escrow.wf()
        &&& self.tokens.wf()
        &&& self.metadata matches Some(m)
            ==> m.metadata.wf() && self.escrow.total_booked_tokens <= m.metadata.supply_cap
    }

    /// A fresh engine: no metadata, a Live empty escrow, an empty
    /// ownership ledger.
    pub fn default() -> (r: State)
        ensures
            r.wf(),
            r.metadata is None,
            r.escrow.sale_status == SaleStatus::Live,
            r.escrow.booked_tokens@.len() == 0,
            r.escrow.total_booked_tokens == 0,
            r.tokens.tokens@.len() == 0,
            r.tokens.counter == 0,
            r.transactions.index == 0,
    {
        State {
            metadata: None,
            escrow: EscrowStore::default(),
            transactions: TxnIndexStore::default(),
            tokens: TokenState::default(),
        }
    }
}

/// Install the initial metadata into a fresh engine: everything else
/// starts empty, the sale Live.
pub fn init_hook(meta: Metadata) -> (r: State)
    requires
        meta.wf(),
    ensures
        r.wf(),
        r.metadata == (Some(MetaDataState { metadata: meta, total_supply: 0u64 })),
        r.escrow.sale_status == SaleStatus::Live,
        r.escrow.booked_tokens@.len() == 0,
        r.escrow.total_booked_tokens == 0,
        r.tokens.tokens@.len() == 0,
        r.tokens.counter == 0,
        r.transactions.index == 0,
{
    State {
        metadata: Some(MetaDataState { metadata: meta, total_supply: 0 }),
        escrow: EscrowStore::default(),
        transactions: TxnIndexStore::default(),
        tokens: TokenState::default(),
    }
}

} // verus!
