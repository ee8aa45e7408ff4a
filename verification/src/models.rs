//! Plain data types the engine's entry points exchange with their callers:
//! the error taxonomy, request arguments, result shapes, and the modelled
//! ledger records that the refund path inspects.

use vstd::prelude::*;
use crate::identity::Identity;
use crate::subaccount::SubAccount;

verus! {

/// Every failure an engine operation can report.
#[derive(Clone, Copy, Debug, PartialEq, Eq, Structural)]
pub enum SaleError {
    /// A malformed request, such as a zero quantity.
    InvalidArgument,
    /// The caller lacks the required role or token ownership.
    Unauthorized,
    /// A Live-only operation was invoked after the sale resolved.
    SaleClosed,
    /// The escrow balance does not cover the requested reservation.
    InsufficientEscrowFunds,
    /// The reservation would push the total booked past the supply cap.
    SupplyCapExceeded,
    /// The named token id does not exist.
    NonExistingTokenId,
    /// A self-transfer that would change the held sub-identifier.
    InvalidRecipient,
    /// No inbound transfer to the escrow address could be found.
    RefundSourceNotFound,
    /// A collaborator returned an error or was unreachable.
    ExternalCallFailed,
    /// The operation needs the sale metadata before it is initialized.
    MetadataNotSet,
}

/// Request argument of a booking: how many units to reserve.
#[derive(Clone, Copy, Debug, PartialEq, Eq, Structural)]
pub struct BookTokensArg {
    pub quantity: u32,
}

/// Outcome of resolving a single investor's refund: where the funds go and
/// how much is returned after the fixed transfer fee.
pub struct RefundResult {
    pub to: String,
    pub amount: u64,
}

/// An account on the funds ledger: an identity plus an optional
/// sub-identifier (absent means the all-zero sub-identifier).
pub struct Account {
    pub owner: Identity,
    pub subaccount: Option<Vec<u8>>,
}

/// One inbound or outbound transfer, as the transaction-history index
/// reports it: sender and receiver accounts.
pub struct TransferEntry {
    pub from: Account,
    pub to: Account,
}

/// One investor's pending settlement step: how much to move from the
/// investor's escrow sub-account to the treasury, and how many ownership
/// records to mint afterwards.
pub struct Disbursement {
    pub investor: Identity,
    pub quantity: u128,
    pub amount: u128,
    pub escrow_subaccount: SubAccount,
}

/// A transfer request against the ownership ledger.
pub struct TransferArg {
    pub token_id: u32,
    pub to: Account,
    pub from_subaccount: Option<Vec<u8>>,
}

/// One token-metadata attribute value, as the enumeration queries report
/// it. This offering attaches no attributes to its tokens, so values of
/// this type are never produced; the shape is part of the query interface.
pub enum MetadataValue {
    Int(i128),
    Nat(u128),
    Blob(Vec<u8>),
    Text(String),
}

/// What a change of collection ownership asks the asset store to do: grant
/// edit rights to the new owner, revoke them from the previous one.
pub struct OwnershipChangePlan {
    pub asset_canister: Identity,
    pub new_owner: Identity,
    pub previous_owner: Identity,
    pub txn_index: u128,
}

/// The escrow account of the calling investor, both as its raw parts and as
/// its hashed address in hex text.
pub struct GetEscrowAccountRet {
    pub account_id: String,
    pub account: GetEscrowAccountRetAccount,
}

pub struct GetEscrowAccountRetAccount {
    pub owner: Identity,
    pub subaccount: [u8; 32],
}

/// One supported-standard entry: a standard's name and its defining URL.
pub struct Icrc61SupportedStandardsRetItem {
    pub url: String,
    pub name: String,
}

} // verus!
