//! The engine's entry points: the booking protocol, the settlement and
//! refund protocols, the governance path, and the ownership-ledger
//! queries. Everything here is a decision over the engine's own state and
//! plain values; the host performs the actual ledger calls and passes
//! their results in.

use vstd::prelude::*;
use crate::account_identifier::AccountIdentifier;
use crate::account_identifier::account_id_of;
use crate::account_identifier::hex_of_bytes;
use crate::escrow::SaleStatus;
use crate::escrow::spec_booked_of;
use crate::escrow::spec_settled_of;
use crate::escrow::spec_has_booking;
use crate::escrow::lemma_booked_le_sum;
use crate::escrow::lemma_entry_le_sum;
use crate::identity::Identity;
use crate::metadata::MetaDataState;
use crate::metadata::TRANSFER_FEE;
use crate::models::BookTokensArg;
use crate::models::Disbursement;
use crate::models::GetEscrowAccountRet;
use crate::models::GetEscrowAccountRetAccount;
use crate::models::OwnershipChangePlan;
use crate::models::RefundResult;
use crate::models::SaleError;
use crate::models::TransferEntry;
use crate::models::TransferArg;
use crate::models::Account;
use crate::models::MetadataValue;
use crate::state::State;
use crate::tokens::sub_view;
use crate::tokens::canon_sub;
use crate::tokens::clone_sub;
use crate::tokens::ids_of;
use crate::tokens::matched_ids;
use crate::tokens::lemma_matched_ids_sorted;
use crate::tokens::lemma_record_of_unique;
use crate::tokens::paginate;
use crate::tokens::spec_has_token;
use crate::tokens::spec_page;
use crate::tokens::spec_record_of;
use crate::tokens::subaccounts_eq;
use crate::tokens::owner_map;
use crate::tokens::lemma_owner_map_update;
use crate::subaccount::SubAccount;
use crate::subaccount::sub_of_identity;
use crate::subaccount::zero_sub;
use crate::identity::principal_text_of;

verus! {

impl State {
    /// The unit price, once metadata is set.
    pub open spec fn spec_price(&self) -> u64 {
        self.metadata->Some_0.metadata.price
    }

    /// The supply cap, once metadata is set.
    pub open spec fn spec_supply_cap(&self) -> u128 {
        self.metadata->Some_0.metadata.supply_cap
    }

    /// What the given investor has booked.
    pub open spec fn spec_booked(&self, id: Seq<u8>) -> u128 {
        spec_booked_of(self.escrow.booked_tokens@, id)
    }

    /// The deposit a booking must find in escrow: the investor's whole
    /// holding after the request, at unit price, plus the fixed
    /// transfer-fee margin.
    pub open spec fn spec_required_deposit(&self, caller: Seq<u8>, qty: u32) -> int {
        (self.spec_booked(caller) + qty) * self.spec_price() + TRANSFER_FEE
    }

    /// The booking decision, checked in order: an anonymous caller is
    /// unauthorized; a zero quantity is malformed; the sale must be Live
    /// and the metadata set; the escrow balance must cover the required
    /// deposit; and the cap must hold against the current total — checked
    /// immediately before the commit, with no suspension in between.
    pub open spec fn spec_book_outcome(&self, caller: Identity, qty: u32, balance: u128)
        -> Result<bool, SaleError> {
        if caller.spec_is_anonymous() {
            Err(SaleError::Unauthorized)
        } else if qty == 0 {
            Err(SaleError::InvalidArgument)
        } else if self.escrow.sale_status != SaleStatus::Live {
            Err(SaleError::SaleClosed)
        } else if self.metadata is None {
            Err(SaleError::MetadataNotSet)
        } else if (balance as int) < self.spec_required_deposit(caller@, qty) {
            Err(SaleError::InsufficientEscrowFunds)
        } else if self.escrow.total_booked_tokens + qty > self.spec_supply_cap() {
            Err(SaleError::SupplyCapExceeded)
        } else {
            Ok(true)
        }
    }

    /// Record a reservation against the escrow balance the host read for
    /// the caller's escrow account. On success the caller's booking and
    /// the total both grow by the quantity and the total stays within the
    /// supply cap; on any error nothing changes.
    pub fn book_tokens(&mut self, caller: &Identity, arg: BookTokensArg, escrow_balance: u128)
        -> (r: Result<bool, SaleError>)
        requires
            old(self).wf(),
            caller.is_valid(),
        ensures
            final(self).wf(),
            r == old(self).spec_book_outcome(*caller, arg.quantity, escrow_balance),
            r is Err ==> *final(self) == *old(self),
            r is Ok ==> final(self).escrow.sale_status == SaleStatus::Live,
            r is Ok ==> final(self).escrow.total_booked_tokens
                == old(self).escrow.total_booked_tokens + arg.quantity,
            r is Ok ==> final(self).escrow.total_booked_tokens <= old(self).spec_supply_cap(),
            r is Ok ==> final(self).spec_booked(caller@)
                == old(self).spec_booked(caller@) + arg.quantity,
            r is Ok ==> forall|id: Seq<u8>| id != caller@
                ==> final(self).spec_booked(id) == old(self).spec_booked(id),
            r is Ok ==> forall|id: Seq<u8>|
                spec_settled_of(final(self).escrow.booked_tokens@, id)
                    == spec_settled_of(old(self).escrow.booked_tokens@, id),
            final(self).metadata == old(self).metadata,
            final(self).tokens == old(self).tokens,
            final(self).transactions == old(self).transactions,
    {
        if caller.is_anonymous() {
            return Err(SaleError::Unauthorized);
        }
        if arg.quantity == 0 {
            return Err(SaleError::InvalidArgument);
        }
        if !(self.escrow.sale_status == SaleStatus::Live) {
            return Err(SaleError::SaleClosed);
        }
        let (price, supply_cap): (u64, u128) = match &self.metadata {
            Some(m) => (m.metadata.price, m.metadata.supply_cap),
            None => {
                return Err(SaleError::MetadataNotSet);
            },
        };
        let booked = self.escrow.booked_of(caller);
        let quantity = arg.quantity as u128;
        proof {
            lemma_booked_le_sum(self.escrow.booked_tokens@, caller@);
            vstd::arithmetic::mul::lemma_mul_inequality(
                booked as int,
                supply_cap as int,
                price as int,
            );
            vstd::arithmetic::mul::lemma_mul_upper_bound(
                quantity as int,
                u32::MAX as int,
                price as int,
                u64::MAX as int,
            );
            vstd::arithmetic::mul::lemma_mul_is_distributive_add_other_way(
                price as int,
                booked as int,
                quantity as int,
            );
        }
        let own_cost: u128 = booked * (price as u128);
        let new_cost: u128 = quantity * (price as u128);
        let covered: bool = match own_cost.checked_add(new_cost) {
            Some(cost) => match cost.checked_add(TRANSFER_FEE as u128) {
                Some(required) => escrow_balance >= required,
                None => false,
            },
            None => false,
        };
        if !covered {
            return Err(SaleError::InsufficientEscrowFunds);
        }
        // The cap is re-validated here, strictly after the host's balance
        // read and with no suspension before the commit below, so a stale
        // pre-read total can never let two reservations jointly pass it.
        let total = self.escrow.get_total_booked_tokens();
        if quantity > supply_cap - total {
            return Err(SaleError::SupplyCapExceeded);
        }
        self.escrow.book_tokens(caller, quantity);
        Ok(true)
    }
}

/// Bookings serialize against the supply cap: whenever two reservations
/// both succeed, one after the other, their joint quantity still fits
/// under the cap — two reservations that would jointly exceed it can
/// never both pass the commit-time check.
pub proof fn lemma_bookings_never_exceed_cap(
    s0: State,
    s1: State,
    s2: State,
    c1: Identity,
    c2: Identity,
    q1: u32,
    q2: u32,
    b1: u128,
    b2: u128,
)
    requires
        s0.spec_book_outcome(c1, q1, b1) is Ok,
        s1.escrow.total_booked_tokens == s0.escrow.total_booked_tokens + q1,
        s1.metadata == s0.metadata,
        s1.spec_book_outcome(c2, q2, b2) is Ok,
        s2.escrow.total_booked_tokens == s1.escrow.total_booked_tokens + q2,
        s2.metadata == s1.metadata,
    ensures
        s0.escrow.total_booked_tokens + q1 + q2 <= s0.spec_supply_cap(),
        s2.escrow.total_booked_tokens <= s2.spec_supply_cap(),
{
}

/// A resolved sale stays resolved: once the status has left Live, every
/// lifecycle operation — booking, accepting, rejecting — is refused, and
/// since only those operations move the status at all, it never changes
/// again.
pub proof fn lemma_resolved_sale_is_final(s: State, caller: Identity, qty: u32, balance: u128)
    requires
        s.escrow.sale_status != SaleStatus::Live,
        !caller.spec_is_anonymous(),
        qty > 0,
    ensures
        s.spec_book_outcome(caller, qty, balance) == Err::<bool, SaleError>(SaleError::SaleClosed),
        s.spec_accept_outcome(caller) is Err,
        s.metadata is Some && caller@ == s.metadata->Some_0.metadata.collection_owner@
            ==> s.spec_accept_outcome(caller) == Err::<bool, SaleError>(SaleError::SaleClosed),
{
}

impl State {
    pub fn get_sale_status(&self) -> (r: SaleStatus)
        ensures
            r == self.escrow.sale_status,
    {
        self.escrow.sale_status
    }

    pub fn get_total_booked_tokens(&self) -> (r: u128)
        ensures
            r == self.escrow.total_booked_tokens,
    {
        self.escrow.get_total_booked_tokens()
    }

    /// What the given investor has booked, zero if nothing.
    pub fn get_booked_tokens(&self, user: &Identity) -> (r: u128)
        requires
            self.wf(),
        ensures
            r == self.spec_booked(user@),
    {
        self.escrow.booked_of(user)
    }

    pub fn get_participating_investors(&self) -> (r: Vec<Identity>)
        ensures
            r@.len() == self.escrow.booked_tokens@.len(),
            forall|i: int| 0 <= i < r@.len()
                ==> r@[i]@ == self.escrow.booked_tokens@[i].investor@,
    {
        self.escrow.get_participating_investors()
    }

    /// The metadata record, if initialization has happened.
    pub fn get_metadata(&self) -> (r: Result<&MetaDataState, SaleError>)
        ensures
            r is Ok <==> self.metadata is Some,
            r matches Ok(m) ==> *m == self.metadata->Some_0,
            r matches Err(e) ==> e == SaleError::MetadataNotSet,
    {
        match &self.metadata {
            Some(m) => Ok(m),
            None => Err(SaleError::MetadataNotSet),
        }
    }

    /// The caller's escrow account under this engine: the engine's own
    /// identity plus the caller's derived sub-identifier, and the hashed
    /// address in hex text.
    pub fn get_escrow_account(&self, engine_id: &Identity, caller: &Identity)
        -> (r: Result<GetEscrowAccountRet, SaleError>)
        requires
            caller.is_valid(),
        ensures
            r is Ok,
            r matches Ok(a) ==> a.account.owner@ == engine_id@
                && a.account.subaccount@ == sub_of_identity(caller@)
                && a.account_id@ == hex_of_bytes(account_id_of(engine_id@, sub_of_identity(caller@))),
    {
        let subaccount = SubAccount::from_principal(caller);
        let sub_bytes = subaccount.to_uint8_array();
        let account_identifier = AccountIdentifier::from_principal(engine_id, Some(subaccount));
        Ok(GetEscrowAccountRet {
            account: GetEscrowAccountRetAccount {
                owner: engine_id.duplicate(),
                subaccount: sub_bytes,
            },
            account_id: account_identifier.to_hex(),
        })
    }

    /// The escrow account address that holds the given investor's funds.
    pub fn escrow_account_of(engine_id: &Identity, investor: &Identity) -> (r: AccountIdentifier)
        requires
            investor.is_valid(),
        ensures
            r@ == account_id_of(engine_id@, sub_of_identity(investor@)),
    {
        let subaccount = SubAccount::from_principal(investor);
        AccountIdentifier::from_principal(engine_id, Some(subaccount))
    }

    /// The settlement decision: metadata must be set, only the collection
    /// owner may resolve the sale, and the sale must still be Live.
    pub open spec fn spec_accept_outcome(&self, caller: Identity) -> Result<bool, SaleError> {
        if self.metadata is None {
            Err(SaleError::MetadataNotSet)
        } else if caller@ != self.metadata->Some_0.metadata.collection_owner@ {
            Err(SaleError::Unauthorized)
        } else if self.escrow.sale_status != SaleStatus::Live {
            Err(SaleError::SaleClosed)
        } else {
            Ok(true)
        }
    }

    /// Resolve a Live sale to Accepted and return, per booked investor,
    /// the transfer the host must drive: the investor's whole booking at
    /// unit price, out of the investor's escrow sub-account. Accepting is
    /// one-way: re-invoking fails with SaleClosed, and no operation of the
    /// engine returns the status to Live.
    pub fn accept_sale(&mut self, caller: &Identity) -> (r: Result<Vec<Disbursement>, SaleError>)
        requires
            old(self).wf(),
        ensures
            final(self).wf(),
            (r is Ok) == (old(self).spec_accept_outcome(*caller) is Ok),
            r matches Err(e) ==> Err::<bool, SaleError>(e) == old(self).spec_accept_outcome(*caller),
            r is Err ==> *final(self) == *old(self),
            r is Ok ==> final(self).escrow.sale_status == SaleStatus::Accepted,
            final(self).escrow.booked_tokens@ == old(self).escrow.booked_tokens@,
            final(self).escrow.total_booked_tokens == old(self).escrow.total_booked_tokens,
            final(self).metadata == old(self).metadata,
            final(self).tokens == old(self).tokens,
            final(self).transactions == old(self).transactions,
            r matches Ok(ds) ==> ds@.len() == old(self).escrow.booked_tokens@.len(),
            r matches Ok(ds) ==> forall|i: int| 0 <= i < ds@.len()
                ==> (#[trigger] ds@[i]).investor@ == old(self).escrow.booked_tokens@[i].investor@
                    && ds@[i].quantity == old(self).escrow.booked_tokens@[i].quantity
                    && ds@[i].amount
                        == old(self).escrow.booked_tokens@[i].quantity * old(self).spec_price()
                    && ds@[i].escrow_subaccount@
                        == sub_of_identity(old(self).escrow.booked_tokens@[i].investor@),
    {
        let price: u64 = match &self.metadata {
            Some(m) => {
                if !m.metadata.collection_owner.same_as(caller) {
                    return Err(SaleError::Unauthorized);
                }
                m.metadata.price
            },
            None => {
                return Err(SaleError::MetadataNotSet);
            },
        };
        if !(self.escrow.sale_status == SaleStatus::Live) {
            return Err(SaleError::SaleClosed);
        }
        let ghost cap = self.spec_supply_cap();
        self.escrow.accept_sale();
        let mut out: Vec<Disbursement> = Vec::new();
        let n = self.escrow.booked_tokens.len();
        let mut i: usize = 0;
        while i < n
            invariant
                i <= n,
                n == self.escrow.booked_tokens@.len(),
                self.escrow.wf(),
                self.escrow.total_booked_tokens <= cap,
                cap * price <= u128::MAX,
                out@.len() == i,
                forall|j: int| 0 <= j < i
                    ==> (#[trigger] out@[j]).investor@ == self.escrow.booked_tokens@[j].investor@
                        && out@[j].quantity == self.escrow.booked_tokens@[j].quantity
                        && out@[j].amount == self.escrow.booked_tokens@[j].quantity * price
                        && out@[j].escrow_subaccount@
                            == sub_of_identity(self.escrow.booked_tokens@[j].investor@),
            decreases n - i,
        {
            proof {
                lemma_entry_le_sum(self.escrow.booked_tokens@, i as int);
                vstd::arithmetic::mul::lemma_mul_inequality(
                    self.escrow.booked_tokens@[i as int].quantity as int,
                    cap as int,
                    price as int,
                );
            }
            let investor = &self.escrow.booked_tokens[i].investor;
            let quantity = self.escrow.booked_tokens[i].quantity;
            let amount: u128 = quantity * (price as u128);
            let escrow_subaccount = SubAccount::from_principal(investor);
            out.push(Disbursement {
                investor: investor.duplicate(),
                quantity,
                amount,
                escrow_subaccount,
            });
            i = i + 1;
        }
        Ok(out)
    }

    /// The settlement-step decision for one investor: the sale must have
    /// been accepted and the investor must hold a booking; a step that
    /// already ran reports Ok(false) and does nothing, so a retry can
    /// never mint twice.
    pub open spec fn spec_settle_outcome(&self, investor: Identity) -> Result<bool, SaleError> {
        if self.escrow.sale_status != SaleStatus::Accepted {
            Err(SaleError::SaleClosed)
        } else if !spec_has_booking(self.escrow.booked_tokens@, investor@) {
            Err(SaleError::InvalidArgument)
        } else if spec_settled_of(self.escrow.booked_tokens@, investor@) {
            Ok(false)
        } else {
            Ok(true)
        }
    }

    /// Run one investor's settlement step after the host's escrow-to-
    /// treasury transfer succeeded: mint exactly the booked quantity of
    /// ownership records to the investor, each under the investor's
    /// derived sub-identifier, and flag the entry settled. Idempotent: a
    /// second run reports Ok(false) and changes nothing.
    pub fn settle_investor(&mut self, investor: &Identity) -> (r: Result<bool, SaleError>)
        requires
            old(self).wf(),
            old(self).tokens.counter
                + spec_booked_of(old(self).escrow.booked_tokens@, investor@) <= u32::MAX,
        ensures
            final(self).wf(),
            r == old(self).spec_settle_outcome(*investor),
            !(r == Ok::<bool, SaleError>(true)) ==> *final(self) == *old(self),
            final(self).metadata == old(self).metadata,
            final(self).transactions == old(self).transactions,
            final(self).escrow.sale_status == old(self).escrow.sale_status,
            final(self).escrow.total_booked_tokens == old(self).escrow.total_booked_tokens,
            forall|id: Seq<u8>| final(self).spec_booked(id) == old(self).spec_booked(id),
            r == Ok::<bool, SaleError>(true) ==> spec_settled_of(final(self).escrow.booked_tokens@, investor@),
            forall|id: Seq<u8>| id != investor@
                ==> spec_settled_of(final(self).escrow.booked_tokens@, id)
                    == spec_settled_of(old(self).escrow.booked_tokens@, id),
            // what settlement mints: one record per booked unit, each owned
            // by the investor under the derived sub-identifier
            r == Ok::<bool, SaleError>(true) ==> final(self).tokens.tokens@.len()
                == old(self).tokens.tokens@.len()
                    + spec_booked_of(old(self).escrow.booked_tokens@, investor@),
            forall|i: int| 0 <= i < old(self).tokens.tokens@.len()
                ==> final(self).tokens.tokens@[i] == old(self).tokens.tokens@[i],
            forall|i: int| old(self).tokens.tokens@.len() <= i < final(self).tokens.tokens@.len()
                ==> (#[trigger] final(self).tokens.tokens@[i]).owner@ == investor@
                    && sub_view(final(self).tokens.tokens@[i].subaccount)
                        == Some(sub_of_identity(investor@)),
            r == Ok::<bool, SaleError>(true) ==> final(self).tokens.counter
                == old(self).tokens.counter
                    + spec_booked_of(old(self).escrow.booked_tokens@, investor@),
    {
        if !(self.escrow.sale_status == SaleStatus::Accepted) {
            return Err(SaleError::SaleClosed);
        }
        if !self.escrow.has_booking(investor) {
            return Err(SaleError::InvalidArgument);
        }
        if self.escrow.settled_of(investor) {
            return Ok(false);
        }
        proof {
            let w = choose|k: int| 0 <= k < self.escrow.booked_tokens@.len()
                && self.escrow.booked_tokens@[k].investor@ == investor@;
            assert(self.escrow.booked_tokens@[w].investor.is_valid());
            assert(investor.is_valid());
        }
        let booked = self.escrow.booked_of(investor);
        let sub = SubAccount::from_principal(investor);
        let ghost esc0 = self.escrow;
        let ghost toks0 = self.tokens.tokens@;
        let ghost cnt0 = self.tokens.counter;
        let ghost meta0 = self.metadata;
        let ghost txn0 = self.transactions;
        let mut k: u128 = 0;
        while k < booked
            invariant
                k <= booked,
                cnt0 + booked <= u32::MAX,
                self.escrow == esc0,
                self.metadata == meta0,
                self.transactions == txn0,
                self.tokens.wf(),
                self.tokens.counter == cnt0 + k,
                self.tokens.tokens@.len() == toks0.len() + k,
                forall|i: int| 0 <= i < toks0.len() ==> self.tokens.tokens@[i] == toks0[i],
                forall|i: int| toks0.len() <= i < self.tokens.tokens@.len()
                    ==> (#[trigger] self.tokens.tokens@[i]).owner@ == investor@
                        && sub_view(self.tokens.tokens@[i].subaccount)
                            == Some(sub_of_identity(investor@)),
                sub@ == sub_of_identity(investor@),
            decreases booked - k,
        {
            self.tokens.mint(investor, Some(sub.to_vec()));
            k = k + 1;
        }
        self.escrow.mark_settled(investor);
        Ok(true)
    }

    /// Resolve a Live sale to Rejected and return every booked investor,
    /// so the host can run each investor's refund. Rejecting is one-way:
    /// re-invoking fails with SaleClosed, and no operation of the engine
    /// returns the status to Live.
    pub fn reject_sale(&mut self) -> (r: Result<Vec<Identity>, SaleError>)
        requires
            old(self).wf(),
        ensures
            final(self).wf(),
            (r is Ok) == (old(self).escrow.sale_status == SaleStatus::Live),
            r matches Err(e) ==> e == SaleError::SaleClosed,
            r is Err ==> *final(self) == *old(self),
            r is Ok ==> final(self).escrow.sale_status == SaleStatus::Rejected,
            final(self).escrow.booked_tokens@ == old(self).escrow.booked_tokens@,
            final(self).escrow.total_booked_tokens == old(self).escrow.total_booked_tokens,
            final(self).metadata == old(self).metadata,
            final(self).tokens == old(self).tokens,
            final(self).transactions == old(self).transactions,
            r matches Ok(inv) ==> inv@.len() == old(self).escrow.booked_tokens@.len(),
            r matches Ok(inv) ==> forall|i: int| 0 <= i < inv@.len()
                ==> (#[trigger] inv@[i])@ == old(self).escrow.booked_tokens@[i].investor@,
    {
        if !(self.escrow.sale_status == SaleStatus::Live) {
            return Err(SaleError::SaleClosed);
        }
        self.escrow.reject_sale();
        Ok(self.escrow.get_participating_investors())
    }

    /// The governance decision: metadata must be set and only the current
    /// collection owner may hand ownership over. The plan tells the host
    /// which asset store to call, whom to grant edit rights and whose to
    /// revoke, and carries the current global transaction index.
    pub fn change_ownership(&self, caller: &Identity, new_owner: &Identity)
        -> (r: Result<OwnershipChangePlan, SaleError>)
        ensures
            r is Ok <==> (self.metadata is Some
                && caller@ == self.metadata->Some_0.metadata.collection_owner@),
            r matches Err(e) ==> e == (if self.metadata is None {
                SaleError::MetadataNotSet
            } else {
                SaleError::Unauthorized
            }),
            r matches Ok(p) ==> p.asset_canister@
                == self.metadata->Some_0.metadata.asset_canister@
                && p.new_owner@ == new_owner@
                && p.previous_owner@ == self.metadata->Some_0.metadata.collection_owner@
                && p.txn_index == self.transactions.index,
    {
        match &self.metadata {
            Some(m) => {
                if !m.metadata.collection_owner.same_as(caller) {
                    return Err(SaleError::Unauthorized);
                }
                Ok(OwnershipChangePlan {
                    asset_canister: m.metadata.asset_canister.duplicate(),
                    new_owner: new_owner.duplicate(),
                    previous_owner: m.metadata.collection_owner.duplicate(),
                    txn_index: self.transactions.index(),
                })
            },
            None => Err(SaleError::MetadataNotSet),
        }
    }
}

/// The sub-identifier bytes a ledger transfer record designates: its own
/// when they are exactly 32 bytes, the canonical all-zero value otherwise.
pub open spec fn effective_sub(o: Option<Seq<u8>>) -> Seq<u8> {
    match o {
        Some(v) => if v.len() == 32 {
            v
        } else {
            zero_sub()
        },
        None => zero_sub(),
    }
}

/// Whether a ledger transfer was sent into the given escrow account.
pub open spec fn refund_matches(t: TransferEntry, escrow: Seq<u8>) -> bool {
    account_id_of(t.to.owner@, effective_sub(sub_view(t.to.subaccount))) == escrow
}

/// The position of the first transfer into the escrow account, or -1.
pub open spec fn spec_first_refund_match(s: Seq<TransferEntry>, escrow: Seq<u8>) -> int
    decreases s.len(),
{
    if s.len() == 0 {
        -1
    } else if refund_matches(s[0], escrow) {
        0
    } else {
        let r = spec_first_refund_match(s.drop_first(), escrow);
        if r < 0 {
            -1
        } else {
            1 + r
        }
    }
}

/// A position before which nothing matches, and that matches itself or is
/// the end, is exactly what the search finds.
proof fn lemma_first_match_at(s: Seq<TransferEntry>, escrow: Seq<u8>, i: int)
    requires
        0 <= i <= s.len(),
        forall|j: int| 0 <= j < i ==> !refund_matches(s[j], escrow),
        i < s.len() ==> refund_matches(s[i], escrow),
    ensures
        spec_first_refund_match(s, escrow) == if i == s.len() {
            -1
        } else {
            i
        },
    decreases s.len(),
{
    if s.len() > 0 && i > 0 {
        let d = s.drop_first();
        assert(forall|j: int| 0 <= j < d.len() ==> d[j] == s[j + 1]);
        lemma_first_match_at(d, escrow, i - 1);
    }
}

/// Whether a transfer record's destination is the given escrow account.
fn entry_matches_escrow(t: &TransferEntry, escrow: &AccountIdentifier) -> (b: bool)
    ensures
        b == refund_matches(*t, escrow@),
{
    let sub: Option<SubAccount> = match &t.to.subaccount {
        Some(v) => match SubAccount::from_bytes(v.as_slice()) {
            Ok(s) => Some(s),
            Err(_) => None,
        },
        None => None,
    };
    let account = AccountIdentifier::from_principal(&t.to.owner, sub);
    account.same_as(escrow)
}

/// Resolve one investor's refund from what the transaction-history index
/// reported for the escrow account: find the first transfer whose
/// destination is exactly that account and return its sender as the
/// refund destination, with the account's balance minus the fixed
/// transfer fee (never below zero) as the amount. A refund of zero is
/// still a success. With no matching inbound transfer there is no place
/// to send funds back to, and the resolution fails.
pub fn resolve_refund(
    transactions: &Vec<TransferEntry>,
    escrow_balance: u64,
    escrow_account: &AccountIdentifier,
) -> (r: Result<RefundResult, SaleError>)
    requires
        forall|i: int| 0 <= i < transactions@.len()
            ==> (#[trigger] transactions@[i]).from.owner.is_valid(),
    ensures
        r is Ok <==> spec_first_refund_match(transactions@, escrow_account@) >= 0,
        r matches Err(e) ==> e == SaleError::RefundSourceNotFound,
        r matches Ok(rr) ==> rr.to@ == principal_text_of(
            transactions@[spec_first_refund_match(transactions@, escrow_account@)].from.owner@,
        ),
        r matches Ok(rr) ==> rr.amount == (if escrow_balance > TRANSFER_FEE {
            (escrow_balance - TRANSFER_FEE) as int
        } else {
            0int
        }),
{
    let n = transactions.len();
    let mut i: usize = 0;
    while i < n
        invariant
            i <= n,
            n == transactions@.len(),
            forall|j: int| 0 <= j < i ==> !refund_matches(transactions@[j], escrow_account@),
            forall|k: int| 0 <= k < transactions@.len()
                ==> (#[trigger] transactions@[k]).from.owner.is_valid(),
        decreases n - i,
    {
        if entry_matches_escrow(&transactions[i], escrow_account) {
            proof {
                lemma_first_match_at(transactions@, escrow_account@, i as int);
            }
            let amount = escrow_balance.saturating_sub(TRANSFER_FEE);
            return Ok(RefundResult {
                to: transactions[i].from.owner.to_text(),
                amount,
            });
        }
        i = i + 1;
    }
    proof {
        lemma_first_match_at(transactions@, escrow_account@, n as int);
    }
    Err(SaleError::RefundSourceNotFound)
}

impl State {
    /// The transfer decision for one request: the token must exist, the
    /// caller must hold it under exactly the stated sub-identifier, and a
    /// self-transfer may not change the held sub-identifier. On success
    /// the advanced transaction counter is returned.
    pub open spec fn spec_transfer_outcome(&self, caller: Identity, arg: TransferArg)
        -> Result<u32, SaleError> {
        let s = self.tokens.tokens@;
        if !spec_has_token(s, arg.token_id) {
            Err(SaleError::NonExistingTokenId)
        } else {
            let held = canon_sub(sub_view(spec_record_of(s, arg.token_id).subaccount));
            if !(spec_record_of(s, arg.token_id).owner@ == caller@
                && held == canon_sub(sub_view(arg.from_subaccount))) {
                Err(SaleError::Unauthorized)
            } else if caller@ == arg.to.owner@ && held != canon_sub(sub_view(arg.to.subaccount)) {
                Err(SaleError::InvalidRecipient)
            } else {
                Ok((self.tokens.counter + 1) as u32)
            }
        }
    }

    /// Carry out one ownership transfer: only the holding account may move
    /// a token, and on success the record's owner fields are replaced and
    /// every other record is untouched.
    pub fn transfer_token(&mut self, caller: &Identity, arg: &TransferArg)
        -> (r: Result<u32, SaleError>)
        requires
            old(self).wf(),
            old(self).tokens.counter < u32::MAX,
        ensures
            final(self).wf(),
            r == old(self).spec_transfer_outcome(*caller, *arg),
            r is Err ==> *final(self) == *old(self),
            final(self).escrow == old(self).escrow,
            final(self).metadata == old(self).metadata,
            final(self).transactions == old(self).transactions,
            r is Ok ==> final(self).tokens.counter == old(self).tokens.counter + 1,
            final(self).tokens.tokens@.len() == old(self).tokens.tokens@.len(),
            forall|i: int| 0 <= i < old(self).tokens.tokens@.len()
                && old(self).tokens.tokens@[i].token_id != arg.token_id
                ==> final(self).tokens.tokens@[i] == old(self).tokens.tokens@[i],
            r is Ok ==> forall|i: int| 0 <= i < old(self).tokens.tokens@.len()
                && old(self).tokens.tokens@[i].token_id == arg.token_id
                ==> (#[trigger] final(self).tokens.tokens@[i]).token_id == arg.token_id
                    && final(self).tokens.tokens@[i].owner@ == arg.to.owner@
                    && sub_view(final(self).tokens.tokens@[i].subaccount)
                        == sub_view(arg.to.subaccount),
    {
        let idx = match self.tokens.find_token(arg.token_id) {
            Some(i) => i,
            None => {
                proof {
                    if spec_has_token(self.tokens.tokens@, arg.token_id) {
                        let w = choose|k: int| 0 <= k < self.tokens.tokens@.len()
                            && self.tokens.tokens@[k].token_id == arg.token_id;
                        assert(false);
                    }
                }
                return Err(SaleError::NonExistingTokenId);
            },
        };
        proof {
            lemma_record_of_unique(self.tokens.tokens@, arg.token_id, idx as int);
        }
        let token = &self.tokens.tokens[idx];
        if !(token.owner.same_as(caller) && subaccounts_eq(&token.subaccount, &arg.from_subaccount)) {
            return Err(SaleError::Unauthorized);
        }
        if caller.same_as(&arg.to.owner) && !subaccounts_eq(&token.subaccount, &arg.to.subaccount) {
            return Err(SaleError::InvalidRecipient);
        }
        let c = self.tokens.transfer(arg.token_id, &arg.to.owner, clone_sub(&arg.to.subaccount));
        Ok(c)
    }

    /// One transfer request's decision over the ownership map: the same
    /// decision spec_transfer_outcome makes over the records.
    pub open spec fn spec_step_outcome(
        m: Map<u32, (Seq<u8>, Option<Seq<u8>>)>,
        counter: u32,
        caller: Seq<u8>,
        arg: TransferArg,
    ) -> Result<u32, SaleError> {
        if !m.dom().contains(arg.token_id) {
            Err(SaleError::NonExistingTokenId)
        } else {
            let held = canon_sub(m[arg.token_id].1);
            if !(m[arg.token_id].0 == caller && held == canon_sub(sub_view(arg.from_subaccount))) {
                Err(SaleError::Unauthorized)
            } else if caller == arg.to.owner@ && held != canon_sub(sub_view(arg.to.subaccount)) {
                Err(SaleError::InvalidRecipient)
            } else {
                Ok((counter + 1) as u32)
            }
        }
    }

    /// The ownership map after one request: the token moved on success,
    /// nothing on an error.
    pub open spec fn spec_step_map(
        m: Map<u32, (Seq<u8>, Option<Seq<u8>>)>,
        counter: u32,
        caller: Seq<u8>,
        arg: TransferArg,
    ) -> Map<u32, (Seq<u8>, Option<Seq<u8>>)> {
        if State::spec_step_outcome(m, counter, caller, arg) is Ok {
            m.insert(arg.token_id, (arg.to.owner@, sub_view(arg.to.subaccount)))
        } else {
            m
        }
    }

    /// The transaction counter after one request: advanced on success.
    pub open spec fn spec_step_counter(
        m: Map<u32, (Seq<u8>, Option<Seq<u8>>)>,
        counter: u32,
        caller: Seq<u8>,
        arg: TransferArg,
    ) -> u32 {
        if State::spec_step_outcome(m, counter, caller, arg) is Ok {
            (counter + 1) as u32
        } else {
            counter
        }
    }

    /// The results of a batch of requests, each decided against the
    /// ownership map as the earlier requests of the same batch left it.
    pub open spec fn spec_batch_results(
        m: Map<u32, (Seq<u8>, Option<Seq<u8>>)>,
        counter: u32,
        caller: Seq<u8>,
        args: Seq<TransferArg>,
    ) -> Seq<Result<u32, SaleError>>
        decreases args.len(),
    {
        if args.len() == 0 {
            seq![]
        } else {
            seq![State::spec_step_outcome(m, counter, caller, args[0])]
                + State::spec_batch_results(
                State::spec_step_map(m, counter, caller, args[0]),
                State::spec_step_counter(m, counter, caller, args[0]),
                caller,
                args.drop_first(),
            )
        }
    }

    /// The ownership map a batch of requests leaves behind.
    pub open spec fn spec_batch_map(
        m: Map<u32, (Seq<u8>, Option<Seq<u8>>)>,
        counter: u32,
        caller: Seq<u8>,
        args: Seq<TransferArg>,
    ) -> Map<u32, (Seq<u8>, Option<Seq<u8>>)>
        decreases args.len(),
    {
        if args.len() == 0 {
            m
        } else {
            State::spec_batch_map(
                State::spec_step_map(m, counter, caller, args[0]),
                State::spec_step_counter(m, counter, caller, args[0]),
                caller,
                args.drop_first(),
            )
        }
    }

    /// The transaction counter a batch of requests leaves behind.
    pub open spec fn spec_batch_counter(
        m: Map<u32, (Seq<u8>, Option<Seq<u8>>)>,
        counter: u32,
        caller: Seq<u8>,
        args: Seq<TransferArg>,
    ) -> u32
        decreases args.len(),
    {
        if args.len() == 0 {
            counter
        } else {
            State::spec_batch_counter(
                State::spec_step_map(m, counter, caller, args[0]),
                State::spec_step_counter(m, counter, caller, args[0]),
                caller,
                args.drop_first(),
            )
        }
    }
}

/// One request decides the same over the ownership map as over the
/// records themselves.
proof fn lemma_step_agrees(s: State, caller: Identity, arg: TransferArg)
    requires
        s.tokens.wf(),
    ensures
        State::spec_step_outcome(
            owner_map(s.tokens.tokens@),
            s.tokens.counter,
            caller@,
            arg,
        ) == s.spec_transfer_outcome(caller, arg),
{
    let t = s.tokens.tokens@;
    let m = owner_map(t);
    if spec_has_token(t, arg.token_id) {
        assert(m.dom().contains(arg.token_id));
        assert(m[arg.token_id]
            == (spec_record_of(t, arg.token_id).owner@,
                sub_view(spec_record_of(t, arg.token_id).subaccount)));
    } else {
        assert(!m.dom().contains(arg.token_id));
    }
}

impl State {
    /// Carry out a batch of ownership transfers, one result per request,
    /// in request order: each request is decided against the ownership
    /// state as the earlier requests of the batch left it, and the final
    /// ownership map and counter are exactly the batch's fold.
    pub fn icrc_7_transfer(&mut self, caller: &Identity, args: &Vec<TransferArg>)
        -> (r: Vec<Result<u32, SaleError>>)
        requires
            old(self).wf(),
            old(self).tokens.counter + args@.len() <= u32::MAX,
        ensures
            final(self).wf(),
            r@.len() == args@.len(),
            r@ == State::spec_batch_results(
                owner_map(old(self).tokens.tokens@),
                old(self).tokens.counter,
                caller@,
                args@,
            ),
            owner_map(final(self).tokens.tokens@) == State::spec_batch_map(
                owner_map(old(self).tokens.tokens@),
                old(self).tokens.counter,
                caller@,
                args@,
            ),
            final(self).tokens.counter == State::spec_batch_counter(
                owner_map(old(self).tokens.tokens@),
                old(self).tokens.counter,
                caller@,
                args@,
            ),
            final(self).escrow == old(self).escrow,
            final(self).metadata == old(self).metadata,
            final(self).transactions == old(self).transactions,
            final(self).tokens.counter <= old(self).tokens.counter + args@.len(),
            final(self).tokens.tokens@.len() == old(self).tokens.tokens@.len(),
    {
        let ghost esc0 = self.escrow;
        let ghost meta0 = self.metadata;
        let ghost txn0 = self.transactions;
        let ghost cnt0 = self.tokens.counter;
        let ghost len0 = self.tokens.tokens@.len();
        let ghost m0 = owner_map(self.tokens.tokens@);
        let n = args.len();
        let mut out: Vec<Result<u32, SaleError>> = Vec::new();
        let mut i: usize = 0;
        proof {
            assert(args@.skip(0) =~= args@);
            assert(out@ + State::spec_batch_results(m0, cnt0, caller@, args@)
                =~= State::spec_batch_results(m0, cnt0, caller@, args@));
        }
        while i < n
            invariant
                i <= n,
                n == args@.len(),
                out@.len() == i,
                self.wf(),
                self.escrow == esc0,
                self.metadata == meta0,
                self.transactions == txn0,
                self.tokens.counter <= cnt0 + i,
                cnt0 + n <= u32::MAX,
                self.tokens.tokens@.len() == len0,
                State::spec_batch_results(m0, cnt0, caller@, args@) == out@
                    + State::spec_batch_results(
                    owner_map(self.tokens.tokens@),
                    self.tokens.counter,
                    caller@,
                    args@.skip(i as int),
                ),
                State::spec_batch_map(m0, cnt0, caller@, args@) == State::spec_batch_map(
                    owner_map(self.tokens.tokens@),
                    self.tokens.counter,
                    caller@,
                    args@.skip(i as int),
                ),
                State::spec_batch_counter(m0, cnt0, caller@, args@) == State::spec_batch_counter(
                    owner_map(self.tokens.tokens@),
                    self.tokens.counter,
                    caller@,
                    args@.skip(i as int),
                ),
            decreases n - i,
        {
            let ghost scur = *self;
            let ghost rem = args@.skip(i as int);
            proof {
                assert(rem[0] == args@[i as int]);
                assert(rem.drop_first() =~= args@.skip(i + 1));
                lemma_step_agrees(scur, *caller, args@[i as int]);
            }
            let res = self.transfer_token(caller, &args[i]);
            proof {
                let mcur = owner_map(scur.tokens.tokens@);
                let ccur = scur.tokens.counter;
                let a = args@[i as int];
                assert(res == State::spec_step_outcome(mcur, ccur, caller@, a));
                if res is Ok {
                    assert(spec_has_token(scur.tokens.tokens@, a.token_id));
                    let w = choose|k: int| 0 <= k < scur.tokens.tokens@.len()
                        && scur.tokens.tokens@[k].token_id == a.token_id;
                    assert forall|k: int| 0 <= k < scur.tokens.tokens@.len() && k != w
                        implies self.tokens.tokens@[k] == scur.tokens.tokens@[k] by {
                        assert(scur.tokens.tokens@[k].token_id != a.token_id);
                    }
                    lemma_owner_map_update(
                        scur.tokens.tokens@,
                        self.tokens.tokens@,
                        w,
                        a.token_id,
                        a.to.owner@,
                        sub_view(a.to.subaccount),
                    );
                    assert(owner_map(self.tokens.tokens@)
                        == State::spec_step_map(mcur, ccur, caller@, a));
                    assert(self.tokens.counter == State::spec_step_counter(mcur, ccur, caller@, a));
                } else {
                    assert(*self == scur);
                    assert(owner_map(self.tokens.tokens@)
                        == State::spec_step_map(mcur, ccur, caller@, a));
                    assert(self.tokens.counter == State::spec_step_counter(mcur, ccur, caller@, a));
                }
            }
            out.push(res);
            proof {
                let mcur = owner_map(scur.tokens.tokens@);
                let ccur = scur.tokens.counter;
                let a = args@[i as int];
                assert(State::spec_batch_results(mcur, ccur, caller@, rem)
                    == seq![State::spec_step_outcome(mcur, ccur, caller@, a)]
                        + State::spec_batch_results(
                        owner_map(self.tokens.tokens@),
                        self.tokens.counter,
                        caller@,
                        args@.skip(i + 1),
                    ));
                assert(out@ + State::spec_batch_results(
                    owner_map(self.tokens.tokens@),
                    self.tokens.counter,
                    caller@,
                    args@.skip(i + 1),
                ) =~= State::spec_batch_results(m0, cnt0, caller@, args@));
            }
            i = i + 1;
        }
        proof {
            assert(args@.skip(n as int) =~= Seq::<TransferArg>::empty());
            assert(State::spec_batch_results(
                owner_map(self.tokens.tokens@),
                self.tokens.counter,
                caller@,
                Seq::<TransferArg>::empty(),
            ) =~= Seq::<Result<u32, SaleError>>::empty());
            assert(out@ + Seq::<Result<u32, SaleError>>::empty() =~= out@);
        }
        out
    }

    /// All token ids, paged: the ids strictly above the cursor (0 meaning
    /// the start), in increasing order, at most the page size of them
    /// (5 when unspecified).
    pub fn icrc_7_tokens(&self, prev: Option<u32>, take: Option<u32>) -> (r: Vec<u32>)
        requires
            self.wf(),
        ensures
            r@ == spec_page(
                ids_of(self.tokens.tokens@),
                (match prev {
                    Some(p) => p,
                    None => 0u32,
                }),
                (match take {
                    Some(t) => t as int,
                    None => 5int,
                }),
            ),
    {
        let ids = self.tokens.all_ids();
        proof {
            assert forall|i: int, j: int| 0 <= i < j < ids@.len() implies ids@[i] < ids@[j] by {
                assert(self.tokens.tokens@[i].token_id < self.tokens.tokens@[j].token_id);
            }
        }
        let p: u32 = match prev {
            Some(p) => p,
            None => 0,
        };
        let t: u32 = match take {
            Some(t) => t,
            None => 5,
        };
        paginate(&ids, p, t as usize)
    }

    /// The ids one account holds, paged the same way.
    pub fn icrc_7_tokens_of(&self, account: &Account, prev: Option<u32>, take: Option<u32>)
        -> (r: Vec<u32>)
        requires
            self.wf(),
        ensures
            r@ == spec_page(
                matched_ids(
                    self.tokens.tokens@,
                    account.owner@,
                    canon_sub(sub_view(account.subaccount)),
                ),
                (match prev {
                    Some(p) => p,
                    None => 0u32,
                }),
                (match take {
                    Some(t) => t as int,
                    None => 5int,
                }),
            ),
    {
        let ids = self.tokens.ids_held_by(&account.owner, &account.subaccount);
        proof {
            lemma_matched_ids_sorted(
                self.tokens.tokens@,
                account.owner@,
                canon_sub(sub_view(account.subaccount)),
            );
        }
        let p: u32 = match prev {
            Some(p) => p,
            None => 0,
        };
        let t: u32 = match take {
            Some(t) => t,
            None => 5,
        };
        paginate(&ids, p, t as usize)
    }

    /// Who holds each asked token id: the record's owner and
    /// sub-identifier where the id exists, nothing where it does not.
    pub fn icrc_7_owner_of(&self, ids: &Vec<u32>) -> (r: Vec<Option<Account>>)
        requires
            self.wf(),
        ensures
            r@.len() == ids@.len(),
            forall|k: int| 0 <= k < ids@.len()
                ==> ((#[trigger] r@[k]) is Some)
                    == spec_has_token(self.tokens.tokens@, ids@[k]),
            forall|k: int| 0 <= k < ids@.len()
                ==> ((#[trigger] r@[k]) matches Some(a)
                    ==> a.owner@ == spec_record_of(self.tokens.tokens@, ids@[k]).owner@
                        && sub_view(a.subaccount)
                            == sub_view(spec_record_of(self.tokens.tokens@, ids@[k]).subaccount)),
    {
        let n = ids.len();
        let mut out: Vec<Option<Account>> = Vec::new();
        let mut k: usize = 0;
        while k < n
            invariant
                k <= n,
                n == ids@.len(),
                self.wf(),
                out@.len() == k,
                forall|j: int| 0 <= j < k
                    ==> ((#[trigger] out@[j]) is Some)
                        == spec_has_token(self.tokens.tokens@, ids@[j]),
                forall|j: int| 0 <= j < k
                    ==> ((#[trigger] out@[j]) matches Some(a)
                        ==> a.owner@ == spec_record_of(self.tokens.tokens@, ids@[j]).owner@
                            && sub_view(a.subaccount)
                                == sub_view(spec_record_of(self.tokens.tokens@, ids@[j]).subaccount)),
            decreases n - k,
        {
            match self.tokens.find_token(ids[k]) {
                Some(i) => {
                    proof {
                        lemma_record_of_unique(self.tokens.tokens@, ids@[k as int], i as int);
                    }
                    let record = &self.tokens.tokens[i];
                    out.push(Some(Account {
                        owner: record.owner.duplicate(),
                        subaccount: clone_sub(&record.subaccount),
                    }));
                },
                None => {
                    proof {
                        if spec_has_token(self.tokens.tokens@, ids@[k as int]) {
                            let w = choose|j: int| 0 <= j < self.tokens.tokens@.len()
                                && self.tokens.tokens@[j].token_id == ids@[k as int];
                            assert(false);
                        }
                    }
                    out.push(None);
                },
            }
            k = k + 1;
        }
        out
    }

    /// The metadata entries of each asked token id: present and empty for
    /// every existing id (this offering attaches no attributes), absent
    /// for ids that do not exist.
    pub fn icrc_7_token_metadata(&self, ids: &Vec<u32>)
        -> (r: Vec<Option<Vec<(String, MetadataValue)>>>)
        ensures
            r@.len() == ids@.len(),
            forall|k: int| 0 <= k < ids@.len()
                ==> ((#[trigger] r@[k]) is Some) == spec_has_token(self.tokens.tokens@, ids@[k]),
            forall|k: int| 0 <= k < ids@.len()
                ==> ((#[trigger] r@[k]) matches Some(v) ==> v@.len() == 0),
    {
        let n = ids.len();
        let mut out: Vec<Option<Vec<(String, MetadataValue)>>> = Vec::new();
        let mut k: usize = 0;
        while k < n
            invariant
                k <= n,
                n == ids@.len(),
                out@.len() == k,
                forall|j: int| 0 <= j < k
                    ==> ((#[trigger] out@[j]) is Some)
                        == spec_has_token(self.tokens.tokens@, ids@[j]),
                forall|j: int| 0 <= j < k
                    ==> ((#[trigger] out@[j]) matches Some(v) ==> v@.len() == 0),
            decreases n - k,
        {
            match self.tokens.find_token(ids[k]) {
                Some(i) => {
                    proof {
                        assert(self.tokens.tokens@[i as int].token_id == ids@[k as int]);
                    }
                    out.push(Some(Vec::new()));
                },
                None => {
                    proof {
                        if spec_has_token(self.tokens.tokens@, ids@[k as int]) {
                            let w = choose|j: int| 0 <= j < self.tokens.tokens@.len()
                                && self.tokens.tokens@[j].token_id == ids@[k as int];
                            assert(false);
                        }
                    }
                    out.push(None);
                },
            }
            k = k + 1;
        }
        out
    }

    /// How many tokens each asked account holds.
    pub fn icrc_7_balance_of(&self, args: &Vec<Account>) -> (r: Vec<u64>)
        ensures
            r@.len() == args@.len(),
            forall|k: int| 0 <= k < args@.len()
                ==> (#[trigger] r@[k]) == matched_ids(
                    self.tokens.tokens@,
                    args@[k].owner@,
                    canon_sub(sub_view(args@[k].subaccount)),
                ).len(),
    {
        let n = args.len();
        let mut out: Vec<u64> = Vec::new();
        let mut k: usize = 0;
        while k < n
            invariant
                k <= n,
                n == args@.len(),
                out@.len() == k,
                forall|j: int| 0 <= j < k
                    ==> (#[trigger] out@[j]) == matched_ids(
                        self.tokens.tokens@,
                        args@[j].owner@,
                        canon_sub(sub_view(args@[j].subaccount)),
                    ).len(),
            decreases n - k,
        {
            let held = self.tokens.ids_held_by(&args[k].owner, &args[k].subaccount);
            out.push(held.len() as u64);
            k = k + 1;
        }
        out
    }
}

} // verus!
