use token_sale::escrow::SaleStatus;
use token_sale::identity::Identity;
use token_sale::metadata::Metadata;
use token_sale::models::BookTokensArg;
use token_sale::models::SaleError;
use token_sale::state::init_hook;
use token_sale::state::State;
use token_sale::subaccount::SubAccount;

fn identity(bytes: &[u8]) -> Identity {
    Identity::new(bytes.to_vec())
}

const PRICE: u64 = 100;
const OWNER: [u8; 1] = [0x12];

fn metadata() -> Metadata {
    Metadata {
        purchase_price: 1_000,
        price: PRICE,
        supply_cap: 10,
        treasury: identity(&[0x0F]),
        token: identity(&[0x10]),
        index: identity(&[0x11]),
        collection_owner: identity(&OWNER),
        asset_canister: identity(&[0x13]),
    }
}

fn booked_state() -> State {
    let mut state = init_hook(metadata());
    let plenty = 10_000_000u128;
    state.book_tokens(&identity(&[1]), BookTokensArg { quantity: 3 }, plenty).unwrap();
    state.book_tokens(&identity(&[2]), BookTokensArg { quantity: 2 }, plenty).unwrap();
    state
}

#[test]
fn accept_sale_needs_the_collection_owner() {
    let mut state = booked_state();
    let r = state.accept_sale(&identity(&[0x77]));
    assert!(matches!(r, Err(SaleError::Unauthorized)));
    assert_eq!(state.get_sale_status(), SaleStatus::Live);
}

#[test]
fn accept_sale_without_metadata_reports_it() {
    let mut state = State::default();
    let r = state.accept_sale(&identity(&OWNER));
    assert!(matches!(r, Err(SaleError::MetadataNotSet)));
}

#[test]
fn accept_sale_resolves_and_stays_accepted() {
    let mut state = booked_state();
    let owner = identity(&OWNER);
    let disbursements = state.accept_sale(&owner).unwrap();
    assert_eq!(state.get_sale_status(), SaleStatus::Accepted);

    // one disbursement per investor: the whole booking at unit price
    assert_eq!(disbursements.len(), 2);
    assert_eq!(disbursements[0].investor.bytes, vec![1]);
    assert_eq!(disbursements[0].quantity, 3);
    assert_eq!(disbursements[0].amount, 3 * PRICE as u128);
    assert_eq!(
        disbursements[0].escrow_subaccount.to_uint8_array(),
        SubAccount::derive_subaccount(&identity(&[1])).to_uint8_array()
    );
    assert_eq!(disbursements[1].investor.bytes, vec![2]);
    assert_eq!(disbursements[1].amount, 2 * PRICE as u128);

    // accepting again fails, and the status never leaves Accepted
    assert!(matches!(state.accept_sale(&owner), Err(SaleError::SaleClosed)));
    assert!(matches!(state.reject_sale(), Err(SaleError::SaleClosed)));
    assert_eq!(state.get_sale_status(), SaleStatus::Accepted);
}

#[test]
fn settlement_mints_exactly_the_booked_quantity() {
    let mut state = booked_state();
    let owner = identity(&OWNER);
    state.accept_sale(&owner).unwrap();

    let investor = identity(&[1]);
    assert_eq!(state.settle_investor(&investor), Ok(true));

    // investor 1 booked 3 units: exactly 3 records, each owned by them
    let held = state.icrc_7_tokens_of(
        &token_sale::models::Account {
            owner: identity(&[1]),
            subaccount: Some(SubAccount::derive_subaccount(&investor).to_vec()),
        },
        None,
        None,
    );
    assert_eq!(held, vec![1, 2, 3]);
    let owners = state.icrc_7_owner_of(&vec![1, 2, 3]);
    for o in owners {
        let account = o.unwrap();
        assert_eq!(account.owner.bytes, vec![1]);
        assert_eq!(
            account.subaccount,
            Some(SubAccount::derive_subaccount(&investor).to_vec())
        );
    }
}

#[test]
fn settlement_is_idempotent_per_investor() {
    let mut state = booked_state();
    state.accept_sale(&identity(&OWNER)).unwrap();
    let investor = identity(&[2]);
    assert_eq!(state.settle_investor(&investor), Ok(true));
    let minted = state.icrc_7_tokens(None, Some(100)).len();
    // a retry reports that nothing was left to do and mints nothing
    assert_eq!(state.settle_investor(&investor), Ok(false));
    assert_eq!(state.icrc_7_tokens(None, Some(100)).len(), minted);
    assert_eq!(minted, 2);
}

#[test]
fn settlement_requires_an_accepted_sale_and_a_booking() {
    let mut state = booked_state();
    let r = state.settle_investor(&identity(&[1]));
    assert!(matches!(r, Err(SaleError::SaleClosed)));

    state.accept_sale(&identity(&OWNER)).unwrap();
    let r = state.settle_investor(&identity(&[0x55]));
    assert!(matches!(r, Err(SaleError::InvalidArgument)));
}

#[test]
fn reject_sale_resolves_and_returns_participants() {
    let mut state = booked_state();
    let investors = state.reject_sale().unwrap();
    assert_eq!(state.get_sale_status(), SaleStatus::Rejected);
    assert_eq!(investors.len(), 2);
    assert_eq!(investors[0].bytes, vec![1]);
    assert_eq!(investors[1].bytes, vec![2]);

    // rejecting is terminal too
    assert!(matches!(state.reject_sale(), Err(SaleError::SaleClosed)));
    assert!(matches!(
        state.accept_sale(&identity(&OWNER)),
        Err(SaleError::SaleClosed)
    ));
    // bookings stay as the audit trail
    assert_eq!(state.get_total_booked_tokens(), 5);
}

#[test]
fn change_ownership_plans_the_permission_swap() {
    let state = booked_state();
    let r = state.change_ownership(&identity(&[0x99]), &identity(&[0x42]));
    assert!(matches!(r, Err(SaleError::Unauthorized)));

    let plan = state
        .change_ownership(&identity(&OWNER), &identity(&[0x42]))
        .unwrap();
    assert_eq!(plan.asset_canister.bytes, vec![0x13]);
    assert_eq!(plan.new_owner.bytes, vec![0x42]);
    assert_eq!(plan.previous_owner.bytes, OWNER.to_vec());
    assert_eq!(plan.txn_index, 0);

    let none = State::default().change_ownership(&identity(&OWNER), &identity(&[0x42]));
    assert!(matches!(none, Err(SaleError::MetadataNotSet)));
}

#[test]
fn metadata_getter_reports_initialization() {
    let state = booked_state();
    let meta = state.get_metadata().unwrap();
    assert_eq!(meta.metadata.price, PRICE);
    assert_eq!(meta.metadata.supply_cap, 10);
    assert_eq!(meta.total_supply, 0);
    assert!(matches!(
        State::default().get_metadata(),
        Err(SaleError::MetadataNotSet)
    ));
}
