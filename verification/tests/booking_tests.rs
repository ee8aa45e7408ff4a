use token_sale::escrow::SaleStatus;
use token_sale::identity::Identity;
use token_sale::metadata::Metadata;
use token_sale::models::BookTokensArg;
use token_sale::models::SaleError;
use token_sale::state::init_hook;
use token_sale::state::State;

fn identity(bytes: &[u8]) -> Identity {
    Identity::new(bytes.to_vec())
}

fn metadata(price: u64, supply_cap: u128) -> Metadata {
    Metadata {
        purchase_price: supply_cap.saturating_mul(price as u128),
        price,
        supply_cap,
        treasury: identity(&[0x0F]),
        token: identity(&[0x10]),
        index: identity(&[0x11]),
        collection_owner: identity(&[0x12]),
        asset_canister: identity(&[0x13]),
    }
}

fn live_state() -> State {
    init_hook(metadata(100, 10))
}

const FEE: u128 = 10_000;

#[test]
fn booking_zero_quantity_is_invalid_argument() {
    let mut state = live_state();
    let r = state.book_tokens(&identity(&[1]), BookTokensArg { quantity: 0 }, 1_000_000);
    assert!(matches!(r, Err(SaleError::InvalidArgument)));
    assert_eq!(state.get_total_booked_tokens(), 0);
}

#[test]
fn booking_by_anonymous_caller_is_unauthorized() {
    let mut state = live_state();
    let r = state.book_tokens(&Identity::anonymous(), BookTokensArg { quantity: 1 }, 1_000_000);
    assert!(matches!(r, Err(SaleError::Unauthorized)));
}

#[test]
fn booking_after_resolution_is_sale_closed() {
    let mut state = live_state();
    let owner = identity(&[0x12]);
    state.accept_sale(&owner).unwrap();
    let r = state.book_tokens(&identity(&[1]), BookTokensArg { quantity: 1 }, 1_000_000);
    assert!(matches!(r, Err(SaleError::SaleClosed)));

    let mut rejected = live_state();
    rejected.reject_sale().unwrap();
    let r = rejected.book_tokens(&identity(&[1]), BookTokensArg { quantity: 1 }, 1_000_000);
    assert!(matches!(r, Err(SaleError::SaleClosed)));
}

#[test]
fn booking_without_metadata_reports_it() {
    let mut state = State::default();
    let r = state.book_tokens(&identity(&[1]), BookTokensArg { quantity: 1 }, 1_000_000);
    assert!(matches!(r, Err(SaleError::MetadataNotSet)));
}

#[test]
fn booking_needs_the_full_deposit_in_escrow() {
    let mut state = live_state();
    let investor = identity(&[1]);
    // 3 units at price 100 plus the fee margin
    let required = 300u128 + FEE;
    let r = state.book_tokens(&investor, BookTokensArg { quantity: 3 }, required - 1);
    assert!(matches!(r, Err(SaleError::InsufficientEscrowFunds)));
    let r = state.book_tokens(&investor, BookTokensArg { quantity: 3 }, required);
    assert_eq!(r, Ok(true));
    assert_eq!(state.get_booked_tokens(&investor), 3);
    assert_eq!(state.get_total_booked_tokens(), 3);
}

#[test]
fn repeated_bookings_price_the_whole_holding() {
    let mut state = live_state();
    let investor = identity(&[1]);
    assert_eq!(
        state.book_tokens(&investor, BookTokensArg { quantity: 2 }, 200 + FEE),
        Ok(true)
    );
    // booking 1 more unit requires the deposit for all 3 units
    let r = state.book_tokens(&investor, BookTokensArg { quantity: 1 }, 200 + FEE);
    assert!(matches!(r, Err(SaleError::InsufficientEscrowFunds)));
    assert_eq!(
        state.book_tokens(&investor, BookTokensArg { quantity: 1 }, 300 + FEE),
        Ok(true)
    );
    assert_eq!(state.get_booked_tokens(&investor), 3);
    assert_eq!(state.get_total_booked_tokens(), 3);
}

#[test]
fn supply_cap_is_enforced_at_commit() {
    let mut state = live_state();
    let a = identity(&[1]);
    let b = identity(&[2]);
    let plenty = 10_000_000u128;
    assert_eq!(state.book_tokens(&a, BookTokensArg { quantity: 7 }, plenty), Ok(true));
    // jointly exceeding the cap of 10: the second booking must not pass
    let r = state.book_tokens(&b, BookTokensArg { quantity: 4 }, plenty);
    assert!(matches!(r, Err(SaleError::SupplyCapExceeded)));
    assert_eq!(state.get_total_booked_tokens(), 7);
    // what still fits is accepted
    assert_eq!(state.book_tokens(&b, BookTokensArg { quantity: 3 }, plenty), Ok(true));
    assert_eq!(state.get_total_booked_tokens(), 10);
}

#[test]
fn total_booked_equals_sum_of_bookings() {
    let mut state = live_state();
    let plenty = 10_000_000u128;
    let investors = [identity(&[1]), identity(&[2]), identity(&[3])];
    let quantities = [2u32, 3, 1];
    for (who, qty) in investors.iter().zip(quantities) {
        assert_eq!(
            state.book_tokens(who, BookTokensArg { quantity: qty }, plenty),
            Ok(true)
        );
        let sum: u128 = investors.iter().map(|i| state.get_booked_tokens(i)).sum();
        assert_eq!(state.get_total_booked_tokens(), sum);
        assert!(state.get_total_booked_tokens() <= 10);
    }
    assert_eq!(state.get_total_booked_tokens(), 6);
}

#[test]
fn participants_lists_every_booked_investor() {
    let mut state = live_state();
    let plenty = 10_000_000u128;
    let a = identity(&[1]);
    let b = identity(&[2]);
    state.book_tokens(&a, BookTokensArg { quantity: 1 }, plenty).unwrap();
    state.book_tokens(&b, BookTokensArg { quantity: 2 }, plenty).unwrap();
    state.book_tokens(&a, BookTokensArg { quantity: 1 }, plenty).unwrap();
    let participants = state.get_participating_investors();
    assert_eq!(participants.len(), 2);
    assert_eq!(participants[0].bytes, vec![1]);
    assert_eq!(participants[1].bytes, vec![2]);
}

#[test]
fn fresh_state_is_live_and_empty() {
    let state = live_state();
    assert_eq!(state.get_sale_status(), SaleStatus::Live);
    assert_eq!(state.get_total_booked_tokens(), 0);
    assert_eq!(state.get_booked_tokens(&identity(&[1])), 0);
    assert!(state.get_participating_investors().is_empty());
}
