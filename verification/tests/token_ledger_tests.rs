use token_sale::identity::Identity;
use token_sale::models::Account;
use token_sale::models::SaleError;
use token_sale::models::TransferArg;
use token_sale::state::State;
use token_sale::tokens::paginate;
use token_sale::tokens::subaccounts_eq;
use token_sale::tokens::TokenState;

fn identity(bytes: &[u8]) -> Identity {
    Identity::new(bytes.to_vec())
}

fn account(owner: &Identity) -> Account {
    Account {
        owner: Identity::new(owner.bytes.clone()),
        subaccount: None,
    }
}

/// A state whose ownership ledger holds freshly minted tokens for `owner`.
fn state_with_tokens(owner: &Identity, count: u32) -> State {
    let mut state = State::default();
    for _ in 0..count {
        state.tokens.mint(owner, None);
    }
    state
}

fn transfer_arg(token_id: u32, to: &Identity) -> TransferArg {
    TransferArg {
        token_id,
        to: account(to),
        from_subaccount: None,
    }
}

#[test]
fn pagination_selects_strictly_after_the_cursor() {
    let ids = vec![1u32, 2, 3, 5, 8];
    assert_eq!(paginate(&ids, 2, 2), vec![3, 5]);
}

#[test]
fn pagination_handles_start_end_and_absent_cursor() {
    let ids = vec![1u32, 2, 3, 5, 8];
    assert_eq!(paginate(&ids, 0, 3), vec![1, 2, 3]);
    assert_eq!(paginate(&ids, 8, 5), Vec::<u32>::new());
    assert_eq!(paginate(&ids, 4, 2), vec![5, 8]);
    assert_eq!(paginate(&ids, 0, 100), vec![1, 2, 3, 5, 8]);
    assert_eq!(paginate(&ids, 0, 0), Vec::<u32>::new());
}

#[test]
fn minting_assigns_monotonic_ids() {
    let owner = identity(&[1]);
    let mut state = State::default();
    let a = state.tokens.mint(&owner, None);
    let b = state.tokens.mint(&owner, None);
    let c = state.tokens.mint(&owner, None);
    assert_eq!((a, b, c), (1, 2, 3));
    assert_eq!(state.icrc_7_tokens(None, None), vec![1, 2, 3]);
}

#[test]
fn tokens_listing_uses_cursor_and_default_page_size() {
    let owner = identity(&[1]);
    let state = state_with_tokens(&owner, 7);
    // the default page size is 5
    assert_eq!(state.icrc_7_tokens(None, None), vec![1, 2, 3, 4, 5]);
    assert_eq!(state.icrc_7_tokens(Some(5), None), vec![6, 7]);
    assert_eq!(state.icrc_7_tokens(Some(2), Some(2)), vec![3, 4]);
}

#[test]
fn transfer_of_missing_token_fails() {
    let owner = identity(&[1]);
    let mut state = state_with_tokens(&owner, 1);
    let r = state.transfer_token(&owner, &transfer_arg(99, &identity(&[2])));
    assert_eq!(r, Err(SaleError::NonExistingTokenId));
}

#[test]
fn transfer_by_non_owner_is_unauthorized() {
    let owner = identity(&[1]);
    let thief = identity(&[2]);
    let mut state = state_with_tokens(&owner, 1);
    let r = state.transfer_token(&thief, &transfer_arg(1, &thief));
    assert_eq!(r, Err(SaleError::Unauthorized));
    // wrong from-sub-identifier is unauthorized as well
    let mut arg = transfer_arg(1, &identity(&[3]));
    arg.from_subaccount = Some(vec![1; 32]);
    let r = state.transfer_token(&owner, &arg);
    assert_eq!(r, Err(SaleError::Unauthorized));
}

#[test]
fn self_transfer_must_keep_the_subaccount() {
    let owner = identity(&[1]);
    let mut state = state_with_tokens(&owner, 1);
    let mut arg = transfer_arg(1, &owner);
    arg.to.subaccount = Some(vec![9; 32]);
    let r = state.transfer_token(&owner, &arg);
    assert_eq!(r, Err(SaleError::InvalidRecipient));
}

#[test]
fn successful_transfer_moves_the_id_between_index_sets() {
    let owner = identity(&[1]);
    let recipient = identity(&[2]);
    let mut state = state_with_tokens(&owner, 3);

    assert_eq!(state.icrc_7_tokens_of(&account(&owner), None, None), vec![1, 2, 3]);
    let r = state.transfer_token(&owner, &transfer_arg(2, &recipient));
    assert_eq!(r, Ok(4)); // three mints, then this transfer

    assert_eq!(state.icrc_7_tokens_of(&account(&owner), None, None), vec![1, 3]);
    assert_eq!(state.icrc_7_tokens_of(&account(&recipient), None, None), vec![2]);

    let new_owner = state.icrc_7_owner_of(&vec![2]).remove(0).unwrap();
    assert_eq!(new_owner.owner.bytes, vec![2]);
}

#[test]
fn batch_transfer_reports_each_outcome_in_order() {
    let owner = identity(&[1]);
    let recipient = identity(&[2]);
    let mut state = state_with_tokens(&owner, 2);
    let args = vec![
        transfer_arg(1, &recipient),
        transfer_arg(42, &recipient),
        transfer_arg(2, &recipient),
    ];
    let results = state.icrc_7_transfer(&owner, &args);
    assert_eq!(results.len(), 3);
    assert_eq!(results[0], Ok(3));
    assert_eq!(results[1], Err(SaleError::NonExistingTokenId));
    assert_eq!(results[2], Ok(4));
}

#[test]
fn batch_decides_each_request_against_the_updated_state() {
    let owner = identity(&[1]);
    let recipient = identity(&[2]);
    let mut state = state_with_tokens(&owner, 1);
    // the same token twice in one batch: once it has moved, the caller no
    // longer holds it
    let args = vec![transfer_arg(1, &recipient), transfer_arg(1, &recipient)];
    let results = state.icrc_7_transfer(&owner, &args);
    assert_eq!(results[0], Ok(2));
    assert_eq!(results[1], Err(SaleError::Unauthorized));
}

#[test]
fn token_metadata_is_empty_for_existing_ids() {
    let owner = identity(&[1]);
    let state = state_with_tokens(&owner, 2);
    let metadata = state.icrc_7_token_metadata(&vec![1, 7, 2]);
    assert_eq!(metadata.len(), 3);
    assert_eq!(metadata[0].as_ref().map(|v| v.len()), Some(0));
    assert!(metadata[1].is_none());
    assert_eq!(metadata[2].as_ref().map(|v| v.len()), Some(0));
}

#[test]
fn balance_of_counts_held_tokens() {
    let owner = identity(&[1]);
    let other = identity(&[2]);
    let mut state = state_with_tokens(&owner, 3);
    state.transfer_token(&owner, &transfer_arg(1, &other)).unwrap();
    let balances = state.icrc_7_balance_of(&vec![account(&owner), account(&other), account(&identity(&[9]))]);
    assert_eq!(balances, vec![2, 1, 0]);
}

#[test]
fn owner_of_reports_missing_ids_as_none() {
    let owner = identity(&[1]);
    let state = state_with_tokens(&owner, 1);
    let owners = state.icrc_7_owner_of(&vec![1, 2]);
    assert!(owners[0].is_some());
    assert!(owners[1].is_none());
}

#[test]
fn absent_subaccount_equals_all_zero_subaccount() {
    assert!(subaccounts_eq(&None, &Some(vec![0; 32])));
    assert!(subaccounts_eq(&None, &None));
    assert!(!subaccounts_eq(&None, &Some(vec![1; 32])));
    assert!(subaccounts_eq(&Some(vec![7; 32]), &Some(vec![7; 32])));
    // a different length is a different sub-account, not the default
    assert!(!subaccounts_eq(&Some(vec![0; 31]), &None));
}

#[test]
fn fresh_token_ledger_is_empty() {
    let ledger = TokenState::default();
    assert_eq!(ledger.counter, 0);
    assert!(ledger.tokens.is_empty());
}
