use token_sale::escrow::EscrowStore;
use token_sale::escrow::SaleStatus;
use token_sale::identity::Identity;
use token_sale::state::init_hook;
use token_sale::metadata::Metadata;
use token_sale::subaccount::SubAccount;

fn identity(bytes: &[u8]) -> Identity {
    Identity::new(bytes.to_vec())
}

#[test]
fn fresh_store_is_live_and_empty() {
    let store = EscrowStore::default();
    assert_eq!(*store.get_sale_status(), SaleStatus::Live);
    assert_eq!(store.get_total_booked_tokens(), 0);
    assert!(store.get_booked_tokens().is_empty());
}

#[test]
fn booking_merges_entries_per_investor() {
    let mut store = EscrowStore::default();
    let a = identity(&[1]);
    let b = identity(&[2]);
    store.book_tokens(&a, 3);
    store.book_tokens(&b, 1);
    store.book_tokens(&a, 2);
    assert_eq!(store.get_booked_tokens().len(), 2);
    assert_eq!(store.booked_of(&a), 5);
    assert_eq!(store.booked_of(&b), 1);
    assert_eq!(store.booked_of(&identity(&[9])), 0);
    assert_eq!(store.get_total_booked_tokens(), 6);
    let investors = store.get_participating_investors();
    assert_eq!(investors.len(), 2);
    assert_eq!(investors[0].bytes, vec![1]);
}

#[test]
fn store_status_transitions_are_one_way() {
    let mut accepted = EscrowStore::default();
    accepted.accept_sale();
    assert_eq!(*accepted.get_sale_status(), SaleStatus::Accepted);

    let mut rejected = EscrowStore::default();
    rejected.reject_sale();
    assert_eq!(*rejected.get_sale_status(), SaleStatus::Rejected);
}

#[test]
fn settling_flags_only_the_named_investor() {
    let mut store = EscrowStore::default();
    let a = identity(&[1]);
    let b = identity(&[2]);
    store.book_tokens(&a, 3);
    store.book_tokens(&b, 1);
    assert!(!store.settled_of(&a));
    store.mark_settled(&a);
    assert!(store.settled_of(&a));
    assert!(!store.settled_of(&b));
    assert_eq!(store.booked_of(&a), 3);
    assert_eq!(store.get_total_booked_tokens(), 4);
}

#[test]
fn escrow_account_combines_engine_and_caller() {
    let state = init_hook(Metadata {
        purchase_price: 0,
        price: 1,
        supply_cap: 1,
        treasury: identity(&[0x0F]),
        token: identity(&[0x10]),
        index: identity(&[0x11]),
        collection_owner: identity(&[0x12]),
        asset_canister: identity(&[0x13]),
    });
    let engine_id = identity(&[0xEE, 0x01]);
    let caller = identity(&[1, 2, 3]);
    let ret = state.get_escrow_account(&engine_id, &caller).unwrap();
    assert_eq!(ret.account.owner.bytes, vec![0xEE, 0x01]);
    assert_eq!(
        ret.account.subaccount,
        SubAccount::derive_subaccount(&caller).to_uint8_array()
    );

    let mut input = Vec::new();
    input.extend_from_slice(&engine_id.bytes);
    input.extend_from_slice(&ret.account.subaccount);
    let expected = <sha2::Sha256 as sha2::Digest>::digest(&input).to_vec();
    assert_eq!(ret.account_id, hex::encode(&expected));
}
