use token_sale::account_identifier::AccountIdentifier;
use token_sale::identity::Identity;
use token_sale::subaccount::SubAccount;

fn identity(bytes: &[u8]) -> Identity {
    Identity::new(bytes.to_vec())
}

#[test]
fn derive_subaccount_right_aligns_and_zero_pads() {
    let id = identity(&[0xAB, 0xCD, 0xEF]);
    let sub = SubAccount::derive_subaccount(&id);
    let bytes = sub.to_uint8_array();
    let mut expected = [0u8; 32];
    expected[29] = 0xAB;
    expected[30] = 0xCD;
    expected[31] = 0xEF;
    assert_eq!(bytes, expected);
}

#[test]
fn from_principal_matches_derive_subaccount() {
    let id = identity(&[1, 2, 3, 4]);
    assert_eq!(
        SubAccount::derive_subaccount(&id).to_uint8_array(),
        SubAccount::from_principal(&id).to_uint8_array()
    );
}

#[test]
fn subaccount_from_bytes_requires_exactly_32() {
    assert!(SubAccount::from_bytes(&[0u8; 31]).is_err());
    assert!(SubAccount::from_bytes(&[0u8; 33]).is_err());
    let mut raw = [0u8; 32];
    raw[0] = 7;
    let sub = SubAccount::from_bytes(&raw).unwrap();
    assert_eq!(sub.to_uint8_array(), raw);
}

#[test]
fn subaccount_from_id_sets_last_byte() {
    let sub = SubAccount::from_id(9);
    let bytes = sub.to_uint8_array();
    assert_eq!(bytes[31], 9);
    assert!(bytes[..31].iter().all(|&b| b == 0));
}

#[test]
fn subaccount_to_vec_round_trips() {
    let id = identity(&[5, 6]);
    let sub = SubAccount::derive_subaccount(&id);
    assert_eq!(sub.to_vec(), sub.to_uint8_array().to_vec());
}

#[test]
fn account_address_is_deterministic() {
    let id = identity(&[1, 2, 3]);
    let a = AccountIdentifier::from_principal(&id, Some(SubAccount::from_id(1)));
    let b = AccountIdentifier::from_principal(&id, Some(SubAccount::from_id(1)));
    assert_eq!(a.to_uint8_array(), b.to_uint8_array());
    assert_eq!(a.to_hex(), b.to_hex());
    assert!(a.same_as(&b));
}

#[test]
fn account_address_depends_on_subaccount() {
    let id = identity(&[1, 2, 3]);
    let a = AccountIdentifier::from_principal(&id, Some(SubAccount::from_id(1)));
    let b = AccountIdentifier::from_principal(&id, Some(SubAccount::from_id(2)));
    assert!(!a.same_as(&b));
}

#[test]
fn absent_subaccount_means_all_zero() {
    let id = identity(&[1, 2, 3]);
    let a = AccountIdentifier::from_principal(&id, None);
    let b = AccountIdentifier::from_principal(&id, Some(SubAccount::from_bytes(&[0u8; 32]).unwrap()));
    assert!(a.same_as(&b));
}

#[test]
fn account_address_is_the_hash_of_identity_and_subaccount() {
    let id = identity(&[9, 8, 7]);
    let sub = SubAccount::derive_subaccount(&id);
    let account = AccountIdentifier::from_principal(&id, Some(SubAccount::derive_subaccount(&id)));

    let mut input = Vec::new();
    input.extend_from_slice(&[9, 8, 7]);
    input.extend_from_slice(&sub.to_uint8_array());
    let expected = <sha2::Sha256 as sha2::Digest>::digest(&input).to_vec();

    assert_eq!(account.to_numbers(), expected);
    assert_eq!(account.to_hex(), hex::encode(&expected));
}

#[test]
fn hex_round_trip_preserves_address() {
    let id = identity(&[42]);
    let account = AccountIdentifier::from_principal(&id, None);
    let text = account.to_hex();
    assert_eq!(text.len(), 64);
    let parsed = AccountIdentifier::from_hex(&text).unwrap();
    assert!(parsed.same_as(&account));
    assert_eq!(parsed.to_numbers(), account.to_numbers());
}

#[test]
fn from_hex_rejects_bad_input() {
    assert!(AccountIdentifier::from_hex("zz").is_err());
    assert!(AccountIdentifier::from_hex("abc").is_err());
    assert!(AccountIdentifier::from_hex("abcd").is_err());
    let ok = "00".repeat(32);
    assert!(AccountIdentifier::from_hex(&ok).is_ok());
    let upper = "AB".repeat(32);
    assert!(AccountIdentifier::from_hex(&upper).is_ok());
}

#[test]
fn accessors_agree_on_the_same_bytes() {
    let id = identity(&[1]);
    let account = AccountIdentifier::from_principal(&id, None);
    assert_eq!(
        account.to_account_identifier_hash().to_vec(),
        account.to_numbers()
    );
    assert_eq!(account.to_uint8_array().to_vec(), account.to_numbers());
}

#[test]
fn anonymous_identity_is_recognized() {
    let anon = Identity::anonymous();
    assert!(anon.is_anonymous());
    assert_eq!(anon.bytes, vec![4u8]);
    assert!(!identity(&[1, 2]).is_anonymous());
    assert!(!identity(&[4, 4]).is_anonymous());
}

#[test]
fn identity_text_matches_principal_encoding() {
    let raw = [1u8, 2, 3, 4, 5];
    let id = identity(&raw);
    let expected = candid::Principal::from_slice(&raw).to_text();
    assert_eq!(id.to_text(), expected);
}
