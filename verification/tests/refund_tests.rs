use token_sale::account_identifier::AccountIdentifier;
use token_sale::identity::Identity;
use token_sale::models::Account;
use token_sale::models::SaleError;
use token_sale::models::TransferEntry;
use token_sale::service::resolve_refund;
use token_sale::state::State;
use token_sale::subaccount::SubAccount;

fn identity(bytes: &[u8]) -> Identity {
    Identity::new(bytes.to_vec())
}

const FEE: u64 = 10_000;
const PRICE: u64 = 100;

fn engine() -> Identity {
    identity(&[0xEE])
}

fn escrow_account_of(investor: &Identity) -> AccountIdentifier {
    State::escrow_account_of(&engine(), investor)
}

/// A transfer from `sender` into the engine-held escrow sub-account of
/// `investor`, as the transaction-history index would report it.
fn inbound(sender: &Identity, investor: &Identity) -> TransferEntry {
    TransferEntry {
        from: Account {
            owner: Identity::new(sender.bytes.clone()),
            subaccount: None,
        },
        to: Account {
            owner: engine(),
            subaccount: Some(SubAccount::derive_subaccount(investor).to_vec()),
        },
    }
}

#[test]
fn refund_goes_back_to_the_original_sender() {
    let investor = identity(&[1, 2, 3]);
    let sender = identity(&[7, 7, 7]);
    let transactions = vec![inbound(&sender, &investor)];
    // investor booked 3 units and deposited 3 x price + fee
    let balance = 3 * PRICE + FEE;
    let refund = resolve_refund(&transactions, balance, &escrow_account_of(&investor)).unwrap();
    assert_eq!(refund.to, sender.to_text());
    assert_eq!(refund.amount, balance - FEE);
    assert_eq!(refund.amount, 300);
}

#[test]
fn refund_of_exactly_the_fee_is_zero_but_succeeds() {
    let investor = identity(&[1]);
    let sender = identity(&[9]);
    let transactions = vec![inbound(&sender, &investor)];
    let refund = resolve_refund(&transactions, FEE, &escrow_account_of(&investor)).unwrap();
    assert_eq!(refund.amount, 0);
    assert_eq!(refund.to, sender.to_text());

    let below = resolve_refund(&transactions, FEE - 1, &escrow_account_of(&investor)).unwrap();
    assert_eq!(below.amount, 0);
}

#[test]
fn refund_without_matching_transfer_fails() {
    let investor = identity(&[1]);
    let other = identity(&[2]);
    // the only recorded transfer went to a different investor's escrow
    let transactions = vec![inbound(&identity(&[9]), &other)];
    let r = resolve_refund(&transactions, 1_000_000, &escrow_account_of(&investor));
    assert!(matches!(r, Err(SaleError::RefundSourceNotFound)));

    let empty: Vec<TransferEntry> = Vec::new();
    let r = resolve_refund(&empty, 1_000_000, &escrow_account_of(&investor));
    assert!(matches!(r, Err(SaleError::RefundSourceNotFound)));
}

#[test]
fn refund_picks_the_first_transfer_into_the_escrow() {
    let investor = identity(&[1]);
    let first_sender = identity(&[0x0A]);
    let second_sender = identity(&[0x0B]);
    let transactions = vec![
        inbound(&identity(&[9]), &identity(&[2])),
        inbound(&first_sender, &investor),
        inbound(&second_sender, &investor),
    ];
    let refund = resolve_refund(&transactions, FEE + 50, &escrow_account_of(&investor)).unwrap();
    assert_eq!(refund.to, first_sender.to_text());
    assert_eq!(refund.amount, 50);
}

#[test]
fn malformed_destination_subaccount_counts_as_the_default() {
    let sender = identity(&[5]);
    // destination sub-identifier of the wrong length: treated as all-zero
    let entry = TransferEntry {
        from: Account {
            owner: Identity::new(sender.bytes.clone()),
            subaccount: None,
        },
        to: Account {
            owner: engine(),
            subaccount: Some(vec![1, 2, 3]),
        },
    };
    let default_account = AccountIdentifier::from_principal(&engine(), None);
    let refund = resolve_refund(&vec![entry], FEE + 7, &default_account).unwrap();
    assert_eq!(refund.to, sender.to_text());
    assert_eq!(refund.amount, 7);
}
