use ncd_tipping::context::{CallContext, PromiseAction};
use ncd_tipping::experiment::{compute_payout_cheap, royalty_to_payout_cheap, GeneratePayout};
use ncd_tipping::payout::{TippingError, MIN_TIPPING_AMOUNT};
use ncd_tipping::strmap::StrMap;
use ncd_tipping::tipping::Contract;

fn context(signer: &str, predecessor: &str, deposit: u128) -> CallContext {
    CallContext {
        current_account_id: "tipping.near".to_string(),
        signer_account_id: signer.to_string(),
        signer_account_pk: String::new(),
        predecessor_account_id: predecessor.to_string(),
        attached_deposit: deposit,
    }
}

fn contract_with_article() -> Contract {
    let mut contract = Contract::new("tipping.near".to_string());
    contract.add_new_article_default(1, &context("bob.near", "bob.near", 0));
    contract
}

#[test]
fn cheap_payout_appends_power_of_ten() {
    assert_eq!(royalty_to_payout_cheap(9000, 1000, 21), 900_000_000_000_000_000_000_000);
    assert_eq!(royalty_to_payout_cheap(1000, 1234, 3), 123_000);
    assert_eq!(royalty_to_payout_cheap(1, 9999, 5), 0);
    assert_eq!(royalty_to_payout_cheap(2985, 10_000, 0), 2985);
}

#[test]
fn cheap_split_of_round_tip_is_exact() {
    let mut contract = contract_with_article();
    let ctx = context("alice.near", "alice.near", 1_000_000_000_000_000_000_000_000);
    let payout = contract.calculate_payout("bob.near1".to_string(), &ctx).unwrap();
    assert_eq!(payout.payout.len(), 2);
    assert_eq!(payout.payout.get(&"bob.near".to_string()), Some(&900_000_000_000_000_000_000_000));
    assert_eq!(payout.payout.get(&"tipping.near".to_string()), Some(&100_000_000_000_000_000_000_000));
}

#[test]
fn cheap_split_keeps_four_digits() {
    let mut contract = contract_with_article();
    let ctx = context("alice.near", "alice.near", 1_234_567_890_000_000_000_000_000);
    let payout = contract.calculate_payout("bob.near1".to_string(), &ctx).unwrap();
    assert_eq!(payout.payout.get(&"bob.near".to_string()), Some(&1_110_000_000_000_000_000_000_000));
    assert_eq!(payout.payout.get(&"tipping.near".to_string()), Some(&123_000_000_000_000_000_000_000));
    let total: u128 = (0..payout.payout.len()).map(|i| *payout.payout.value_at(i)).sum();
    assert!(total <= 1_234_567_890_000_000_000_000_000);
}

#[test]
fn cheap_split_refuses_own_article_and_small_tips() {
    let mut contract = contract_with_article();
    let own = context("bob.near", "bob.near", MIN_TIPPING_AMOUNT);
    assert_eq!(contract.calculate_payout("bob.near1".to_string(), &own).err(), Some(TippingError::CannotTipOwnArticle));
    let small = context("alice.near", "alice.near", MIN_TIPPING_AMOUNT - 1);
    assert_eq!(contract.calculate_payout("bob.near1".to_string(), &small).err(), Some(TippingError::NotEnoughDeposit));
    let ctx = context("alice.near", "alice.near", MIN_TIPPING_AMOUNT);
    assert_eq!(contract.calculate_payout("bob.near2".to_string(), &ctx).err(), Some(TippingError::ArticleNotFound));
    assert_eq!(contract.send_payout("bob.near1".to_string(), &own).err(), Some(TippingError::CannotTipOwnArticle));
}

#[test]
fn cheap_send_payout_transfers_split() {
    let mut contract = contract_with_article();
    let ctx = context("alice.near", "alice.near", MIN_TIPPING_AMOUNT);
    let promises = contract.send_payout("bob.near1".to_string(), &ctx).unwrap();
    assert_eq!(promises.len(), 2);
    assert_eq!(
        promises[0].action,
        PromiseAction::Transfer { receiver_id: "bob.near".to_string(), amount: 900_000_000_000_000_000_000 }
    );
    assert_eq!(
        promises[1].action,
        PromiseAction::Transfer { receiver_id: "tipping.near".to_string(), amount: 100_000_000_000_000_000_000 }
    );
}

#[test]
fn cheap_callbacks_record_and_clear_refunds() {
    let mut contract = contract_with_article();
    let own = context("alice.near", "tipping.near", 0);
    contract.on_transfer_attached_tokens("alice.near".to_string(), 5, "bob.near".to_string(), false, &own).unwrap();
    assert_eq!(contract.get_refund("alice.near".to_string()), 5);
    contract.on_refund(true, &own).unwrap();
    assert_eq!(contract.get_refund("alice.near".to_string()), 0);
    let other = context("alice.near", "alice.near", 0);
    assert_eq!(contract.on_refund(true, &other), Err(TippingError::NotCalledByContract));
}

#[test]
fn cheap_royalties() {
    let mut royalty: StrMap<u16> = StrMap::new();
    royalty.insert("alice.near".to_string(), 250);
    let payout = compute_payout_cheap(&"bob.near".to_string(), &royalty, &"tipping.near".to_string(), 1234, 21).unwrap();
    assert_eq!(payout.payout.get(&"alice.near".to_string()), Some(&30_000_000_000_000_000_000_000));
    assert_eq!(payout.payout.get(&"tipping.near".to_string()), Some(&92_000_000_000_000_000_000_000));
    royalty.insert("carol.near".to_string(), 800);
    assert_eq!(
        compute_payout_cheap(&"bob.near".to_string(), &royalty, &"tipping.near".to_string(), 1234, 21).err(),
        Some(TippingError::RoyaltyExceeded)
    );
}
