use ncd_tipping::context::{CallContext, ContractMethod, FunctionCall, PromiseAction, ScheduledPromise};
use ncd_tipping::payout::{
    compute_payout, royalty_to_payout, TippingError, MIN_TIPPING_AMOUNT, MIN_TO_BE_PAYED,
};

use ncd_tipping::strmap::StrMap;
use ncd_tipping::tipping::{
    assert_signer_not_owner, Article, Contract, ContractCore, GeneratePayout, NewArticle,
    StorageKey, CALLBACK,
};

fn bob() -> String {
    "bob.near".to_string()
}

fn alice() -> String {
    "alice.near".to_string()
}

fn tipping() -> String {
    "tipping.near".to_string()
}

fn context(signer: &str, predecessor: &str, deposit: u128) -> CallContext {
    CallContext {
        current_account_id: tipping(),
        signer_account_id: signer.to_string(),
        signer_account_pk: "ed25519:qSq3LoufLvTCTNGC3LJePMDGrok8dHMQ5A1YD9psbiz".to_string(),
        predecessor_account_id: predecessor.to_string(),
        attached_deposit: deposit,
    }
}

fn default_context(deposit: u128) -> CallContext {
    context("bob.near", "bob.near", deposit)
}

fn contract_add_new_article_default(ctx: &CallContext) -> Contract {
    let mut contract = Contract::new(tipping());
    contract.add_new_article_default(1, ctx);
    contract
}

#[test]
fn test_create_new_articles_default() {
    let ctx = default_context(0);
    let contract = contract_add_new_article_default(&ctx);
    assert_eq!(contract.owner_id, tipping());
    let article1 = contract
        .article_by_id
        .get(&"bob.near1".to_owned())
        .expect("article_id changed implementation?");
    assert_eq!(article1.royalty.len(), 0, "Royalty payout incorrect length");
}

#[test]
fn test_create_multiple_articles_single_account() {
    let ctx = default_context(0);
    let mut contract = Contract::new(tipping());
    contract.add_new_article_default(1, &ctx);
    contract.add_new_article_default(3, &ctx);
    let g = contract.article_by_id;
    assert!(g.get(&"bob.near1".to_owned()).is_some());
    assert!(g.get(&"bob.near2".to_owned()).is_none());
    assert!(g.get(&"bob.near3".to_owned()).is_some());
}

#[test]
fn test_default_article_payout_correct_amount() {
    let deposit: u128 = 1_000_000_000_000_000_000_000_000;
    let ctx = default_context(deposit);
    let mut contract = contract_add_new_article_default(&ctx);
    let payout_object = contract.calculate_payout("bob.near1".to_owned(), &ctx).unwrap();
    assert_eq!(payout_object.payout.len(), 2);
    assert_eq!(payout_object.payout.get(&bob()), Some(&900_000_000_000_000_000_000_000));
    assert_eq!(payout_object.payout.get(&tipping()), Some(&100_000_000_000_000_000_000_000));
}

#[test]
#[should_panic]
fn test_default_article_panic_if_not_enough_deposit() {
    let deposit: u128 = 100_000;
    assert!(deposit < MIN_TIPPING_AMOUNT, "Our mock deposit is larger than MIN_TIPPING_AMOUNT");
    let ctx = default_context(deposit);
    let mut contract = contract_add_new_article_default(&ctx);
    contract.calculate_payout("bob.near1".to_owned(), &ctx).unwrap();
}

#[test]
#[should_panic]
fn test_tipping_yourself_failed() {
    let deposit: u128 = MIN_TIPPING_AMOUNT;
    let ctx = default_context(deposit);
    let mut contract = contract_add_new_article_default(&ctx);
    contract.send_payout("bob.near1".to_owned(), &ctx).unwrap();
}

#[test]
fn article_ids_are_owner_and_number() {
    let article = Article::new_default(bob(), 1029);
    assert_eq!(article.article_id, "bob.near1029");
    assert_eq!(article.owner_id, bob());
    assert_eq!(article.royalty.len(), 0);
    assert_eq!(Article::new_default(bob(), 0).article_id, "bob.near0");
    assert_eq!(Article::new_default(bob(), u64::MAX).article_id, "bob.near18446744073709551615");
}

#[test]
fn default_article_belongs_to_contract() {
    let article = Article::default_for(tipping());
    assert_eq!(article.owner_id, tipping());
    assert_eq!(article.article_id, "");
    assert_eq!(article.royalty.len(), 0);
}

#[test]
fn republishing_replaces_article() {
    let ctx = default_context(0);
    let mut contract = Contract::new(tipping());
    contract.add_new_article_default(1, &ctx);
    contract.add_new_article_default(1, &ctx);
    assert_eq!(contract.article_by_id.len(), 1);
    let alice_ctx = context("alice.near", "alice.near", 0);
    contract.add_new_article_default(1, &alice_ctx);
    assert_eq!(contract.article_by_id.len(), 2);
    assert_eq!(contract.get_article_by_id("alice.near1".to_owned()).unwrap().owner_id, alice());
}

#[test]
fn missing_article_is_reported() {
    let contract = Contract::new(tipping());
    assert_eq!(contract.get_article_by_id("bob.near1".to_owned()).err(), Some(TippingError::ArticleNotFound));
    let mut contract = contract;
    let ctx = default_context(MIN_TIPPING_AMOUNT);
    assert_eq!(contract.calculate_payout("bob.near1".to_owned(), &ctx).err(), Some(TippingError::ArticleNotFound));
    assert_eq!(contract.send_payout("bob.near1".to_owned(), &ctx).err(), Some(TippingError::ArticleNotFound));
}

#[test]
fn fetch_owner_returns_contract_owner() {
    let contract = Contract::new(alice());
    assert_eq!(contract.fetch_owner(), alice());
}

#[test]
fn royalty_to_payout_rounds_down() {
    assert_eq!(royalty_to_payout(2985, 10_000), 2985);
    assert_eq!(royalty_to_payout(9000, 1_000_000_000_000_000_000_000_000), 900_000_000_000_000_000_000_000);
    assert_eq!(royalty_to_payout(1, 9_999), 0);
    assert_eq!(royalty_to_payout(3, 10_001), 3);
}

#[test]
fn payout_with_royalties() {
    let mut royalty: StrMap<u16> = StrMap::new();
    royalty.insert(alice(), 300);
    royalty.insert("carol.near".to_string(), 1);
    let amount: u128 = 1_000_000_000_000_000_000_000_000;
    let payout = compute_payout(&bob(), &royalty, &tipping(), amount).unwrap();
    assert_eq!(payout.payout.len(), 3);
    assert_eq!(payout.payout.key_at(0), &bob());
    assert_eq!(payout.payout.key_at(1), &alice());
    assert_eq!(payout.payout.key_at(2), &tipping());
    assert_eq!(payout.payout.get(&bob()), Some(&900_000_000_000_000_000_000_000));
    assert_eq!(payout.payout.get(&alice()), Some(&30_000_000_000_000_000_000_000));
    // carol's 0.01% of 1 NEAR is 1e20, not above the 0.0001 NEAR minimum: kept by the contract
    assert_eq!(payout.payout.get(&"carol.near".to_string()), None);
    assert_eq!(payout.payout.get(&tipping()), Some(&70_000_000_000_000_000_000_000));
    let total: u128 = (0..payout.payout.len()).map(|i| *payout.payout.value_at(i)).sum();
    assert_eq!(total, amount);
}

#[test]
fn small_royalty_stays_with_contract() {
    let mut royalty: StrMap<u16> = StrMap::new();
    royalty.insert(alice(), 5);
    let amount: u128 = MIN_TIPPING_AMOUNT;
    // 0.05% of 0.001 NEAR is 5e17, below the minimum payment
    assert!(royalty_to_payout(5, amount) <= MIN_TO_BE_PAYED);
    let payout = compute_payout(&bob(), &royalty, &tipping(), amount).unwrap();
    assert_eq!(payout.payout.len(), 2);
    assert_eq!(payout.payout.get(&alice()), None);
    assert_eq!(payout.payout.get(&tipping()), Some(&100_000_000_000_000_000_000));
    let total: u128 = *payout.payout.value_at(0) + *payout.payout.value_at(1);
    assert!(total <= amount);
}

#[test]
fn royalties_beyond_contract_share_are_refused() {
    let mut royalty: StrMap<u16> = StrMap::new();
    royalty.insert(alice(), 600);
    royalty.insert("carol.near".to_string(), 600);
    let amount: u128 = 1_000_000_000_000_000_000_000_000;
    assert_eq!(compute_payout(&bob(), &royalty, &tipping(), amount).err(), Some(TippingError::RoyaltyExceeded));
}

#[test]
fn unpaid_royalty_does_not_use_up_share() {
    let mut royalty: StrMap<u16> = StrMap::new();
    royalty.insert("carol.near".to_string(), 500);
    royalty.insert(alice(), 600);
    // at 0.002 NEAR, 5% is 1e20: not above the minimum, so carol's share stays
    let amount: u128 = 2 * MIN_TIPPING_AMOUNT;
    let payout = compute_payout(&bob(), &royalty, &tipping(), amount).unwrap();
    assert_eq!(payout.payout.get(&alice()), Some(&120_000_000_000_000_000_000));
    assert_eq!(payout.payout.get(&"carol.near".to_string()), None);
    assert_eq!(payout.payout.get(&tipping()), Some(&80_000_000_000_000_000_000));
}

#[test]
fn royalty_holder_equal_to_owner_adds_to_owner_share() {
    let mut royalty: StrMap<u16> = StrMap::new();
    royalty.insert(bob(), 100);
    let amount: u128 = 1_000_000_000_000_000_000_000_000;
    let payout = compute_payout(&bob(), &royalty, &tipping(), amount).unwrap();
    assert_eq!(payout.payout.len(), 2);
    assert_eq!(payout.payout.get(&bob()), Some(&910_000_000_000_000_000_000_000));
    assert_eq!(payout.payout.get(&tipping()), Some(&90_000_000_000_000_000_000_000));
}

#[test]
fn owner_equal_to_contract_gets_both_shares() {
    let royalty: StrMap<u16> = StrMap::new();
    let amount: u128 = 1_000_000_000_000_000_000_000_000;
    let payout = compute_payout(&tipping(), &royalty, &tipping(), amount).unwrap();
    assert_eq!(payout.payout.len(), 1);
    assert_eq!(payout.payout.get(&tipping()), Some(&1_000_000_000_000_000_000_000_000));
}

#[test]
fn invalid_royalty_account_is_refused() {
    let ctx = default_context(MIN_TIPPING_AMOUNT);
    let mut contract = Contract::new(tipping());
    let alice_ctx = context("alice.near", "alice.near", MIN_TIPPING_AMOUNT);
    contract.add_new_article_default(7, &alice_ctx);
    assert!(contract.calculate_payout("alice.near7".to_owned(), &ctx).is_ok());
    let mut article = Article::new_default(alice(), 8);
    article.royalty.insert("XYZ".to_string(), 10);
    contract.article_by_id.insert(article.article_id.clone(), article);
    assert_eq!(
        contract.calculate_payout("alice.near8".to_owned(), &ctx).err(),
        Some(TippingError::InvalidAccountId)
    );
    let bad_owner = Article::new_default("Bad Owner".to_string(), 1);
    contract.article_by_id.insert(bad_owner.article_id.clone(), bad_owner);
    assert_eq!(
        contract.calculate_payout("Bad Owner1".to_owned(), &ctx).err(),
        Some(TippingError::InvalidAccountId)
    );
}

#[test]
fn send_payout_schedules_transfers_and_callbacks() {
    let deposit: u128 = 1_000_000_000_000_000_000_000_000;
    let alice_ctx = context("alice.near", "alice.near", 0);
    let mut contract = contract_add_new_article_default(&alice_ctx);
    contract.add_new_article_default(1, &default_context(0));
    let ctx = context("alice.near", "alice.near", deposit);
    let promises = contract.send_payout("bob.near1".to_owned(), &ctx).unwrap();
    assert_eq!(promises.len(), 2);
    assert_eq!(
        promises[0],
        ScheduledPromise {
            action: PromiseAction::Transfer { receiver_id: bob(), amount: 900_000_000_000_000_000_000_000 },
            callback: Some(FunctionCall {
                receiver_id: tipping(),
                method: ContractMethod::OnTransferAttachedTokens {
                    sender_id: alice(),
                    amount_sent: 900_000_000_000_000_000_000_000,
                    recipient: bob(),
                },
                deposit: 0,
                gas: CALLBACK,
            }),
        }
    );
    assert_eq!(
        promises[1].action,
        PromiseAction::Transfer { receiver_id: tipping(), amount: 100_000_000_000_000_000_000_000 }
    );
}

#[test]
fn send_payout_refunds_what_is_owed() {
    let deposit: u128 = MIN_TIPPING_AMOUNT;
    let mut contract = contract_add_new_article_default(&default_context(0));
    let own = context("tipping.near", "tipping.near", 0);
    contract.on_transfer_attached_tokens(alice(), 42, bob(), false, &own).unwrap();
    let ctx = context("alice.near", "alice.near", deposit);
    let promises = contract.send_payout("bob.near1".to_owned(), &ctx).unwrap();
    assert_eq!(promises.len(), 3);
    assert_eq!(promises[0].action, PromiseAction::Transfer { receiver_id: bob(), amount: 900_000_000_000_000_000_000 });
    assert_eq!(promises[1].action, PromiseAction::Transfer { receiver_id: tipping(), amount: 100_000_000_000_000_000_000 });
    let refund = ScheduledPromise {
        action: PromiseAction::Transfer { receiver_id: alice(), amount: 42 },
        callback: Some(FunctionCall {
            receiver_id: tipping(),
            method: ContractMethod::OnRefund,
            deposit: 0,
            gas: CALLBACK,
        }),
    };
    assert_eq!(promises[2], refund);
}

#[test]
fn send_payout_checks_deposit_after_owner() {
    let mut contract = contract_add_new_article_default(&default_context(0));
    let ctx = context("alice.near", "alice.near", 10);
    assert_eq!(contract.send_payout("bob.near1".to_owned(), &ctx).err(), Some(TippingError::NotEnoughDeposit));
    let own = default_context(10);
    assert_eq!(contract.send_payout("bob.near1".to_owned(), &own).err(), Some(TippingError::CannotTipOwnArticle));
}

#[test]
fn failed_transfers_accumulate_refunds() {
    let mut contract = Contract::new(tipping());
    let own = context("alice.near", "tipping.near", 0);
    contract.on_transfer_attached_tokens(alice(), 100, bob(), false, &own).unwrap();
    contract.on_transfer_attached_tokens(alice(), 50, bob(), false, &own).unwrap();
    contract.on_transfer_attached_tokens(alice(), 70, bob(), true, &own).unwrap();
    assert_eq!(contract.get_refund(alice()), 150);
    assert_eq!(contract.get_refund(bob()), 0);
}

#[test]
fn refund_callback_clears_on_success_only() {
    let mut contract = Contract::new(tipping());
    let own = context("alice.near", "tipping.near", 0);
    contract.on_transfer_attached_tokens(alice(), 100, bob(), false, &own).unwrap();
    contract.on_refund(false, &own).unwrap();
    assert_eq!(contract.get_refund(alice()), 100);
    contract.on_refund(true, &own).unwrap();
    assert_eq!(contract.get_refund(alice()), 0);
}

#[test]
fn callbacks_only_from_contract() {
    let mut contract = Contract::new(tipping());
    let other = context("alice.near", "alice.near", 0);
    assert_eq!(
        contract.on_transfer_attached_tokens(alice(), 100, bob(), false, &other),
        Err(TippingError::NotCalledByContract)
    );
    assert_eq!(contract.on_refund(true, &other), Err(TippingError::NotCalledByContract));
    assert_eq!(contract.get_refund(alice()), 0);
}

#[test]
fn signer_owner_check() {
    let ctx = default_context(0);
    assert_eq!(assert_signer_not_owner(&bob(), &ctx), Err(TippingError::CannotTipOwnArticle));
    assert_eq!(assert_signer_not_owner(&alice(), &ctx), Ok(()));
}

#[test]
fn storage_keys_encode_their_index() {
    assert_eq!(StorageKey::RoyaltyKey.try_to_vec(), vec![0u8]);
    assert_eq!(StorageKey::PayoutKey.try_to_vec(), vec![1u8]);
    assert_eq!(StorageKey::ArticleKey.try_to_vec(), vec![2u8]);
}

#[test]
fn minimum_payment_is_a_tenth_of_minimum_tip() {
    assert_eq!(MIN_TO_BE_PAYED, 100_000_000_000_000_000_000);
    assert_eq!(MIN_TIPPING_AMOUNT, 10 * MIN_TO_BE_PAYED);
}

#[test]
fn royalty_at_minimum_payment_goes_to_contract() {
    let mut royalty: StrMap<u16> = StrMap::new();
    royalty.insert("alice.near".to_string(), 600);
    // 6% of 0.001 NEAR is 6e19, below 0.0001 NEAR
    let payout = compute_payout(&"bob.near".to_string(), &royalty, &"tipping.near".to_string(), MIN_TIPPING_AMOUNT).unwrap();
    assert_eq!(payout.payout.get(&"alice.near".to_string()), None);
    assert_eq!(payout.payout.get(&"tipping.near".to_string()), Some(&100_000_000_000_000_000_000));
}

#[test]
fn contract_as_royalty_holder_gets_leftover_only() {
    let mut royalty: StrMap<u16> = StrMap::new();
    royalty.insert(tipping(), 300);
    let amount: u128 = 1_000_000_000_000_000_000_000_000;
    let payout = compute_payout(&bob(), &royalty, &tipping(), amount).unwrap();
    assert_eq!(payout.payout.len(), 2);
    assert_eq!(payout.payout.get(&bob()), Some(&900_000_000_000_000_000_000_000));
    // the leftover 7% replaces the contract's 3% royalty
    assert_eq!(payout.payout.get(&tipping()), Some(&70_000_000_000_000_000_000_000));
}

#[test]
fn deposit_checks_come_before_the_split() {
    let mut contract = contract_add_new_article_default(&default_context(0));
    let ctx = context("alice.near", "alice.near", MIN_TIPPING_AMOUNT);
    assert!(contract.reaches_split(&"bob.near1".to_string(), &ctx));
    assert!(contract.reaches_transfer(&"bob.near1".to_string(), &ctx));
    assert!(!contract.reaches_split(&"bob.near2".to_string(), &ctx));
    let own = default_context(MIN_TIPPING_AMOUNT);
    assert!(contract.reaches_split(&"bob.near1".to_string(), &own));
    assert!(!contract.reaches_transfer(&"bob.near1".to_string(), &own));
    let small = context("alice.near", "alice.near", 1);
    assert!(!contract.reaches_split(&"bob.near1".to_string(), &small));
    // a deposit too large for the split is still refused for a missing article
    let huge = context("alice.near", "alice.near", u128::MAX);
    assert_eq!(contract.calculate_payout("bob.near2".to_owned(), &huge).err(), Some(TippingError::ArticleNotFound));
    assert_eq!(contract.send_payout("bob.near1".to_owned(), &default_context(u128::MAX)).err(), Some(TippingError::CannotTipOwnArticle));
}
