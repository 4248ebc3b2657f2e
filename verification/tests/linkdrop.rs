use ncd_tipping::context::{CallContext, ContractMethod, FunctionCall, PromiseAction, PromiseOutcome, ScheduledPromise};
use ncd_tipping::linkdrop::{
    is_promise_success, CallbackOutcome, LinkDrop, LinkDropError, ACCESS_KEY_ALLOWANCE,
    NO_DEPOSIT, ON_CREATE_ACCOUNT_CALLBACK_GAS,
};

const PK: &str = "ed25519:qSq3LoufLvTCTNGC3LJePMDGrok8dHMQ5A1YD9psbiz";
const PK2: &str = "ed25519:2S87aQ1PM9o6eBcEXnTR5yBAVRTiNmvj8J8ngZ6FzSca";

fn linkdrop() -> String {
    "linkdrop".to_string()
}

fn bob() -> String {
    "bob.near".to_string()
}

fn context(predecessor: &str, signer_pk: &str, deposit: u128) -> CallContext {
    CallContext {
        current_account_id: linkdrop(),
        signer_account_id: String::new(),
        signer_account_pk: signer_pk.to_string(),
        predecessor_account_id: predecessor.to_string(),
        attached_deposit: deposit,
    }
}

#[test]
fn test_create_account() {
    let mut contract = LinkDrop::default();
    let pk = PK.to_string();
    let deposit: u128 = 1_000_000;
    let ctx = context("linkdrop", PK, deposit);
    contract.create_account_and_claim(bob(), pk, &ctx).unwrap();
}

#[test]
fn create_account_and_claim_without_drop_funds_nothing() {
    let mut contract = LinkDrop::default();
    let promise = contract.create_account_and_claim(bob(), PK2.to_string(), &context("linkdrop", PK, 0)).unwrap();
    assert_eq!(
        promise.action,
        PromiseAction::CreateAccount { new_account_id: bob(), full_access_key: PK2.to_string(), amount: 0 }
    );
    assert_eq!(contract.accounts.len(), 0);
}

#[test]
#[should_panic]
fn test_create_invalid_account() {
    let mut contract = LinkDrop::default();
    let pk = PK.to_string();
    let deposit: u128 = 1_000_000;
    let ctx = context("", "", deposit);
    contract.create_account_and_claim("XYZ".to_string(), pk, &ctx).unwrap();
}

#[test]
#[should_panic]
fn test_get_missing_balance_panics() {
    let contract = LinkDrop::default();
    contract.get_key_balance(PK.to_string()).unwrap();
}

#[test]
fn test_get_missing_balance_success() {
    let mut contract = LinkDrop::default();
    let pk = PK.to_string();
    let deposit = ACCESS_KEY_ALLOWANCE * 100;
    let ctx = context("", "", deposit);
    contract.send(pk.clone(), &ctx).unwrap();
    let balance: u128 = contract.get_key_balance(pk).unwrap();
    assert_eq!(balance, deposit - ACCESS_KEY_ALLOWANCE);
}

#[test]
#[should_panic]
fn test_claim_invalid_account() {
    let mut contract = LinkDrop::default();
    let pk = PK.to_string();
    let deposit = ACCESS_KEY_ALLOWANCE * 100;
    contract.send(pk.clone(), &context("", "", deposit)).unwrap();
    let ctx = context("linkdrop", PK, 0);
    let pk2 = PK2.to_string();
    contract.create_account_and_claim("XYZ".to_string(), pk2, &ctx).unwrap();
}

#[test]
#[should_panic]
fn test_drop_claim_failed_panic() {
    let mut contract = LinkDrop::default();
    let pk = PK.to_string();
    let deposit = 0;
    contract.send(pk.clone(), &context("", "", deposit)).unwrap();
}

#[test]
fn test_drop_claim() {
    let mut contract = LinkDrop::default();
    let pk = PK.to_string();
    let deposit = ACCESS_KEY_ALLOWANCE * 100;
    contract.send(pk.clone(), &context("", "", deposit)).unwrap();
    let ctx = context("linkdrop", PK, 0);
    let pk2 = PK2.to_string();
    let promise = contract.create_account_and_claim(bob(), pk2.clone(), &ctx).unwrap();
    assert_eq!(
        promise,
        ScheduledPromise {
            action: PromiseAction::CreateAccount {
                new_account_id: bob(),
                full_access_key: pk2,
                amount: deposit - ACCESS_KEY_ALLOWANCE,
            },
            callback: Some(FunctionCall {
                receiver_id: linkdrop(),
                method: ContractMethod::OnAccountCreatedAndClaimed { amount: deposit - ACCESS_KEY_ALLOWANCE },
                deposit: NO_DEPOSIT,
                gas: ON_CREATE_ACCOUNT_CALLBACK_GAS,
            }),
        }
    );
    assert_eq!(contract.get_key_balance(pk), Err(LinkDropError::KeyMissing));
}

#[test]
fn test_send_two_times() {
    let mut contract = LinkDrop::default();
    let pk = PK.to_string();
    let deposit = ACCESS_KEY_ALLOWANCE * 100;
    contract.send(pk.clone(), &context("", "", deposit)).unwrap();
    assert_eq!(contract.get_key_balance(pk.clone()), Ok(deposit - ACCESS_KEY_ALLOWANCE));
    contract.send(pk.clone(), &context("", "", deposit + 1)).unwrap();
    assert_eq!(
        *contract.accounts.get(&pk).unwrap(),
        deposit + deposit + 1 - 2 * ACCESS_KEY_ALLOWANCE
    );
}

#[test]
fn send_adds_limited_access_key() {
    let mut contract = LinkDrop::default();
    let promise = contract.send(PK.to_string(), &context("", "", ACCESS_KEY_ALLOWANCE + 1)).unwrap();
    assert_eq!(
        promise.action,
        PromiseAction::AddAccessKey {
            account_id: linkdrop(),
            public_key: PK.to_string(),
            allowance: ACCESS_KEY_ALLOWANCE,
            receiver_id: linkdrop(),
            method_names: "claim,create_account_and_claim".to_string(),
        }
    );
    assert_eq!(promise.callback, None);
    assert_eq!(contract.get_key_balance(PK.to_string()), Ok(1));
}

#[test]
fn send_needs_more_than_allowance() {
    let mut contract = LinkDrop::default();
    assert_eq!(
        contract.send(PK.to_string(), &context("", "", ACCESS_KEY_ALLOWANCE)),
        Err(LinkDropError::DepositTooSmall)
    );
    assert_eq!(contract.accounts.len(), 0);
}

#[test]
fn claim_sends_whole_drop() {
    let mut contract = LinkDrop::default();
    let deposit = ACCESS_KEY_ALLOWANCE * 3;
    contract.send(PK.to_string(), &context("", "", deposit)).unwrap();
    let ctx = context("linkdrop", PK, 0);
    let promises = contract.claim(bob(), &ctx).unwrap();
    assert_eq!(promises.len(), 2);
    assert_eq!(
        promises[0].action,
        PromiseAction::DeleteKey { account_id: linkdrop(), public_key: PK.to_string() }
    );
    assert_eq!(
        promises[1].action,
        PromiseAction::Transfer { receiver_id: bob(), amount: 2 * ACCESS_KEY_ALLOWANCE }
    );
    assert_eq!(contract.get_key_balance(PK.to_string()), Err(LinkDropError::KeyMissing));
    assert_eq!(contract.claim(bob(), &ctx), Err(LinkDropError::UnexpectedPublicKey));
}

#[test]
fn claim_errors() {
    let mut contract = LinkDrop::default();
    contract.send(PK.to_string(), &context("", "", ACCESS_KEY_ALLOWANCE * 2)).unwrap();
    assert_eq!(contract.claim(bob(), &context("bob.near", PK, 0)), Err(LinkDropError::NotCalledByContract));
    assert_eq!(contract.claim("XYZ".to_string(), &context("linkdrop", PK, 0)), Err(LinkDropError::InvalidAccountId));
    assert_eq!(contract.claim("a".to_string(), &context("linkdrop", PK, 0)), Err(LinkDropError::InvalidAccountId));
    assert_eq!(contract.claim("bob..near".to_string(), &context("linkdrop", PK, 0)), Err(LinkDropError::InvalidAccountId));
    assert_eq!(contract.get_key_balance(PK.to_string()), Ok(ACCESS_KEY_ALLOWANCE));
}

#[test]
fn create_account_funds_new_account() {
    let mut contract = LinkDrop::default();
    let ctx = CallContext {
        current_account_id: linkdrop(),
        signer_account_id: "alice.near".to_string(),
        signer_account_pk: String::new(),
        predecessor_account_id: "alice.near".to_string(),
        attached_deposit: 5,
    };
    let promise = contract.create_account(bob(), PK.to_string(), &ctx).unwrap();
    assert_eq!(
        promise,
        ScheduledPromise {
            action: PromiseAction::CreateAccount {
                new_account_id: bob(),
                full_access_key: PK.to_string(),
                amount: 5,
            },
            callback: Some(FunctionCall {
                receiver_id: linkdrop(),
                method: ContractMethod::OnAccountCreated {
                    predecessor_account_id: "alice.near".to_string(),
                    amount: 5,
                },
                deposit: NO_DEPOSIT,
                gas: ON_CREATE_ACCOUNT_CALLBACK_GAS,
            }),
        }
    );
    assert_eq!(
        contract.create_account("Bob".to_string(), PK.to_string(), &ctx),
        Err(LinkDropError::InvalidAccountId)
    );
}

#[test]
fn promise_success_needs_one_result() {
    assert_eq!(is_promise_success(&vec![]), Err(LinkDropError::ExpectedOnePromiseResult));
    assert_eq!(
        is_promise_success(&vec![PromiseOutcome::Failed, PromiseOutcome::Failed]),
        Err(LinkDropError::ExpectedOnePromiseResult)
    );
    assert_eq!(is_promise_success(&vec![PromiseOutcome::Successful(vec![1])]), Ok(true));
    assert_eq!(is_promise_success(&vec![PromiseOutcome::Failed]), Ok(false));
    assert_eq!(is_promise_success(&vec![PromiseOutcome::NotReady]), Ok(false));
}

#[test]
fn failed_creation_returns_deposit() {
    let mut contract = LinkDrop::default();
    let ctx = context("linkdrop", PK, 0);
    let outcome = contract.on_account_created(bob(), 7, &vec![PromiseOutcome::Failed], &ctx).unwrap();
    assert_eq!(
        outcome,
        CallbackOutcome {
            succeeded: false,
            promise: Some(ScheduledPromise {
                action: PromiseAction::Transfer { receiver_id: bob(), amount: 7 },
                callback: None,
            }),
        }
    );
    let outcome = contract.on_account_created(bob(), 7, &vec![PromiseOutcome::Successful(vec![])], &ctx).unwrap();
    assert_eq!(outcome, CallbackOutcome { succeeded: true, promise: None });
    assert_eq!(
        contract.on_account_created(bob(), 7, &vec![PromiseOutcome::Failed], &context("bob.near", PK, 0)),
        Err(LinkDropError::NotCalledByContract)
    );
}

#[test]
fn failed_claim_restores_drop() {
    let mut contract = LinkDrop::default();
    let deposit = ACCESS_KEY_ALLOWANCE * 4;
    contract.send(PK.to_string(), &context("", "", deposit)).unwrap();
    contract.send(PK2.to_string(), &context("", "", deposit)).unwrap();
    let ctx = context("linkdrop", PK, 0);
    let promise = contract.create_account_and_claim(bob(), PK2.to_string(), &ctx).unwrap();
    let amount = match promise.action {
        PromiseAction::CreateAccount { amount, .. } => amount,
        _ => panic!("expected an account creation"),
    };
    assert_eq!(contract.get_key_balance(PK.to_string()), Err(LinkDropError::KeyMissing));
    let outcome = contract
        .on_account_created_and_claimed(amount, &vec![PromiseOutcome::Failed], &ctx)
        .unwrap();
    assert_eq!(outcome, CallbackOutcome { succeeded: false, promise: None });
    assert_eq!(contract.get_key_balance(PK.to_string()), Ok(deposit - ACCESS_KEY_ALLOWANCE));
    assert_eq!(contract.get_key_balance(PK2.to_string()), Ok(deposit - ACCESS_KEY_ALLOWANCE));
}

#[test]
fn successful_claim_deletes_key() {
    let mut contract = LinkDrop::default();
    let ctx = context("linkdrop", PK, 0);
    let outcome = contract
        .on_account_created_and_claimed(9, &vec![PromiseOutcome::Successful(vec![])], &ctx)
        .unwrap();
    assert_eq!(
        outcome,
        CallbackOutcome {
            succeeded: true,
            promise: Some(ScheduledPromise {
                action: PromiseAction::DeleteKey { account_id: linkdrop(), public_key: PK.to_string() },
                callback: None,
            }),
        }
    );
    assert_eq!(contract.accounts.len(), 0);
    assert_eq!(
        contract.on_account_created_and_claimed(9, &vec![], &ctx),
        Err(LinkDropError::ExpectedOnePromiseResult)
    );
}

#[test]
fn account_id_rules_decide_claims() {
    let deposit = ACCESS_KEY_ALLOWANCE * 2;
    let long_valid = "a".repeat(64);
    let too_long = "a".repeat(65);
    for (account, valid) in [
        ("aa", true),
        ("a-b_c.d", true),
        ("100", true),
        (long_valid.as_str(), true),
        (too_long.as_str(), false),
        ("a", false),
        ("-near", false),
        ("near.", false),
        ("a..near", false),
        ("nEar", false),
        ("неар", false),
        ("near@", false),
    ] {
        let mut contract = LinkDrop::default();
        contract.send(PK.to_string(), &context("", "", deposit)).unwrap();
        let result = contract.claim(account.to_string(), &context("linkdrop", PK, 0));
        if valid {
            assert!(result.is_ok(), "{} should be accepted", account);
        } else {
            assert_eq!(result, Err(LinkDropError::InvalidAccountId), "{} should be refused", account);
        }
    }
}
