use ncd_tipping::context::{CallContext, ContractMethod, FunctionCall, PromiseAction, ScheduledPromise};
use ncd_tipping::greeting::{royalty_to_payout, Signup, Welcome, GAS, NO_DEPOSIT, SEND_DEPOSIT};

fn get_context(signer: &str) -> CallContext {
    CallContext {
        current_account_id: "alice_near".to_string(),
        signer_account_id: signer.to_string(),
        signer_account_pk: String::new(),
        predecessor_account_id: "carol_near".to_string(),
        attached_deposit: 0,
    }
}

#[test]
fn set_then_get_greeting() {
    let ctx = get_context("bob_near");
    let mut contract = Welcome::default();
    contract.set_greeting("howdy".to_owned(), &ctx);
    assert_eq!("howdy", contract.get_greeting("bob_near".to_string()));
}

#[test]
fn get_default_greeting() {
    let contract = Welcome::default();
    assert_eq!("Hello", contract.get_greeting("francis.near".to_string()));
}

#[test]
fn greetings_are_per_account() {
    let mut contract = Welcome::default();
    contract.set_greeting("howdy".to_owned(), &get_context("bob_near"));
    contract.set_greeting("hi".to_owned(), &get_context("dave_near"));
    contract.set_greeting("yo".to_owned(), &get_context("bob_near"));
    assert_eq!("yo", contract.get_greeting("bob_near".to_string()));
    assert_eq!("hi", contract.get_greeting("dave_near".to_string()));
    assert_eq!("Hello", contract.get_greeting("carol_near".to_string()));
}

#[test]
fn signup_forwards_keys() {
    let mut contract = Signup::default();
    let ctx = get_context("bob_near");
    assert_eq!(
        contract.send("ed25519:abc".to_string(), &ctx),
        ScheduledPromise {
            action: PromiseAction::Call(FunctionCall {
                receiver_id: "alice_near".to_string(),
                method: ContractMethod::OnSend { public_key: "ed25519:abc".to_string() },
                deposit: NO_DEPOSIT,
                gas: GAS,
            }),
            callback: None,
        }
    );
    assert_eq!(
        contract.on_send("ed25519:abc".to_string()),
        ScheduledPromise {
            action: PromiseAction::Call(FunctionCall {
                receiver_id: "testnet".to_string(),
                method: ContractMethod::Send { public_key: "ed25519:abc".to_string() },
                deposit: SEND_DEPOSIT,
                gas: GAS,
            }),
            callback: None,
        }
    );
    assert_eq!(
        contract.get_key_balance("ed25519:abc".to_string()),
        ScheduledPromise {
            action: PromiseAction::Call(FunctionCall {
                receiver_id: "testnet".to_string(),
                method: ContractMethod::GetKeyBalance { public_key: "ed25519:abc".to_string() },
                deposit: NO_DEPOSIT,
                gas: GAS,
            }),
            callback: None,
        }
    );
}

#[test]
fn royalty_to_payout_wide_percentages() {
    assert_eq!(royalty_to_payout(2985, 1_000_000), 298_500);
    assert_eq!(royalty_to_payout(100_000, 10_000), 100_000);
    assert_eq!(royalty_to_payout(1, 9_999), 0);
}
