//! The greeting and sign-up contracts: each account may store a greeting,
//! and the sign-up contract forwards public keys to a linkdrop contract.
use vstd::prelude::*;
use vstd::string::StringExecFns;
use crate::context::{ActionView, CallContext, CallView, ContractMethod, FunctionCall, MethodView, PromiseAction, PromiseView, ScheduledPromise};
use crate::strmap::{StrMap, lemma_upsert, lookup, unique_keys, upsert};

verus! {

/// No deposit is attached to these calls.
pub const NO_DEPOSIT: u128 = 0;

/// Gas given to the cross-contract calls.
pub const GAS: u64 = 20_000_000_000_000;

/// What the sign-up contract attaches when it asks the linkdrop contract to
/// drop on a key: 1.1 NEAR.
pub const SEND_DEPOSIT: u128 = 1_100_000_000_000_000_000_000_000;

/// The greeting of an account that has not set one.
pub open spec fn default_greeting() -> Seq<char> {
    "Hello"@
}

/// The account of the linkdrop contract that the sign-up contract calls.
pub open spec fn linkdrop_account() -> Seq<char> {
    "testnet"@
}

/// The greetings of the accounts.
pub struct Welcome {
    records: StrMap<String>,
}

impl Default for Welcome {
    fn default() -> (w: Self)
        ensures
            w.wf(),
            w.greetings() == Seq::<(Seq<char>, String)>::empty(),
    {
        Welcome { records: StrMap::new() }
    }
}

impl Welcome {
    /// Each account with a greeting, and the greeting, in the order in which
    /// the accounts first set one.
    pub closed spec fn greetings(&self) -> Seq<(Seq<char>, String)> {
        self.records.entries()
    }

    /// No account has two greetings.
    pub open spec fn wf(&self) -> bool {
        unique_keys(self.greetings())
    }

    /// The greeting of `account`.
    pub open spec fn greeting_of(&self, account: Seq<char>) -> Seq<char> {
        match lookup(self.greetings(), account) {
            Some(greeting) => greeting@,
            None => default_greeting(),
        }
    }

    /// Stores `message` as the greeting of the signer.
    pub fn set_greeting(&mut self, message: String, ctx: &CallContext)
        requires
            old(self).wf(),
        ensures
            final(self).wf(),
            final(self).greetings() == upsert(old(self).greetings(), ctx.signer_account_id@, message),
            final(self).greeting_of(ctx.signer_account_id@) == message@,
            forall|account: Seq<char>|
                account != ctx.signer_account_id@ ==> #[trigger] final(self).greeting_of(account)
                    == old(self).greeting_of(account),
    {
        let account_id = ctx.signer_account_id.clone();
        proof {
            lemma_upsert(self.records.entries(), account_id@, message);
        }
        self.records.insert(account_id, message);
    }

    /// The greeting of `account_id`: the one it set, or `"Hello"`.
    pub fn get_greeting(&self, account_id: String) -> (greeting: String)
        requires
            self.wf(),
        ensures
            greeting@ == self.greeting_of(account_id@),
    {
        match self.records.get(&account_id) {
            Some(greeting) => greeting.clone(),
            None => String::from_str("Hello"),
        }
    }
}

/// The sign-up contract; it holds no state.
pub struct Signup {}

impl Default for Signup {
    fn default() -> (s: Self) {
        Signup {  }
    }
}

/// A call of `method` on `receiver`, with no callback.
pub open spec fn call_promise(receiver: Seq<char>, method: MethodView, deposit: u128) -> PromiseView {
    PromiseView {
        action: ActionView::Call(CallView { receiver_id: receiver, method, deposit, gas: GAS }),
        callback: None,
    }
}

impl Signup {
    /// Asks the contract itself to forward `public_key` to the linkdrop
    /// contract.
    pub fn send(&mut self, public_key: String, ctx: &CallContext) -> (p: ScheduledPromise)
        ensures
            p@ == call_promise(
                ctx.current_account_id@,
                MethodView::OnSend { public_key: public_key@ },
                NO_DEPOSIT,
            ),
    {
        ScheduledPromise {
            action: PromiseAction::Call(
                FunctionCall {
                    receiver_id: ctx.current_account_id.clone(),
                    method: ContractMethod::OnSend { public_key },
                    deposit: NO_DEPOSIT,
                    gas: GAS,
                },
            ),
            callback: None,
        }
    }

    /// Asks the linkdrop contract to drop [`SEND_DEPOSIT`] on `public_key`.
    pub fn on_send(&mut self, public_key: String) -> (p: ScheduledPromise)
        ensures
            p@ == call_promise(
                linkdrop_account(),
                MethodView::Send { public_key: public_key@ },
                SEND_DEPOSIT,
            ),
    {
        ScheduledPromise {
            action: PromiseAction::Call(
                FunctionCall {
                    receiver_id: String::from_str("testnet"),
                    method: ContractMethod::Send { public_key },
                    deposit: SEND_DEPOSIT,
                    gas: GAS,
                },
            ),
            callback: None,
        }
    }

    /// Asks the linkdrop contract for the balance dropped on `public_key`.
    pub fn get_key_balance(&mut self, public_key: String) -> (p: ScheduledPromise)
        ensures
            p@ == call_promise(
                linkdrop_account(),
                MethodView::GetKeyBalance { public_key: public_key@ },
                NO_DEPOSIT,
            ),
    {
        ScheduledPromise {
            action: PromiseAction::Call(
                FunctionCall {
                    receiver_id: String::from_str("testnet"),
                    method: ContractMethod::GetKeyBalance { public_key },
                    deposit: NO_DEPOSIT,
                    gas: GAS,
                },
            ),
            callback: None,
        }
    }
}

/// Converts a royalty percentage (two decimal places) and an amount into
/// the part of the amount it stands for, rounded down.
pub fn royalty_to_payout(royalty_percentage: u32, amount_to_pay: u128) -> (payout: u128)
    requires
        royalty_percentage * amount_to_pay <= u128::MAX,
    ensures
        payout == royalty_percentage * amount_to_pay / 10_000,
{
    (royalty_percentage as u128) * amount_to_pay / 10_000u128
}

} // verus!
