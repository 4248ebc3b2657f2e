//! The linkdrop contract: a sender attaches NEAR to a public key; whoever
//! holds the key claims it into an existing account or a new one.
use vstd::prelude::*;
use vstd::string::StringExecFns;
use crate::account::{is_valid_account_id, valid_account_id};
use crate::context::{
    ActionView, CallContext, CallView, ContractMethod, FunctionCall, MethodView, PromiseAction,
    PromiseOutcome, PromiseView, ScheduledPromise, called_by_contract, predecessor_is_current,
    promise_views,
};
use crate::strmap::{StrMap, has_key, lemma_upsert, lemma_without, lookup, position, to_map, unique_keys, upsert, without};

verus! {

/// What stays with the contract out of each drop to pay for the access key
/// (0.03 NEAR).
pub const ACCESS_KEY_ALLOWANCE: u128 = 30_000_000_000_000_000_000_000;

/// No deposit is attached to the callbacks.
pub const NO_DEPOSIT: u128 = 0;

/// Gas given to the callbacks of account creation.
pub const ON_CREATE_ACCOUNT_CALLBACK_GAS: u64 = 30_000_000_000_000;

/// The methods that a dropped key may call.
pub open spec fn claim_methods() -> Seq<char> {
    "claim,create_account_and_claim"@
}

/// The errors of the linkdrop contract.
#[derive(Debug, Clone, Copy, PartialEq, Eq, Structural)]
pub enum LinkDropError {
    /// The deposit does not exceed [`ACCESS_KEY_ALLOWANCE`].
    DepositTooSmall,
    /// The method may only be called by the contract's own account.
    NotCalledByContract,
    /// The account id to fund is not valid.
    InvalidAccountId,
    /// No drop is attached to the key that signed the transaction.
    UnexpectedPublicKey,
    /// No drop is attached to the key asked about.
    KeyMissing,
    /// A callback did not receive exactly one promise result.
    ExpectedOnePromiseResult,
}

/// What a callback answers, and the promise it schedules, if any.
#[derive(Debug, PartialEq, Eq)]
pub struct CallbackOutcome {
    pub succeeded: bool,
    pub promise: Option<ScheduledPromise>,
}

/// Whether the single promise a callback waits for succeeded.
pub fn is_promise_success(promise_results: &Vec<PromiseOutcome>) -> (r: Result<bool, LinkDropError>)
    ensures
        promise_results.len() != 1 ==> r == Err::<bool, LinkDropError>(
            LinkDropError::ExpectedOnePromiseResult,
        ),
        promise_results.len() == 1 ==> r == Ok::<bool, LinkDropError>(
            promise_results@[0] is Successful,
        ),
{
    if promise_results.len() != 1 {
        return Err(LinkDropError::ExpectedOnePromiseResult);
    }
    match &promise_results[0] {
        PromiseOutcome::Successful(_) => Ok(true),
        _ => Ok(false),
    }
}

/// The balances of the dropped keys.
#[derive(Debug)]
pub struct LinkDrop {
    /// Each dropped public key (in its textual form) and what it may claim.
    pub accounts: StrMap<u128>,
}

impl Default for LinkDrop {
    fn default() -> (d: Self)
        ensures
            d.wf(),
            d.accounts.entries() == Seq::<(Seq<char>, u128)>::empty(),
    {
        LinkDrop { accounts: StrMap::new() }
    }
}

impl LinkDrop {
    /// The keys are pairwise distinct.
    pub open spec fn wf(&self) -> bool {
        self.accounts.wf()
    }

    /// What `key` may claim, 0 when nothing was dropped on it.
    pub open spec fn balance_of(&self, key: Seq<char>) -> u128 {
        match lookup(self.accounts.entries(), key) {
            Some(amount) => amount,
            None => 0,
        }
    }

    /// Drops the attached deposit, less [`ACCESS_KEY_ALLOWANCE`], on
    /// `public_key`, and adds the key to the contract's account so that it
    /// may claim.
    pub fn send(&mut self, public_key: String, ctx: &CallContext) -> (r: Result<
        ScheduledPromise,
        LinkDropError,
    >)
        requires
            old(self).wf(),
            ctx.attached_deposit > ACCESS_KEY_ALLOWANCE ==> old(self).balance_of(public_key@)
                + ctx.attached_deposit <= u128::MAX,
        ensures
            final(self).wf(),
            ctx.attached_deposit <= ACCESS_KEY_ALLOWANCE ==> r == Err::<
                ScheduledPromise,
                LinkDropError,
            >(LinkDropError::DepositTooSmall) && *final(self) == *old(self),
            ctx.attached_deposit > ACCESS_KEY_ALLOWANCE ==> {
                &&& has_key(final(self).accounts.entries(), public_key@)
                &&& final(self).accounts.entries() == upsert(
                    old(self).accounts.entries(),
                    public_key@,
                    (old(self).balance_of(public_key@) + ctx.attached_deposit
                        - ACCESS_KEY_ALLOWANCE) as u128,
                )
                &&& final(self).balance_of(public_key@) == old(self).balance_of(public_key@)
                    + ctx.attached_deposit - ACCESS_KEY_ALLOWANCE
                &&& r matches Ok(p) && p@ == (PromiseView {
                    action: ActionView::AddAccessKey {
                        account_id: ctx.current_account_id@,
                        public_key: public_key@,
                        allowance: ACCESS_KEY_ALLOWANCE,
                        receiver_id: ctx.current_account_id@,
                        method_names: claim_methods(),
                    },
                    callback: None,
                })
            },
            forall|key: Seq<char>|
                key != public_key@ ==> #[trigger] final(self).balance_of(key) == old(self).balance_of(key),
    {
        if ctx.attached_deposit <= ACCESS_KEY_ALLOWANCE {
            return Err(LinkDropError::DepositTooSmall);
        }
        let value: u128 = match self.accounts.get(&public_key) {
            Some(v) => *v,
            None => 0,
        };
        let balance = value + ctx.attached_deposit - ACCESS_KEY_ALLOWANCE;
        proof {
            lemma_upsert(self.accounts.entries(), public_key@, balance);
        }
        let promise = ScheduledPromise {
            action: PromiseAction::AddAccessKey {
                account_id: ctx.current_account_id.clone(),
                public_key: public_key.clone(),
                allowance: ACCESS_KEY_ALLOWANCE,
                receiver_id: ctx.current_account_id.clone(),
                method_names: String::from_str("claim,create_account_and_claim"),
            },
            callback: None,
        };
        self.accounts.insert(public_key, balance);
        Ok(promise)
    }

    /// Takes the drop of the key that signed the transaction and sends it to
    /// `account_id`, deleting the key from the contract's account.
    pub fn claim(&mut self, account_id: String, ctx: &CallContext) -> (r: Result<
        Vec<ScheduledPromise>,
        LinkDropError,
    >)
        requires
            old(self).wf(),
        ensures
            claim_outcome(
                *old(self),
                *final(self),
                r,
                account_id@,
                *ctx,
            ),
    {
        if !predecessor_is_current(ctx) {
            return Err(LinkDropError::NotCalledByContract);
        }
        if !is_valid_account_id(&account_id) {
            return Err(LinkDropError::InvalidAccountId);
        }
        proof {
            lemma_without(self.accounts.entries(), ctx.signer_account_pk@);
        }
        let amount = match self.accounts.remove(&ctx.signer_account_pk) {
            Some(amount) => amount,
            None => return Err(LinkDropError::UnexpectedPublicKey),
        };
        let mut promises: Vec<ScheduledPromise> = Vec::new();
        promises.push(
            ScheduledPromise {
                action: PromiseAction::DeleteKey {
                    account_id: ctx.current_account_id.clone(),
                    public_key: ctx.signer_account_pk.clone(),
                },
                callback: None,
            },
        );
        promises.push(
            ScheduledPromise {
                action: PromiseAction::Transfer { receiver_id: account_id, amount },
                callback: None,
            },
        );
        assert(promise_views(promises@) =~= seq![promises@[0]@, promises@[1]@]);
        Ok(promises)
    }

    /// Creates `new_account_id` with `new_public_key` as full access key and
    /// the attached deposit as balance; its callback sends the deposit back
    /// to the caller when the creation fails.
    pub fn create_account(&mut self, new_account_id: String, new_public_key: String, ctx: &CallContext) -> (r:
        Result<ScheduledPromise, LinkDropError>)
        ensures
            *final(self) == *old(self),
            create_account_outcome(
                r,
                new_account_id@,
                new_public_key@,
                *ctx,
            ),
    {
        if !is_valid_account_id(&new_account_id) {
            return Err(LinkDropError::InvalidAccountId);
        }
        let amount = ctx.attached_deposit;
        Ok(
            ScheduledPromise {
                action: PromiseAction::CreateAccount {
                    new_account_id,
                    full_access_key: new_public_key,
                    amount,
                },
                callback: Some(
                    FunctionCall {
                        receiver_id: ctx.current_account_id.clone(),
                        method: ContractMethod::OnAccountCreated {
                            predecessor_account_id: ctx.predecessor_account_id.clone(),
                            amount,
                        },
                        deposit: NO_DEPOSIT,
                        gas: ON_CREATE_ACCOUNT_CALLBACK_GAS,
                    },
                ),
            },
        )
    }

    /// Takes the drop of the key that signed the transaction (nothing when no
    /// drop was made on it) and creates `new_account_id` with it,
    /// `new_public_key` as full access key; its callback puts the drop back
    /// when the creation fails.
    pub fn create_account_and_claim(
        &mut self,
        new_account_id: String,
        new_public_key: String,
        ctx: &CallContext,
    ) -> (r: Result<ScheduledPromise, LinkDropError>)
        requires
            old(self).wf(),
        ensures
            create_and_claim_outcome(
                *old(self),
                *final(self),
                r,
                new_account_id@,
                new_public_key@,
                *ctx,
            ),
    {
        if !predecessor_is_current(ctx) {
            return Err(LinkDropError::NotCalledByContract);
        }
        if !is_valid_account_id(&new_account_id) {
            return Err(LinkDropError::InvalidAccountId);
        }
        proof {
            lemma_without(self.accounts.entries(), ctx.signer_account_pk@);
        }
        let amount = match self.accounts.remove(&ctx.signer_account_pk) {
            Some(amount) => amount,
            None => 0,
        };
        Ok(
            ScheduledPromise {
                action: PromiseAction::CreateAccount {
                    new_account_id,
                    full_access_key: new_public_key,
                    amount,
                },
                callback: Some(
                    FunctionCall {
                        receiver_id: ctx.current_account_id.clone(),
                        method: ContractMethod::OnAccountCreatedAndClaimed { amount },
                        deposit: NO_DEPOSIT,
                        gas: ON_CREATE_ACCOUNT_CALLBACK_GAS,
                    },
                ),
            },
        )
    }

    /// Callback of [`LinkDrop::create_account`]: answers whether the account
    /// was created, and sends `amount` back to `predecessor_account_id` when
    /// it was not.
    pub fn on_account_created(
        &mut self,
        predecessor_account_id: String,
        amount: u128,
        promise_results: &Vec<PromiseOutcome>,
        ctx: &CallContext,
    ) -> (r: Result<CallbackOutcome, LinkDropError>)
        ensures
            *final(self) == *old(self),
            !called_by_contract(*ctx) ==> r == Err::<CallbackOutcome, LinkDropError>(
                LinkDropError::NotCalledByContract,
            ),
            called_by_contract(*ctx) && promise_results.len() != 1 ==> r == Err::<
                CallbackOutcome,
                LinkDropError,
            >(LinkDropError::ExpectedOnePromiseResult),
            called_by_contract(*ctx) && promise_results.len() == 1 ==> (r matches Ok(outcome) && {
                let succeeded = promise_results@[0] is Successful;
                &&& outcome.succeeded == succeeded
                &&& succeeded ==> outcome.promise is None
                &&& !succeeded ==> (outcome.promise matches Some(p) && p@ == (PromiseView {
                    action: ActionView::Transfer { receiver_id: predecessor_account_id@, amount },
                    callback: None,
                }))
            }),
    {
        if !predecessor_is_current(ctx) {
            return Err(LinkDropError::NotCalledByContract);
        }
        let creation_succeeded = is_promise_success(promise_results)?;
        if !creation_succeeded {
            let refund = ScheduledPromise {
                action: PromiseAction::Transfer { receiver_id: predecessor_account_id, amount },
                callback: None,
            };
            return Ok(CallbackOutcome { succeeded: false, promise: Some(refund) });
        }
        Ok(CallbackOutcome { succeeded: true, promise: None })
    }

    /// Callback of [`LinkDrop::create_account_and_claim`]: answers whether
    /// the account was created; deletes the signing key from the contract's
    /// account when it was, and puts `amount` back on the key when it was not.
    pub fn on_account_created_and_claimed(
        &mut self,
        amount: u128,
        promise_results: &Vec<PromiseOutcome>,
        ctx: &CallContext,
    ) -> (r: Result<CallbackOutcome, LinkDropError>)
        requires
            old(self).wf(),
        ensures
            final(self).wf(),
            !called_by_contract(*ctx) ==> r == Err::<CallbackOutcome, LinkDropError>(
                LinkDropError::NotCalledByContract,
            ),
            called_by_contract(*ctx) && promise_results.len() != 1 ==> r == Err::<
                CallbackOutcome,
                LinkDropError,
            >(LinkDropError::ExpectedOnePromiseResult),
            r is Err ==> *final(self) == *old(self),
            called_by_contract(*ctx) && promise_results.len() == 1 ==> (r matches Ok(outcome) && {
                let succeeded = promise_results@[0] is Successful;
                &&& outcome.succeeded == succeeded
                &&& succeeded ==> *final(self) == *old(self)
                &&& succeeded ==> (outcome.promise matches Some(p) && p@ == (PromiseView {
                    action: ActionView::DeleteKey {
                        account_id: ctx.current_account_id@,
                        public_key: ctx.signer_account_pk@,
                    },
                    callback: None,
                }))
                &&& !succeeded ==> outcome.promise is None && final(self).accounts.entries() == upsert(
                    old(self).accounts.entries(),
                    ctx.signer_account_pk@,
                    amount,
                )
            }),
    {
        if !predecessor_is_current(ctx) {
            return Err(LinkDropError::NotCalledByContract);
        }
        let creation_succeeded = is_promise_success(promise_results)?;
        if creation_succeeded {
            let delete = ScheduledPromise {
                action: PromiseAction::DeleteKey {
                    account_id: ctx.current_account_id.clone(),
                    public_key: ctx.signer_account_pk.clone(),
                },
                callback: None,
            };
            Ok(CallbackOutcome { succeeded: true, promise: Some(delete) })
        } else {
            proof {
                lemma_upsert(self.accounts.entries(), ctx.signer_account_pk@, amount);
            }
            self.accounts.insert(ctx.signer_account_pk.clone(), amount);
            Ok(CallbackOutcome { succeeded: false, promise: None })
        }
    }

    /// The balance dropped on `key`.
    pub fn get_key_balance(&self, key: String) -> (r: Result<u128, LinkDropError>)
        requires
            self.wf(),
        ensures
            has_key(self.accounts.entries(), key@) ==> r == Ok::<u128, LinkDropError>(
                self.balance_of(key@),
            ),
            !has_key(self.accounts.entries(), key@) ==> r == Err::<u128, LinkDropError>(
                LinkDropError::KeyMissing,
            ),
    {
        match self.accounts.get(&key) {
            Some(balance) => Ok(*balance),
            None => Err(LinkDropError::KeyMissing),
        }
    }
}

/// The outcome of a claim of the signing key's drop into `account_id`: it
/// fails, in this order, unless the contract calls it, when the account id
/// is not valid, and when nothing
/// was dropped on the signing key, leaving the state as it was; otherwise
/// the key's entry is removed and the promises delete the key and send its
/// whole balance to `account_id`.
pub open spec fn claim_outcome(
    before: LinkDrop,
    after: LinkDrop,
    r: Result<Vec<ScheduledPromise>, LinkDropError>,
    account_id: Seq<char>,
    ctx: CallContext,
) -> bool {
    &&& after.wf()
    &&& !called_by_contract(ctx) ==> r == Err::<Vec<ScheduledPromise>, LinkDropError>(
        LinkDropError::NotCalledByContract,
    )
    &&& called_by_contract(ctx) && !valid_account_id(account_id) ==> r == Err::<Vec<ScheduledPromise>, LinkDropError>(
        LinkDropError::InvalidAccountId,
    )
    &&& called_by_contract(ctx) && valid_account_id(account_id) && !has_key(
        before.accounts.entries(),
        ctx.signer_account_pk@,
    ) ==> r == Err::<Vec<ScheduledPromise>, LinkDropError>(LinkDropError::UnexpectedPublicKey)
    &&& called_by_contract(ctx) && valid_account_id(account_id) && has_key(
        before.accounts.entries(),
        ctx.signer_account_pk@,
    ) ==> r is Ok
    &&& r is Err ==> after == before
    &&& r matches Ok(promises) ==> {
        &&& called_by_contract(ctx)
        &&& valid_account_id(account_id)
        &&& has_key(before.accounts.entries(), ctx.signer_account_pk@)
        &&& after.accounts.entries() == without(before.accounts.entries(), ctx.signer_account_pk@)
        &&& promise_views(promises@) == seq![
            PromiseView {
                action: ActionView::DeleteKey {
                    account_id: ctx.current_account_id@,
                    public_key: ctx.signer_account_pk@,
                },
                callback: None,
            },
            PromiseView {
                action: ActionView::Transfer {
                    receiver_id: account_id,
                    amount: before.balance_of(ctx.signer_account_pk@),
                },
                callback: None,
            },
        ]
    }
}

/// The outcome of creating `new_account_id` from the attached deposit: it
/// fails when the account id is not valid; otherwise the promise creates and funds the account, and its
/// callback answers the caller.
pub open spec fn create_account_outcome(
    r: Result<ScheduledPromise, LinkDropError>,
    new_account_id: Seq<char>,
    new_public_key: Seq<char>,
    ctx: CallContext,
) -> bool {
    &&& !valid_account_id(new_account_id) ==> r == Err::<ScheduledPromise, LinkDropError>(LinkDropError::InvalidAccountId)
    &&& valid_account_id(new_account_id) ==> (r matches Ok(p) && p@ == (PromiseView {
        action: ActionView::CreateAccount {
            new_account_id,
            full_access_key: new_public_key,
            amount: ctx.attached_deposit,
        },
        callback: Some(
            CallView {
                receiver_id: ctx.current_account_id@,
                method: MethodView::OnAccountCreated {
                    predecessor_account_id: ctx.predecessor_account_id@,
                    amount: ctx.attached_deposit,
                },
                deposit: NO_DEPOSIT,
                gas: ON_CREATE_ACCOUNT_CALLBACK_GAS,
            },
        ),
    }))
}

/// The outcome of creating `new_account_id` from the signing key's drop: it
/// fails, changing nothing, unless the contract calls it and when the
/// account id is not valid; otherwise the key's entry is removed, and the
/// promise creates the account with the key's whole balance (nothing when no
/// drop was made on the key), its callback knowing the amount.
pub open spec fn create_and_claim_outcome(
    before: LinkDrop,
    after: LinkDrop,
    r: Result<ScheduledPromise, LinkDropError>,
    new_account_id: Seq<char>,
    new_public_key: Seq<char>,
    ctx: CallContext,
) -> bool {
    &&& after.wf()
    &&& !called_by_contract(ctx) ==> r == Err::<ScheduledPromise, LinkDropError>(
        LinkDropError::NotCalledByContract,
    )
    &&& called_by_contract(ctx) && !valid_account_id(new_account_id) ==> r == Err::<ScheduledPromise, LinkDropError>(
        LinkDropError::InvalidAccountId,
    )
    &&& called_by_contract(ctx) && valid_account_id(new_account_id) ==> r is Ok
    &&& r is Err ==> after == before
    &&& r matches Ok(p) ==> {
        &&& called_by_contract(ctx)
        &&& valid_account_id(new_account_id)
        &&& after.accounts.entries() == without(before.accounts.entries(), ctx.signer_account_pk@)
        &&& p@ == (PromiseView {
            action: ActionView::CreateAccount {
                new_account_id,
                full_access_key: new_public_key,
                amount: before.balance_of(ctx.signer_account_pk@),
            },
            callback: Some(
                CallView {
                    receiver_id: ctx.current_account_id@,
                    method: MethodView::OnAccountCreatedAndClaimed {
                        amount: before.balance_of(ctx.signer_account_pk@),
                    },
                    deposit: NO_DEPOSIT,
                    gas: ON_CREATE_ACCOUNT_CALLBACK_GAS,
                },
            ),
        })
    }
}

/// A drop is claimed once: once `key` was sent to, making its balance
/// `balance`, a claim with it pays exactly that balance; after the claim
/// nothing is dropped on the key any more (so a second claim is refused),
/// and every other key keeps the balance it had.
pub proof fn lemma_send_then_claim(before: LinkDrop, sent: LinkDrop, claimed: LinkDrop, key: Seq<char>, balance: u128)
    requires
        before.wf(),
        sent.accounts.entries() == upsert(before.accounts.entries(), key, balance),
        claimed.accounts.entries() == without(sent.accounts.entries(), key),
    ensures
        has_key(sent.accounts.entries(), key),
        sent.balance_of(key) == balance,
        !has_key(claimed.accounts.entries(), key),
        forall|other: Seq<char>| other != key ==> #[trigger] claimed.balance_of(other) == before.balance_of(other),
{
    lemma_upsert(before.accounts.entries(), key, balance);
    lemma_without(sent.accounts.entries(), key);
    assert forall|other: Seq<char>| other != key implies #[trigger] claimed.balance_of(other) == before.balance_of(other) by {
        assert(lookup(claimed.accounts.entries(), other) == lookup(sent.accounts.entries(), other));
        assert(lookup(sent.accounts.entries(), other) == lookup(before.accounts.entries(), other));
    }
}

/// A claim whose account creation fails gives every key back the balance it
/// had: taking a key's drop and putting the same amount back leaves the
/// balances as they were.
pub proof fn lemma_failed_claim_restores(entries: Seq<(Seq<char>, u128)>, key: Seq<char>)
    requires
        unique_keys(entries),
        has_key(entries, key),
    ensures
        to_map(upsert(without(entries, key), key, entries[position(entries, key)].1)) == to_map(entries),
{
    let amount = entries[position(entries, key)].1;
    lemma_without(entries, key);
    lemma_upsert(without(entries, key), key, amount);
    assert(to_map(entries).remove(key).insert(key, amount) =~= to_map(entries));
}

} // verus!
