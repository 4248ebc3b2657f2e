//! What the NEAR runtime hands a contract call, and the promises that a call
//! asks the runtime to schedule, as plain values.
use vstd::prelude::*;

verus! {

/// The runtime's view of the call being executed.
pub struct CallContext {
    /// The account that runs the contract.
    pub current_account_id: String,
    /// The account that signed the transaction.
    pub signer_account_id: String,
    /// The public key that signed the transaction, in its textual form.
    pub signer_account_pk: String,
    /// The account that made this call.
    pub predecessor_account_id: String,
    /// The deposit attached to this call, in yoctoNEAR.
    pub attached_deposit: u128,
}

/// A contract method that a promise calls, with its arguments.
#[derive(Debug, PartialEq, Eq)]
pub enum ContractMethod {
    /// `on_transfer_attached_tokens` of the tipping contract.
    OnTransferAttachedTokens { sender_id: String, amount_sent: u128, recipient: String },
    /// `on_refund` of the tipping contract.
    OnRefund,
    /// `on_account_created` of the linkdrop contract.
    OnAccountCreated { predecessor_account_id: String, amount: u128 },
    /// `on_account_created_and_claimed` of the linkdrop contract.
    OnAccountCreatedAndClaimed { amount: u128 },
    /// `on_send` of the sign-up contract.
    OnSend { public_key: String },
    /// `send` of a linkdrop contract.
    Send { public_key: String },
    /// `get_key_balance` of a linkdrop contract.
    GetKeyBalance { public_key: String },
}

/// A call of a contract method on another (or the same) account.
#[derive(Debug, PartialEq, Eq)]
pub struct FunctionCall {
    pub receiver_id: String,
    pub method: ContractMethod,
    pub deposit: u128,
    pub gas: u64,
}

/// The first action of a scheduled promise.
#[derive(Debug, PartialEq, Eq)]
pub enum PromiseAction {
    /// Send `amount` yoctoNEAR to `receiver_id`.
    Transfer { receiver_id: String, amount: u128 },
    /// Add to `account_id` a function-call access key for `public_key`.
    AddAccessKey {
        account_id: String,
        public_key: String,
        allowance: u128,
        receiver_id: String,
        method_names: String,
    },
    /// Delete `public_key` from `account_id`.
    DeleteKey { account_id: String, public_key: String },
    /// Create `new_account_id`, give it `full_access_key`, and fund it with `amount`.
    CreateAccount { new_account_id: String, full_access_key: String, amount: u128 },
    /// Call a contract method.
    Call(FunctionCall),
}

/// A promise: an action, and the callback that runs once it is done.
#[derive(Debug, PartialEq, Eq)]
pub struct ScheduledPromise {
    pub action: PromiseAction,
    pub callback: Option<FunctionCall>,
}

/// [`ContractMethod`] with its strings taken by their characters.
pub enum MethodView {
    OnTransferAttachedTokens { sender_id: Seq<char>, amount_sent: u128, recipient: Seq<char> },
    OnRefund,
    OnAccountCreated { predecessor_account_id: Seq<char>, amount: u128 },
    OnAccountCreatedAndClaimed { amount: u128 },
    OnSend { public_key: Seq<char> },
    Send { public_key: Seq<char> },
    GetKeyBalance { public_key: Seq<char> },
}

/// [`FunctionCall`] with its strings taken by their characters.
pub struct CallView {
    pub receiver_id: Seq<char>,
    pub method: MethodView,
    pub deposit: u128,
    pub gas: u64,
}

/// [`PromiseAction`] with its strings taken by their characters.
pub enum ActionView {
    Transfer { receiver_id: Seq<char>, amount: u128 },
    AddAccessKey {
        account_id: Seq<char>,
        public_key: Seq<char>,
        allowance: u128,
        receiver_id: Seq<char>,
        method_names: Seq<char>,
    },
    DeleteKey { account_id: Seq<char>, public_key: Seq<char> },
    CreateAccount { new_account_id: Seq<char>, full_access_key: Seq<char>, amount: u128 },
    Call(CallView),
}

/// [`ScheduledPromise`] with its strings taken by their characters.
pub struct PromiseView {
    pub action: ActionView,
    pub callback: Option<CallView>,
}

impl View for ContractMethod {
    type V = MethodView;

    open spec fn view(&self) -> MethodView {
        match self {
            ContractMethod::OnTransferAttachedTokens { sender_id, amount_sent, recipient } =>
                MethodView::OnTransferAttachedTokens {
                sender_id: sender_id@,
                amount_sent: *amount_sent,
                recipient: recipient@,
            },
            ContractMethod::OnRefund => MethodView::OnRefund,
            ContractMethod::OnAccountCreated { predecessor_account_id, amount } =>
                MethodView::OnAccountCreated {
                predecessor_account_id: predecessor_account_id@,
                amount: *amount,
            },
            ContractMethod::OnAccountCreatedAndClaimed { amount } =>
                MethodView::OnAccountCreatedAndClaimed { amount: *amount },
            ContractMethod::OnSend { public_key } => MethodView::OnSend { public_key: public_key@ },
            ContractMethod::Send { public_key } => MethodView::Send { public_key: public_key@ },
            ContractMethod::GetKeyBalance { public_key } => MethodView::GetKeyBalance {
                public_key: public_key@,
            },
        }
    }
}

impl View for FunctionCall {
    type V = CallView;

    open spec fn view(&self) -> CallView {
        CallView {
            receiver_id: self.receiver_id@,
            method: self.method@,
            deposit: self.deposit,
            gas: self.gas,
        }
    }
}

impl View for PromiseAction {
    type V = ActionView;

    open spec fn view(&self) -> ActionView {
        match self {
            PromiseAction::Transfer { receiver_id, amount } => ActionView::Transfer {
                receiver_id: receiver_id@,
                amount: *amount,
            },
            PromiseAction::AddAccessKey {
                account_id,
                public_key,
                allowance,
                receiver_id,
                method_names,
            } => ActionView::AddAccessKey {
                account_id: account_id@,
                public_key: public_key@,
                allowance: *allowance,
                receiver_id: receiver_id@,
                method_names: method_names@,
            },
            PromiseAction::DeleteKey { account_id, public_key } => ActionView::DeleteKey {
                account_id: account_id@,
                public_key: public_key@,
            },
            PromiseAction::CreateAccount { new_account_id, full_access_key, amount } =>
                ActionView::CreateAccount {
                new_account_id: new_account_id@,
                full_access_key: full_access_key@,
                amount: *amount,
            },
            PromiseAction::Call(call) => ActionView::Call(call@),
        }
    }
}

impl View for ScheduledPromise {
    type V = PromiseView;

    open spec fn view(&self) -> PromiseView {
        PromiseView {
            action: self.action@,
            callback: match self.callback {
                Some(call) => Some(call@),
                None => None,
            },
        }
    }
}

/// The views of a list of promises, in order.
pub open spec fn promise_views(promises: Seq<ScheduledPromise>) -> Seq<PromiseView> {
    promises.map_values(|p: ScheduledPromise| p@)
}

/// Whether a callback may run: only the contract's own account may call it.
pub open spec fn called_by_contract(ctx: CallContext) -> bool {
    ctx.predecessor_account_id@ == ctx.current_account_id@
}

/// Checks that the call comes from the contract's own account.
pub fn predecessor_is_current(ctx: &CallContext) -> (r: bool)
    ensures
        r == called_by_contract(*ctx),
{
    ctx.predecessor_account_id == ctx.current_account_id
}

/// The result of a promise, as a callback receives it.
#[derive(Debug, PartialEq, Eq)]
pub enum PromiseOutcome {
    /// The promise has not finished.
    NotReady,
    /// The promise succeeded with this return value.
    Successful(Vec<u8>),
    /// The promise failed.
    Failed,
}

} // verus!
