//! The blog tipping contract: authors publish articles, readers tip them, and
//! each tip is split between the author, the article's royalty holders and
//! the contract.
use vstd::prelude::*;
use crate::account::{is_valid_account_id, valid_account_id};
use crate::context::{
    ActionView, CallContext, CallView, ContractMethod, FunctionCall, MethodView, PromiseAction,
    PromiseView, ScheduledPromise, called_by_contract, predecessor_is_current, promise_views,
};
use crate::decimal::{decimal, lemma_decimal_injective, lemma_decimal_spells, push_decimal, spells};
use crate::payout::{
    AUTHOR_SHARE, MIN_TIPPING_AMOUNT, Payout, TippingError, compute_payout, payout_entries,
    payout_matches,
};
use crate::strmap::{StrMap, has_key, lemma_upsert, lemma_without, lookup, position, upsert, without};

verus! {

/// The id of an article: its owner's account id followed by its number.
pub type ArticleId = String;

/// Gas given to the callbacks of a tip.
pub const CALLBACK: u64 = 25_000_000_000_000;

/// Keys of the contract's persistent collections.
#[derive(Debug, Clone, Copy, PartialEq, Eq, Structural)]
pub enum StorageKey {
    RoyaltyKey,
    PayoutKey,
    ArticleKey,
}

impl StorageKey {
    /// The storage prefix of the collection: the Borsh encoding of the key,
    /// which is the variant's index as one byte.
    pub fn try_to_vec(&self) -> (bytes: Vec<u8>)
        ensures
            bytes@ == seq![
                match self {
                    StorageKey::RoyaltyKey => 0u8,
                    StorageKey::PayoutKey => 1u8,
                    StorageKey::ArticleKey => 2u8,
                },
            ],
    {
        let tag: u8 = match self {
            StorageKey::RoyaltyKey => 0,
            StorageKey::PayoutKey => 1,
            StorageKey::ArticleKey => 2,
        };
        let mut bytes: Vec<u8> = Vec::new();
        bytes.push(tag);
        assert(bytes@ =~= seq![tag]);
        bytes
    }
}

/// An article.
#[derive(Debug)]
pub struct Article {
    /// The article's owner (not the contract's owner).
    pub owner_id: String,
    /// The owner's account id followed by the article's number, e.g.
    /// `wabinab1`, `wabinab29`.
    pub article_id: ArticleId,
    /// Royalties, in hundredths of a percent: 2985 is 29.85%.
    pub royalty: StrMap<u16>,
}

impl Article {
    /// The royalty holders are pairwise distinct.
    pub open spec fn wf(&self) -> bool {
        self.royalty.wf()
    }

    /// The article that the contract account `current_account_id` owns when
    /// none was chosen: no id and no royalties.
    pub fn default_for(current_account_id: String) -> (a: Article)
        ensures
            a.wf(),
            a.owner_id@ == current_account_id@,
            a.article_id@ == Seq::<char>::empty(),
            a.royalty.entries() == Seq::<(Seq<char>, u16)>::empty(),
    {
        Article { owner_id: current_account_id, article_id: String::new(), royalty: StrMap::new() }
    }
}

/// The id of article number `article_number` of `owner`.
pub open spec fn article_id_of(owner: Seq<char>, article_number: u64) -> Seq<char> {
    owner + decimal(article_number as nat)
}

/// Constructs a fresh article.
pub trait NewArticle: Sized {
    fn new_default(owner_id: String, article_number: u64) -> Self;
}

impl NewArticle for Article {
    /// An article of `owner_id` without royalties, numbered `article_number`.
    fn new_default(owner_id: String, article_number: u64) -> (a: Self)
        ensures
            a.wf(),
            a.owner_id@ == owner_id@,
            a.article_id@ == article_id_of(owner_id@, article_number),
            a.article_id@.len() > owner_id@.len(),
            a.article_id@.subrange(0, owner_id@.len() as int) == owner_id@,
            spells(
                a.article_id@.subrange(owner_id@.len() as int, a.article_id@.len() as int),
                article_number as nat,
            ),
            a.royalty.entries() == Seq::<(Seq<char>, u16)>::empty(),
    {
        proof {
            lemma_article_id_spells_number(owner_id@, article_number);
        }
        let mut article_id = owner_id.clone();
        push_decimal(&mut article_id, article_number);
        Article { royalty: StrMap::new(), article_id, owner_id }
    }
}

/// The id of article number `article_number` of `owner` is the owner's id
/// followed by the number written in decimal: the rest of the id is made of
/// digits, has no leading zero, and stands for the article's number.
pub proof fn lemma_article_id_spells_number(owner: Seq<char>, article_number: u64)
    ensures
        article_id_of(owner, article_number).len() > owner.len(),
        article_id_of(owner, article_number).subrange(0, owner.len() as int) == owner,
        spells(
            article_id_of(owner, article_number).subrange(
                owner.len() as int,
                article_id_of(owner, article_number).len() as int,
            ),
            article_number as nat,
        ),
{
    let id = article_id_of(owner, article_number);
    lemma_decimal_spells(article_number as nat);
    assert(id.subrange(0, owner.len() as int) =~= owner);
    assert(id.subrange(owner.len() as int, id.len() as int) =~= decimal(article_number as nat));
}

/// Articles of one owner with different numbers have different ids.
pub proof fn lemma_article_ids_distinct(owner: Seq<char>, first: u64, second: u64)
    requires
        first != second,
    ensures
        article_id_of(owner, first) != article_id_of(owner, second),
{
    if article_id_of(owner, first) == article_id_of(owner, second) {
        let n = owner.len() as int;
        assert(article_id_of(owner, first).subrange(n, article_id_of(owner, first).len() as int)
            =~= decimal(first as nat));
        assert(article_id_of(owner, second).subrange(n, article_id_of(owner, second).len() as int)
            =~= decimal(second as nat));
        lemma_decimal_injective(first as nat, second as nat);
    }
}

/// The tipping contract's state.
#[derive(Debug)]
pub struct Contract {
    /// The contract's owner.
    pub owner_id: String,
    /// The articles, each stored under its id.
    pub article_by_id: StrMap<Article>,
    /// What is owed back to each account whose tip could not be delivered.
    pub refund: StrMap<u128>,
}

/// The article stored under `id`, if any.
pub open spec fn article_in(articles: Seq<(Seq<char>, Article)>, id: Seq<char>) -> Option<Article> {
    lookup(articles, id)
}

/// The owner and all royalty holders of an article are valid account ids.
pub open spec fn accounts_valid(owner: Seq<char>, royalty: Seq<(Seq<char>, u16)>) -> bool {
    &&& forall|i: int| 0 <= i < royalty.len() ==> valid_account_id(#[trigger] royalty[i].0)
    &&& valid_account_id(owner)
}

/// The promise that pays `amount` to `account` out of a tip of `signer`,
/// with the callback that records a refund when the transfer fails.
pub open spec fn tip_transfer(account: Seq<char>, amount: u128, signer: Seq<char>, contract: Seq<char>) -> PromiseView {
    PromiseView {
        action: ActionView::Transfer { receiver_id: account, amount },
        callback: Some(
            CallView {
                receiver_id: contract,
                method: MethodView::OnTransferAttachedTokens {
                    sender_id: signer,
                    amount_sent: amount,
                    recipient: account,
                },
                deposit: 0,
                gas: CALLBACK,
            },
        ),
    }
}

/// The promise that pays `signer` back what it is owed, with the callback
/// that clears the debt once the transfer succeeded.
pub open spec fn refund_transfer(signer: Seq<char>, refund: u128, contract: Seq<char>) -> PromiseView {
    PromiseView {
        action: ActionView::Transfer { receiver_id: signer, amount: refund },
        callback: Some(
            CallView { receiver_id: contract, method: MethodView::OnRefund, deposit: 0, gas: CALLBACK },
        ),
    }
}

/// The transfers of a payout: for each entry in order, its transfer.
pub open spec fn payout_transfers(
    payout: Seq<(Seq<char>, u128)>,
    signer: Seq<char>,
    contract: Seq<char>,
) -> Seq<PromiseView>
    decreases payout.len(),
{
    if payout.len() == 0 {
        Seq::empty()
    } else {
        let (account, amount) = payout.last();
        payout_transfers(payout.drop_last(), signer, contract).push(
            tip_transfer(account, amount, signer, contract),
        )
    }
}

/// The promises of a tip: the transfers of the payout in order, then, when
/// the signer is owed a refund, one transfer that pays it back.
pub open spec fn tip_promises(
    payout: Seq<(Seq<char>, u128)>,
    signer: Seq<char>,
    contract: Seq<char>,
    refund: u128,
) -> Seq<PromiseView> {
    let transfers = payout_transfers(payout, signer, contract);
    if refund > 0 {
        transfers.push(refund_transfer(signer, refund, contract))
    } else {
        transfers
    }
}

impl Contract {
    /// Every map has distinct keys, and each article is stored under its id.
    pub open spec fn wf(&self) -> bool {
        &&& self.article_by_id.wf()
        &&& self.refund.wf()
        &&& forall|i: int|
            0 <= i < self.article_by_id.entries().len() ==> {
                let (id, article) = #[trigger] self.article_by_id.entries()[i];
                &&& article.wf()
                &&& article.article_id@ == id
            }
    }

    /// The article stored under `id`, if any.
    pub open spec fn article(&self, id: Seq<char>) -> Option<Article> {
        article_in(self.article_by_id.entries(), id)
    }

    /// What is owed back to `account`.
    pub open spec fn refund_of(&self, account: Seq<char>) -> u128 {
        match lookup(self.refund.entries(), account) {
            Some(amount) => amount,
            None => 0,
        }
    }

    /// A contract owned by `owner_id`, without articles or refunds.
    pub fn new(owner_id: String) -> (c: Self)
        ensures
            c.wf(),
            c.owner_id@ == owner_id@,
            c.article_by_id.entries() == Seq::<(Seq<char>, Article)>::empty(),
            c.refund.entries() == Seq::<(Seq<char>, u128)>::empty(),
    {
        Contract { owner_id, article_by_id: StrMap::new(), refund: StrMap::new() }
    }

    /// What is owed back to `sender_id` (0 when nothing is).
    pub fn get_refund(&self, sender_id: String) -> (r: u128)
        requires
            self.wf(),
        ensures
            r == self.refund_of(sender_id@),
    {
        match self.refund.get(&sender_id) {
            Some(deposit) => *deposit,
            None => 0,
        }
    }

    /// The article stored under `article_id`.
    pub fn get_article_by_id(&self, article_id: ArticleId) -> (r: Result<&Article, TippingError>)
        requires
            self.wf(),
        ensures
            match r {
                Ok(a) => self.article(article_id@) == Some(*a),
                Err(e) => e == TippingError::ArticleNotFound && self.article(article_id@) is None,
            },
    {
        match self.article_by_id.get(&article_id) {
            Some(article) => Ok(article),
            None => Err(TippingError::ArticleNotFound),
        }
    }

    /// Publishes article number `article_number` of the signer, without
    /// royalties; an article with the same id is replaced.
    pub fn add_new_article_default(&mut self, article_number: u64, ctx: &CallContext)
        requires
            old(self).wf(),
        ensures
            final(self).wf(),
            final(self).owner_id == old(self).owner_id,
            final(self).refund == old(self).refund,
            exists|a: Article|
                {
                    &&& a.owner_id@ == ctx.signer_account_id@
                    &&& a.article_id@ == article_id_of(ctx.signer_account_id@, article_number)
                    &&& a.royalty.entries() == Seq::<(Seq<char>, u16)>::empty()
                    &&& final(self).article_by_id.entries() == upsert(
                        old(self).article_by_id.entries(),
                        article_id_of(ctx.signer_account_id@, article_number),
                        a,
                    )
                    &&& final(self).article(article_id_of(ctx.signer_account_id@, article_number))
                        == Some(a)
                },
            forall|id: Seq<char>|
                id != article_id_of(ctx.signer_account_id@, article_number)
                    ==> #[trigger] final(self).article(id) == old(self).article(id),
    {
        let owner_id = ctx.signer_account_id.clone();
        let article = Article::new_default(owner_id, article_number);
        let key = article.article_id.clone();
        let ghost a = article;
        let ghost before = self.article_by_id.entries();
        proof {
            lemma_upsert(before, key@, a);
        }
        self.article_by_id.insert(key, article);
        assert forall|i: int| 0 <= i < self.article_by_id.entries().len() implies {
            let (id, article) = #[trigger] self.article_by_id.entries()[i];
            &&& article.wf()
            &&& article.article_id@ == id
        } by {
            let s = self.article_by_id.entries();
            if has_key(before, a.article_id@) {
                let p = position(before, a.article_id@);
                if i != p {
                    assert(s[i] == before[i]);
                }
            } else if i < before.len() {
                assert(s[i] == before[i]);
            }
        }
    }
}

/// Fails when the signer owns the article: nobody tips their own article.
pub fn assert_signer_not_owner(article_owner: &String, ctx: &CallContext) -> (r: Result<(), TippingError>)
    ensures
        r is Ok <==> ctx.signer_account_id@ != article_owner@,
        r is Err ==> r == Err::<(), TippingError>(TippingError::CannotTipOwnArticle),
{
    if ctx.signer_account_id == *article_owner {
        Err(TippingError::CannotTipOwnArticle)
    } else {
        Ok(())
    }
}

/// Reading the contract's owner.
pub trait ContractCore {
    fn fetch_owner(&self) -> String;
}

impl ContractCore for Contract {
    /// The contract's owner.
    fn fetch_owner(&self) -> (owner: String)
        ensures
            owner@ == self.owner_id@,
    {
        self.owner_id.clone()
    }
}

/// The promises that pay `payout` out of a tip of the signer, followed by
/// one refund of `refund` to the signer when that is owed.
pub fn payout_promises(payout: &Payout, refund: u128, ctx: &CallContext) -> (promises: Vec<ScheduledPromise>)
    ensures
        promise_views(promises@) == tip_promises(
            payout.payout.entries(),
            ctx.signer_account_id@,
            ctx.current_account_id@,
            refund,
        ),
{
    let ghost entries = payout.payout.entries();
    let ghost signer = ctx.signer_account_id@;
    let ghost contract = ctx.current_account_id@;
    let mut promises: Vec<ScheduledPromise> = Vec::new();
    let mut i: usize = 0;
    assert(entries.take(0) =~= Seq::<(Seq<char>, u128)>::empty());
    assert(promise_views(promises@) =~= Seq::<PromiseView>::empty());
    while i < payout.payout.len()
        invariant
            entries == payout.payout.entries(),
            i <= entries.len(),
            signer == ctx.signer_account_id@,
            contract == ctx.current_account_id@,
            promise_views(promises@) == payout_transfers(entries.take(i as int), signer, contract),
        decreases entries.len() - i,
    {
        let account = payout.payout.key_at(i);
        let amount = *payout.payout.value_at(i);
        promises.push(
            ScheduledPromise {
                action: PromiseAction::Transfer { receiver_id: account.clone(), amount },
                callback: Some(
                    FunctionCall {
                        receiver_id: ctx.current_account_id.clone(),
                        method: ContractMethod::OnTransferAttachedTokens {
                            sender_id: ctx.signer_account_id.clone(),
                            amount_sent: amount,
                            recipient: account.clone(),
                        },
                        deposit: 0,
                        gas: CALLBACK,
                    },
                ),
            },
        );
        proof {
            let taken = entries.take(i + 1);
            assert(taken.drop_last() =~= entries.take(i as int));
            assert(taken.last() == entries[i as int]);
            assert(promise_views(promises@) =~= payout_transfers(taken, signer, contract));
        }
        i = i + 1;
    }
    assert(entries.take(i as int) =~= entries);
    if refund > 0 {
        let ghost before = promises@;
        promises.push(
            ScheduledPromise {
                action: PromiseAction::Transfer { receiver_id: ctx.signer_account_id.clone(), amount: refund },
                callback: Some(
                    FunctionCall {
                        receiver_id: ctx.current_account_id.clone(),
                        method: ContractMethod::OnRefund,
                        deposit: 0,
                        gas: CALLBACK,
                    },
                ),
            },
        );
        assert(promise_views(promises@) =~= promise_views(before).push(promises@.last()@));
    }
    promises
}

/// Whether the owner and every royalty holder of `article` is a valid
/// account id.
pub(crate) fn article_accounts_valid(article: &Article) -> (valid: bool)
    ensures
        valid == accounts_valid(article.owner_id@, article.royalty.entries()),
{
    let royalty = &article.royalty;
    let mut i: usize = 0;
    while i < royalty.len()
        invariant
            royalty == &article.royalty,
            i <= royalty.entries().len(),
            forall|j: int| 0 <= j < i ==> valid_account_id(#[trigger] royalty.entries()[j].0),
        decreases royalty.entries().len() - i,
    {
        if !is_valid_account_id(royalty.key_at(i)) {
            return false;
        }
        i = i + 1;
    }
    is_valid_account_id(&article.owner_id)
}

/// The outcome of the callback of a transfer of `amount_sent` out of a tip
/// of `sender`: it fails, changing nothing, unless the contract calls it;
/// otherwise, when the transfer failed, the amount is added to what is owed
/// back to `sender`, and nothing else changes.
pub open spec fn transfer_callback_outcome(
    before: Contract,
    after: Contract,
    r: Result<(), TippingError>,
    sender: Seq<char>,
    amount_sent: u128,
    transfer_succeeded: bool,
    ctx: CallContext,
) -> bool {
    &&& after.wf()
    &&& after.owner_id == before.owner_id
    &&& after.article_by_id == before.article_by_id
    &&& !called_by_contract(ctx) ==> r == Err::<(), TippingError>(TippingError::NotCalledByContract)
        && after == before
    &&& called_by_contract(ctx) ==> r is Ok
    &&& called_by_contract(ctx) && transfer_succeeded ==> after == before
    &&& called_by_contract(ctx) && !transfer_succeeded ==> after.refund.entries() == upsert(
        before.refund.entries(),
        sender,
        (before.refund_of(sender) + amount_sent) as u128,
    )
    &&& called_by_contract(ctx) && !transfer_succeeded ==> after.refund_of(sender) == before.refund_of(
        sender,
    ) + amount_sent
    &&& forall|account: Seq<char>|
        account != sender ==> #[trigger] after.refund_of(account) == before.refund_of(account)
}

/// The outcome of the callback of a refund to the signer: it fails,
/// changing nothing, unless the contract calls it; otherwise, when the
/// refund went through, the signer is owed nothing any more, and nothing
/// else changes.
pub open spec fn refund_callback_outcome(
    before: Contract,
    after: Contract,
    r: Result<(), TippingError>,
    transfer_succeeded: bool,
    ctx: CallContext,
) -> bool {
    &&& after.wf()
    &&& after.owner_id == before.owner_id
    &&& after.article_by_id == before.article_by_id
    &&& !called_by_contract(ctx) ==> r == Err::<(), TippingError>(TippingError::NotCalledByContract)
        && after == before
    &&& called_by_contract(ctx) ==> r is Ok
    &&& called_by_contract(ctx) && !transfer_succeeded ==> after == before
    &&& called_by_contract(ctx) && transfer_succeeded ==> after.refund.entries() == without(
        before.refund.entries(),
        ctx.signer_account_id@,
    )
    &&& called_by_contract(ctx) && transfer_succeeded ==> after.refund_of(ctx.signer_account_id@) == 0
    &&& forall|account: Seq<char>|
        account != ctx.signer_account_id@ ==> #[trigger] after.refund_of(account) == before.refund_of(
            account,
        )
}

/// The split of the deposit on `article_id` gets past its checks: the
/// deposit is at least [`MIN_TIPPING_AMOUNT`], the article exists, and its
/// owner and royalty holders are valid account ids.
pub open spec fn tip_reaches_split(contract: Contract, article_id: Seq<char>, ctx: CallContext) -> bool {
    &&& ctx.attached_deposit >= MIN_TIPPING_AMOUNT
    &&& contract.article(article_id) matches Some(a)
    &&& accounts_valid(a.owner_id@, a.royalty.entries())
}

/// A tip of `article_id` gets past its checks: the signer does not own the
/// article, and its split gets past its checks.
pub open spec fn tip_reaches_transfer(contract: Contract, article_id: Seq<char>, ctx: CallContext) -> bool {
    &&& contract.article(article_id) matches Some(a)
    &&& ctx.signer_account_id@ != a.owner_id@
    &&& tip_reaches_split(contract, article_id, ctx)
}

impl Contract {
    /// Whether the split of the deposit on `article_id` gets past its
    /// checks, so that the deposit must fit the computation of the shares.
    pub fn reaches_split(&self, article_id: &String, ctx: &CallContext) -> (r: bool)
        requires
            self.wf(),
        ensures
            r == tip_reaches_split(*self, article_id@, *ctx),
    {
        if ctx.attached_deposit < MIN_TIPPING_AMOUNT {
            return false;
        }
        match self.article_by_id.get(article_id) {
            Some(article) => article_accounts_valid(article),
            None => false,
        }
    }

    /// Whether a tip of `article_id` gets past its checks, so that the
    /// deposit must fit the computation of the shares.
    pub fn reaches_transfer(&self, article_id: &String, ctx: &CallContext) -> (r: bool)
        requires
            self.wf(),
        ensures
            r == tip_reaches_transfer(*self, article_id@, *ctx),
    {
        let owner_differs = match self.article_by_id.get(article_id) {
            Some(article) => ctx.signer_account_id != article.owner_id,
            None => false,
        };
        owner_differs && self.reaches_split(article_id, ctx)
    }
}

/// Tipping an article.
pub trait GeneratePayout: Sized {
    /// The state is well formed.
    spec fn ready(&self) -> bool;

    /// What is owed back to `account`.
    spec fn owed(&self, account: Seq<char>) -> u128;

    /// Asking for the split of the deposit on `article_id` gets past every
    /// check to the computation of the shares.
    spec fn splits(&self, article_id: Seq<char>, ctx: CallContext) -> bool;

    /// Tipping `article_id` with the deposit gets past every check to the
    /// computation of the shares.
    spec fn sends(&self, article_id: Seq<char>, ctx: CallContext) -> bool;

    /// The split of the tip attached to the call, for the article `article_id`.
    fn calculate_payout(&mut self, article_id: ArticleId, ctx: &CallContext) -> Result<Payout, TippingError>
        requires
            old(self).ready(),
            old(self).splits(article_id@, *ctx) ==> ctx.attached_deposit * AUTHOR_SHARE <= u128::MAX,
    ;

    /// Tips the article `article_id` with the deposit attached to the call:
    /// the promises that pay the split out.
    fn send_payout(&mut self, article_id: ArticleId, ctx: &CallContext) -> Result<
        Vec<ScheduledPromise>,
        TippingError,
    >
        requires
            old(self).ready(),
            old(self).sends(article_id@, *ctx) ==> ctx.attached_deposit * AUTHOR_SHARE <= u128::MAX,
    ;

    /// Callback of a transfer of a tip: records what is owed back to the
    /// tipper when the transfer failed.
    fn on_transfer_attached_tokens(
        &mut self,
        sender_id: String,
        amount_sent: u128,
        recipient: String,
        transfer_succeeded: bool,
        ctx: &CallContext,
    ) -> Result<(), TippingError>
        requires
            old(self).ready(),
            called_by_contract(*ctx) && !transfer_succeeded ==> old(self).owed(sender_id@) + amount_sent
                <= u128::MAX,
    ;

    /// Callback of a refund: clears the signer's debt once it was paid back.
    fn on_refund(&mut self, transfer_succeeded: bool, ctx: &CallContext) -> Result<(), TippingError>
        requires
            old(self).ready(),
    ;
}

impl GeneratePayout for Contract {
    open spec fn ready(&self) -> bool {
        self.wf()
    }

    open spec fn owed(&self, account: Seq<char>) -> u128 {
        self.refund_of(account)
    }

    open spec fn splits(&self, article_id: Seq<char>, ctx: CallContext) -> bool {
        tip_reaches_split(*self, article_id, ctx)
    }

    open spec fn sends(&self, article_id: Seq<char>, ctx: CallContext) -> bool {
        tip_reaches_transfer(*self, article_id, ctx)
    }

    /// Fails, in this order, when the deposit is below
    /// [`MIN_TIPPING_AMOUNT`], when there is no such article, when its owner
    /// or a royalty holder is not a valid account id, and when its royalties
    /// exceed the contract's share; otherwise the split of the deposit.
    fn calculate_payout(&mut self, article_id: ArticleId, ctx: &CallContext) -> (r: Result<
        Payout,
        TippingError,
    >)
        ensures
            *final(self) == *old(self),
            ctx.attached_deposit < MIN_TIPPING_AMOUNT ==> r == Err::<Payout, TippingError>(
                TippingError::NotEnoughDeposit,
            ),
            ctx.attached_deposit >= MIN_TIPPING_AMOUNT ==> match old(self).article(article_id@) {
                None => r == Err::<Payout, TippingError>(TippingError::ArticleNotFound),
                Some(a) => if !accounts_valid(a.owner_id@, a.royalty.entries()) {
                    r == Err::<Payout, TippingError>(TippingError::InvalidAccountId)
                } else {
                    payout_matches(
                        r,
                        payout_entries(
                            a.owner_id@,
                            a.royalty.entries(),
                            ctx.current_account_id@,
                            ctx.attached_deposit as int,
                        ),
                    )
                },
            },
    {
        let amount = ctx.attached_deposit;
        if amount < MIN_TIPPING_AMOUNT {
            return Err(TippingError::NotEnoughDeposit);
        }
        let article = match self.article_by_id.get(&article_id) {
            Some(article) => article,
            None => return Err(TippingError::ArticleNotFound),
        };
        if !article_accounts_valid(article) {
            return Err(TippingError::InvalidAccountId);
        }
        compute_payout(&article.owner_id, &article.royalty, &ctx.current_account_id, amount)
    }

    /// Fails when there is no such article, when the signer owns it, and then
    /// as [`GeneratePayout::calculate_payout`] does; otherwise, for each entry
    /// of the split in order, a transfer whose callback records a failure,
    /// and then one refund of what the signer is owed, when it is owed
    /// something.
    fn send_payout(&mut self, article_id: ArticleId, ctx: &CallContext) -> (r: Result<
        Vec<ScheduledPromise>,
        TippingError,
    >)
        ensures
            *final(self) == *old(self),
            match old(self).article(article_id@) {
                None => r == Err::<Vec<ScheduledPromise>, TippingError>(TippingError::ArticleNotFound),
                Some(a) => if ctx.signer_account_id@ == a.owner_id@ {
                    r == Err::<Vec<ScheduledPromise>, TippingError>(TippingError::CannotTipOwnArticle)
                } else if ctx.attached_deposit < MIN_TIPPING_AMOUNT {
                    r == Err::<Vec<ScheduledPromise>, TippingError>(TippingError::NotEnoughDeposit)
                } else if !accounts_valid(a.owner_id@, a.royalty.entries()) {
                    r == Err::<Vec<ScheduledPromise>, TippingError>(TippingError::InvalidAccountId)
                } else {
                    match payout_entries(
                        a.owner_id@,
                        a.royalty.entries(),
                        ctx.current_account_id@,
                        ctx.attached_deposit as int,
                    ) {
                        None => r == Err::<Vec<ScheduledPromise>, TippingError>(
                            TippingError::RoyaltyExceeded,
                        ),
                        Some(entries) => r matches Ok(promises) && promise_views(promises@)
                            == tip_promises(
                            entries,
                            ctx.signer_account_id@,
                            ctx.current_account_id@,
                            old(self).refund_of(ctx.signer_account_id@),
                        ),
                    }
                },
            },
    {
        let owner = match self.article_by_id.get(&article_id) {
            Some(article) => article.owner_id.clone(),
            None => return Err(TippingError::ArticleNotFound),
        };
        assert_signer_not_owner(&owner, ctx)?;
        let payout = self.calculate_payout(article_id, ctx)?;
        let refund = self.get_refund(ctx.signer_account_id.clone());
        Ok(payout_promises(&payout, refund, ctx))
    }

    /// Fails unless the contract calls it; when the transfer failed, the
    /// amount is added to what is owed back to `sender_id`.
    fn on_transfer_attached_tokens(
        &mut self,
        sender_id: String,
        amount_sent: u128,
        recipient: String,
        transfer_succeeded: bool,
        ctx: &CallContext,
    ) -> (r: Result<(), TippingError>)
        ensures
            transfer_callback_outcome(
                *old(self),
                *final(self),
                r,
                sender_id@,
                amount_sent,
                transfer_succeeded,
                *ctx,
            ),
    {
        if !predecessor_is_current(ctx) {
            return Err(TippingError::NotCalledByContract);
        }
        if !transfer_succeeded {
            let previous_balance = self.get_refund(sender_id.clone());
            proof {
                lemma_upsert(self.refund.entries(), sender_id@, (previous_balance + amount_sent) as u128);
            }
            self.refund.insert(sender_id, previous_balance + amount_sent);
        }
        Ok(())
    }

    /// Fails unless the contract calls it; when the refund succeeded, the
    /// signer no longer is owed anything.
    fn on_refund(&mut self, transfer_succeeded: bool, ctx: &CallContext) -> (r: Result<(), TippingError>)
        ensures
            refund_callback_outcome(*old(self), *final(self), r, transfer_succeeded, *ctx),
    {
        if !predecessor_is_current(ctx) {
            return Err(TippingError::NotCalledByContract);
        }
        if transfer_succeeded {
            proof {
                lemma_without(self.refund.entries(), ctx.signer_account_id@);
            }
            self.refund.remove(&ctx.signer_account_id);
        }
        Ok(())
    }
}

} // verus!
