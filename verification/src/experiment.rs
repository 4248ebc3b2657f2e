//! The experimental variant of the tipping contract: the tip is cut down to
//! its four most significant digits and a power of ten, the shares are
//! computed on the digits, and an owner may not even ask for the split of a
//! tip on their own article.
use vstd::prelude::*;
use crate::context::{CallContext, ScheduledPromise, promise_views};
use crate::decimal::{decimal, lemma_decimal_bounds, lemma_pow10_add, lemma_pow10_monotone, pow10};
use crate::payout::{
    AUTHOR_SHARE, CONTRACT_SHARE, MIN_TIPPING_AMOUNT, MIN_TO_BE_PAYED, Payout, TippingError,
    amount_of, lemma_next_payment_fits, lemma_royalty_pass_fails_on, lemma_share_add,
    lemma_share_bounds, lemma_split_within, pay, payout_matches, royalty_pass, share, sound_shares,
    split, superadditive_at, total,
};
use crate::strmap::{StrMap, lemma_position_unique, unique_keys};
use crate::tipping::{
    ArticleId, Contract, accounts_valid, article_accounts_valid, assert_signer_not_owner,
    payout_promises, refund_callback_outcome, tip_promises, transfer_callback_outcome,
};

verus! {

/// Converts a royalty percentage (two decimal places) and a tip of
/// `amount_to_pay` times ten to the `power` into the royalty's part: the
/// percentage of the digits, rounded down, times ten to the `power`.
pub fn royalty_to_payout_cheap(royalty_percentage: u16, amount_to_pay: u32, power: u8) -> (payout: u128)
    requires
        royalty_percentage * amount_to_pay <= u32::MAX,
        (royalty_percentage * amount_to_pay / 10_000) * pow10(power as nat) <= u128::MAX,
    ensures
        payout == (royalty_percentage * amount_to_pay / 10_000) * pow10(power as nat),
{
    let value: u32 = (royalty_percentage as u32) * amount_to_pay / 10_000u32;
    let ghost bound = value * pow10(power as nat);
    let mut payout: u128 = value as u128;
    let mut i: u8 = 0;
    assert(pow10(0) == 1);
    while i < power
        invariant
            i <= power,
            payout == value * pow10(i as nat),
            bound == value * pow10(power as nat),
            bound <= u128::MAX,
        decreases power - i,
    {
        proof {
            lemma_pow10_monotone((i + 1) as nat, power as nat);
            assert(value * pow10((i + 1) as nat) <= value * pow10(power as nat)) by (nonlinear_arith)
                requires
                    pow10((i + 1) as nat) <= pow10(power as nat),
                    value >= 0,
            ;
            assert(value * pow10((i + 1) as nat) == (value * pow10(i as nat)) * 10) by (nonlinear_arith)
                requires
                    pow10((i + 1) as nat) == 10 * pow10(i as nat),
            ;
        }
        payout = payout * 10;
        i = i + 1;
    }
    payout
}


/// The number of significant digits a tip is cut down to.
pub const KEPT_DIGITS: usize = 4;

/// Calls `near_helper::as_scientific_notation(amount, keep_digit)`. That
/// function writes `amount` in decimal, parses its first `keep_digit` digits
/// as a `u32`, and answers them with the number of digits left over: so the
/// first part is `amount` divided by ten to the second, rounded down. It
/// panics when `amount` has fewer than `keep_digit` digits, when `keep_digit`
/// is 0 (there is nothing to parse), and when the kept digits exceed a
/// `u32`; the requirements leave those inputs out.
#[verifier::external_body]
fn as_scientific_notation(amount: u128, keep_digit: usize) -> (r: (u32, u8))
    requires
        1 <= keep_digit <= decimal(amount as nat).len(),
        (amount as nat) / pow10((decimal(amount as nat).len() - keep_digit) as nat) <= u32::MAX,
    ensures
        r.1 == decimal(amount as nat).len() - keep_digit,
        r.0 == (amount as nat) / pow10(r.1 as nat),
{
    near_helper::as_scientific_notation(amount, keep_digit)
}

/// The power of ten that a tip of `amount` is cut down by.
pub open spec fn tip_power(amount: int) -> nat {
    (decimal(amount as nat).len() - KEPT_DIGITS) as nat
}

/// The share of a tip written as `digits` times ten to the `power` that
/// each percentage stands for: the percentage of the digits, rounded down,
/// times ten to the `power`.
pub open spec fn cheap_shares(digits: int, power: nat) -> spec_fn(int) -> int {
    |percentage: int| share(percentage, digits) * pow10(power)
}

/// The payout of a tip of `amount` in the experimental contract: the split
/// computed on its four most significant digits.
pub open spec fn cheap_payout_entries(
    owner: Seq<char>,
    royalty: Seq<(Seq<char>, u16)>,
    contract: Seq<char>,
    amount: int,
) -> Option<Seq<(Seq<char>, u128)>> {
    split(
        owner,
        royalty,
        contract,
        cheap_shares(((amount as nat) / pow10(tip_power(amount))) as int, tip_power(amount)),
    )
}

/// The cheap shares of digits below ten thousand fit in the computation.
proof fn lemma_cheap_fits(percentage: u16, digits: u32, power: u8)
    requires
        percentage <= 10_000,
        digits < 10_000,
        digits * pow10(power as nat) <= u128::MAX,
    ensures
        percentage * digits <= u32::MAX,
        (percentage * digits / 10_000) * pow10(power as nat) <= digits * pow10(power as nat),
{
    assert(percentage * digits <= 10_000 * 10_000) by (nonlinear_arith)
        requires
            percentage <= 10_000,
            digits < 10_000,
    ;
    lemma_share_bounds(percentage as int, digits as int);
    lemma_pow10_monotone(0, power as nat);
    assert((percentage * digits / 10_000) * pow10(power as nat) <= digits * pow10(power as nat))
        by (nonlinear_arith)
        requires
            percentage * digits / 10_000 <= digits,
            pow10(power as nat) >= 1,
    ;
}

/// Splits a tip of `digits` times ten to the `power` on an article of
/// `owner` with the given royalties, the contract running as `contract`.
pub fn compute_payout_cheap(
    owner: &String,
    royalty: &StrMap<u16>,
    contract: &String,
    digits: u32,
    power: u8,
) -> (r: Result<Payout, TippingError>)
    requires
        digits < 10_000,
        digits * pow10(power as nat) <= u128::MAX,
    ensures
        payout_matches(
            r,
            split(owner@, royalty.entries(), contract@, cheap_shares(digits as int, power as nat)),
        ),
{
    let ghost roy = royalty.entries();
    let ghost shares = cheap_shares(digits as int, power as nat);
    let ghost base = seq![(owner@, shares(AUTHOR_SHARE as int) as u128)];
    proof {
        lemma_cheap_shares_sound(digits as nat, power as nat);
        lemma_position_unique(base, 0);
        assert(base.drop_last() =~= Seq::<(Seq<char>, u128)>::empty());
        assert(total(base) == total(base.drop_last()) + base.last().1);
    }
    let mut payout = Payout::default();
    proof {
        lemma_cheap_fits(AUTHOR_SHARE, digits, power);
    }
    payout.payout.insert(owner.clone(), royalty_to_payout_cheap(AUTHOR_SHARE, digits, power));
    assert(payout.payout.entries() =~= base);
    let mut left: u16 = CONTRACT_SHARE;
    let mut i: usize = 0;
    assert(roy.take(0) =~= Seq::<(Seq<char>, u16)>::empty());
    while i < royalty.len()
        invariant
            roy == royalty.entries(),
            shares == cheap_shares(digits as int, power as nat),
            sound_shares(shares, digits * pow10(power as nat)),
            unique_keys(base),
            total(base) <= shares(AUTHOR_SHARE as int),
            i <= roy.len(),
            left <= CONTRACT_SHARE,
            digits < 10_000,
            digits * pow10(power as nat) <= u128::MAX,
            payout.payout.wf(),
            base == seq![(owner@, shares(AUTHOR_SHARE as int) as u128)],
            royalty_pass(base, roy.take(i as int), shares) == Some((left as int, payout.payout.entries())),
        decreases roy.len() - i,
    {
        let holder = royalty.key_at(i);
        let percentage = *royalty.value_at(i);
        assert(roy.take(i + 1).drop_last() =~= roy.take(i as int));
        assert(roy.take(i + 1).last() == roy[i as int]);
        if left < percentage {
            proof {
                lemma_royalty_pass_fails_on(base, roy, shares, i + 1);
            }
            return Err(TippingError::RoyaltyExceeded);
        }
        proof {
            lemma_cheap_fits(percentage, digits, power);
            lemma_next_payment_fits(
                base,
                roy.take(i as int),
                shares,
                digits * pow10(power as nat),
                left as int,
                payout.payout.entries(),
                holder@,
                percentage as int,
            );
        }
        left = left - percentage;
        let payout_amount = royalty_to_payout_cheap(percentage, digits, power);
        if payout_amount > MIN_TO_BE_PAYED {
            pay(&mut payout.payout, owner, holder, payout_amount);
        } else {
            left = left + percentage;
        }
        i = i + 1;
    }
    assert(roy.take(i as int) =~= roy);
    proof {
        lemma_cheap_fits(left, digits, power);
        lemma_next_payment_fits(
            base,
            roy,
            shares,
            digits * pow10(power as nat),
            left as int,
            payout.payout.entries(),
            contract@,
            left as int,
        );
    }
    pay(&mut payout.payout, owner, contract, royalty_to_payout_cheap(left, digits, power));
    Ok(payout)
}

/// A tip of at least [`MIN_TIPPING_AMOUNT`] has enough digits to be cut
/// down, and its kept digits are below ten thousand.
proof fn lemma_tip_digits(amount: u128)
    requires
        amount >= MIN_TIPPING_AMOUNT,
    ensures
        KEPT_DIGITS <= decimal(amount as nat).len(),
        (amount as nat) / pow10(tip_power(amount as int)) < 10_000,
        ((amount as nat) / pow10(tip_power(amount as int))) * pow10(tip_power(amount as int)) <= amount,
{
    lemma_decimal_bounds(amount as nat);
    let len = decimal(amount as nat).len();
    assert(pow10(21) == 1_000_000_000_000_000_000_000) by {
        reveal_with_fuel(pow10, 22);
    }
    if len < 22 {
        lemma_pow10_monotone(len, 21);
        assert(false);
    }
    let p = tip_power(amount as int);
    assert(p + 4 == len);
    lemma_pow10_add(4, p);
    assert(pow10(4) == 10_000) by {
        reveal_with_fuel(pow10, 5);
    }
    lemma_pow10_monotone(0, p);
    let x = pow10(p);
    assert((amount as nat) / x < 10_000) by (nonlinear_arith)
        requires
            amount < 10_000 * x,
            x >= 1,
    ;
    assert(((amount as nat) / x) * x <= amount) by (nonlinear_arith)
        requires
            x >= 1,
            amount >= 0,
    ;
}

/// The cheap shares of a tip of `digits` times ten to the `power` are
/// sound, within `digits` times ten to the `power`.
pub proof fn lemma_cheap_shares_sound(digits: nat, power: nat)
    requires
        digits * pow10(power) <= u128::MAX,
    ensures
        sound_shares(cheap_shares(digits as int, power), (digits * pow10(power)) as int),
{
    let shares = cheap_shares(digits as int, power);
    lemma_pow10_monotone(0, power);
    assert forall|p: int, q: int|
        0 <= p && 0 <= q && p + q <= 10_000 implies #[trigger] superadditive_at(shares, p, q) by {
        lemma_share_add(p, q, digits as int);
        assert(share(p, digits as int) * pow10(power) + share(q, digits as int) * pow10(power) <= share(
            p + q,
            digits as int,
        ) * pow10(power)) by (nonlinear_arith)
            requires
                share(p, digits as int) + share(q, digits as int) <= share(p + q, digits as int),
                pow10(power) >= 1,
        ;
    }
    assert forall|p: int| 0 <= p <= 10_000 implies 0 <= #[trigger] shares(p) <= digits * pow10(power) by {
        lemma_share_bounds(p, digits as int);
        assert(0 <= share(p, digits as int) * pow10(power) <= digits * pow10(power)) by (nonlinear_arith)
            requires
                0 <= share(p, digits as int) <= digits,
                pow10(power) >= 1,
        ;
    }
}

/// The experimental split never pays out more than the tip: the amounts of
/// its payout add up to at most the tip. And the owner is paid at least
/// 90% of the tip's kept digits, times their power of ten.
pub proof fn lemma_cheap_payout_within_tip(
    owner: Seq<char>,
    royalty: Seq<(Seq<char>, u16)>,
    contract: Seq<char>,
    amount: u128,
)
    requires
        amount >= MIN_TIPPING_AMOUNT,
    ensures
        cheap_payout_entries(owner, royalty, contract, amount as int) matches Some(p) ==> {
            &&& total(p) <= amount
            &&& amount_of(p, owner) >= share(
                AUTHOR_SHARE as int,
                ((amount as nat) / pow10(tip_power(amount as int))) as int,
            ) * pow10(tip_power(amount as int))
        },
{
    lemma_tip_digits(amount);
    let power = tip_power(amount as int);
    let digits = (amount as nat) / pow10(power);
    lemma_cheap_shares_sound(digits, power);
    lemma_split_within(owner, royalty, contract, cheap_shares(digits as int, power), (digits * pow10(power)) as int);
}

/// Tipping an article, the experimental way.
pub trait GeneratePayout: Sized {
    /// The state is well formed.
    spec fn ready(&self) -> bool;

    /// What is owed back to `account`.
    spec fn owed(&self, account: Seq<char>) -> u128;

    /// The split of the tip attached to the call, for the article `article_id`.
    fn calculate_payout(&mut self, article_id: ArticleId, ctx: &CallContext) -> Result<Payout, TippingError>
        requires
            old(self).ready(),
    ;

    /// Tips the article `article_id` with the deposit attached to the call:
    /// the promises that pay the split out.
    fn send_payout(&mut self, article_id: ArticleId, ctx: &CallContext) -> Result<
        Vec<ScheduledPromise>,
        TippingError,
    >
        requires
            old(self).ready(),
    ;

    /// Callback of a transfer of a tip: records what is owed back to the
    /// tipper when the transfer failed.
    fn on_transfer_attached_tokens(
        &mut self,
        sender_id: String,
        amount_sent: u128,
        recipient: String,
        transfer_succeeded: bool,
        ctx: &CallContext,
    ) -> Result<(), TippingError>
        requires
            old(self).ready(),
            crate::context::called_by_contract(*ctx) && !transfer_succeeded ==> old(self).owed(sender_id@)
                + amount_sent <= u128::MAX,
    ;

    /// Callback of a refund: clears the signer's debt once it was paid back.
    fn on_refund(&mut self, transfer_succeeded: bool, ctx: &CallContext) -> Result<(), TippingError>
        requires
            old(self).ready(),
    ;
}

/// What the experimental split of the deposit on the article `article_id`
/// comes to: it fails, in this order, when the deposit is below
/// [`MIN_TIPPING_AMOUNT`], when there is no such article, when the signer
/// owns it, when its owner or a royalty holder is not a valid account id,
/// and when its royalties exceed the contract's share.
pub open spec fn cheap_payout_outcome(
    contract: Contract,
    r: Result<Payout, TippingError>,
    article_id: Seq<char>,
    ctx: CallContext,
) -> bool {
    &&& ctx.attached_deposit < MIN_TIPPING_AMOUNT ==> r == Err::<Payout, TippingError>(
        TippingError::NotEnoughDeposit,
    )
    &&& ctx.attached_deposit >= MIN_TIPPING_AMOUNT ==> match contract.article(article_id) {
        None => r == Err::<Payout, TippingError>(TippingError::ArticleNotFound),
        Some(a) => if ctx.signer_account_id@ == a.owner_id@ {
            r == Err::<Payout, TippingError>(TippingError::CannotTipOwnArticle)
        } else if !accounts_valid(a.owner_id@, a.royalty.entries()) {
            r == Err::<Payout, TippingError>(TippingError::InvalidAccountId)
        } else {
            payout_matches(
                r,
                cheap_payout_entries(
                    a.owner_id@,
                    a.royalty.entries(),
                    ctx.current_account_id@,
                    ctx.attached_deposit as int,
                ),
            )
        },
    }
}

impl GeneratePayout for Contract {
    open spec fn ready(&self) -> bool {
        self.wf()
    }

    open spec fn owed(&self, account: Seq<char>) -> u128 {
        self.refund_of(account)
    }

    fn calculate_payout(&mut self, article_id: ArticleId, ctx: &CallContext) -> (r: Result<
        Payout,
        TippingError,
    >)
        ensures
            *final(self) == *old(self),
            cheap_payout_outcome(*old(self), r, article_id@, *ctx),
    {
        let amount = ctx.attached_deposit;
        if amount < MIN_TIPPING_AMOUNT {
            return Err(TippingError::NotEnoughDeposit);
        }
        let article = match self.article_by_id.get(&article_id) {
            Some(article) => article,
            None => return Err(TippingError::ArticleNotFound),
        };
        assert_signer_not_owner(&article.owner_id, ctx)?;
        if !article_accounts_valid(article) {
            return Err(TippingError::InvalidAccountId);
        }
        proof {
            lemma_tip_digits(amount);
        }
        let (digits, power) = as_scientific_notation(amount, KEPT_DIGITS);
        compute_payout_cheap(&article.owner_id, &article.royalty, &ctx.current_account_id, digits, power)
    }

    /// Fails as [`GeneratePayout::calculate_payout`] does; otherwise, for
    /// each entry of the split in order, a transfer whose callback records a
    /// failure, and then one refund of what the signer is owed, when it is
    /// owed something.
    fn send_payout(&mut self, article_id: ArticleId, ctx: &CallContext) -> (r: Result<
        Vec<ScheduledPromise>,
        TippingError,
    >)
        ensures
            *final(self) == *old(self),
            exists|payout: Result<Payout, TippingError>|
                {
                    &&& cheap_payout_outcome(*old(self), payout, article_id@, *ctx)
                    &&& payout is Err ==> r == Err::<Vec<ScheduledPromise>, TippingError>(
                        payout->Err_0,
                    )
                    &&& payout matches Ok(p) ==> (r matches Ok(promises) && promise_views(promises@)
                        == tip_promises(
                        p.payout.entries(),
                        ctx.signer_account_id@,
                        ctx.current_account_id@,
                        old(self).refund_of(ctx.signer_account_id@),
                    ))
                },
    {
        let payout = self.calculate_payout(article_id, ctx);
        let payout = match payout {
            Ok(payout) => payout,
            Err(error) => return Err(error),
        };
        let refund = self.get_refund(ctx.signer_account_id.clone());
        Ok(payout_promises(&payout, refund, ctx))
    }

    fn on_transfer_attached_tokens(
        &mut self,
        sender_id: String,
        amount_sent: u128,
        recipient: String,
        transfer_succeeded: bool,
        ctx: &CallContext,
    ) -> (r: Result<(), TippingError>)
        ensures
            transfer_callback_outcome(
                *old(self),
                *final(self),
                r,
                sender_id@,
                amount_sent,
                transfer_succeeded,
                *ctx,
            ),
    {
        <Contract as crate::tipping::GeneratePayout>::on_transfer_attached_tokens(
            self,
            sender_id,
            amount_sent,
            recipient,
            transfer_succeeded,
            ctx,
        )
    }

    fn on_refund(&mut self, transfer_succeeded: bool, ctx: &CallContext) -> (r: Result<(), TippingError>)
        ensures
            refund_callback_outcome(*old(self), *final(self), r, transfer_succeeded, *ctx),
    {
        <Contract as crate::tipping::GeneratePayout>::on_refund(self, transfer_succeeded, ctx)
    }
}

} // verus!
