//! How a tip is split: the author's share, the royalties, and what is left
//! for the contract.
use vstd::prelude::*;
use crate::strmap::{StrMap, has_key, lemma_position_unique, lemma_upsert, lookup, position, unique_keys, upsert};

verus! {

/// Up to this share (0.0001 NEAR) a royalty holder is not paid; the share
/// goes to the contract instead. The smallest tip is ten times as much.
pub const MIN_TO_BE_PAYED: u128 = 100_000_000_000_000_000_000;

/// The smallest tip accepted: 0.001 NEAR.
pub const MIN_TIPPING_AMOUNT: u128 = 1_000_000_000_000_000_000_000;

/// The author's share of a tip, in hundredths of a percent (90.00%).
pub const AUTHOR_SHARE: u16 = 9_000;

/// The part of a tip out of which royalties are paid, in hundredths of a
/// percent (10.00%); what royalties leave of it goes to the contract.
pub const CONTRACT_SHARE: u16 = 1_000;

/// `percentage` hundredths of a percent of `amount`, rounded down.
pub open spec fn share(percentage: int, amount: int) -> int {
    percentage * amount / 10_000
}

/// Converts a royalty percentage (two decimal places: 2985 is 29.85%) and an
/// amount into the part of the amount it stands for, rounded down.
pub fn royalty_to_payout(royalty_percentage: u16, amount_to_pay: u128) -> (payout: u128)
    requires
        royalty_percentage * amount_to_pay <= u128::MAX,
    ensures
        payout == share(royalty_percentage as int, amount_to_pay as int),
{
    (royalty_percentage as u128) * amount_to_pay / 10_000u128
}

/// The share of a tip of `amount` that each percentage stands for.
pub open spec fn tip_shares(amount: int) -> spec_fn(int) -> int {
    |percentage: int| share(percentage, amount)
}

/// What `entries` pays to `account` (0 when it has no entry).
pub open spec fn amount_of(entries: Seq<(Seq<char>, u128)>, account: Seq<char>) -> int {
    match lookup(entries, account) {
        Some(amount) => amount as int,
        None => 0,
    }
}

/// `entries` with `amount` more paid to `account`: an existing entry grows
/// where it stands, a new account is appended.
pub open spec fn credit(entries: Seq<(Seq<char>, u128)>, account: Seq<char>, amount: u128) -> Seq<
    (Seq<char>, u128),
> {
    upsert(entries, account, (amount_of(entries, account) + amount) as u128)
}

/// `entries` with `amount` paid to `account`, the owner being `owner`: the
/// owner's amount grows, since the author is paid whatever follows; any
/// other account's amount is set to `amount`, replacing what it had; an
/// account without an entry is appended.
pub open spec fn pay_to(
    entries: Seq<(Seq<char>, u128)>,
    owner: Seq<char>,
    account: Seq<char>,
    amount: u128,
) -> Seq<(Seq<char>, u128)> {
    if account == owner {
        credit(entries, account, amount)
    } else {
        upsert(entries, account, amount)
    }
}

/// The royalties applied in order to the payout `base`, starting with the
/// contract's whole share left, `share_of` giving the amount that a
/// percentage stands for: each holder's percentage is taken out of what is
/// left; its amount is paid when it exceeds [`MIN_TO_BE_PAYED`], and
/// otherwise the percentage goes back to the contract. `None` when some
/// royalty exceeds what is left; otherwise the percentage still left and the
/// payout so far. The owner is the account of the first entry of `base`.
pub open spec fn royalty_pass(
    base: Seq<(Seq<char>, u128)>,
    royalty: Seq<(Seq<char>, u16)>,
    share_of: spec_fn(int) -> int,
) -> Option<(int, Seq<(Seq<char>, u128)>)>
    decreases royalty.len(),
{
    if royalty.len() == 0 {
        Some((CONTRACT_SHARE as int, base))
    } else {
        match royalty_pass(base, royalty.drop_last(), share_of) {
            None => None,
            Some((left, paid)) => {
                let (holder, percentage) = royalty.last();
                if left < percentage {
                    None
                } else if share_of(percentage as int) > MIN_TO_BE_PAYED {
                    Some(
                        (
                            left - percentage,
                            pay_to(paid, base[0].0, holder, share_of(percentage as int) as u128),
                        ),
                    )
                } else {
                    Some((left, paid))
                }
            },
        }
    }
}

/// The split of a tip on an article of `owner` with the given royalties, the
/// contract running as `contract`, `share_of` giving the amount that a
/// percentage stands for: the owner's 90% first, the royalty holders in
/// order, and what is left to the contract last. When the owner comes again
/// as a royalty holder or as the contract, its amounts are added in its first
/// place; any other account that comes again keeps its place and its last
/// amount. `None` when the royalties exceed the contract's share.
pub open spec fn split(
    owner: Seq<char>,
    royalty: Seq<(Seq<char>, u16)>,
    contract: Seq<char>,
    share_of: spec_fn(int) -> int,
) -> Option<Seq<(Seq<char>, u128)>> {
    let base = seq![(owner, share_of(AUTHOR_SHARE as int) as u128)];
    match royalty_pass(base, royalty, share_of) {
        None => None,
        Some((left, paid)) => Some(pay_to(paid, owner, contract, share_of(left) as u128)),
    }
}

/// The payout of a tip of `amount`: the split in which a percentage stands
/// for that many hundredths of a percent of the tip, rounded down.
pub open spec fn payout_entries(
    owner: Seq<char>,
    royalty: Seq<(Seq<char>, u16)>,
    contract: Seq<char>,
    amount: int,
) -> Option<Seq<(Seq<char>, u128)>> {
    split(owner, royalty, contract, tip_shares(amount))
}

/// A percentage below the author's share of an amount whose author share
/// fits in 128 bits fits too.
pub(crate) proof fn lemma_product_fits(percentage: u16, amount: u128)
    requires
        percentage <= AUTHOR_SHARE,
        amount * AUTHOR_SHARE <= u128::MAX,
    ensures
        percentage * amount <= u128::MAX,
{
    assert(percentage * amount <= AUTHOR_SHARE * amount) by (nonlinear_arith)
        requires
            percentage <= AUTHOR_SHARE,
    ;
}

/// Once a royalty pass fails, longer ones fail too.
pub proof fn lemma_royalty_pass_fails_on(
    base: Seq<(Seq<char>, u128)>,
    royalty: Seq<(Seq<char>, u16)>,
    share_of: spec_fn(int) -> int,
    i: int,
)
    requires
        0 <= i <= royalty.len(),
        royalty_pass(base, royalty.take(i), share_of) is None,
    ensures
        royalty_pass(base, royalty, share_of) is None,
    decreases royalty.len() - i,
{
    if i < royalty.len() {
        assert(royalty.take(i + 1).drop_last() =~= royalty.take(i));
        lemma_royalty_pass_fails_on(base, royalty, share_of, i + 1);
    } else {
        assert(royalty.take(i) =~= royalty);
    }
}

/// The sum of the amounts of a payout.
pub open spec fn total(entries: Seq<(Seq<char>, u128)>) -> int
    decreases entries.len(),
{
    if entries.len() == 0 {
        0
    } else {
        total(entries.drop_last()) + entries.last().1
    }
}

proof fn lemma_total_update(s: Seq<(Seq<char>, u128)>, p: int, x: (Seq<char>, u128))
    requires
        0 <= p < s.len(),
    ensures
        total(s.update(p, x)) == total(s) - s[p].1 + x.1,
    decreases s.len(),
{
    if p == s.len() - 1 {
        assert(s.update(p, x).drop_last() =~= s.drop_last());
    } else {
        assert(s.update(p, x).drop_last() =~= s.drop_last().update(p, x));
        lemma_total_update(s.drop_last(), p, x);
    }
}

/// No entry pays more than the whole payout.
pub proof fn lemma_entry_within_total(s: Seq<(Seq<char>, u128)>, i: int)
    requires
        0 <= i < s.len(),
    ensures
        s[i].1 <= total(s),
    decreases s.len(),
{
    lemma_total_nonnegative(s.drop_last());
    if i < s.len() - 1 {
        lemma_entry_within_total(s.drop_last(), i);
    }
}

/// A payout's total is not negative.
pub proof fn lemma_total_nonnegative(s: Seq<(Seq<char>, u128)>)
    ensures
        total(s) >= 0,
    decreases s.len(),
{
    if s.len() > 0 {
        lemma_total_nonnegative(s.drop_last());
    }
}

/// What an account is paid is at most the whole payout.
pub proof fn lemma_amount_within_total(s: Seq<(Seq<char>, u128)>, k: Seq<char>)
    requires
        unique_keys(s),
    ensures
        0 <= amount_of(s, k) <= total(s),
{
    lemma_total_nonnegative(s);
    if has_key(s, k) {
        let p = position(s, k);
        assert(0 <= p < s.len() && s[p].0 == k);
        lemma_position_unique(s, p);
        lemma_entry_within_total(s, p);
    }
}

/// Crediting an account adds exactly the amount to it and to the total, and
/// changes no other account.
pub proof fn lemma_credit(s: Seq<(Seq<char>, u128)>, k: Seq<char>, v: u128)
    requires
        unique_keys(s),
        amount_of(s, k) + v <= u128::MAX,
    ensures
        unique_keys(credit(s, k, v)),
        amount_of(credit(s, k, v), k) == amount_of(s, k) + v,
        forall|k2: Seq<char>| k2 != k ==> #[trigger] amount_of(credit(s, k, v), k2) == amount_of(s, k2),
        total(credit(s, k, v)) == total(s) + v,
{
    let new = (amount_of(s, k) + v) as u128;
    lemma_upsert(s, k, new);
    assert forall|k2: Seq<char>| k2 != k implies #[trigger] amount_of(credit(s, k, v), k2) == amount_of(s, k2) by {
        assert(lookup(upsert(s, k, new), k2) == lookup(s, k2));
    }
    if has_key(s, k) {
        let p = position(s, k);
        assert(0 <= p < s.len() && s[p].0 == k);
        lemma_position_unique(s, p);
        lemma_total_update(s, p, (k, new));
    } else {
        assert(s.push((k, new)).drop_last() =~= s);
    }
}

proof fn lemma_total_update_upsert(s: Seq<(Seq<char>, u128)>, k: Seq<char>, v: u128)
    requires
        unique_keys(s),
    ensures
        total(upsert(s, k, v)) <= total(s) + v,
{
    if has_key(s, k) {
        let p = position(s, k);
        assert(0 <= p < s.len() && s[p].0 == k);
        lemma_total_update(s, p, (k, v));
    } else {
        assert(s.push((k, v)).drop_last() =~= s);
    }
}

/// Paying an account keeps the keys unique, adds at most the amount to the
/// total, and pays the owner no less.
pub proof fn lemma_pay_to(s: Seq<(Seq<char>, u128)>, owner: Seq<char>, k: Seq<char>, v: u128)
    requires
        unique_keys(s),
        amount_of(s, k) + v <= u128::MAX,
    ensures
        unique_keys(pay_to(s, owner, k, v)),
        total(pay_to(s, owner, k, v)) <= total(s) + v,
        amount_of(pay_to(s, owner, k, v), owner) >= amount_of(s, owner),
{
    if k == owner {
        lemma_credit(s, k, v);
    } else {
        lemma_upsert(s, k, v);
        lemma_total_update_upsert(s, k, v);
        assert(lookup(upsert(s, k, v), owner) == lookup(s, owner));
    }
}

/// Splitting `p + q` into `p` and `q` does not increase the shares.
pub open spec fn superadditive_at(share_of: spec_fn(int) -> int, p: int, q: int) -> bool {
    share_of(p) + share_of(q) <= share_of(p + q)
}

/// Shares that never grow by splitting a percentage in two, that are
/// nonnegative, and that stay within `whole` (itself within 128 bits) up to
/// the whole of a tip.
pub open spec fn sound_shares(share_of: spec_fn(int) -> int, whole: int) -> bool {
    &&& whole <= u128::MAX
    &&& forall|p: int, q: int|
        0 <= p && 0 <= q && p + q <= 10_000 ==> #[trigger] superadditive_at(share_of, p, q)
    &&& forall|p: int| 0 <= p <= 10_000 ==> 0 <= #[trigger] share_of(p) <= whole
}

/// Along the royalty pass, the keys stay unique, what has been paid never
/// exceeds the shares taken out so far, and the owner (the account of the
/// first entry of `base`) is paid no less than at the start.
proof fn lemma_royalty_pass_total(
    base: Seq<(Seq<char>, u128)>,
    royalty: Seq<(Seq<char>, u16)>,
    share_of: spec_fn(int) -> int,
    whole: int,
    account: Seq<char>,
)
    requires
        sound_shares(share_of, whole),
        unique_keys(base),
        base.len() >= 1,
        account == base[0].0,
        total(base) <= share_of(AUTHOR_SHARE as int),
    ensures
        royalty_pass(base, royalty, share_of) matches Some((left, paid)) ==> {
            &&& 0 <= left <= CONTRACT_SHARE
            &&& unique_keys(paid)
            &&& total(paid) <= share_of(10_000 - left)
            &&& amount_of(paid, account) >= amount_of(base, account)
        },
    decreases royalty.len(),
{
    if royalty.len() > 0 {
        lemma_royalty_pass_total(base, royalty.drop_last(), share_of, whole, account);
        match royalty_pass(base, royalty.drop_last(), share_of) {
            None => {},
            Some((left, paid)) => {
                let (holder, percentage) = royalty.last();
                if left >= percentage {
                    let pay = share_of(percentage as int);
                    if pay > MIN_TO_BE_PAYED {
                        assert(0 <= pay <= whole);
                        assert(superadditive_at(share_of, 10_000 - left, percentage as int));
                        assert(0 <= share_of(10_000 - left + percentage) <= whole);
                        lemma_amount_within_total(paid, holder);
                        lemma_pay_to(paid, account, holder, pay as u128);
                    }
                }
            },
        }
    }
}

/// Splitting with sound shares never pays out more than the whole, and pays
/// the owner at least the author's share.
pub proof fn lemma_split_within(
    owner: Seq<char>,
    royalty: Seq<(Seq<char>, u16)>,
    contract: Seq<char>,
    share_of: spec_fn(int) -> int,
    whole: int,
)
    requires
        sound_shares(share_of, whole),
    ensures
        split(owner, royalty, contract, share_of) matches Some(p) ==> {
            &&& unique_keys(p)
            &&& total(p) <= whole
            &&& amount_of(p, owner) >= share_of(AUTHOR_SHARE as int)
        },
{
    let author = share_of(AUTHOR_SHARE as int);
    assert(0 <= author <= whole);
    let base = seq![(owner, author as u128)];
    assert(base.drop_last() =~= Seq::<(Seq<char>, u128)>::empty());
    assert(base.last().1 == author as u128);
    assert(total(base) == total(base.drop_last()) + base.last().1);
    assert(base[0].0 == owner);
    lemma_position_unique(base, 0);
    assert(amount_of(base, owner) == author);
    lemma_royalty_pass_total(base, royalty, share_of, whole, owner);
    match royalty_pass(base, royalty, share_of) {
        None => {},
        Some((left, paid)) => {
            assert(0 <= share_of(left) <= whole);
            assert(superadditive_at(share_of, 10_000 - left, left));
            lemma_amount_within_total(paid, contract);
            lemma_pay_to(paid, owner, contract, share_of(left) as u128);
        },
    }
}

/// Rounding down the two parts of an amount loses nothing against
/// rounding down the whole.
pub proof fn lemma_share_add(x: int, y: int, amount: int)
    requires
        x >= 0,
        y >= 0,
        amount >= 0,
    ensures
        share(x, amount) + share(y, amount) <= share(x + y, amount),
{
    let p = x * amount;
    let q = y * amount;
    assert(p >= 0 && q >= 0) by (nonlinear_arith)
        requires
            p == x * amount,
            q == y * amount,
            x >= 0,
            y >= 0,
            amount >= 0,
    ;
    assert((x + y) * amount == p + q) by (nonlinear_arith)
        requires
            p == x * amount,
            q == y * amount,
    ;
    assert(p / 10_000 + q / 10_000 <= (p + q) / 10_000) by (nonlinear_arith)
        requires
            p >= 0,
            q >= 0,
    ;
}

/// Up to the whole, a percentage of an amount is at most the amount.
pub proof fn lemma_share_bounds(percentage: int, amount: int)
    requires
        0 <= percentage <= 10_000,
        amount >= 0,
    ensures
        0 <= share(percentage, amount) <= amount,
{
    assert(0 <= percentage * amount <= 10_000 * amount) by (nonlinear_arith)
        requires
            0 <= percentage <= 10_000,
            amount >= 0,
    ;
}

/// The shares of a tip are sound, within the tip.
pub proof fn lemma_tip_shares_sound(amount: u128)
    ensures
        sound_shares(tip_shares(amount as int), amount as int),
{
    let share_of = tip_shares(amount as int);
    assert forall|p: int, q: int|
        0 <= p && 0 <= q && p + q <= 10_000 implies #[trigger] superadditive_at(share_of, p, q) by {
        lemma_share_add(p, q, amount as int);
    }
    assert forall|p: int| 0 <= p <= 10_000 implies 0 <= #[trigger] share_of(p) <= amount by {
        lemma_share_bounds(p, amount as int);
    }
}

/// A tip is never split into more than was deposited: the amounts of a
/// payout add up to at most the tip. And the owner is paid at least 90% of
/// the tip, whatever else the article's royalties say.
pub proof fn lemma_payout_within_tip(
    owner: Seq<char>,
    royalty: Seq<(Seq<char>, u16)>,
    contract: Seq<char>,
    amount: u128,
)
    ensures
        payout_entries(owner, royalty, contract, amount as int) matches Some(p) ==> {
            &&& total(p) <= amount
            &&& amount_of(p, owner) >= share(AUTHOR_SHARE as int, amount as int)
        },
{
    lemma_tip_shares_sound(amount);
    lemma_split_within(owner, royalty, contract, tip_shares(amount as int), amount as int);
}

/// An article without royalties pays 90% of a tip to its owner and the
/// remaining 10% to the contract; when the owner is the contract, its one
/// entry gets both shares.
pub proof fn lemma_split_without_royalty(owner: Seq<char>, contract: Seq<char>, amount: u128)
    ensures
        owner != contract ==> payout_entries(owner, Seq::empty(), contract, amount as int) == Some(
            seq![
                (owner, share(AUTHOR_SHARE as int, amount as int) as u128),
                (contract, share(CONTRACT_SHARE as int, amount as int) as u128),
            ],
        ),
        owner == contract ==> payout_entries(owner, Seq::empty(), contract, amount as int) == Some(
            seq![
                (
                    owner,
                    (share(AUTHOR_SHARE as int, amount as int) + share(
                        CONTRACT_SHARE as int,
                        amount as int,
                    )) as u128,
                ),
            ],
        ),
{
    let author = share(AUTHOR_SHARE as int, amount as int);
    let rest = share(CONTRACT_SHARE as int, amount as int);
    lemma_share_bounds(AUTHOR_SHARE as int, amount as int);
    lemma_share_bounds(CONTRACT_SHARE as int, amount as int);
    let base = seq![(owner, author as u128)];
    let last = rest as u128;
    assert(base[0].0 == owner);
    lemma_position_unique(base, 0);
    if owner != contract {
        assert(!has_key(base, contract));
        assert(amount_of(base, contract) == 0);
        assert(pay_to(base, owner, contract, last) =~= seq![(owner, author as u128), (contract, last)]);
    } else {
        assert(amount_of(base, contract) == author);
        assert(position(base, contract) == 0);
        assert(pay_to(base, owner, contract, last) =~= seq![(owner, (author + rest) as u128)]);
    }
}

/// The split of one tip, as a map from accounts to amounts.
pub struct Payout {
    pub payout: StrMap<u128>,
}

impl Default for Payout {
    /// An empty payout.
    fn default() -> (p: Self)
        ensures
            p.payout.wf(),
            p.payout.entries() == Seq::<(Seq<char>, u128)>::empty(),
    {
        Payout { payout: StrMap::new() }
    }
}

/// The errors of the tipping contract.
#[derive(Debug, Clone, Copy, PartialEq, Eq, Structural)]
pub enum TippingError {
    /// The deposit is below [`MIN_TIPPING_AMOUNT`].
    NotEnoughDeposit,
    /// No article has the given id.
    ArticleNotFound,
    /// The owner or a royalty holder of the article is not a valid account id.
    InvalidAccountId,
    /// The royalties of the article exceed the contract's share.
    RoyaltyExceeded,
    /// The signer tried to tip an article of their own.
    CannotTipOwnArticle,
    /// A callback was called by another account than the contract's.
    NotCalledByContract,
}

/// `r` is the payout that `expected` describes, or the error for an
/// article whose royalties exceed the contract's share.
pub open spec fn payout_matches(
    r: Result<Payout, TippingError>,
    expected: Option<Seq<(Seq<char>, u128)>>,
) -> bool {
    match expected {
        None => r == Err::<Payout, TippingError>(TippingError::RoyaltyExceeded),
        Some(entries) => r matches Ok(p) && p.payout.wf() && p.payout.entries() == entries,
    }
}

/// Pays `amount` to `account`: added to what the owner `owner` has, set
/// for any other account.
pub fn pay(payout: &mut StrMap<u128>, owner: &String, account: &String, amount: u128)
    requires
        old(payout).wf(),
        amount_of(old(payout).entries(), account@) + amount <= u128::MAX,
    ensures
        final(payout).wf(),
        final(payout).entries() == pay_to(old(payout).entries(), owner@, account@, amount),
{
    proof {
        lemma_upsert(payout.entries(), account@, amount);
    }
    if *account == *owner {
        let current: u128 = match payout.get(account) {
            Some(paid) => *paid,
            None => 0,
        };
        payout.insert(account.clone(), current + amount);
    } else {
        payout.insert(account.clone(), amount);
    }
}

/// The facts about a royalty pass in progress that keep the next payment
/// within 128 bits: `pay` more to `account`, taken out of what is left,
/// stays within the whole.
pub proof fn lemma_next_payment_fits(
    base: Seq<(Seq<char>, u128)>,
    taken: Seq<(Seq<char>, u16)>,
    share_of: spec_fn(int) -> int,
    whole: int,
    left: int,
    paid: Seq<(Seq<char>, u128)>,
    account: Seq<char>,
    percentage: int,
)
    requires
        sound_shares(share_of, whole),
        unique_keys(base),
        base.len() >= 1,
        total(base) <= share_of(AUTHOR_SHARE as int),
        royalty_pass(base, taken, share_of) == Some((left, paid)),
        0 <= percentage <= left,
    ensures
        unique_keys(paid),
        0 <= left <= CONTRACT_SHARE,
        amount_of(paid, account) + share_of(percentage) <= whole,
{
    lemma_royalty_pass_total(base, taken, share_of, whole, base[0].0);
    lemma_amount_within_total(paid, account);
    assert(superadditive_at(share_of, 10_000 - left, percentage));
    assert(0 <= share_of(10_000 - left + percentage) <= whole);
}

/// Splits a tip of `amount` on an article of `owner` with the given
/// royalties, the contract running as `contract`.
pub fn compute_payout(owner: &String, royalty: &StrMap<u16>, contract: &String, amount: u128) -> (r:
    Result<Payout, TippingError>)
    requires
        amount * AUTHOR_SHARE <= u128::MAX,
    ensures
        payout_matches(r, payout_entries(owner@, royalty.entries(), contract@, amount as int)),
{
    let ghost roy = royalty.entries();
    let ghost shares = tip_shares(amount as int);
    let ghost base = seq![(owner@, share(AUTHOR_SHARE as int, amount as int) as u128)];
    proof {
        lemma_tip_shares_sound(amount);
        lemma_position_unique(base, 0);
        assert(base.drop_last() =~= Seq::<(Seq<char>, u128)>::empty());
        assert(total(base) == total(base.drop_last()) + base.last().1);
    }
    let mut payout = Payout::default();
    payout.payout.insert(owner.clone(), royalty_to_payout(AUTHOR_SHARE, amount));
    assert(payout.payout.entries() =~= base);
    let mut left: u16 = CONTRACT_SHARE;
    let mut i: usize = 0;
    assert(roy.take(0) =~= Seq::<(Seq<char>, u16)>::empty());
    while i < royalty.len()
        invariant
            roy == royalty.entries(),
            shares == tip_shares(amount as int),
            sound_shares(shares, amount as int),
            i <= roy.len(),
            left <= CONTRACT_SHARE,
            amount * AUTHOR_SHARE <= u128::MAX,
            payout.payout.wf(),
            base == seq![(owner@, share(AUTHOR_SHARE as int, amount as int) as u128)],
            unique_keys(base),
            total(base) <= shares(AUTHOR_SHARE as int),
            royalty_pass(base, roy.take(i as int), shares) == Some((left as int, payout.payout.entries())),
        decreases roy.len() - i,
    {
        let holder = royalty.key_at(i);
        let percentage = *royalty.value_at(i);
        assert(roy.take(i + 1).drop_last() =~= roy.take(i as int));
        assert(roy.take(i + 1).last() == roy[i as int]);
        if left < percentage {
            proof {
                lemma_royalty_pass_fails_on(base, roy, shares, i + 1);
            }
            return Err(TippingError::RoyaltyExceeded);
        }
        proof {
            lemma_product_fits(percentage, amount);
            lemma_next_payment_fits(
                base,
                roy.take(i as int),
                shares,
                amount as int,
                left as int,
                payout.payout.entries(),
                holder@,
                percentage as int,
            );
        }
        left = left - percentage;
        let payout_amount = royalty_to_payout(percentage, amount);
        if payout_amount > MIN_TO_BE_PAYED {
            pay(&mut payout.payout, owner, holder, payout_amount);
        } else {
            left = left + percentage;
        }
        i = i + 1;
    }
    assert(roy.take(i as int) =~= roy);
    proof {
        lemma_product_fits(left, amount);
        lemma_next_payment_fits(
            base,
            roy,
            shares,
            amount as int,
            left as int,
            payout.payout.entries(),
            contract@,
            left as int,
        );
    }
    pay(&mut payout.payout, owner, contract, royalty_to_payout(left, amount));
    Ok(payout)
}

} // verus!
