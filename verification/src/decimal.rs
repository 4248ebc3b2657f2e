//! Decimal text of unsigned integers, as `format!("{}", n)` writes it.
use vstd::prelude::*;

verus! {

/// The character of the decimal digit `d` (`0 <= d < 10`).
pub open spec fn digit_char(d: int) -> char {
    (d + 48) as char
}

/// The decimal text of `n`: its digits, most significant first, without
/// leading zeros (`0` is written `"0"`).
pub open spec fn decimal(n: nat) -> Seq<char>
    decreases n,
{
    if n < 10 {
        seq![digit_char(n as int)]
    } else {
        decimal(n / 10).push(digit_char((n % 10) as int))
    }
}

/// Ten to the power `n`.
pub open spec fn pow10(n: nat) -> nat
    decreases n,
{
    if n == 0 {
        1
    } else {
        10 * pow10((n - 1) as nat)
    }
}

/// Powers of ten are positive and grow with the exponent.
pub proof fn lemma_pow10_monotone(i: nat, j: nat)
    ensures
        1 <= pow10(j),
        i <= j ==> pow10(i) <= pow10(j),
    decreases j,
{
    if j > 0 {
        lemma_pow10_monotone(i, (j - 1) as nat);
    }
}

/// Ten to the power `a + b` is the product of the two powers.
pub proof fn lemma_pow10_add(a: nat, b: nat)
    ensures
        pow10(a + b) == pow10(a) * pow10(b),
    decreases a,
{
    if a > 0 {
        lemma_pow10_add((a - 1) as nat, b);
        assert(pow10(a + b) == 10 * pow10((a - 1 + b) as nat));
        assert(pow10(a) == 10 * pow10((a - 1) as nat));
        assert(10 * (pow10((a - 1) as nat) * pow10(b)) == (10 * pow10((a - 1) as nat)) * pow10(b))
            by (nonlinear_arith);
    } else {
        assert(pow10(0) == 1);
        assert(a + b == b);
    }
}

/// The decimal text of `n` has as many digits as `n` needs: `n` is below
/// ten to their number, and (unless it is 0) at least ten to one less.
pub proof fn lemma_decimal_bounds(n: nat)
    ensures
        decimal(n).len() >= 1,
        n < pow10(decimal(n).len()),
        n >= 1 ==> pow10((decimal(n).len() - 1) as nat) <= n,
    decreases n,
{
    lemma_decimal_len(n);
    if n >= 10 {
        let m = n / 10;
        lemma_decimal_bounds(m);
        let l = decimal(m).len();
        assert(decimal(n).len() == l + 1);
        assert(pow10(l + 1) == 10 * pow10(l));
        assert(pow10(l) == 10 * pow10((l - 1) as nat));
        assert(n < 10 * pow10(l)) by (nonlinear_arith)
            requires
                m == n / 10,
                m < pow10(l),
        ;
        assert(10 * pow10((l - 1) as nat) <= n) by (nonlinear_arith)
            requires
                m == n / 10,
                pow10((l - 1) as nat) <= m,
        ;
    } else {
        assert(decimal(n).len() == 1);
        assert(pow10(1) == 10 * pow10(0));
    }
}

/// `c` is one of the digits `0` to `9`.
pub open spec fn is_digit(c: char) -> bool {
    48 <= (c as int) <= 57
}

/// The number that a string of digits stands for, read from the left.
pub open spec fn digits_value(text: Seq<char>) -> int
    decreases text.len(),
{
    if text.len() == 0 {
        0
    } else {
        digits_value(text.drop_last()) * 10 + ((text.last() as int) - 48)
    }
}

/// `text` is how `n` is written in decimal: one or more digits, no leading
/// zero unless `n` is 0 itself, standing for `n`.
pub open spec fn spells(text: Seq<char>, n: nat) -> bool {
    &&& text.len() >= 1
    &&& forall|i: int| 0 <= i < text.len() ==> is_digit(#[trigger] text[i])
    &&& text[0] == '0' ==> text.len() == 1
    &&& digits_value(text) == n
}

/// The decimal text of a number spells that number.
pub proof fn lemma_decimal_spells(n: nat)
    ensures
        spells(decimal(n), n),
    decreases n,
{
    if n >= 10 {
        lemma_decimal_spells(n / 10);
        lemma_decimal_len(n / 10);
        let t = decimal(n);
        let u = decimal(n / 10);
        assert(t.drop_last() =~= u);
        assert(t[0] == u[0]);
        assert(u[0] != '0') by {
            if u[0] == '0' {
                assert(u.len() == 1);
                assert(u == seq![digit_char((n / 10) as int)]);
            }
        }
        assert forall|i: int| 0 <= i < t.len() implies is_digit(#[trigger] t[i]) by {
            if i < u.len() {
                assert(t[i] == u[i]);
            }
        }
        assert(t.last() == digit_char((n % 10) as int));
        assert((t.last() as int) == (n % 10) + 48);
        assert(digits_value(t) == digits_value(u) * 10 + ((t.last() as int) - 48));
        assert((n / 10) * 10 + n % 10 == n);
    } else {
        let t = decimal(n);
        assert(t.drop_last() =~= Seq::<char>::empty());
        assert(t[0] == digit_char(n as int));
        assert((t[0] as int) == n + 48);
        assert(digits_value(t) == digits_value(t.drop_last()) * 10 + ((t.last() as int) - 48));
        assert forall|i: int| 0 <= i < t.len() implies is_digit(#[trigger] t[i]) by {
            assert(i == 0);
        }
    }
}

/// Appends `c` to `s` (std's `String::push`).
#[verifier::external_body]
fn push_char(s: &mut String, c: char)
    ensures
        final(s)@ == old(s)@.push(c),
{
    s.push(c)
}

/// The character of a digit.
fn digit(d: u64) -> (c: char)
    requires
        d < 10,
    ensures
        c == digit_char(d as int),
{
    let b: u8 = 48u8 + (d as u8);
    b as char
}

/// Appends the decimal text of `n` to `s`.
pub fn push_decimal(s: &mut String, n: u64)
    ensures
        final(s)@ == old(s)@ + decimal(n as nat),
    decreases n,
{
    if n >= 10 {
        push_decimal(s, n / 10);
    }
    push_char(s, digit(n % 10));
    assert(final(s)@ =~= old(s)@ + decimal(n as nat)) by {
        if n >= 10 {
            assert(decimal(n as nat) == decimal((n / 10) as nat).push(digit_char((n % 10) as int)));
        }
    }
}

/// The decimal text is never empty.
pub proof fn lemma_decimal_len(n: nat)
    ensures
        decimal(n).len() >= 1,
        n >= 10 ==> decimal(n).len() >= 2,
    decreases n,
{
    if n >= 10 {
        lemma_decimal_len(n / 10);
    }
}

/// Different numbers have different decimal texts.
pub proof fn lemma_decimal_injective(a: nat, b: nat)
    requires
        decimal(a) == decimal(b),
    ensures
        a == b,
    decreases a,
{
    lemma_decimal_len(a);
    lemma_decimal_len(b);
    if a < 10 && b < 10 {
        assert(decimal(a)[0] == digit_char(a as int));
        assert(decimal(b)[0] == digit_char(b as int));
    } else if a >= 10 && b >= 10 {
        let da = decimal(a / 10);
        let db = decimal(b / 10);
        assert(decimal(a).drop_last() =~= da);
        assert(decimal(b).drop_last() =~= db);
        assert(decimal(a).last() == digit_char((a % 10) as int));
        assert(decimal(b).last() == digit_char((b % 10) as int));
        lemma_decimal_injective(a / 10, b / 10);
    }
}

} // verus!
