//! Decimal renderings of machine integers, as specifications and
//! executable constructors: zero-padded fixed-width numerals for
//! temporary ids and plain numerals for conflicted-copy counters.

use vstd::arithmetic::div_mod::{
    lemma_div_denominator, lemma_fundamental_div_mod, lemma_fundamental_div_mod_converse,
    lemma_mod_bound,
};
use vstd::prelude::*;

verus! {

/// The decimal digit character of a value below ten.
pub open spec fn dec_digit(n: nat) -> char
    recommends
        n < 10,
{
    if n == 0 {
        '0'
    } else if n == 1 {
        '1'
    } else if n == 2 {
        '2'
    } else if n == 3 {
        '3'
    } else if n == 4 {
        '4'
    } else if n == 5 {
        '5'
    } else if n == 6 {
        '6'
    } else if n == 7 {
        '7'
    } else if n == 8 {
        '8'
    } else {
        '9'
    }
}

/// Whether a character is a decimal digit.
pub open spec fn is_dec_digit(c: char) -> bool {
    '0' <= c <= '9'
}

/// The numeric value of a digit character.
pub open spec fn digit_val(c: char) -> nat
    recommends
        is_dec_digit(c),
{
    (c as nat - '0' as nat) as nat
}

/// Powers of ten.
pub open spec fn pow10(e: nat) -> nat
    decreases e,
{
    if e == 0 {
        1nat
    } else {
        10 * pow10((e - 1) as nat)
    }
}

pub proof fn lemma_pow10_pos(e: nat)
    ensures
        pow10(e) >= 1,
    decreases e,
{
    if e > 0 {
        lemma_pow10_pos((e - 1) as nat);
    }
}

/// `n` rendered as exactly `width` decimal digits, zero-padded, most
/// significant first; digits beyond the width are dropped.
pub open spec fn pad_dec(n: nat, width: nat) -> Seq<char>
    decreases width,
{
    if width == 0 {
        Seq::<char>::empty()
    } else {
        pad_dec(n / 10, (width - 1) as nat).push(dec_digit(n % 10))
    }
}

/// `n` rendered as a plain decimal numeral, no leading zeros.
pub open spec fn dec_seq(n: nat) -> Seq<char>
    decreases n,
{
    if n < 10 {
        seq![dec_digit(n)]
    } else {
        dec_seq(n / 10).push(dec_digit(n % 10))
    }
}

/// The value of a digit string, most significant first.
pub open spec fn dec_value(s: Seq<char>) -> nat
    decreases s.len(),
{
    if s.len() == 0 {
        0nat
    } else {
        dec_value(s.drop_last()) * 10 + digit_val(s.last())
    }
}

pub proof fn lemma_pad_dec_len(n: nat, width: nat)
    ensures
        pad_dec(n, width).len() == width,
        forall|i: int| 0 <= i < width ==> is_dec_digit(#[trigger] pad_dec(n, width)[i]),
    decreases width,
{
    if width > 0 {
        lemma_pad_dec_len(n / 10, (width - 1) as nat);
    }
}

pub proof fn lemma_dec_seq_digits(n: nat)
    ensures
        dec_seq(n).len() >= 1,
        forall|i: int| 0 <= i < dec_seq(n).len() ==> is_dec_digit(#[trigger] dec_seq(n)[i]),
    decreases n,
{
    if n >= 10 {
        lemma_dec_seq_digits(n / 10);
    }
}

/// One unfolding step of `dec_value` is one step of the positional rule.
proof fn lemma_dec_value_step(p: nat, n: nat)
    requires
        p > 0,
    ensures
        ((n / 10) % p) * 10 + (n % 10) == n % (10 * p),
{
    vstd::arithmetic::div_mod::lemma_mod_breakdown(n as int, 10, p as int);
}

/// The value of the fixed-width numeral is `n` modulo `10^width`.
pub proof fn lemma_dec_value_pad(n: nat, width: nat)
    ensures
        dec_value(pad_dec(n, width)) == n % pow10(width),
    decreases width,
{
    if width == 0 {
        assert(pow10(0) == 1);
    } else {
        lemma_dec_value_pad(n / 10, (width - 1) as nat);
        lemma_pow10_pos((width - 1) as nat);
        let s = pad_dec(n, width);
        assert(s.drop_last() == pad_dec(n / 10, (width - 1) as nat));
        assert(s.last() == dec_digit(n % 10));
        assert(digit_val(dec_digit(n % 10)) == n % 10);
        lemma_dec_value_step(pow10((width - 1) as nat), n);
    }
}

/// The value of the plain numeral is `n` itself.
pub proof fn lemma_dec_value_dec_seq(n: nat)
    ensures
        dec_value(dec_seq(n)) == n,
    decreases n,
{
    if n < 10 {
        let s = dec_seq(n);
        assert(s == seq![dec_digit(n)]);
        assert(s.len() == 1);
        assert(s.last() == dec_digit(n));
        assert(s.drop_last() =~= Seq::<char>::empty());
        assert(dec_value(s.drop_last()) == 0);
        assert(dec_value(s) == dec_value(s.drop_last()) * 10 + digit_val(s.last()));
        assert(digit_val(dec_digit(n)) == n);
    } else {
        lemma_dec_value_dec_seq(n / 10);
        let s = dec_seq(n);
        assert(s == dec_seq(n / 10).push(dec_digit(n % 10)));
        assert(s.len() == dec_seq(n / 10).len() + 1);
        assert(s.drop_last() =~= dec_seq(n / 10));
        assert(s.last() == dec_digit(n % 10));
        assert(dec_value(s) == dec_value(s.drop_last()) * 10 + digit_val(s.last()));
        lemma_mod_bound(n as int, 10);
        assert(digit_val(dec_digit(n % 10)) == n % 10);
        lemma_fundamental_div_mod(n as int, 10);
    }
}

/// Distinct values have distinct plain numerals.
pub proof fn lemma_dec_seq_injective(n: nat, m: nat)
    requires
        dec_seq(n) == dec_seq(m),
    ensures
        n == m,
{
    lemma_dec_value_dec_seq(n);
    lemma_dec_value_dec_seq(m);
}

/// A digit-string prefix never exceeds the whole string in value.
pub proof fn lemma_dec_value_prefix_le(s: Seq<char>, i: int)
    requires
        0 <= i <= s.len(),
    ensures
        dec_value(s.subrange(0, i)) <= dec_value(s),
    decreases s.len() - i,
{
    if i < s.len() {
        lemma_dec_value_prefix_le(s, i + 1);
        let a = s.subrange(0, i);
        let b = s.subrange(0, i + 1);
        assert(b.drop_last() =~= a);
        assert(dec_value(b) == dec_value(a) * 10 + digit_val(b.last()));
        assert(dec_value(a) * 10 >= dec_value(a)) by (nonlinear_arith);
    } else {
        assert(s.subrange(0, i) =~= s);
    }
}

/// The digit characters of byte digits stored least significant first,
/// read out most significant first.
pub open spec fn digits_as_chars(digits: Seq<u8>) -> Seq<char>
    decreases digits.len(),
{
    if digits.len() == 0 {
        Seq::<char>::empty()
    } else {
        seq![dec_digit(digits.last() as nat % 10)] + digits_as_chars(digits.drop_last())
    }
}

/// Reading the stored digits out from position `i` on equals reading
/// from `i + 1` on and then appending the digit at `i`.
proof fn lemma_digits_as_chars_step(digits: Seq<u8>, i: int)
    requires
        0 <= i < digits.len(),
    ensures
        digits_as_chars(digits.subrange(i, digits.len() as int)) == digits_as_chars(
            digits.subrange(i + 1, digits.len() as int),
        ).push(dec_digit(digits[i] as nat % 10)),
    decreases digits.len() - i,
{
    let n = digits.len() as int;
    let whole = digits.subrange(i, n);
    if i == n - 1 {
        assert(whole.drop_last() =~= digits.subrange(i + 1, n));
        assert(digits_as_chars(digits.subrange(i + 1, n)) =~= Seq::<char>::empty());
        assert(digits_as_chars(whole) =~= digits_as_chars(digits.subrange(i + 1, n)).push(
            dec_digit(digits[i] as nat % 10),
        ));
    } else {
        let shorter = digits.subrange(0, n - 1);
        lemma_digits_as_chars_step(shorter, i);
        assert(whole.drop_last() =~= shorter.subrange(i, n - 1));
        assert(shorter.subrange(i, n - 1) =~= shorter.subrange(i, shorter.len() as int));
        assert(shorter.subrange(i + 1, n - 1) =~= digits.subrange(i + 1, n).drop_last());
        assert(whole.last() == digits.last());
        assert(digits_as_chars(whole) == seq![
            dec_digit(digits.last() as nat % 10),
        ] + digits_as_chars(shorter.subrange(i, n - 1)));
        assert(digits_as_chars(digits.subrange(i + 1, n)) == seq![
            dec_digit(digits.last() as nat % 10),
        ] + digits_as_chars(digits.subrange(i + 1, n).drop_last()));
        assert(shorter[i] == digits[i]);
        assert(digits_as_chars(whole) =~= digits_as_chars(digits.subrange(i + 1, n)).push(
            dec_digit(digits[i] as nat % 10),
        ));
    }
}

/// The numeral of `n`, executably.
#[verifier::loop_isolation(true)]
pub fn u64_to_dec_string(n: u64) -> (r: String)
    ensures
        r@ == dec_seq(n as nat),
{
    let mut digits: Vec<u8> = Vec::new();
    let mut m: u64 = n;
    // Least significant digit first.
    loop
        invariant_except_break
            dec_seq(n as nat) == dec_seq(m as nat) + digits_as_chars(digits@),
        ensures
            dec_seq(n as nat) == digits_as_chars(digits@),
        decreases m,
    {
        let ghost old_m = m as nat;
        let ghost old_digits = digits@;
        let d: u8 = (m % 10) as u8;
        digits.push(d);
        proof {
            assert(digits@.drop_last() =~= old_digits);
            assert(digits_as_chars(digits@) =~= seq![
                dec_digit(old_m % 10),
            ] + digits_as_chars(old_digits));
        }
        if m < 10 {
            proof {
                assert(dec_seq(old_m) =~= seq![dec_digit(old_m)]);
                assert(old_m % 10 == old_m);
                assert(dec_seq(n as nat) =~= digits_as_chars(digits@));
            }
            break ;
        }
        m = m / 10;
        proof {
            lemma_fundamental_div_mod(old_m as int, 10);
            assert(dec_seq(old_m) == dec_seq(old_m / 10).push(dec_digit(old_m % 10)));
            assert(dec_seq(old_m / 10) + digits_as_chars(digits@) =~= dec_seq(old_m)
                + digits_as_chars(old_digits));
        }
    }
    let mut s = String::new();
    let mut i: usize = digits.len();
    proof {
        assert(digits@.subrange(i as int, digits@.len() as int) =~= Seq::<u8>::empty());
    }
    while i > 0
        invariant
            i <= digits@.len(),
            s@ == digits_as_chars(digits@.subrange(i as int, digits@.len() as int)),
            dec_seq(n as nat) == digits_as_chars(digits@),
        decreases i,
    {
        i = i - 1;
        append_digit(&mut s, digits[i]);
        proof {
            lemma_digits_as_chars_step(digits@, i as int);
        }
    }
    proof {
        assert(digits@.subrange(0, digits@.len() as int) =~= digits@);
    }
    s
}

/// Appends the character of one digit.
pub fn append_digit(s: &mut String, d: u8)
    ensures
        final(s)@ == old(s)@.push(dec_digit(d as nat % 10)),
{
    let r: u8 = d % 10;
    proof {
        reveal_strlit("0");
        reveal_strlit("1");
        reveal_strlit("2");
        reveal_strlit("3");
        reveal_strlit("4");
        reveal_strlit("5");
        reveal_strlit("6");
        reveal_strlit("7");
        reveal_strlit("8");
        reveal_strlit("9");
    }
    if r == 0 {
        s.append("0");
    } else if r == 1 {
        s.append("1");
    } else if r == 2 {
        s.append("2");
    } else if r == 3 {
        s.append("3");
    } else if r == 4 {
        s.append("4");
    } else if r == 5 {
        s.append("5");
    } else if r == 6 {
        s.append("6");
    } else if r == 7 {
        s.append("7");
    } else if r == 8 {
        s.append("8");
    } else {
        s.append("9");
    }
    proof {
        assert(s@ =~= old(s)@.push(dec_digit(d as nat % 10)));
    }
}

} // verus!
