use vstd::prelude::*;

verus! {

/// An ASCII decimal digit.
pub open spec fn is_digit(c: u8) -> bool {
    48 <= c <= 57
}

pub open spec fn all_digits(s: Seq<u8>) -> bool {
    forall|i: int| 0 <= i < s.len() ==> is_digit(#[trigger] s[i])
}

/// The ASCII digit for `d` (0..=9).
pub open spec fn digit_char(d: nat) -> u8 {
    (48 + d) as u8
}

pub open spec fn pow10(k: nat) -> nat
    decreases k,
{
    if k == 0 {
        1
    } else {
        10 * pow10((k - 1) as nat)
    }
}

/// The shortest decimal spelling of `n` (at least one digit).
pub open spec fn dec_digits(n: nat) -> Seq<u8>
    decreases n,
{
    if n < 10 {
        seq![digit_char(n)]
    } else {
        dec_digits(n / 10).push(digit_char(n % 10))
    }
}

pub open spec fn zeros(k: nat) -> Seq<u8> {
    Seq::new(k, |i: int| 48u8)
}

/// The decimal spelling of `n`, left-padded with zeros to at least `min` digits.
pub open spec fn padded_digits(n: nat, min: nat) -> Seq<u8> {
    let d = dec_digits(n);
    if d.len() < min {
        zeros((min - d.len()) as nat) + d
    } else {
        d
    }
}

/// The last `k` decimal digits of `v`, most significant first.
pub open spec fn fixed_digits(v: nat, k: nat) -> Seq<u8>
    decreases k,
{
    if k == 0 {
        seq![]
    } else {
        fixed_digits(v / 10, (k - 1) as nat).push(digit_char(v % 10))
    }
}

/// The value of a string of decimal digits.
pub open spec fn dec_value(s: Seq<u8>) -> nat
    decreases s.len(),
{
    if s.len() == 0 {
        0
    } else {
        dec_value(s.drop_last()) * 10 + (s.last() - 48) as nat
    }
}

pub proof fn lemma_dec_digits(n: nat)
    ensures
        dec_digits(n).len() >= 1,
        all_digits(dec_digits(n)),
        n < pow10(dec_digits(n).len()),
        dec_digits(n).len() >= 2 ==> n >= 10,
    decreases n,
{
    if n >= 10 {
        lemma_dec_digits(n / 10);
        let d = dec_digits(n / 10);
        assert(dec_digits(n) == d.push(digit_char(n % 10)));
        assert(pow10(d.len() + 1) == 10 * pow10(d.len()));
    } else {
        assert(pow10(1) == 10) by {
            reveal_with_fuel(pow10, 2);
        }
    }
}

pub proof fn lemma_pow10_positive(k: nat)
    ensures
        pow10(k) >= 1,
    decreases k,
{
    if k > 0 {
        lemma_pow10_positive((k - 1) as nat);
    }
}

pub proof fn lemma_dec_digits_short(n: nat, k: nat)
    requires
        n < pow10(k),
        k >= 1,
    ensures
        dec_digits(n).len() <= k,
    decreases k,
{
    if n >= 10 {
        lemma_pow10_positive((k - 1) as nat);
        if k == 1 {
            assert(pow10(1) == 10) by {
                reveal_with_fuel(pow10, 2);
            }
        } else {
            assert(n / 10 < pow10((k - 1) as nat));
            lemma_dec_digits_short(n / 10, (k - 1) as nat);
        }
    }
}

pub proof fn lemma_fixed_zero(k: nat)
    ensures
        fixed_digits(0, k) == zeros(k),
    decreases k,
{
    if k > 0 {
        lemma_fixed_zero((k - 1) as nat);
        assert(fixed_digits(0, k) =~= zeros(k));
    }
}

/// A number below `10^k` padded to `k` digits is its fixed-width spelling.
pub proof fn lemma_padded_is_fixed(n: nat, k: nat)
    requires
        n < pow10(k),
    ensures
        padded_digits(n, k) == fixed_digits(n, k) || k == 0,
    decreases k,
{
    if k == 0 {
    } else if n < 10 {
        lemma_fixed_zero((k - 1) as nat);
        assert(n / 10 == 0);
        assert(padded_digits(n, k) =~= fixed_digits(n, k));
    } else {
        lemma_pow10_positive((k - 1) as nat);
        assert(n / 10 < pow10((k - 1) as nat));
        lemma_dec_digits_short(n, k);
        lemma_dec_digits(n / 10);
        lemma_padded_is_fixed(n / 10, (k - 1) as nat);
        if k - 1 == 0 {
            assert(pow10(0) == 1);
        }
        let d = dec_digits(n / 10);
        assert(dec_digits(n) == d.push(digit_char(n % 10)));
        assert(padded_digits(n, k) =~= padded_digits(n / 10, (k - 1) as nat).push(
            digit_char(n % 10),
        ));
    }
}

pub proof fn lemma_fixed_digits(v: nat, k: nat)
    ensures
        fixed_digits(v, k).len() == k,
        all_digits(fixed_digits(v, k)),
        v < pow10(k) ==> dec_value(fixed_digits(v, k)) == v,
    decreases k,
{
    if k > 0 {
        lemma_fixed_digits(v / 10, (k - 1) as nat);
        let s = fixed_digits(v, k);
        assert(s.drop_last() =~= fixed_digits(v / 10, (k - 1) as nat));
        if v < pow10(k) {
            assert(v / 10 < pow10((k - 1) as nat));
        }
    }
}

/// Spelling the value of a digit string at its own width gives the string back.
pub proof fn lemma_fixed_of_value(s: Seq<u8>)
    requires
        all_digits(s),
    ensures
        fixed_digits(dec_value(s), s.len()) == s,
        dec_value(s) < pow10(s.len()),
    decreases s.len(),
{
    if s.len() > 0 {
        let p = s.drop_last();
        assert(all_digits(p)) by {
            assert forall|i: int| 0 <= i < p.len() implies is_digit(#[trigger] p[i]) by {
                assert(p[i] == s[i]);
            }
        }
        lemma_fixed_of_value(p);
        assert(is_digit(s[s.len() - 1]));
        let v = dec_value(s);
        let d = (s.last() - 48) as nat;
        assert(v == dec_value(p) * 10 + d);
        assert(v / 10 == dec_value(p) && v % 10 == d) by (nonlinear_arith)
            requires
                v == dec_value(p) * 10 + d,
                d < 10,
        ;
        assert(fixed_digits(v, s.len()) =~= s);
    }
}

/// Appends the decimal spelling of `n` to `out`.
pub fn push_digits(out: &mut Vec<u8>, n: u32)
    ensures
        final(out)@ == old(out)@ + dec_digits(n as nat),
    decreases n,
{
    if n >= 10 {
        push_digits(out, n / 10);
    }
    out.push(48 + (n % 10) as u8);
    proof {
        assert(final(out)@ =~= old(out)@ + dec_digits(n as nat));
    }
}

/// Number of decimal digits of `n`.
pub fn digit_count(n: u32) -> (r: usize)
    ensures
        r == dec_digits(n as nat).len(),
        1 <= r <= 10,
    decreases n,
{
    proof {
        lemma_dec_digits(n as nat);
        assert(n < pow10(10)) by {
            reveal_with_fuel(pow10, 11);
        }
        lemma_dec_digits_short(n as nat, 10);
    }
    if n >= 10 {
        digit_count(n / 10) + 1
    } else {
        1
    }
}

/// Appends the decimal spelling of `number`, left-padded with zeros to `min_digits` digits.
pub fn append_unsigned(out: &mut Vec<u8>, number: u32, min_digits: u8)
    ensures
        final(out)@ == old(out)@ + padded_digits(number as nat, min_digits as nat),
{
    let len = digit_count(number);
    let mut k: usize = len;
    while k < min_digits as usize
        invariant
            len <= k,
            k <= min_digits || k == len,
            out@ == old(out)@ + zeros((k - len) as nat),
        decreases min_digits - k,
    {
        out.push(48u8);
        k = k + 1;
        proof {
            assert(out@ =~= old(out)@ + zeros((k - len) as nat));
        }
    }
    push_digits(out, number);
    proof {
        let d = dec_digits(number as nat);
        if d.len() >= min_digits {
            assert(k == len);
            assert(zeros(0) =~= Seq::<u8>::empty());
        }
        assert(final(out)@ =~= old(out)@ + padded_digits(number as nat, min_digits as nat));
    }
}

} // verus!
