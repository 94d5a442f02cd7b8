//! Decimal number parsing over character sequences: integers as
//! `str::parse::<i64>` reads them, and decimals in the grammar of
//! `str::parse::<f64>` (fraction and exponent included) scaled exactly to
//! an integer unit, with the arithmetic done on digit strings.

use vstd::prelude::*;
use crate::text::{chars_of, is_first_index, spec_find};

verus! {

/// Whether `c` is an ASCII decimal digit.
pub open spec fn is_digit(c: char) -> bool {
    48 <= (c as u32) <= 57
}

/// The value of an ASCII digit.
pub open spec fn digit_val(c: char) -> nat {
    ((c as u32) - 48) as nat
}

/// Whether every character of `s` is a decimal digit.
pub open spec fn all_digits(s: Seq<char>) -> bool {
    forall|i: int| 0 <= i < s.len() ==> is_digit(#[trigger] s[i])
}

/// The value of a string of decimal digits.
pub open spec fn digits_value(s: Seq<char>) -> nat
    decreases s.len(),
{
    if s.len() == 0 {
        0
    } else {
        digits_value(s.drop_last()) * 10 + digit_val(s.last())
    }
}

/// Ten to the power `k`.
pub open spec fn pow10(k: nat) -> nat
    decreases k,
{
    if k == 0 {
        1
    } else {
        10 * pow10((k - 1) as nat)
    }
}

/// The sign of a signed decimal and the characters after it.
pub open spec fn split_sign(s: Seq<char>) -> (bool, Seq<char>) {
    if s.len() > 0 && s[0] == '-' {
        (true, s.drop_first())
    } else if s.len() > 0 && s[0] == '+' {
        (false, s.drop_first())
    } else {
        (false, s)
    }
}

/// `str::parse::<i64>`: an optional sign followed by at least one
/// decimal digit, whose value fits in an `i64`.
pub open spec fn spec_parse_i64(s: Seq<char>) -> Option<i64> {
    let (neg, body) = split_sign(s);
    if body.len() == 0 || !all_digits(body) {
        None
    } else if neg {
        if digits_value(body) <= 0x8000_0000_0000_0000 {
            Some((-digits_value(body)) as i64)
        } else {
            None
        }
    } else {
        if digits_value(body) <= 0x7fff_ffff_ffff_ffff {
            Some(digits_value(body) as i64)
        } else {
            None
        }
    }
}

proof fn lemma_digits_value_step(s: Seq<char>, i: int)
    requires
        0 <= i < s.len(),
    ensures
        digits_value(s.take(i + 1)) == digits_value(s.take(i)) * 10 + digit_val(s[i]),
{
    assert(s.take(i + 1).drop_last() =~= s.take(i));
}

/// Reads the digits `s[from..]`; `None` when one is not a digit, else
/// their value, or `u128::MAX` once the value exceeds `cap`.
fn read_digits(s: &Vec<char>, from: usize, cap: u128) -> (r: Option<u128>)
    requires
        from <= s.len(),
        cap < 0x1_0000_0000_0000_0000_0000_0000_0000,
    ensures
        r is None <==> !all_digits(s@.skip(from as int)),
        r matches Some(v) ==> (if digits_value(s@.skip(from as int)) <= cap {
            v == digits_value(s@.skip(from as int))
        } else {
            v == u128::MAX
        }),
{
    let ghost body = s@.skip(from as int);
    let mut acc: u128 = 0;
    let mut over = false;
    let mut i: usize = from;
    while i < s.len()
        invariant
            from <= i <= s.len(),
            body == s@.skip(from as int),
            cap < 0x1_0000_0000_0000_0000_0000_0000_0000,
            all_digits(body.take(i - from)),
            !over ==> acc == digits_value(body.take(i - from)) && acc <= cap,
            over ==> digits_value(body.take(i - from)) > cap,
        decreases s.len() - i,
    {
        let c = s[i];
        let code = c as u32;
        if code < 48 || code > 57 {
            assert(body[i - from] == c);
            assert(!all_digits(body));
            return None;
        }
        proof {
            lemma_digits_value_step(body, i - from);
            assert(body[i - from] == c);
        }
        if !over {
            let d = (code - 48) as u128;
            let next = acc * 10 + d;
            if next > cap {
                over = true;
            } else {
                acc = next;
            }
        }
        assert(all_digits(body.take(i + 1 - from))) by {
            assert forall|t: int| 0 <= t < i + 1 - from implies is_digit(
                #[trigger] body.take(i + 1 - from)[t],
            ) by {
                if t < i - from {
                    assert(body.take(i + 1 - from)[t] == body.take(i - from)[t]);
                }
            }
        }
        i += 1;
    }
    assert(body.take(s.len() - from) =~= body);
    if over {
        Some(u128::MAX)
    } else {
        Some(acc)
    }
}

/// Reads a signed decimal integer as `str::parse::<i64>` does.
pub fn parse_i64(s: &Vec<char>) -> (r: Option<i64>)
    ensures
        r == spec_parse_i64(s@),
{
    let mut from: usize = 0;
    let mut neg = false;
    if s.len() > 0 && s[0] == '-' {
        neg = true;
        from = 1;
    } else if s.len() > 0 && s[0] == '+' {
        from = 1;
    }
    assert(split_sign(s@).1 =~= s@.skip(from as int));
    assert(split_sign(s@).0 == neg);
    if from == s.len() {
        return None;
    }
    match read_digits(s, from, 0x8000_0000_0000_0000) {
        None => None,
        Some(v) => {
            if neg {
                if v <= 0x8000_0000_0000_0000 {
                    if v == 0x8000_0000_0000_0000 {
                        Some(i64::MIN)
                    } else {
                        Some(-(v as i64))
                    }
                } else {
                    None
                }
            } else {
                if v <= 0x7fff_ffff_ffff_ffff {
                    Some(v as i64)
                } else {
                    None
                }
            }
        },
    }
}

/// The integer and fraction digits of an unsigned decimal `ip[.fp]`.
pub open spec fn split_decimal(body: Seq<char>) -> (Seq<char>, Seq<char>) {
    match spec_find(body, '.') {
        Some(p) => (body.take(p), body.skip(p + 1)),
        None => (body, Seq::empty()),
    }
}

/// Whether `c` marks the exponent of a decimal (`e` or `E`).
pub open spec fn is_exp_mark(c: char) -> bool {
    c == 'e' || c == 'E'
}

/// Whether `i` is the index of the first exponent mark of `s`.
pub open spec fn is_first_exp(s: Seq<char>, i: int) -> bool {
    &&& 0 <= i < s.len()
    &&& is_exp_mark(s[i])
    &&& forall|j: int| 0 <= j < i ==> !is_exp_mark(s[j])
}

/// A decimal split at its first exponent mark: the mantissa, and the
/// exponent text when there is a mark.
pub open spec fn split_exponent(body: Seq<char>) -> (Seq<char>, Option<Seq<char>>) {
    if exists|i: int| is_first_exp(body, i) {
        let p = choose|i: int| is_first_exp(body, i);
        (body.take(p), Some(body.skip(p + 1)))
    } else {
        (body, None)
    }
}

/// A decimal as `str::parse::<f64>` reads a finite number:
/// `[+-](digits[.digits] | digits. | .digits)[(e|E)[+-]digits]`, as
/// `(negative, n, k)` for the value `n * 10^k` with that sign. `None` for
/// any other text (the words `inf`, `infinity` and `nan` among them).
pub open spec fn spec_decimal(s: Seq<char>) -> Option<(bool, nat, int)> {
    let (neg, body) = split_sign(s);
    let (mant, ex) = split_exponent(body);
    let (ip, fp) = split_decimal(mant);
    if !all_digits(ip) || !all_digits(fp) || ip.len() + fp.len() == 0 {
        None
    } else {
        match ex {
            None => Some((neg, digits_value(ip + fp), -(fp.len() as int))),
            Some(et) => {
                let (eneg, ed) = split_sign(et);
                if ed.len() == 0 || !all_digits(ed) {
                    None
                } else {
                    let e: int = if eneg {
                        -(digits_value(ed) as int)
                    } else {
                        digits_value(ed) as int
                    };
                    Some((neg, digits_value(ip + fp), e - fp.len()))
                }
            },
        }
    }
}

/// `n * unit * 10^k`, truncated toward zero when `k` is negative.
pub open spec fn scaled_trunc(n: nat, unit: nat, k: int) -> nat {
    if k >= 0 {
        n * unit * pow10(k as nat)
    } else {
        n * unit / pow10((-k) as nat)
    }
}

/// A signed magnitude as an `i64`; `None` when the magnitude exceeds
/// `i64::MAX`.
pub open spec fn signed_fit(neg: bool, q: nat) -> Option<i64> {
    if q > 0x7fff_ffff_ffff_ffff {
        None
    } else if neg {
        Some((-q) as i64)
    } else {
        Some(q as i64)
    }
}

/// A finite decimal (see [`spec_decimal`]) scaled by `unit` and truncated
/// toward zero to an integer. `None` when the text is not a finite
/// decimal or the result does not fit in an `i64`.
pub open spec fn spec_parse_fixed(s: Seq<char>, unit: nat) -> Option<i64> {
    match spec_decimal(s) {
        Some((neg, n, k)) => signed_fit(neg, scaled_trunc(n, unit, k)),
        None => None,
    }
}

/// Whether `c` is the lower-case ASCII letter `lower` in either case.
pub open spec fn letter_ci(c: char, lower: char) -> bool {
    c == lower || (c as u32) + 32 == (lower as u32)
}

/// Whether `s` spells the lower-case word `w`, ignoring ASCII case.
pub open spec fn word_ci(s: Seq<char>, w: Seq<char>) -> bool {
    s.len() == w.len() && forall|i: int| 0 <= i < s.len() ==> letter_ci(#[trigger] s[i], w[i])
}

/// Whether the text reads as a positive number in `str::parse::<f64>`'s
/// grammar: a finite decimal with no minus sign and a nonzero digit, or
/// `inf` / `infinity` (any case) with no minus sign. `nan` is not positive.
/// The exact value of the text decides, however small it is.
pub open spec fn spec_positive_number(s: Seq<char>) -> bool {
    match spec_decimal(s) {
        Some((neg, n, k)) => !neg && n > 0,
        None => {
            let (neg, body) = split_sign(s);
            !neg && (word_ci(body, "inf"@) || word_ci(body, "infinity"@))
        },
    }
}

proof fn lemma_digits_value_bound(s: Seq<char>)
    requires
        all_digits(s),
    ensures
        digits_value(s) < pow10(s.len()),
    decreases s.len(),
{
    if s.len() > 0 {
        assert(all_digits(s.drop_last())) by {
            assert forall|t: int| 0 <= t < s.len() - 1 implies is_digit(
                #[trigger] s.drop_last()[t],
            ) by {
                assert(s.drop_last()[t] == s[t]);
            }
        }
        lemma_digits_value_bound(s.drop_last());
        let a = digits_value(s.drop_last());
        let p = pow10(s.drop_last().len());
        let d = digit_val(s.last());
        assert(is_digit(s[s.len() - 1]));
        assert(a * 10 + d < 10 * p) by (nonlinear_arith)
            requires
                a < p,
                d <= 9,
        ;
    }
}

proof fn lemma_pow10_monotone(a: nat, b: nat)
    requires
        a <= b,
    ensures
        pow10(a) <= pow10(b),
    decreases b,
{
    if a < b {
        lemma_pow10_monotone(a, (b - 1) as nat);
    }
}

proof fn lemma_pow10_positive(k: nat)
    ensures
        pow10(k) >= 1,
    decreases k,
{
    if k > 0 {
        lemma_pow10_positive((k - 1) as nat);
    }
}

proof fn lemma_pow10_add(a: nat, b: nat)
    ensures
        pow10(a + b) == pow10(a) * pow10(b),
    decreases b,
{
    if b > 0 {
        lemma_pow10_add(a, (b - 1) as nat);
        assert(pow10(a + b) == 10 * pow10((a + (b - 1)) as nat));
        let p = pow10(a);
        let q = pow10((b - 1) as nat);
        assert(10 * (p * q) == p * (10 * q)) by (nonlinear_arith);
    } else {
        assert(pow10(0) == 1);
        assert(pow10(a) * 1 == pow10(a));
    }
}

proof fn lemma_pow10_19()
    ensures
        pow10(19) == 10_000_000_000_000_000_000,
{
    reveal_with_fuel(pow10, 20);
}

/// The value of digits `a` followed by digits `b`.
proof fn lemma_digits_value_concat(a: Seq<char>, b: Seq<char>)
    ensures
        digits_value(a + b) == digits_value(a) * pow10(b.len()) + digits_value(b),
    decreases b.len(),
{
    if b.len() == 0 {
        assert(a + b =~= a);
        assert(pow10(0) == 1);
        assert(digits_value(b) == 0);
        assert(digits_value(a) * 1 == digits_value(a));
    } else {
        let b0 = b.drop_last();
        lemma_digits_value_concat(a, b0);
        assert((a + b).drop_last() =~= a + b0);
        assert((a + b).last() == b.last());
        assert(digits_value(a + b) == digits_value(a + b0) * 10 + digit_val(b.last()));
        assert(pow10(b.len()) == 10 * pow10(b0.len()));
        let x = digits_value(a);
        let p = pow10(b0.len());
        let y = digits_value(b0);
        let d = digit_val(b.last());
        assert((x * p + y) * 10 + d == x * (10 * p) + (y * 10 + d)) by (nonlinear_arith);
    }
}

proof fn lemma_all_digits_skip(s: Seq<char>, i: int)
    requires
        all_digits(s),
        0 <= i <= s.len(),
    ensures
        all_digits(s.skip(i)),
        all_digits(s.take(i)),
{
    assert forall|t: int| 0 <= t < s.skip(i).len() implies is_digit(#[trigger] s.skip(i)[t]) by {
        assert(s.skip(i)[t] == s[i + t]);
    }
    assert forall|t: int| 0 <= t < s.take(i).len() implies is_digit(#[trigger] s.take(i)[t]) by {
        assert(s.take(i)[t] == s[t]);
    }
}

/// One step of multiplying a digit string by `u` from the right: the
/// carry out of a digit `d` placed before a tail `t` (of `p = 10^j`).
proof fn lemma_carry_step(d: nat, t: nat, p: nat, u: nat, c: nat)
    requires
        d <= 9,
        p >= 1,
        t < p,
        c == t * u / p,
    ensures
        (d * u + c) / 10 == (d * p + t) * u / (10 * p),
{
    let tu = t * u;
    vstd::arithmetic::div_mod::lemma_fundamental_div_mod(tu as int, p as int);
    let r = tu % p;
    assert(0 <= r < p);
    assert(tu == p * c + r);
    let x = d * u + c;
    vstd::arithmetic::div_mod::lemma_fundamental_div_mod(x as int, 10);
    let a = x / 10;
    let b = x % 10;
    assert((d * p + t) * u == a * (10 * p) + (b * p + r)) by (nonlinear_arith)
        requires
            tu == t * u,
            tu == p * c + r,
            x == d * u + c,
            x == 10 * a + b,
    ;
    assert(0 <= b * p + r < 10 * p) by (nonlinear_arith)
        requires
            0 <= b < 10,
            0 <= r < p,
    ;
    vstd::arithmetic::div_mod::lemma_fundamental_div_mod_converse(
        ((d * p + t) * u) as int,
        (10 * p) as int,
        a as int,
        (b * p + r) as int,
    );
}

proof fn lemma_digits_value_single(c: char)
    ensures
        digits_value(seq![c]) == digit_val(c),
{
    assert(seq![c].drop_last() =~= Seq::<char>::empty());
    assert(seq![c].last() == c);
    assert(digits_value(Seq::<char>::empty()) == 0);
    assert(digits_value(seq![c]) == digits_value(seq![c].drop_last()) * 10 + digit_val(c));
}

/// The carry out of the digits `s[start..]` multiplied by `u`: their
/// value times `u`, divided by `10^(len - start)`.
fn carry_low(s: &Vec<char>, start: usize, u: u64) -> (c: u64)
    requires
        all_digits(s@),
        start <= s.len(),
        1 <= u <= 1_000_000,
    ensures
        c == digits_value(s@.skip(start as int)) * (u as nat) / pow10((s.len() - start) as nat),
        c < u,
{
    let mut c: u64 = 0;
    let mut i: usize = s.len();
    assert(s@.skip(i as int) =~= Seq::<char>::empty());
    while i > start
        invariant
            start <= i <= s.len(),
            all_digits(s@),
            1 <= u <= 1_000_000,
            c == digits_value(s@.skip(i as int)) * (u as nat) / pow10((s.len() - i) as nat),
            c < u,
        decreases i,
    {
        let ch = s[i - 1];
        assert(is_digit(s@[i - 1]));
        let d: u64 = ((ch as u32) - 48) as u64;
        proof {
            let t = s@.skip(i as int);
            let t2 = s@.skip(i - 1);
            assert(t2 =~= seq![ch] + t);
            lemma_digits_value_concat(seq![ch], t);
            lemma_digits_value_single(ch);
            lemma_all_digits_skip(s@, i as int);
            lemma_digits_value_bound(t);
            assert(t.len() == s.len() - i);
            assert(pow10((s.len() - (i - 1)) as nat) == 10 * pow10((s.len() - i) as nat));
            lemma_pow10_positive(t.len());
            lemma_carry_step(d as nat, digits_value(t), pow10(t.len()), u as nat, c as nat);
            assert(d * u + c < 10 * u) by (nonlinear_arith)
                requires
                    d <= 9,
                    c < u,
            ;
        }
        assert(d * u <= 9_000_000) by (nonlinear_arith)
            requires
                d <= 9,
                u <= 1_000_000,
        ;
        c = (d * u + c) / 10;
        i -= 1;
    }
    c
}

/// `v * u * 10^k` when it fits in an `i64`.
fn scale_up(v: u64, u: u64, k: u128) -> (r: Option<u64>)
    requires
        v <= 0x7fff_ffff_ffff_ffff,
        u <= 1_000_000,
    ensures
        match r {
            Some(q) => q == v * u * pow10(k as nat) && q <= 0x7fff_ffff_ffff_ffff,
            None => v * u * pow10(k as nat) > 0x7fff_ffff_ffff_ffff,
        },
{
    assert(v * u <= 0x7fff_ffff_ffff_ffff * 1_000_000) by (nonlinear_arith)
        requires
            v <= 0x7fff_ffff_ffff_ffff,
            u <= 1_000_000,
    ;
    let mut acc: u128 = (v as u128) * (u as u128);
    let mut j: u128 = 0;
    assert(pow10(0) == 1);
    assert(v * u * pow10(0) == v * u);
    while j < k
        invariant
            j <= k,
            acc == v * u * pow10(j as nat),
            acc <= 0x7fff_ffff_ffff_ffff * 1_000_000,
        decreases k - j,
    {
        if acc > 0x7fff_ffff_ffff_ffff {
            proof {
                lemma_pow10_add(j as nat, (k - j) as nat);
                lemma_pow10_positive((k - j) as nat);
                let p = pow10(j as nat);
                let p2 = pow10((k - j) as nat);
                assert(v * u * (p * p2) == acc * p2) by (nonlinear_arith)
                    requires
                        acc == v * u * p,
                ;
                assert(acc * p2 >= acc) by (nonlinear_arith)
                    requires
                        p2 >= 1,
                        acc >= 0,
                ;
            }
            return None;
        }
        proof {
            let p = pow10(j as nat);
            assert(pow10((j + 1) as nat) == 10 * p);
            assert(v * u * (10 * p) == (v * u * p) * 10) by (nonlinear_arith);
        }
        acc = acc * 10;
        j += 1;
    }
    if acc > 0x7fff_ffff_ffff_ffff {
        None
    } else {
        Some(acc as u64)
    }
}

proof fn lemma_mul_div_split(a: nat, b: nat, p: nat, u: nat)
    requires
        p >= 1,
    ensures
        (a * p + b) * u / p == a * u + b * u / p,
{
    let bu = b * u;
    vstd::arithmetic::div_mod::lemma_fundamental_div_mod(bu as int, p as int);
    let q = bu / p;
    let r = bu % p;
    assert((a * p + b) * u == (a * u + q) * p + r) by (nonlinear_arith)
        requires
            bu == b * u,
            bu == p * q + r,
    ;
    vstd::arithmetic::div_mod::lemma_fundamental_div_mod_converse(
        ((a * p + b) * u) as int,
        p as int,
        (a * u + q) as int,
        r as int,
    );
}

/// `n * u / 10^m`, truncated, of the digits `s` (value `n`), when it fits
/// in an `i64`.
fn scale_down(s: &Vec<char>, u: u64, m: u128) -> (r: Option<u64>)
    requires
        all_digits(s@),
        1 <= u <= 1_000_000,
    ensures
        match r {
            Some(q) => q == digits_value(s@) * (u as nat) / pow10(m as nat) && q <= 0x7fff_ffff_ffff_ffff,
            None => digits_value(s@) * (u as nat) / pow10(m as nat) > 0x7fff_ffff_ffff_ffff,
        },
{
    let len = s.len();
    let ghost n = digits_value(s@);
    if m >= len as u128 {
        let mut c = carry_low(s, 0, u);
        assert(s@.skip(0) =~= s@);
        let mut t: u128 = len as u128;
        while t < m && c > 0
            invariant
                len <= t <= m,
                c == n * (u as nat) / pow10(t as nat),
                c < u,
                1 <= u <= 1_000_000,
            decreases m - t,
        {
            proof {
                lemma_pow10_positive(t as nat);
                vstd::arithmetic::div_mod::lemma_div_denominator((n * u) as int, pow10(t as nat) as int, 10);
                assert(pow10((t + 1) as nat) == pow10(t as nat) * 10);
            }
            c = c / 10;
            t = t + 1;
        }
        proof {
            if t < m {
                assert(c == 0);
                lemma_pow10_positive(t as nat);
                vstd::arithmetic::div_mod::lemma_fundamental_div_mod((n * u) as int, pow10(t as nat) as int);
                lemma_pow10_monotone(t as nat, m as nat);
                assert(n * u < pow10(m as nat));
                vstd::arithmetic::div_mod::lemma_fundamental_div_mod_converse(
                    (n * u) as int,
                    pow10(m as nat) as int,
                    0,
                    (n * u) as int,
                );
            }
        }
        Some(c)
    } else {
        let split: usize = len - (m as usize);
        let c = carry_low(s, split, u);
        let mut a_digits: Vec<char> = Vec::new();
        let mut i: usize = 0;
        while i < split
            invariant
                i <= split <= s.len(),
                a_digits@ == s@.take(i as int),
            decreases split - i,
        {
            a_digits.push(s[i]);
            assert(s@.take(i + 1) =~= s@.take(i as int).push(s@[i as int]));
            i += 1;
        }
        proof {
            lemma_all_digits_skip(s@, split as int);
            assert(s@ =~= s@.take(split as int) + s@.skip(split as int));
            lemma_digits_value_concat(s@.take(split as int), s@.skip(split as int));
            lemma_pow10_positive(m as nat);
            lemma_mul_div_split(
                digits_value(s@.take(split as int)),
                digits_value(s@.skip(split as int)),
                pow10(m as nat),
                u as nat,
            );
        }
        assert(a_digits@.skip(0) =~= a_digits@);
        match read_digits(&a_digits, 0, 0x7fff_ffff_ffff_ffff) {
            None => None,
            Some(a) => {
                if a > 0x7fff_ffff_ffff_ffff {
                    assert(digits_value(a_digits@) * u >= digits_value(a_digits@)) by (nonlinear_arith)
                        requires
                            u >= 1,
                    ;
                    None
                } else {
                    assert(a * u <= 0x7fff_ffff_ffff_ffff * 1_000_000) by (nonlinear_arith)
                        requires
                            a <= 0x7fff_ffff_ffff_ffff,
                            u <= 1_000_000,
                    ;
                    let q: u128 = a * (u as u128) + (c as u128);
                    if q > 0x7fff_ffff_ffff_ffff {
                        None
                    } else {
                        Some(q as u64)
                    }
                }
            },
        }
    }
}

/// Exponents beyond this magnitude are read as "very large": the value
/// is then 0 or out of range whatever the digits.
pub const EXP_CAP: u128 = 0x10000000000000000000000000;

proof fn lemma_first_exp_unique(s: Seq<char>, i: int, j: int)
    requires
        is_first_exp(s, i),
        is_first_exp(s, j),
    ensures
        i == j,
{
    if i < j {
        assert(!is_exp_mark(s[i]));
    } else if j < i {
        assert(!is_exp_mark(s[j]));
    }
}

/// The first exponent mark at or after `from`.
fn find_exp(s: &Vec<char>, from: usize) -> (r: Option<usize>)
    requires
        from <= s.len(),
    ensures
        match r {
            Some(p) => from <= p < s.len() && is_first_exp(s@.skip(from as int), p - from),
            None => forall|j: int| 0 <= j < s@.skip(from as int).len() ==> !is_exp_mark(
                #[trigger] s@.skip(from as int)[j],
            ),
        },
{
    let ghost body = s@.skip(from as int);
    let mut i: usize = from;
    while i < s.len()
        invariant
            from <= i <= s.len(),
            body == s@.skip(from as int),
            forall|j: int| 0 <= j < i - from ==> !is_exp_mark(#[trigger] body[j]),
        decreases s.len() - i,
    {
        assert(body[i - from] == s@[i as int]);
        if s[i] == 'e' || s[i] == 'E' {
            return Some(i);
        }
        i += 1;
    }
    None
}

/// The characters `s[a..b]`.
fn copy_range(s: &Vec<char>, a: usize, b: usize) -> (r: Vec<char>)
    requires
        a <= b <= s.len(),
    ensures
        r@ == s@.subrange(a as int, b as int),
{
    let mut r: Vec<char> = Vec::new();
    let mut i: usize = a;
    while i < b
        invariant
            a <= i <= b <= s.len(),
            r@ == s@.subrange(a as int, i as int),
        decreases b - i,
    {
        r.push(s[i]);
        assert(s@.subrange(a as int, i + 1) =~= s@.subrange(a as int, i as int).push(s@[i as int]));
        i += 1;
    }
    r
}

/// The digits of a mantissa `ip[.fp]` with the point removed, and the
/// number of digits after the point.
fn split_mantissa(m: &Vec<char>) -> (r: (Vec<char>, usize))
    ensures
        r.0@ == split_decimal(m@).0 + split_decimal(m@).1,
        r.1 == split_decimal(m@).1.len(),
{
    let ghost body = m@;
    let mut digits: Vec<char> = Vec::new();
    let mut i: usize = 0;
    let mut point: Option<usize> = None;
    while i < m.len()
        invariant
            i <= m.len(),
            body == m@,
            match point {
                None => {
                    &&& !body.take(i as int).contains('.')
                    &&& digits@ == body.take(i as int)
                },
                Some(p) => {
                    &&& p < i
                    &&& spec_find(body, '.') == Some(p as int)
                    &&& digits@ == body.take(p as int) + body.subrange(p + 1, i as int)
                },
            },
        decreases m.len() - i,
    {
        let c = m[i];
        if c == '.' && point.is_none() {
            assert(is_first_index(body, '.', i as int)) by {
                assert forall|j: int| 0 <= j < i implies body[j] != '.' by {
                    assert(body.take(i as int)[j] == body[j]);
                }
            }
            let ghost k = choose|k: int| is_first_index(body, '.', k);
            assert(k == i) by {
                if k < i {
                    assert(body.take(i as int)[k] == body[k]);
                    assert(body.take(i as int).contains('.'));
                }
            }
            point = Some(i);
            assert(body.subrange(i + 1, i + 1) =~= Seq::<char>::empty());
            assert(digits@ =~= body.take(i as int) + body.subrange(i + 1, i + 1));
        } else {
            digits.push(c);
            match point {
                None => {
                    assert(body.take(i + 1) =~= body.take(i as int).push(c));
                    assert(!body.take(i + 1).contains('.'));
                },
                Some(p) => {
                    assert(body.subrange(p + 1, i + 1) =~= body.subrange(p + 1, i as int).push(c));
                },
            }
        }
        i += 1;
    }
    let ghost ip = split_decimal(body).0;
    let ghost fp = split_decimal(body).1;
    let frac_len: usize = match point {
        None => {
            assert(body.take(m.len() as int) =~= body);
            assert(spec_find(body, '.') is None) by {
                if exists|k: int| is_first_index(body, '.', k) {
                    let k = choose|k: int| is_first_index(body, '.', k);
                    assert(body.contains('.'));
                }
            }
            assert(ip == body && fp =~= Seq::<char>::empty());
            assert(digits@ =~= ip + fp);
            0
        },
        Some(p) => {
            assert(body.subrange(p + 1, m.len() as int) =~= body.skip(p + 1));
            assert(digits@ =~= ip + fp);
            m.len() - p - 1
        },
    };
    (digits, frac_len)
}

proof fn lemma_all_digits_concat(ip: Seq<char>, fp: Seq<char>)
    ensures
        all_digits(ip + fp) <==> (all_digits(ip) && all_digits(fp)),
{
    if all_digits(ip + fp) {
        assert forall|t: int| 0 <= t < fp.len() implies is_digit(#[trigger] fp[t]) by {
            assert((ip + fp)[ip.len() + t] == fp[t]);
        }
        assert forall|t: int| 0 <= t < ip.len() implies is_digit(#[trigger] ip[t]) by {
            assert((ip + fp)[t] == ip[t]);
        }
    }
    if all_digits(ip) && all_digits(fp) {
        assert forall|t: int| 0 <= t < (ip + fp).len() implies is_digit(#[trigger] (ip + fp)[t]) by {
            if t < ip.len() {
                assert((ip + fp)[t] == ip[t]);
            } else {
                assert((ip + fp)[t] == fp[t - ip.len()]);
            }
        }
    }
}

/// Reads a finite decimal into its sign, its digits (point removed), the
/// number of fraction digits, and the sign and magnitude of its exponent
/// (a magnitude above [`EXP_CAP`] read as `u128::MAX`).
#[verifier::rlimit(50)]
#[verifier::spinoff_prover]
fn parse_decimal(s: &Vec<char>) -> (r: Option<(bool, Vec<char>, usize, bool, u128)>)
    ensures
        match r {
            None => spec_decimal(s@) is None,
            Some(t) => spec_decimal(s@) matches Some(d) && d.0 == t.0 && d.1 == digits_value(t.1@)
                && all_digits(t.1@) && t.2 <= s.len() && (t.4 <= EXP_CAP ==> d.2 == (if t.3 {
                -(t.4 as int)
            } else {
                t.4 as int
            }) - t.2) && (t.4 > EXP_CAP ==> (t.3 ==> d.2 < -(EXP_CAP as int)) && (!t.3 ==> d.2
                > EXP_CAP - t.2)),
        },
{
    let mut from: usize = 0;
    let mut neg = false;
    if s.len() > 0 && s[0] == '-' {
        neg = true;
        from = 1;
    } else if s.len() > 0 && s[0] == '+' {
        from = 1;
    }
    assert(split_sign(s@).0 == neg);
    assert(split_sign(s@).1 =~= s@.skip(from as int));
    let ghost body = s@.skip(from as int);
    let pe = find_exp(s, from);
    let mant_end: usize = match pe {
        Some(p) => p,
        None => s.len(),
    };
    let mant = copy_range(s, from, mant_end);
    let ghost ex = split_exponent(body).1;
    proof {
        match pe {
            Some(p) => {
                let q = choose|i: int| is_first_exp(body, i);
                lemma_first_exp_unique(body, q, p - from);
                assert(mant@ =~= body.take(p - from));
                assert(ex == Some(body.skip(p - from + 1)));
            },
            None => {
                if exists|i: int| is_first_exp(body, i) {
                    let q = choose|i: int| is_first_exp(body, i);
                    assert(is_exp_mark(body[q]));
                }
                assert(mant@ =~= body);
                assert(ex is None);
            },
        }
    }
    assert(mant@ == split_exponent(body).0);
    let (digits, fl) = split_mantissa(&mant);
    let ghost ip = split_decimal(mant@).0;
    let ghost fp = split_decimal(mant@).1;
    proof {
        lemma_all_digits_concat(ip, fp);
    }
    assert(ip.len() + fp.len() <= mant.len());
    if digits.len() == 0 {
        return None;
    }
    assert(digits@.skip(0) =~= digits@);
    if read_digits(&digits, 0, 0).is_none() {
        return None;
    }
    match pe {
        None => Some((neg, digits, fl, false, 0)),
        Some(p) => {
            let mut ef: usize = p + 1;
            let mut eneg = false;
            if ef < s.len() && s[ef] == '-' {
                eneg = true;
                ef = ef + 1;
            } else if ef < s.len() && s[ef] == '+' {
                ef = ef + 1;
            }
            let ghost et = body.skip(p - from + 1);
            assert(et =~= s@.skip(p + 1));
            assert(split_sign(et).0 == eneg);
            assert(split_sign(et).1 =~= s@.skip(ef as int));
            if ef == s.len() {
                return None;
            }
            match read_digits(s, ef, EXP_CAP) {
                None => None,
                Some(ea) => Some((neg, digits, fl, eneg, ea)),
            }
        },
    }
}

/// The scaled value of a decimal given by its parts (see [`parse_decimal`]),
/// whose exponent, less the fraction digits, is `k`.
fn fixed_from_parts(
    neg: bool,
    digits: &Vec<char>,
    fl: usize,
    en: bool,
    ea: u128,
    unit: u64,
    Ghost(k): Ghost<int>,
) -> (r: Option<i64>)
    requires
        all_digits(digits@),
        unit <= 1_000_000,
        ea <= EXP_CAP ==> k == (if en {
            -(ea as int)
        } else {
            ea as int
        }) - fl,
        ea > EXP_CAP ==> (en ==> k < -(EXP_CAP as int)) && (!en ==> k > EXP_CAP - fl),
    ensures
        r == signed_fit(neg, scaled_trunc(digits_value(digits@), unit as nat, k)),
{
    let ghost n = digits_value(digits@);
    let ghost u = unit as nat;
    assert(digits@.skip(0) =~= digits@);
    let v = match read_digits(digits, 0, 0x7fff_ffff_ffff_ffff) {
        Some(v) => v,
        None => {
            return None;
        },
    };
    if unit == 0 || v == 0 {
        proof {
            assert(n * u == 0) by (nonlinear_arith)
                requires
                    n == 0 || u == 0,
            ;
            if k >= 0 {
                assert(n * u * pow10(k as nat) == 0) by (nonlinear_arith)
                    requires
                        n * u == 0,
                ;
            } else {
                lemma_pow10_positive((-k) as nat);
                vstd::arithmetic::div_mod::lemma_fundamental_div_mod_converse(
                    0,
                    pow10((-k) as nat) as int,
                    0,
                    0,
                );
            }
        }
        return Some(0);
    }
    let q: u64 = if ea > EXP_CAP {
        if en {
            proof {
                let m = (-k) as nat;
                lemma_digits_value_bound(digits@);
                assert(digits@.len() == digits.len());
                assert(digits.len() <= usize::MAX);
                assert(EXP_CAP == 0x10000000000000000000000000);
                assert(digits@.len() + 7 <= m);
                lemma_pow10_add(digits@.len(), 7);
                reveal_with_fuel(pow10, 8);
                lemma_pow10_monotone(digits@.len() + 7, m);
                let pl = pow10(digits@.len());
                assert(n * u < pl * 10_000_000) by (nonlinear_arith)
                    requires
                        n < pl,
                        u <= 1_000_000,
                ;
                vstd::arithmetic::div_mod::lemma_fundamental_div_mod_converse(
                    (n * u) as int,
                    pow10(m) as int,
                    0,
                    (n * u) as int,
                );
            }
            0
        } else {
            proof {
                let kn = k as nat;
                lemma_pow10_monotone(19, kn);
                lemma_pow10_19();
                assert(n * u * pow10(kn) >= pow10(kn)) by (nonlinear_arith)
                    requires
                        n >= 1,
                        u >= 1,
            ;
            }
            return None;
        }
    } else {
        let e: i128 = if en {
            -(ea as i128)
        } else {
            ea as i128
        };
        let kk: i128 = e - (fl as i128);
        assert(kk == k);
        if kk >= 0 {
            if v > 0x7fff_ffff_ffff_ffff {
                proof {
                    lemma_pow10_positive(kk as nat);
                    assert(n * u * pow10(kk as nat) >= n) by (nonlinear_arith)
                        requires
                            u >= 1,
                            pow10(kk as nat) >= 1,
                    ;
                }
                return None;
            }
            match scale_up(v as u64, unit, kk as u128) {
                Some(q) => q,
                None => {
                    return None;
                },
            }
        } else {
            match scale_down(digits, unit, (-kk) as u128) {
                Some(q) => q,
                None => {
                    return None;
                },
            }
        }
    };
    if neg {
        Some(-(q as i64))
    } else {
        Some(q as i64)
    }
}

/// Reads a decimal scaled by `unit`; see [`spec_parse_fixed`].
pub fn parse_fixed(s: &Vec<char>, unit: u64) -> (r: Option<i64>)
    requires
        unit <= 1_000_000,
    ensures
        r == spec_parse_fixed(s@, unit as nat),
{
    match parse_decimal(s) {
        None => None,
        Some((neg, digits, fl, en, ea)) => fixed_from_parts(
            neg,
            &digits,
            fl,
            en,
            ea,
            unit,
            Ghost(spec_decimal(s@).unwrap().2),
        ),
    }
}

/// Whether `s[from..]` spells the lower-case word `w`, ignoring ASCII case.
fn word_ci_at(s: &Vec<char>, from: usize, w: &str) -> (r: bool)
    requires
        from <= s.len(),
    ensures
        r == word_ci(s@.skip(from as int), w@),
{
    let wc = chars_of(w);
    let ghost t = s@.skip(from as int);
    if s.len() - from != wc.len() {
        return false;
    }
    let mut i: usize = 0;
    while i < wc.len()
        invariant
            i <= wc.len(),
            wc.len() == s.len() - from,
            wc@ == w@,
            t == s@.skip(from as int),
            forall|j: int| 0 <= j < i ==> letter_ci(#[trigger] t[j], wc@[j]),
        decreases wc.len() - i,
    {
        let c = s[from + i];
        let l = wc[i];
        assert(t[i as int] == c);
        let cu = c as u32;
        let lu = l as u32;
        if !(c == l || (cu as u64) + 32 == (lu as u64)) {
            assert(wc@[i as int] == w@[i as int]);
            assert(!letter_ci(t[i as int], w@[i as int]));
            return false;
        }
        i += 1;
    }
    true
}

/// Whether the text reads as a positive number; see
/// [`spec_positive_number`].
pub fn is_positive_number(s: &Vec<char>) -> (r: bool)
    ensures
        r == spec_positive_number(s@),
{
    match parse_decimal(s) {
        Some((neg, digits, _fl, _en, _ea)) => {
            assert(digits@.skip(0) =~= digits@);
            match read_digits(&digits, 0, 1) {
                Some(v) => !neg && v != 0,
                None => false,
            }
        },
        None => {
            if s.len() > 0 && s[0] == '-' {
                return false;
            }
            let from: usize = if s.len() > 0 && s[0] == '+' {
                1
            } else {
                0
            };
            assert(split_sign(s@).1 =~= s@.skip(from as int));
            word_ci_at(s, from, "inf") || word_ci_at(s, from, "infinity")
        },
    }
}

proof fn lemma_digits_no_marks(d: Seq<char>)
    requires
        all_digits(d),
    ensures
        forall|i: int| !is_first_exp(d, i),
        spec_find(d, '.') is None,
        d.len() > 0 ==> d[0] != '-' && d[0] != '+',
{
    assert forall|i: int| !is_first_exp(d, i) by {
        if 0 <= i < d.len() {
            assert(is_digit(d[i]));
        }
    }
    assert forall|i: int| !is_first_index(d, '.', i) by {
        if 0 <= i < d.len() {
            assert(is_digit(d[i]));
        }
    }
    if d.len() > 0 {
        assert(is_digit(d[0]));
    }
}

/// Plain decimal digits `d` read as the integer they spell, scaled by
/// `unit`; with a leading `-`, its negation; `None` once the magnitude
/// passes `i64::MAX`.
pub proof fn law_parse_fixed_integer(d: Seq<char>, unit: nat)
    requires
        d.len() > 0,
        all_digits(d),
    ensures
        digits_value(d) * unit <= 0x7fff_ffff_ffff_ffff ==> spec_parse_fixed(d, unit) == Some(
            (digits_value(d) * unit) as i64,
        ),
        digits_value(d) * unit <= 0x7fff_ffff_ffff_ffff ==> spec_parse_fixed(seq!['-'] + d, unit)
            == Some((-(digits_value(d) * unit)) as i64),
        digits_value(d) * unit > 0x7fff_ffff_ffff_ffff ==> spec_parse_fixed(d, unit) is None,
{
    lemma_digits_no_marks(d);
    assert(d + Seq::<char>::empty() =~= d);
    assert(pow10(0) == 1);
    let n = seq!['-'] + d;
    assert(n.drop_first() =~= d);
    assert(split_sign(n) == (true, d));
    assert(split_sign(d) == (false, d));
    assert(digits_value(d) * unit * 1 == digits_value(d) * unit);
}

/// Digits `ip`, a point and digits `fp` read as `ip.fp` scaled by `unit`,
/// truncated: `(ip * 10^|fp| + fp) * unit / 10^|fp|`.
pub proof fn law_parse_fixed_fraction(ip: Seq<char>, fp: Seq<char>, unit: nat)
    requires
        all_digits(ip),
        all_digits(fp),
        ip.len() + fp.len() > 0,
        (digits_value(ip) * pow10(fp.len()) + digits_value(fp)) * unit / pow10(fp.len())
            <= 0x7fff_ffff_ffff_ffff,
    ensures
        spec_parse_fixed(ip + seq!['.'] + fp, unit) == Some(
            ((digits_value(ip) * pow10(fp.len()) + digits_value(fp)) * unit / pow10(fp.len())) as i64,
        ),
{
    let s = ip + seq!['.'] + fp;
    lemma_digits_no_marks(ip);
    lemma_digits_no_marks(fp);
    lemma_pow10_positive(fp.len());
    lemma_digits_value_concat(ip, fp);
    assert forall|i: int| !is_first_exp(s, i) by {
        if 0 <= i < s.len() {
            if i < ip.len() {
                assert(s[i] == ip[i]);
                assert(is_digit(ip[i]));
            } else if i > ip.len() {
                assert(s[i] == fp[i - ip.len() - 1]);
                assert(is_digit(fp[i - ip.len() - 1]));
            }
        }
    }
    if s[0] == '-' || s[0] == '+' {
        if ip.len() > 0 {
            assert(s[0] == ip[0]);
        }
    }
    assert(split_sign(s) == (false, s));
    assert(is_first_index(s, '.', ip.len() as int)) by {
        assert forall|j: int| 0 <= j < ip.len() implies s[j] != '.' by {
            assert(s[j] == ip[j]);
            assert(is_digit(ip[j]));
        }
    }
    let p = choose|i: int| is_first_index(s, '.', i);
    assert(p == ip.len()) by {
        if p < ip.len() {
            assert(s[p] == ip[p]);
            assert(is_digit(ip[p]));
        } else if p > ip.len() {
            assert(s[ip.len() as int] == '.');
        }
    }
    assert(s.take(p) =~= ip);
    assert(s.skip(p + 1) =~= fp);
    assert(split_exponent(s) == (s, Option::<Seq<char>>::None));
    assert(split_decimal(s) == (ip, fp));
    let v = digits_value(ip + fp);
    assert(v == digits_value(ip) * pow10(fp.len()) + digits_value(fp));
    assert(spec_decimal(s) == Some((false, v, -(fp.len() as int))));
    if fp.len() == 0 {
        assert(pow10(0) == 1);
        assert(v * unit * 1 == v * unit);
        vstd::arithmetic::div_mod::lemma_fundamental_div_mod_converse((v * unit) as int, 1, (v * unit) as int, 0);
    }
}

/// Digits `d`, an `e` and digits `e` read as `d * 10^e` scaled by `unit`;
/// with `e-` before the exponent digits, `d * unit / 10^e`, truncated.
pub proof fn law_parse_fixed_exponent(d: Seq<char>, e: Seq<char>, unit: nat)
    requires
        d.len() > 0,
        all_digits(d),
        e.len() > 0,
        all_digits(e),
    ensures
        digits_value(d) * unit * pow10(digits_value(e)) <= 0x7fff_ffff_ffff_ffff ==> spec_parse_fixed(
            d + seq!['e'] + e,
            unit,
        ) == Some((digits_value(d) * unit * pow10(digits_value(e))) as i64),
        digits_value(d) * unit / pow10(digits_value(e)) <= 0x7fff_ffff_ffff_ffff ==> spec_parse_fixed(
            d + seq!['e', '-'] + e,
            unit,
        ) == Some((digits_value(d) * unit / pow10(digits_value(e))) as i64),
{
    lemma_digits_no_marks(d);
    lemma_digits_no_marks(e);
    assert(d + Seq::<char>::empty() =~= d);
    let s1 = d + seq!['e'] + e;
    let s2 = d + seq!['e', '-'] + e;
    assert(s1[0] == d[0] && s2[0] == d[0]);
    assert(split_sign(s1) == (false, s1));
    assert(split_sign(s2) == (false, s2));
    assert(is_first_exp(s1, d.len() as int)) by {
        assert forall|j: int| 0 <= j < d.len() implies !is_exp_mark(s1[j]) by {
            assert(s1[j] == d[j]);
            assert(is_digit(d[j]));
        }
    }
    assert(is_first_exp(s2, d.len() as int)) by {
        assert forall|j: int| 0 <= j < d.len() implies !is_exp_mark(s2[j]) by {
            assert(s2[j] == d[j]);
            assert(is_digit(d[j]));
        }
    }
    let p1 = choose|i: int| is_first_exp(s1, i);
    lemma_first_exp_unique(s1, p1, d.len() as int);
    let p2 = choose|i: int| is_first_exp(s2, i);
    lemma_first_exp_unique(s2, p2, d.len() as int);
    assert(s1.take(p1) =~= d);
    assert(s2.take(p2) =~= d);
    assert(s1.skip(p1 + 1) =~= e);
    let t = s2.skip(p2 + 1);
    assert(t =~= seq!['-'] + e);
    assert(t.drop_first() =~= e);
    assert(split_sign(t) == (true, e));
    assert(split_sign(e) == (false, e));
    assert(split_decimal(d) == (d, Seq::<char>::empty()));
    assert(-(-(digits_value(e) as int)) == digits_value(e));
    if digits_value(e) == 0 {
        assert(pow10(0) == 1);
        let x = digits_value(d) * unit;
        assert(x * 1 == x);
        vstd::arithmetic::div_mod::lemma_fundamental_div_mod_converse(x as int, 1, x as int, 0);
    }
}

} // verus!
