//! Decimal numbers as the measuring tools print them (`13.4`, `+45.0`,
//! `-3`, `1.5e3`), held exactly as an integer mantissa and a count of
//! fractional digits.
use vstd::prelude::*;
use crate::text::{find, find_exec, lemma_find_from_some, slice_of};

verus! {

/// The number `(-1)^negative * mantissa / 10^scale`.
#[derive(Clone, Copy, Debug, PartialEq, Eq, Structural)]
pub struct Decimal {
    pub negative: bool,
    pub mantissa: u128,
    pub scale: usize,
}

pub open spec fn is_digit(c: char) -> bool {
    '0' <= c && c <= '9'
}

pub open spec fn all_digits(s: Seq<char>) -> bool {
    forall|i: int| 0 <= i < s.len() ==> is_digit(#[trigger] s[i])
}

pub open spec fn digit_value(c: char) -> nat {
    if is_digit(c) {
        (c as int - '0' as int) as nat
    } else {
        0
    }
}

/// The value of a string of decimal digits, most significant first.
pub open spec fn digits_value(s: Seq<char>) -> nat
    decreases s.len(),
{
    if s.len() == 0 {
        0
    } else {
        digits_value(s.drop_last()) * 10 + digit_value(s.last())
    }
}

/// Length of the leading sign of `t`, if any.
pub open spec fn sign_len(t: Seq<char>) -> int {
    if t.len() > 0 && (t[0] == '+' || t[0] == '-') {
        1
    } else {
        0
    }
}

/// The digits before the decimal point of the unsigned text `u`.
pub open spec fn whole_part(u: Seq<char>) -> Seq<char> {
    match find(u, seq!['.']) {
        Some(k) => u.take(k),
        None => u,
    }
}

/// The digits after the decimal point of the unsigned text `u`.
pub open spec fn frac_part(u: Seq<char>) -> Seq<char> {
    match find(u, seq!['.']) {
        Some(k) => u.skip(k + 1),
        None => Seq::empty(),
    }
}

/// Whether `c` introduces an exponent.
pub open spec fn is_exp_mark(c: char) -> bool {
    c == 'e' || c == 'E'
}

/// The first position at or after `i` of an exponent mark in `u`.
pub open spec fn exp_mark_from(u: Seq<char>, i: int) -> Option<int>
    decreases u.len() - i,
{
    if i < 0 || i >= u.len() {
        None
    } else if is_exp_mark(u[i]) {
        Some(i)
    } else {
        exp_mark_from(u, i + 1)
    }
}

/// The unsigned text `u` before its exponent mark.
pub open spec fn significand(u: Seq<char>) -> Seq<char> {
    match exp_mark_from(u, 0) {
        Some(p) => u.take(p),
        None => u,
    }
}

/// The text after the exponent mark of `u`, if it has one.
pub open spec fn exponent_text(u: Seq<char>) -> Option<Seq<char>> {
    match exp_mark_from(u, 0) {
        Some(p) => Some(u.skip(p + 1)),
        None => None,
    }
}

/// The exponent written in `x`: an optional sign and at least one digit,
/// whose value fits in a `usize`.
pub open spec fn exponent_of(x: Seq<char>) -> Option<int> {
    let ds = x.skip(sign_len(x));
    if ds.len() > 0 && all_digits(ds) && digits_value(ds) <= usize::MAX {
        if sign_len(x) == 1 && x[0] == '-' {
            Some(-(digits_value(ds) as int))
        } else {
            Some(digits_value(ds) as int)
        }
    } else {
        None
    }
}

/// The value of the digits of the significand `m` and the number of them
/// after its decimal point, when `m` is digits with at most one point and
/// at least one digit.
pub open spec fn significand_of(m: Seq<char>) -> Option<(nat, nat)> {
    let w = whole_part(m);
    let f = frac_part(m);
    if all_digits(w) && all_digits(f) && w.len() + f.len() > 0 {
        Some((digits_value(w + f), f.len()))
    } else {
        None
    }
}

pub open spec fn pow10(k: nat) -> nat
    decreases k,
{
    if k == 0 {
        1
    } else {
        10 * pow10((k - 1) as nat)
    }
}

/// The number written in `t`: an optional sign, a significand of digits
/// with at most one decimal point and at least one digit, and an optional
/// exponent (`e` or `E`, an optional sign, digits). `None` for any other
/// text, and where the exact value does not fit the fields of a `Decimal`.
pub open spec fn decimal_of(t: Seq<char>) -> Option<Decimal> {
    let u = t.skip(sign_len(t));
    let negative = sign_len(t) == 1 && t[0] == '-';
    let e = match exponent_text(u) {
        Some(x) => exponent_of(x),
        None => Some(0int),
    };
    match (significand_of(significand(u)), e) {
        (Some((v, s0)), Some(e)) => {
            let sc = s0 - e;
            if sc >= 0 {
                if v <= u128::MAX && sc <= usize::MAX {
                    Some(Decimal { negative, mantissa: v as u128, scale: sc as usize })
                } else {
                    None
                }
            } else if v * pow10((-sc) as nat) <= u128::MAX {
                Some(Decimal { negative, mantissa: (v * pow10((-sc) as nat)) as u128, scale: 0 })
            } else {
                None
            }
        },
        _ => None,
    }
}

proof fn lemma_prefix_value_le(s: Seq<char>, i: int)
    requires
        0 <= i <= s.len(),
    ensures
        digits_value(s.take(i)) <= digits_value(s),
    decreases s.len(),
{
    if i < s.len() {
        assert(s.take(i) =~= s.drop_last().take(i));
        lemma_prefix_value_le(s.drop_last(), i);
    } else {
        assert(s.take(i) =~= s);
    }
}

proof fn lemma_pow10_grows(v: nat, a: nat, b: nat)
    requires
        a <= b,
    ensures
        1 <= pow10(a) <= pow10(b),
        v <= v * pow10(a) <= v * pow10(b),
    decreases b,
{
    if b > a {
        lemma_pow10_grows(v, a, (b - 1) as nat);
        assert(v * pow10((b - 1) as nat) <= v * pow10(b)) by (nonlinear_arith)
            requires
                pow10(b) == 10 * pow10((b - 1) as nat),
        ;
    } else {
        reveal_with_fuel(pow10, 1);
        lemma_pow10_one(a);
        assert(v <= v * pow10(a)) by (nonlinear_arith)
            requires
                1 <= pow10(a),
        ;
    }
}

proof fn lemma_pow10_one(a: nat)
    ensures
        1 <= pow10(a),
    decreases a,
{
    if a > 0 {
        lemma_pow10_one((a - 1) as nat);
    }
}

/// Reads a string of decimal digits.
pub fn parse_digits(g: &Vec<char>) -> (r: Option<u128>)
    ensures
        match r {
            Some(v) => all_digits(g@) && v == digits_value(g@),
            None => !all_digits(g@) || digits_value(g@) > u128::MAX,
        },
{
    let mut acc: u128 = 0;
    let mut j: usize = 0;
    while j < g.len()
        invariant
            j <= g.len(),
            all_digits(g@.take(j as int)),
            acc == digits_value(g@.take(j as int)),
        decreases g.len() - j,
    {
        let c = g[j];
        assert(g@.take(j + 1).drop_last() =~= g@.take(j as int));
        if !('0' <= c && c <= '9') {
            assert(!is_digit(g@[j as int]));
            return None;
        }
        let d: u128 = (c as u32 - '0' as u32) as u128;
        assert(d == digit_value(c));
        assert(g@.take(j + 1).last() == c);
        assert(digits_value(g@.take(j + 1)) == acc * 10 + d);
        match acc.checked_mul(10) {
            Some(m) => match m.checked_add(d) {
                Some(v) => {
                    acc = v;
                },
                None => {
                    proof {
                        lemma_prefix_value_le(g@, j + 1);
                    }
                    return None;
                },
            },
            None => {
                proof {
                    lemma_prefix_value_le(g@, j + 1);
                }
                return None;
            },
        }
        j = j + 1;
        assert(all_digits(g@.take(j as int))) by {
            assert forall|k: int| 0 <= k < j implies is_digit(#[trigger] g@.take(j as int)[k]) by {
                if k < j - 1 {
                    assert(g@.take(j as int)[k] == g@.take(j - 1)[k]);
                }
            }
        }
    }
    assert(g@.take(g.len() as int) =~= g@);
    Some(acc)
}

/// Reads a significand: the value of its digits and how many follow the
/// point.
fn parse_significand(m: &Vec<char>) -> (r: Option<(u128, usize)>)
    ensures
        match r {
            Some((v, s)) => significand_of(m@) == Some((v as nat, s as nat)),
            None => match significand_of(m@) {
                Some((v, _)) => v > u128::MAX,
                None => true,
            },
        },
{
    let point: Vec<char> = vec!['.'];
    assert(point@ =~= seq!['.']);
    let (w, f) = match find_exec(m, &point) {
        Some(k) => {
            proof { lemma_find_from_some(m@, point@, 0, k as int); }
            (slice_of(m, 0, k), slice_of(m, k + 1, m.len()))
        },
        None => (slice_of(m, 0, m.len()), Vec::new()),
    };
    assert(w@ =~= whole_part(m@));
    assert(f@ =~= frac_part(m@));
    let mut g = w.clone();
    let mut i: usize = 0;
    while i < f.len()
        invariant
            i <= f.len(),
            g@ == w@ + f@.take(i as int),
        decreases f.len() - i,
    {
        g.push(f[i]);
        i = i + 1;
        assert(g@ =~= w@ + f@.take(i as int));
    }
    assert(g@ =~= w@ + f@);
    assert(all_digits(g@) <==> (all_digits(w@) && all_digits(f@))) by {
        if all_digits(w@) && all_digits(f@) {
            assert forall|j: int| 0 <= j < g@.len() implies is_digit(#[trigger] g@[j]) by {
                if j >= w@.len() {
                    assert(g@[j] == f@[j - w@.len()]);
                }
            }
        }
        if all_digits(g@) {
            assert forall|j: int| 0 <= j < w@.len() implies is_digit(#[trigger] w@[j]) by {
                assert(g@[j] == w@[j]);
            }
            assert forall|j: int| 0 <= j < f@.len() implies is_digit(#[trigger] f@[j]) by {
                assert(g@[w@.len() + j] == f@[j]);
            }
        }
    }
    if g.len() == 0 {
        return None;
    }
    match parse_digits(&g) {
        Some(v) => Some((v, f.len())),
        None => None,
    }
}

/// Reads an exponent: whether it is negative, and its size.
fn parse_exponent(x: &Vec<char>) -> (r: Option<(bool, usize)>)
    ensures
        match r {
            Some((neg, mag)) => exponent_of(x@) == Some(
                if neg {
                    -(mag as int)
                } else {
                    mag as int
                },
            ),
            None => exponent_of(x@) is None,
        },
{
    let sl: usize = if x.len() > 0 && (x[0] == '+' || x[0] == '-') {
        1
    } else {
        0
    };
    let ds = slice_of(x, sl, x.len());
    assert(ds@ =~= x@.skip(sign_len(x@)));
    if ds.len() == 0 {
        return None;
    }
    match parse_digits(&ds) {
        Some(v) => {
            if v > usize::MAX as u128 {
                return None;
            }
            Some((sl == 1 && x[0] == '-', v as usize))
        },
        None => None,
    }
}

/// Reads the number written in `t`.
pub fn parse_decimal(t: &Vec<char>) -> (r: Option<Decimal>)
    ensures
        r == decimal_of(t@),
{
    let sl: usize = if t.len() > 0 && (t[0] == '+' || t[0] == '-') {
        1
    } else {
        0
    };
    let negative = sl == 1 && t[0] == '-';
    let u = slice_of(t, sl, t.len());
    assert(u@ =~= t@.skip(sign_len(t@)));
    let mut p: usize = 0;
    while p < u.len() && !(u[p] == 'e' || u[p] == 'E')
        invariant
            p <= u.len(),
            exp_mark_from(u@, 0) == exp_mark_from(u@, p as int),
        decreases u.len() - p,
    {
        p = p + 1;
    }
    let m = slice_of(&u, 0, p);
    assert(m@ =~= significand(u@));
    let e = if p < u.len() {
        let x = slice_of(&u, p + 1, u.len());
        assert(exponent_text(u@) == Some(x@));
        match parse_exponent(&x) {
            Some(e) => e,
            None => {
                return None;
            },
        }
    } else {
        (false, 0)
    };
    let (v, s0) = match parse_significand(&m) {
        Some(vs) => vs,
        None => {
            proof {
                if let Some((v, s0)) = significand_of(m@) {
                    if !e.0 && e.1 > s0 {
                        lemma_pow10_grows(v, 0, (e.1 - s0) as nat);
                    }
                }
            }
            return None;
        },
    };
    let (eneg, ev) = e;
    if eneg {
        match s0.checked_add(ev) {
            Some(sc) => Some(Decimal { negative, mantissa: v, scale: sc }),
            None => None,
        }
    } else if ev <= s0 {
        Some(Decimal { negative, mantissa: v, scale: s0 - ev })
    } else {
        let k: usize = ev - s0;
        if v == 0 {
            assert(0 * pow10(k as nat) == 0);
            return Some(Decimal { negative, mantissa: 0, scale: 0 });
        }
        let ghost big = v as nat * pow10(k as nat);
        assert(decimal_of(t@) == if big <= u128::MAX {
            Some(Decimal { negative, mantissa: big as u128, scale: 0 })
        } else {
            None
        });
        let mut acc: u128 = v;
        let mut j: usize = 0;
        assert(pow10(0) == 1);
        assert(v as nat * 1 == v as nat);
        while j < k
            invariant
                j <= k,
                acc as nat == v as nat * pow10(j as nat),
                big == v as nat * pow10(k as nat),
                decimal_of(t@) == if big <= u128::MAX {
                    Some(Decimal { negative, mantissa: big as u128, scale: 0 })
                } else {
                    None
                },
            decreases k - j,
        {
            match acc.checked_mul(10) {
                Some(a) => {
                    acc = a;
                    assert(v as nat * pow10((j + 1) as nat) == 10 * (v as nat * pow10(j as nat)))
                        by (nonlinear_arith)
                        requires
                            pow10((j + 1) as nat) == 10 * pow10(j as nat),
                    ;
                },
                None => {
                    proof {
                        assert(v as nat * pow10((j + 1) as nat) == 10 * (v as nat * pow10(
                            j as nat,
                        ))) by (nonlinear_arith)
                            requires
                                pow10((j + 1) as nat) == 10 * pow10(j as nat),
                        ;
                        lemma_pow10_grows(v as nat, (j + 1) as nat, k as nat);
                    }
                    return None;
                },
            }
            j = j + 1;
        }
        Some(Decimal { negative, mantissa: acc, scale: 0 })
    }
}

} // verus!
