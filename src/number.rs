//! Numeric literals: scanning a token and turning it into an `Integer` or an
//! exact `Decimal`.
use vstd::prelude::*;
use crate::ast::{Decimal, Statement};
use crate::grammar::{self, digits_value, pow10, magnitude_bound, signed, is_digit};

verus! {

/// Powers of ten are positive.
pub proof fn lemma_pow10_positive(k: nat)
    ensures
        pow10(k) >= 1,
    decreases k,
{
    if k > 0 {
        lemma_pow10_positive((k - 1) as nat);
    }
}

/// Powers of ten grow with the exponent.
pub proof fn lemma_pow10_monotone(a: nat, b: nat)
    requires
        a <= b,
    ensures
        pow10(a) <= pow10(b),
    decreases b,
{
    if a < b {
        lemma_pow10_monotone(a, (b - 1) as nat);
        lemma_pow10_positive((b - 1) as nat);
    }
}

/// Appending digits never makes a value smaller.
pub proof fn lemma_digits_value_grows(s: Seq<char>, i: int, j: int, acc: int)
    requires
        acc >= 0,
        forall|k: int| i <= k < j ==> is_digit(#[trigger] s[k]),
    ensures
        digits_value(s, i, j, acc) >= acc,
    decreases j - i,
{
    if i < j {
        lemma_digits_value_grows(s, i + 1, j, acc * 10 + grammar::digit_value(s[i]));
    }
}

/// End of the digit run at `i`.
pub fn digits_end(s: &Vec<char>, i: usize) -> (r: usize)
    requires
        i <= s@.len(),
    ensures
        r == grammar::digits_end(s@, i as int),
        i <= r <= s@.len(),
        forall|k: int| i <= k < r ==> is_digit(#[trigger] s@[k]),
{
    let mut j = i;
    while j < s.len() && '0' <= s[j] && s[j] <= '9'
        invariant
            i <= j <= s@.len(),
            grammar::digits_end(s@, j as int) == grammar::digits_end(s@, i as int),
            forall|k: int| i <= k < j ==> is_digit(#[trigger] s@[k]),
        decreases s@.len() - j,
    {
        j += 1;
    }
    j
}

/// `acc` followed by the digits `s[from..to]`, or `None` where that exceeds
/// `bound`.
pub(crate) fn read_digits(s: &Vec<char>, from: usize, to: usize, acc0: u128, bound: u128) -> (r: Option<u128>)
    requires
        from <= to <= s@.len(),
        forall|k: int| from <= k < to ==> is_digit(#[trigger] s@[k]),
        acc0 <= bound <= 0x10_0000_0000_0000_0000_0000_0000,
    ensures
        match r {
            Some(v) => v == digits_value(s@, from as int, to as int, acc0 as int) && v <= bound,
            None => digits_value(s@, from as int, to as int, acc0 as int) > bound,
        },
{
    let mut acc = acc0;
    let mut k = from;
    while k < to
        invariant
            from <= k <= to <= s@.len(),
            forall|x: int| from <= x < to ==> is_digit(#[trigger] s@[x]),
            acc <= bound <= 0x10_0000_0000_0000_0000_0000_0000,
            digits_value(s@, k as int, to as int, acc as int) == digits_value(
                s@,
                from as int,
                to as int,
                acc0 as int,
            ),
        decreases to - k,
    {
        let d = (s[k] as u32 - '0' as u32) as u128;
        assert(is_digit(s@[k as int]));
        let next = acc * 10 + d;
        if next > bound {
            proof {
                lemma_digits_value_grows(s@, k + 1, to as int, next as int);
            }
            return None;
        }
        acc = next;
        k += 1;
    }
    Some(acc)
}

/// Ten to the power `k`, for `k` up to 18.
pub(crate) fn pow10_exec(k: u32) -> (r: u64)
    requires
        k <= 18,
    ensures
        r as int == pow10(k as nat),
{
    proof {
        reveal_with_fuel(pow10, 19);
    }
    assert(pow10(18) == 1_000_000_000_000_000_000);
    let mut p: u64 = 1;
    let mut i: u32 = 0;
    while i < k
        invariant
            i <= k <= 18,
            p as int == pow10(i as nat),
            pow10(18) == 1_000_000_000_000_000_000,
        decreases k - i,
    {
        proof {
            lemma_pow10_monotone((i + 1) as nat, 18);
        }
        p = p * 10;
        i += 1;
    }
    p
}

/// `±m` as an `i64`.
fn to_i64(negative: bool, m: u128) -> (r: i64)
    requires
        m <= magnitude_bound(negative),
    ensures
        r as int == signed(negative, m as int),
{
    if negative {
        if m == 0x8000_0000_0000_0000 {
            i64::MIN
        } else {
            -(m as i64)
        }
    } else {
        m as i64
    }
}

/// The decimal of `±d * 10^(±e - f)`, where `e` is `None` when the exponent
/// magnitude exceeds 2^100.
fn decimal_parts(negative: bool, d: u128, f: usize, exp_negative: bool, e: Option<u128>) -> (r:
    Option<Decimal>)
    requires
        match e {
            Some(v) => v <= 0x10_0000_0000_0000_0000_0000_0000,
            None => true,
        },
        d <= 0x8000_0000_0000_0000,
    ensures
        forall|ev: int|
            (match e {
                Some(v) => ev == signed(exp_negative, v as int),
                None => if exp_negative {
                    ev < -0x10_0000_0000_0000_0000_0000_0000
                } else {
                    ev > 0x10_0000_0000_0000_0000_0000_0000
                },
            }) ==> match r {
                Some(dec) => grammar::decimal_parts(negative, d as nat, f as nat, ev) == Some(
                    (dec.mantissa as int, dec.scale as nat),
                ) && dec.wf(),
                None => grammar::decimal_parts(negative, d as nat, f as nat, ev) is None,
            },
{
    if d == 0 {
        return Some(Decimal { mantissa: 0, scale: 0 });
    }
    let ev: i128 = match e {
        Some(v) => if exp_negative {
            -(v as i128)
        } else {
            v as i128
        },
        None => {
            return None;
        },
    };
    let fi = f as i128;
    let bound: u128 = if negative {
        0x8000_0000_0000_0000
    } else {
        0x7fff_ffff_ffff_ffff
    };
    if ev >= fi {
        let k = ev - fi;
        if k > 18 {
            proof {
                lemma_pow10_monotone(19, k as nat);
                reveal_with_fuel(pow10, 20);
                assert(d * pow10(k as nat) >= pow10(k as nat)) by (nonlinear_arith)
                    requires
                        d >= 1,
                        pow10(k as nat) >= 1,
                ;
            }
            return None;
        }
        let p = pow10_exec(k as u32) as u128;
        proof {
            lemma_pow10_monotone(k as nat, 18);
            reveal_with_fuel(pow10, 19);
        }
        assert(d * p <= 0x8000_0000_0000_0000 * 1_000_000_000_000_000_000) by (nonlinear_arith)
            requires
                d <= 0x8000_0000_0000_0000,
                p <= 1_000_000_000_000_000_000,
        {
        }
        let m = d * p;
        if m > bound {
            return None;
        }
        Some(Decimal { mantissa: to_i64(negative, m), scale: 0 })
    } else {
        let sc = fi - ev;
        if sc > 18 || d > bound {
            return None;
        }
        Some(Decimal { mantissa: to_i64(negative, d), scale: sc as u32 })
    }
}

/// The numeric literal at `i`: an `Integer` where the token is made of digits
/// and a `-` alone, a `Double` otherwise; `None` where there is no token or
/// its value is out of range.
pub fn number(s: &Vec<char>, i: usize) -> (r: Option<(Statement, usize)>)
    requires
        i <= s@.len(),
    ensures
        match r {
            Some((v, j)) => grammar::number(s@, i as int) == Some((v@, j as int)) && i < j
                <= s@.len() && (v matches Statement::Double(d) ==> d.wf()),
            None => grammar::number(s@, i as int) is None,
        },
{
    let ghost sv = s@;
    let sgn = i < s.len() && (s[i] == '+' || s[i] == '-');
    let int_at = if sgn {
        i + 1
    } else {
        i
    };
    let int_stop = digits_end(s, int_at);
    let dot = int_stop < s.len() && s[int_stop] == '.';
    let frac_at = if dot {
        int_stop + 1
    } else {
        int_stop
    };
    let frac_stop = if dot {
        digits_end(s, frac_at)
    } else {
        frac_at
    };
    if !(int_stop > int_at || frac_stop > frac_at) {
        return None;
    }
    let e = frac_stop < s.len() && (s[frac_stop] == 'e' || s[frac_stop] == 'E');
    let mut exp = false;
    let mut exp_negative = false;
    let mut q1 = frac_stop;
    let mut q2 = frac_stop;
    if e {
        let q = frac_stop + 1;
        let esigned = q < s.len() && (s[q] == '+' || s[q] == '-');
        q1 = if esigned {
            q + 1
        } else {
            q
        };
        q2 = digits_end(s, q1);
        exp = q2 > q1;
        exp_negative = esigned && s[q] == '-';
    }
    let ghost tok = grammar::number_token(sv, i as int)->0;
    assert(grammar::number_token(sv, i as int) is Some);
    assert(tok.int_start == int_at && tok.int_end == int_stop && tok.frac_start == frac_at && tok.frac_end == frac_stop);
    assert(tok.exp == exp);
    let negative = sgn && s[i] == '-';
    let plus = sgn && s[i] == '+';
    let end = if exp {
        q2
    } else {
        frac_stop
    };
    assert(tok.end == end && tok.negative == negative && tok.plus == plus && tok.dot == dot);
    // the mantissa digits, integer part then fraction
    let big: u128 = 0x8000_0000_0000_0000;
    let ip = read_digits(s, int_at, int_stop, 0, big);
    let d: Option<u128> = match ip {
        Some(a) => read_digits(s, frac_at, frac_stop, a, big),
        None => {
            proof {
                lemma_digits_value_grows(
                    sv,
                    frac_at as int,
                    frac_stop as int,
                    digits_value(sv, int_at as int, int_stop as int, 0),
                );
            }
            None
        },
    };
    let ghost dv = digits_value(sv, frac_at as int, frac_stop as int, digits_value(sv, int_at as int, int_stop as int, 0));
    if !plus && !dot && !exp {
        match d {
            Some(dm) => {
                if dm > 0x7fff_ffff_ffff_ffff && !negative {
                    return None;
                }
                Some((Statement::Integer(to_i64(negative, dm)), end))
            },
            None => None,
        }
    } else {
        match d {
            Some(dm) => {
                let ev = if exp {
                    read_digits(s, q1, q2, 0, 0x10_0000_0000_0000_0000_0000_0000)
                } else {
                    Some(0)
                };
                assert(tok.exp_negative == exp_negative);
                assert(exp ==> tok.exp_start == q1 && tok.exp_end == q2);
                assert(!exp ==> tok.exp_end == tok.exp_start);
                match decimal_parts(negative, dm, frac_stop - frac_at, exp_negative, ev) {
                    Some(dec) => Some((Statement::Double(dec), end)),
                    None => None,
                }
            },
            None => {
                proof {
                    lemma_pow10_positive(0);
                    if dv > 0 {
                        let f = (frac_stop - frac_at) as nat;
                        let evi = signed(exp_negative, digits_value(sv, tok.exp_start, tok.exp_end, 0));
                        if evi >= f {
                            let k = (evi - f) as nat;
                            lemma_pow10_positive(k);
                            assert(dv * pow10(k) >= dv) by (nonlinear_arith)
                                requires
                                    dv >= 0,
                                    pow10(k) >= 1,
                            ;
                        }
                    }
                }
                None
            },
        }
    }
}

} // verus!
