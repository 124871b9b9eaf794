//! Exact unsigned decimal numbers for stroke widths: parse, add, print.
//!
//! A value is `mant / 10^exp`.  Parsing accepts plain decimals of at most
//! nine digits; printing drops trailing fractional zeros, as the usual
//! float formatting does.

use vstd::prelude::*;
use vstd::string::*;
use crate::text::{dec_digits, digit_char, digit_str, find_at, format_u64, lemma_find_at};

verus! {

pub open spec fn pow10(k: nat) -> nat
    decreases k,
{
    if k == 0 {
        1
    } else {
        10 * pow10((k - 1) as nat)
    }
}

pub open spec fn is_digit(c: char) -> bool {
    '0' <= c && c <= '9'
}

pub open spec fn digit_val(c: char) -> nat {
    (c as nat - '0' as nat) as nat
}

pub open spec fn all_digits(ds: Seq<char>) -> bool {
    forall|i: int| 0 <= i < ds.len() ==> is_digit(#[trigger] ds[i])
}

pub open spec fn digits_val(ds: Seq<char>) -> nat
    decreases ds.len(),
{
    if ds.len() == 0 {
        0
    } else {
        digits_val(ds.drop_last()) * 10 + digit_val(ds.last())
    }
}

/// The mantissa and fractional length read from a plain decimal: an
/// optional run of digits, optionally a dot and another run, at least one
/// digit in all and nine at most (so `5.`, `.5` and `2.5` all read).
pub open spec fn dec_parse(s: Seq<char>) -> Option<(nat, nat)> {
    match find_at(s, 0, '.') {
        None => {
            if 1 <= s.len() <= 9 && all_digits(s) {
                Some((digits_val(s), 0))
            } else {
                None
            }
        }
        Some(i) => {
            let ip = s.subrange(0, i);
            let fp = s.subrange(i + 1, s.len() as int);
            if ip.len() + fp.len() >= 1 && ip.len() + fp.len() <= 9 && all_digits(ip)
                && all_digits(fp) {
                Some((digits_val(ip + fp), fp.len()))
            } else {
                None
            }
        }
    }
}

/// The exact sum, over a common denominator.
pub open spec fn dec_add_v(a: (nat, nat), b: (nat, nat)) -> (nat, nat) {
    let e = if a.1 >= b.1 {
        a.1
    } else {
        b.1
    };
    (a.0 * pow10((e - a.1) as nat) + b.0 * pow10((e - b.1) as nat), e)
}

/// Trailing fractional zeros removed.
pub open spec fn dec_norm(v: (nat, nat)) -> (nat, nat)
    decreases v.1,
{
    if v.1 > 0 && v.0 % 10 == 0 {
        dec_norm(((v.0 / 10) as nat, (v.1 - 1) as nat))
    } else {
        v
    }
}

pub open spec fn frac_digits(m: nat, k: nat) -> Seq<char>
    decreases k,
{
    if k == 0 {
        Seq::empty()
    } else {
        frac_digits((m / 10) as nat, (k - 1) as nat).push(digit_char((m % 10) as int))
    }
}

/// The printed decimal: integer part, and the fraction if any survives
/// normalization.
pub open spec fn dec_print(v: (nat, nat)) -> Seq<char> {
    let n = dec_norm(v);
    if n.1 == 0 {
        dec_digits(n.0)
    } else {
        dec_digits(n.0 / pow10(n.1)) + seq!['.'] + frac_digits((n.0 % pow10(n.1)) as nat, n.1)
    }
}

/// An unsigned decimal number: `mant / 10^exp`.
#[derive(Clone, Copy)]
pub struct Dec {
    pub mant: u64,
    pub exp: u64,
}

impl Dec {
    /// Small enough that two parsed values can always be added exactly.
    pub open spec fn wf(&self) -> bool {
        self.mant < 1000000000 && self.exp <= 9
    }

    pub open spec fn view_v(&self) -> (nat, nat) {
        (self.mant as nat, self.exp as nat)
    }

    /// Reads a plain decimal of at most nine digits.
    pub fn parse(s: &str) -> (r: Option<Dec>)
        ensures
            match r {
                Some(d) => dec_parse(s@) == Some(d.view_v()) && d.wf(),
                None => dec_parse(s@) is None,
            },
    {
        let len = s.unicode_len();
        match crate::text::find_char_from(s, 0, '.') {
            None => {
                if len >= 1 && len <= 9 {
                    proof {
                        assert(s@.subrange(0, len as int) =~= s@);
                    }
                    match digits_of(s, 0, len) {
                        Some(m) => Some(Dec { mant: m, exp: 0 }),
                        None => None,
                    }
                } else {
                    None
                }
            }
            Some(i) => {
                proof {
                    lemma_find_at(s@, 0, '.');
                }
                if len >= 2 && len <= 10 {
                    let ghost ip = s@.subrange(0, i as int);
                    let ghost fp = s@.subrange(i + 1, len as int);
                    let whole = match digits_of2(s, 0, i, i + 1, len) {
                        Some(m) => m,
                        None => {
                            return None;
                        }
                    };
                    proof {
                        assert(ip + fp =~= s@.subrange(0, i as int) + s@.subrange(
                            i + 1,
                            len as int,
                        ));
                        assert(ip.len() + fp.len() == len - 1);
                    }
                    Some(Dec { mant: whole, exp: (len - i - 1) as u64 })
                } else {
                    proof {
                        let ip = s@.subrange(0, i as int);
                        let fp = s@.subrange(i + 1, len as int);
                        assert(ip.len() == i);
                        assert(fp.len() == len - i - 1);
                        if len < 2 {
                            assert(!(ip.len() + fp.len() >= 1));
                        } else {
                            assert(len > 10);
                            assert(ip.len() + fp.len() > 9);
                        }
                    }
                    None
                }
            }
        }
    }
}

/// The value of the digit run `s[from..to]`, or `None` if a non-digit
/// appears; bounded by `10^(to-from)`.
fn digits_of(s: &str, from: usize, to: usize) -> (r: Option<u64>)
    requires
        from <= to <= s@.len(),
        to - from <= 9,
    ensures
        match r {
            Some(m) => all_digits(s@.subrange(from as int, to as int)) && m == digits_val(
                s@.subrange(from as int, to as int),
            ) && m < pow10((to - from) as nat) && m < 1000000000,
            None => !all_digits(s@.subrange(from as int, to as int)),
        },
{
    let mut acc: u64 = 0;
    let mut i: usize = from;
    while i < to
        invariant
            from <= i <= to <= s@.len(),
            to - from <= 9,
            all_digits(s@.subrange(from as int, i as int)),
            acc == digits_val(s@.subrange(from as int, i as int)),
            acc < pow10((i - from) as nat),
        decreases to - i,
    {
        let c = s.get_char(i);
        if !(c >= '0' && c <= '9') {
            proof {
                assert(s@.subrange(from as int, to as int)[i - from] == c);
            }
            return None;
        }
        let d: u64 = (c as u32 - '0' as u32) as u64;
        proof {
            assert(pow10((i - from) as nat) <= pow10(8)) by {
                lemma_pow10_mono((i - from) as nat, 8);
            }
            assert(pow10(8) == 100000000) by {
                reveal_with_fuel(pow10, 10);
            }
            assert(pow10((i - from + 1) as nat) == 10 * pow10((i - from) as nat));
            assert(acc * 10 + d < pow10((i - from + 1) as nat));
        }
        acc = acc * 10 + d;
        proof {
            let pre = s@.subrange(from as int, i as int);
            let now = s@.subrange(from as int, i as int + 1);
            assert(now.drop_last() =~= pre);
            assert(now.last() == c);
            assert(digit_val(c) == d);
        }
        i += 1;
    }
    proof {
        assert(pow10((to - from) as nat) <= pow10(9)) by {
            lemma_pow10_mono((to - from) as nat, 9);
        }
        assert(pow10(9) == 1000000000) by {
            reveal_with_fuel(pow10, 11);
        }
    }
    Some(acc)
}

/// The value of two concatenated digit runs.
fn digits_of2(s: &str, f1: usize, t1: usize, f2: usize, t2: usize) -> (r: Option<u64>)
    requires
        f1 <= t1 <= s@.len(),
        f2 <= t2 <= s@.len(),
        (t1 - f1) + (t2 - f2) <= 9,
    ensures
        match r {
            Some(m) => all_digits(s@.subrange(f1 as int, t1 as int)) && all_digits(
                s@.subrange(f2 as int, t2 as int),
            ) && m == digits_val(
                s@.subrange(f1 as int, t1 as int) + s@.subrange(f2 as int, t2 as int),
            ) && m < 1000000000,
            None => !all_digits(s@.subrange(f1 as int, t1 as int)) || !all_digits(
                s@.subrange(f2 as int, t2 as int),
            ),
        },
{
    let a = match digits_of(s, f1, t1) {
        Some(a) => a,
        None => {
            return None;
        }
    };
    let ghost ip = s@.subrange(f1 as int, t1 as int);
    let ghost fp = s@.subrange(f2 as int, t2 as int);
    proof {
        assert(ip + s@.subrange(f2 as int, f2 as int) =~= ip);
    }
    let mut acc: u64 = a;
    let mut i: usize = f2;
    while i < t2
        invariant
            f1 <= t1 <= s@.len(),
            f2 <= i <= t2 <= s@.len(),
            (t1 - f1) + (t2 - f2) <= 9,
            ip == s@.subrange(f1 as int, t1 as int),
            fp == s@.subrange(f2 as int, t2 as int),
            all_digits(ip),
            all_digits(s@.subrange(f2 as int, i as int)),
            acc == digits_val(ip + s@.subrange(f2 as int, i as int)),
            acc < pow10((t1 - f1 + i - f2) as nat),
        decreases t2 - i,
    {
        let c = s.get_char(i);
        if !(c >= '0' && c <= '9') {
            proof {
                assert(fp[i - f2] == c);
            }
            return None;
        }
        let d: u64 = (c as u32 - '0' as u32) as u64;
        proof {
            assert(pow10((t1 - f1 + i - f2) as nat) <= pow10(8)) by {
                lemma_pow10_mono((t1 - f1 + i - f2) as nat, 8);
            }
            assert(pow10(8) == 100000000) by {
                reveal_with_fuel(pow10, 10);
            }
            assert(pow10((t1 - f1 + i - f2 + 1) as nat) == 10 * pow10(
                (t1 - f1 + i - f2) as nat,
            ));
            assert(acc * 10 + d < pow10((t1 - f1 + i - f2 + 1) as nat));
        }
        acc = acc * 10 + d;
        proof {
            let pre = ip + s@.subrange(f2 as int, i as int);
            let now = ip + s@.subrange(f2 as int, i as int + 1);
            assert(now.drop_last() =~= pre);
            assert(now.last() == c);
        }
        i += 1;
    }
    proof {
        assert(s@.subrange(f2 as int, t2 as int) =~= fp);
        assert(pow10((t1 - f1 + t2 - f2) as nat) <= pow10(9)) by {
            lemma_pow10_mono((t1 - f1 + t2 - f2) as nat, 9);
        }
        assert(pow10(9) == 1000000000) by {
            reveal_with_fuel(pow10, 11);
        }
    }
    Some(acc)
}

proof fn lemma_pow10_mono(a: nat, b: nat)
    requires
        a <= b,
    ensures
        pow10(a) <= pow10(b),
    decreases b,
{
    if a < b {
        lemma_pow10_mono(a, (b - 1) as nat);
        assert(pow10(b) == 10 * pow10((b - 1) as nat));
    }
}

fn pow10_64(k: u64) -> (r: u64)
    requires
        k <= 18,
    ensures
        r == pow10(k as nat),
        r >= 1,
{
    proof {
        reveal_with_fuel(pow10, 20);
    }
    if k == 0 {
        1
    } else if k == 1 {
        10
    } else if k == 2 {
        100
    } else if k == 3 {
        1000
    } else if k == 4 {
        10000
    } else if k == 5 {
        100000
    } else if k == 6 {
        1000000
    } else if k == 7 {
        10000000
    } else if k == 8 {
        100000000
    } else if k == 9 {
        1000000000
    } else if k == 10 {
        10000000000
    } else if k == 11 {
        100000000000
    } else if k == 12 {
        1000000000000
    } else if k == 13 {
        10000000000000
    } else if k == 14 {
        100000000000000
    } else if k == 15 {
        1000000000000000
    } else if k == 16 {
        10000000000000000
    } else if k == 17 {
        100000000000000000
    } else {
        1000000000000000000
    }
}

/// The exact sum of two parsed decimals.
pub fn dec_add(a: Dec, b: Dec) -> (r: Dec)
    requires
        a.wf(),
        b.wf(),
    ensures
        r.view_v() == dec_add_v(a.view_v(), b.view_v()),
        r.exp <= 9,
{
    let e = if a.exp >= b.exp {
        a.exp
    } else {
        b.exp
    };
    let pa = pow10_64(e - a.exp);
    let pb = pow10_64(e - b.exp);
    proof {
        lemma_pow10_mono((e - a.exp) as nat, 9);
        lemma_pow10_mono((e - b.exp) as nat, 9);
        assert(pow10(9) == 1000000000) by {
            reveal_with_fuel(pow10, 11);
        }
        assert(a.mant * pa <= 1000000000 * 1000000000) by (nonlinear_arith)
            requires
                a.mant < 1000000000,
                pa <= 1000000000,
        ;
        assert(b.mant * pb <= 1000000000 * 1000000000) by (nonlinear_arith)
            requires
                b.mant < 1000000000,
                pb <= 1000000000,
        ;
    }
    Dec { mant: a.mant * pa + b.mant * pb, exp: e }
}

/// Prints a decimal the way the usual float formatting would: trailing
/// fractional zeros dropped, no dot for whole values.
pub fn dec_format(d: Dec) -> (r: String)
    requires
        d.exp <= 18,
    ensures
        r@ == dec_print(d.view_v()),
{
    let mut m: u64 = d.mant;
    let mut e: u64 = d.exp;
    while e > 0 && m % 10 == 0
        invariant
            e <= 18,
            dec_norm((d.mant as nat, d.exp as nat)) == dec_norm((m as nat, e as nat)),
        decreases e,
    {
        m = m / 10;
        e = e - 1;
    }
    if e == 0 {
        format_u64(m)
    } else {
        let p = pow10_64(e);
        let mut out = format_u64(m / p);
        out.append(".");
        proof {
            reveal_strlit(".");
            assert("."@ =~= seq!['.']);
        }
        let fr = frac_fmt(m % p, e);
        out.append(fr.as_str());
        proof {
            assert(out@ =~= dec_print((d.mant as nat, d.exp as nat)));
        }
        out
    }
}

fn frac_fmt(m: u64, k: u64) -> (r: String)
    ensures
        r@ == frac_digits(m as nat, k as nat),
    decreases k,
{
    if k == 0 {
        String::new()
    } else {
        let mut s = frac_fmt(m / 10, k - 1);
        s.append(digit_str(m % 10));
        proof {
            assert(s@ =~= frac_digits(m as nat, k as nat));
        }
        s
    }
}

} // verus!
