//! Arithmetic for expression placeholders. Operands are decimals with up to
//! nine fractional digits, held as integers scaled by 10^9; results are
//! printed with a requested precision, truncating to a whole number unless
//! floating output was asked for.

use vstd::prelude::*;
use crate::nums::{dec_value, all_digits, is_digit, spec_u64_dec, u64_dec};
use vstd::string::StringSliceAdditionalSpecFns;
use crate::bytes::{spec_find_byte, find_byte, lemma_find_byte, append_bytes};

verus! {

/// One scaled unit is 10^-9.
pub const EXPR_SCALE: i128 = 1000000000;

#[derive(PartialEq, Eq, Structural, Clone, Copy, Debug)]
pub enum ExprOp {
    Add,
    Subtract,
    Multiply,
    Divide,
    Modulus,
    Equal,
    NotEqual,
    GreaterThan,
    GreaterThanEqual,
    LessThan,
    LessThanEqual,
}

/// The operator named by the modifier's first argument.
pub open spec fn spec_parse_op(s: Seq<u8>) -> Option<ExprOp> {
    if s == ("+").spec_bytes() {
        Some(ExprOp::Add)
    } else if s == ("-").spec_bytes() {
        Some(ExprOp::Subtract)
    } else if s == ("*").spec_bytes() {
        Some(ExprOp::Multiply)
    } else if s == ("/").spec_bytes() {
        Some(ExprOp::Divide)
    } else if s == ("%").spec_bytes() || s == ("m").spec_bytes() {
        Some(ExprOp::Modulus)
    } else if s == ("==").spec_bytes() {
        Some(ExprOp::Equal)
    } else if s == ("!=").spec_bytes() {
        Some(ExprOp::NotEqual)
    } else if s == (">").spec_bytes() {
        Some(ExprOp::GreaterThan)
    } else if s == ("<").spec_bytes() {
        Some(ExprOp::LessThan)
    } else if s == (">=").spec_bytes() {
        Some(ExprOp::GreaterThanEqual)
    } else if s == ("<=").spec_bytes() {
        Some(ExprOp::LessThanEqual)
    } else {
        None
    }
}

pub fn parse_op(s: &[u8]) -> (r: Option<ExprOp>)
    ensures
        r == spec_parse_op(s@),
{
    let pairs: [(&str, ExprOp); 12] = [
        ("+", ExprOp::Add),
        ("-", ExprOp::Subtract),
        ("*", ExprOp::Multiply),
        ("/", ExprOp::Divide),
        ("%", ExprOp::Modulus),
        ("m", ExprOp::Modulus),
        ("==", ExprOp::Equal),
        ("!=", ExprOp::NotEqual),
        (">", ExprOp::GreaterThan),
        ("<", ExprOp::LessThan),
        (">=", ExprOp::GreaterThanEqual),
        ("<=", ExprOp::LessThanEqual),
    ];
    if crate::bytes::bytes_eq(s, pairs[0].0.as_bytes()) {
        Some(ExprOp::Add)
    } else if crate::bytes::bytes_eq(s, pairs[1].0.as_bytes()) {
        Some(ExprOp::Subtract)
    } else if crate::bytes::bytes_eq(s, pairs[2].0.as_bytes()) {
        Some(ExprOp::Multiply)
    } else if crate::bytes::bytes_eq(s, pairs[3].0.as_bytes()) {
        Some(ExprOp::Divide)
    } else if crate::bytes::bytes_eq(s, pairs[4].0.as_bytes()) || crate::bytes::bytes_eq(
        s,
        pairs[5].0.as_bytes(),
    ) {
        Some(ExprOp::Modulus)
    } else if crate::bytes::bytes_eq(s, pairs[6].0.as_bytes()) {
        Some(ExprOp::Equal)
    } else if crate::bytes::bytes_eq(s, pairs[7].0.as_bytes()) {
        Some(ExprOp::NotEqual)
    } else if crate::bytes::bytes_eq(s, pairs[8].0.as_bytes()) {
        Some(ExprOp::GreaterThan)
    } else if crate::bytes::bytes_eq(s, pairs[9].0.as_bytes()) {
        Some(ExprOp::LessThan)
    } else if crate::bytes::bytes_eq(s, pairs[10].0.as_bytes()) {
        Some(ExprOp::GreaterThanEqual)
    } else if crate::bytes::bytes_eq(s, pairs[11].0.as_bytes()) {
        Some(ExprOp::LessThanEqual)
    } else {
        None
    }
}

/// Value of the first nine fractional digits, padded with zeros: the digit
/// string `fr` read as billionths.
pub open spec fn spec_frac_value(fr: Seq<u8>, k: int) -> int
    decreases 9 - k,
{
    if k >= 9 {
        0
    } else {
        let d: int = if k < fr.len() {
            fr[k] - 48
        } else {
            0
        };
        d * spec_pow10(8 - k) + spec_frac_value(fr, k + 1)
    }
}

pub open spec fn spec_pow10(k: int) -> int
    decreases k,
{
    if k <= 0 {
        1
    } else {
        10 * spec_pow10(k - 1)
    }
}

fn pow10(k: u64) -> (r: u64)
    requires
        k <= 18,
    ensures
        r == spec_pow10(k as int),
        r >= 1,
{
    let mut r: u64 = 1;
    let mut i: u64 = 0;
    while i < k
        invariant
            i <= k <= 18,
            r == spec_pow10(i as int),
            r >= 1,
            r <= 1000000000000000000,
        decreases k - i,
    {
        proof {
            lemma_pow10_bound(i as int);
            lemma_pow10_bound(i + 1);
        }
        r = r * 10;
        i = i + 1;
    }
    r
}

proof fn lemma_pow10_bound(k: int)
    requires
        k <= 18,
    ensures
        spec_pow10(k) <= 1000000000000000000,
        spec_pow10(k) >= 1,
{
    reveal_with_fuel(spec_pow10, 20);
    assert(spec_pow10(18) == 1000000000000000000);
    lemma_pow10_mono(k, 18);
}

proof fn lemma_pow10_mono(a: int, b: int)
    requires
        a <= b,
    ensures
        spec_pow10(a) <= spec_pow10(b),
        spec_pow10(a) >= 1,
    decreases b - a,
{
    if a < b {
        lemma_pow10_mono(a, b - 1);
    } else {
        lemma_pow10_pos(a);
    }
}

proof fn lemma_pow10_pos(a: int)
    ensures
        spec_pow10(a) >= 1,
    decreases a,
{
    if a > 0 {
        lemma_pow10_pos(a - 1);
    }
}

proof fn lemma_pow10_add(a: int, b: int)
    requires
        a >= 0,
        b >= 0,
    ensures
        spec_pow10(a) * spec_pow10(b) == spec_pow10(a + b),
    decreases b,
{
    if b <= 0 {
    } else {
        lemma_pow10_add(a, b - 1);
        let x = spec_pow10(a);
        let y = spec_pow10(b - 1);
        assert(x * (10 * y) == 10 * (x * y)) by (nonlinear_arith);
    }
}

/// The scaled value a decimal literal denotes: optional sign, digits, an
/// optional point and fractional digits (a tenth digit and beyond are
/// ignored); the magnitude may not exceed a billion.
pub open spec fn spec_parse_scaled(s: Seq<u8>) -> Option<int> {
    let (neg, t) = if s.len() >= 1 && s[0] == '-' as u8 {
        (true, s.skip(1))
    } else if s.len() >= 1 && s[0] == '+' as u8 {
        (false, s.skip(1))
    } else {
        (false, s)
    };
    match spec_find_byte(t, '.' as u8) {
        None => {
            if t.len() >= 1 && all_digits(t) && dec_value(t) <= 1000000000 {
                Some(
                    if neg {
                        -dec_value(t) * (EXPR_SCALE as int)
                    } else {
                        dec_value(t) * (EXPR_SCALE as int)
                    },
                )
            } else {
                None
            }
        },
        Some(i) => {
            let ip = t.subrange(0, i);
            let fp = t.subrange(i + 1, t.len() as int);
            if (ip.len() >= 1 || fp.len() >= 1) && all_digits(ip) && all_digits(fp) && dec_value(
                ip,
            ) <= 1000000000 {
                let m = dec_value(ip) * (EXPR_SCALE as int) + spec_frac_value(fp, 0);
                Some(
                    if neg {
                        -m
                    } else {
                        m
                    },
                )
            } else {
                None
            }
        },
    }
}

proof fn lemma_frac_value_bound(fr: Seq<u8>, k: int)
    requires
        all_digits(fr),
        0 <= k <= 9,
    ensures
        0 <= spec_frac_value(fr, k) < spec_pow10(9 - k),
    decreases 9 - k,
{
    if k < 9 {
        lemma_frac_value_bound(fr, k + 1);
        lemma_pow10_pos(8 - k);
        assert(spec_pow10(9 - k) == 10 * spec_pow10(8 - k));
        let d: int = if k < fr.len() {
            fr[k] - 48
        } else {
            0
        };
        let p = spec_pow10(8 - k);
        assert(0 <= d <= 9);
        assert(d * p <= 9 * p && d * p >= 0) by (nonlinear_arith)
            requires
                0 <= d <= 9,
                p >= 1,
        ;
    }
}

/// Digits of the fractional part: all digits of `fr` up to the ninth.
fn frac_value(fr: &[u8]) -> (r: Option<u64>)
    ensures
        match r {
            Some(v) => all_digits(fr@) && v == spec_frac_value(fr@, 0) && v < 1000000000,
            None => !all_digits(fr@),
        },
{
    let mut k: usize = 0;
    while k < fr.len()
        invariant
            k <= fr@.len(),
            forall|j: int| 0 <= j < k ==> is_digit(#[trigger] fr@[j]),
        decreases fr@.len() - k,
    {
        let c = fr[k];
        if c < 48 || c > 57 {
            return None;
        }
        k = k + 1;
    }
    let mut i: usize = 0;
    let mut acc2: u64 = 0;
    proof {
        reveal_with_fuel(spec_pow10, 11);
        assert(spec_pow10(9) == 1000000000);
    }
    while i < 9
        invariant
            i <= 9,
            all_digits(fr@),
            acc2 * spec_pow10(9 - i) + spec_frac_value(fr@, i as int) == spec_frac_value(fr@, 0),
            acc2 < spec_pow10(i as int),
            spec_pow10(9) == 1000000000,
        decreases 9 - i,
    {
        let ghost acc0 = acc2 as int;
        let d: u64 = if i < fr.len() {
            let c = fr[i];
            (c - 48) as u64
        } else {
            0
        };
        proof {
            reveal_with_fuel(spec_pow10, 11);
            lemma_pow10_mono(i as int, 9);
            assert(acc2 < 1000000000);
            let p8 = spec_pow10(8 - i as int);
            assert(spec_pow10(9 - i as int) == 10 * p8);
            assert(spec_pow10(i + 1) == 10 * spec_pow10(i as int));
            assert(spec_frac_value(fr@, i as int) == d * p8 + spec_frac_value(fr@, i + 1));
            assert((acc0 * 10 + d) * p8 == acc0 * (10 * p8) + d * p8) by (nonlinear_arith);
        }
        acc2 = acc2 * 10 + d;
        i = i + 1;
    }
    proof {
        lemma_frac_value_bound(fr@, 0);
        assert(spec_frac_value(fr@, 9) == 0);
        assert(spec_pow10(0) == 1) by {
            reveal_with_fuel(spec_pow10, 1);
        }
        assert(acc2 * spec_pow10(9 - i) + spec_frac_value(fr@, i as int) == spec_frac_value(
            fr@,
            0,
        ));
        assert(acc2 * spec_pow10(0) == acc2 * 1) by (nonlinear_arith)
            requires
                spec_pow10(0) == 1,
        ;
        assert(acc2 == spec_frac_value(fr@, 0));
    }
    Some(acc2)
}

/// Parse a decimal operand into its scaled value.
pub fn parse_scaled(s: &[u8]) -> (r: Option<i128>)
    ensures
        match r {
            Some(v) => spec_parse_scaled(s@) == Some(v as int)
                && -1000000001000000000 <= v <= 1000000001000000000,
            None => spec_parse_scaled(s@) is None,
        },
{
    let (neg, from): (bool, usize) = if s.len() >= 1 && s[0] == '-' as u8 {
        (true, 1)
    } else if s.len() >= 1 && s[0] == '+' as u8 {
        (false, 1)
    } else {
        (false, 0)
    };
    let t = &s[from..s.len()];
    proof {
        if from == 1 {
            assert(t@ =~= s@.skip(1));
        } else {
            assert(t@ =~= s@);
        }
    }
    match find_byte(t, '.' as u8) {
        None => {
            proof {
                lemma_find_byte(t@, '.' as u8);
            }
            if t.len() == 0 {
                return None;
            }
            match crate::nums::parse_digits(t) {
                None => None,
                Some(v) => {
                    if v > 1000000000 {
                        None
                    } else {
                        let m: i128 = (v as i128) * EXPR_SCALE;
                        if neg {
                            Some(-m)
                        } else {
                            Some(m)
                        }
                    }
                },
            }
        },
        Some(i) => {
            proof {
                lemma_find_byte(t@, '.' as u8);
            }
            let ip = &t[0..i];
            let fp = &t[i + 1..t.len()];
            proof {
                assert(ip@ =~= t@.subrange(0, i as int));
                assert(fp@ =~= t@.subrange(i + 1, t@.len() as int));
            }
            if ip.len() == 0 && fp.len() == 0 {
                return None;
            }
            let ipv: u64 = if ip.len() == 0 {
                0
            } else {
                match crate::nums::parse_digits(ip) {
                    None => {
                        return None;
                    },
                    Some(v) => {
                        if v > 1000000000 {
                            return None;
                        }
                        v
                    },
                }
            };
            match frac_value(fp) {
                None => None,
                Some(fv) => {
                    proof {
                        if ip@.len() == 0 {
                            assert(all_digits(ip@));
                            assert(dec_value(ip@) == 0);
                        }
                    }
                    let m: i128 = (ipv as i128) * EXPR_SCALE + (fv as i128);
                    if neg {
                        Some(-m)
                    } else {
                        Some(m)
                    }
                },
            }
        },
    }
}

/// Apply the operator to two scaled values; `None` on division by zero.
pub open spec fn spec_apply(op: ExprOp, a: int, b: int) -> Option<int> {
    match op {
        ExprOp::Add => Some(a + b),
        ExprOp::Subtract => Some(a - b),
        ExprOp::Multiply => Some(spec_mul_scaled(a, b)),
        ExprOp::Divide => if b == 0 {
            None
        } else {
            Some(spec_div_scaled(a, b))
        },
        ExprOp::Modulus => if b == 0 {
            None
        } else {
            Some(spec_mod_scaled(a, b))
        },
        ExprOp::Equal => Some(bool_scaled(a == b)),
        ExprOp::NotEqual => Some(bool_scaled(abs_int(a - b) > 1)),
        ExprOp::GreaterThan => Some(bool_scaled(a > b)),
        ExprOp::GreaterThanEqual => Some(bool_scaled(a >= b)),
        ExprOp::LessThan => Some(bool_scaled(a < b)),
        ExprOp::LessThanEqual => Some(bool_scaled(a <= b)),
    }
}

pub open spec fn bool_scaled(b: bool) -> int {
    if b {
        EXPR_SCALE as int
    } else {
        0
    }
}

pub open spec fn abs_int(v: int) -> int {
    if v >= 0 {
        v
    } else {
        -v
    }
}

/// Product of two scaled values, truncated toward zero.
pub open spec fn spec_mul_scaled(a: int, b: int) -> int {
    let m = abs_int(a) * abs_int(b) / (EXPR_SCALE as int);
    if (a >= 0) == (b >= 0) {
        m
    } else {
        -m
    }
}

/// Quotient of two scaled values, truncated toward zero.
pub open spec fn spec_div_scaled(a: int, b: int) -> int {
    let m = abs_int(a) * (EXPR_SCALE as int) / abs_int(b);
    if (a >= 0) == (b >= 0) {
        m
    } else {
        -m
    }
}

/// Remainder with the dividend's sign, as `fmod` gives it.
pub open spec fn spec_mod_scaled(a: int, b: int) -> int {
    let m = abs_int(a) % abs_int(b);
    if a >= 0 {
        m
    } else {
        -m
    }
}

/// Zeros after the point when a whole number is printed with precision.
pub open spec fn spec_zeros(n: int) -> Seq<u8>
    decreases n,
{
    if n <= 0 {
        Seq::empty()
    } else {
        spec_zeros(n - 1) + seq!['0' as u8]
    }
}

/// Exactly `p` digits of `n`, leading zeros kept.
pub open spec fn spec_padded_dec(n: int, p: int) -> Seq<u8>
    decreases p,
{
    if p <= 0 {
        Seq::empty()
    } else {
        spec_padded_dec(n / 10, p - 1) + seq![(48 + n % 10) as u8]
    }
}

/// The printed form of a scaled result. Without floating output the value
/// is truncated to whole units first; with it, the value is rounded, half
/// away from zero, at the requested precision. A zero after truncation
/// never takes a sign.
pub open spec fn spec_format_scaled(v: int, prec: int, fp: bool) -> Seq<u8> {
    if !fp {
        let t = abs_int(v) / (EXPR_SCALE as int);
        let sign: Seq<u8> = if v < 0 && t != 0 {
            seq!['-' as u8]
        } else {
            Seq::empty()
        };
        let frac: Seq<u8> = if prec > 0 {
            seq!['.' as u8] + spec_zeros(prec)
        } else {
            Seq::empty()
        };
        sign + spec_u64_dec(t as nat) + frac
    } else {
        let d = spec_pow10(9 - prec);
        let rounded = (abs_int(v) + d / 2) / d;
        let ip = rounded / spec_pow10(prec);
        let sign: Seq<u8> = if v < 0 {
            seq!['-' as u8]
        } else {
            Seq::empty()
        };
        let frac: Seq<u8> = if prec > 0 {
            seq!['.' as u8] + spec_padded_dec(rounded % spec_pow10(prec), prec)
        } else {
            Seq::empty()
        };
        sign + spec_u64_dec(ip as nat) + frac
    }
}

fn push_zeros(out: &mut Vec<u8>, n: u64)
    ensures
        final(out)@ == old(out)@ + spec_zeros(n as int),
{
    let mut k: u64 = 0;
    while k < n
        invariant
            k <= n,
            out@ == old(out)@ + spec_zeros(k as int),
        decreases n - k,
    {
        out.push('0' as u8);
        proof {
            assert(out@ =~= old(out)@ + spec_zeros(k + 1));
        }
        k = k + 1;
    }
}

fn padded_dec(n: u64, p: u64) -> (r: Vec<u8>)
    requires
        p <= 9,
    ensures
        r@ == spec_padded_dec(n as int, p as int),
    decreases p,
{
    if p == 0 {
        Vec::new()
    } else {
        let mut v = padded_dec(n / 10, p - 1);
        v.push(48 + ((n % 10) as u8));
        proof {
            assert(v@ =~= spec_padded_dec((n / 10) as int, p - 1) + seq![
                (48 + (n as int) % 10) as u8,
            ]);
        }
        v
    }
}

/// Print a scaled result.
pub fn format_scaled(v: i128, prec: u64, fp: bool) -> (r: Vec<u8>)
    requires
        prec <= 9,
        -2000000000000000000000000000 <= v <= 2000000000000000000000000000,
    ensures
        r@ == spec_format_scaled(v as int, prec as int, fp),
{
    let m: u128 = if v >= 0 {
        v as u128
    } else {
        (-v) as u128
    };
    let mut out: Vec<u8> = Vec::new();
    if !fp {
        let t: u128 = m / (EXPR_SCALE as u128);
        proof {
            vstd::arithmetic::div_mod::lemma_div_is_ordered(
                m as int,
                2000000000000000000000000000,
                EXPR_SCALE as int,
            );
            assert(t <= 2000000000000000000);
        }
        if v < 0 && t != 0 {
            out.push('-' as u8);
        }
        let d = u64_dec(t as u64);
        append_bytes(&mut out, d.as_slice());
        if prec > 0 {
            out.push('.' as u8);
            push_zeros(&mut out, prec);
            proof {
                assert(out@ =~= spec_format_scaled(v as int, prec as int, fp));
            }
        } else {
            proof {
                assert(out@ =~= spec_format_scaled(v as int, prec as int, fp));
            }
        }
        out
    } else {
        let d: u128 = pow10(9 - prec) as u128;
        let rounded: u128 = (m + d / 2) / d;
        let pp: u128 = pow10(prec) as u128;
        let ip: u128 = rounded / pp;
        let fr: u128 = rounded % pp;
        proof {
            lemma_pow10_pos(prec as int);
            lemma_pow10_pos(9 - prec as int);
            lemma_pow10_bound(prec as int);
            lemma_pow10_bound(9 - prec as int);
            lemma_pow10_add(9 - prec as int, prec as int);
            assert(spec_pow10(9) == 1000000000) by {
                reveal_with_fuel(spec_pow10, 10);
            }
            assert((d as int) * (pp as int) == 1000000000);
            vstd::arithmetic::div_mod::lemma_div_denominator(
                m as int + (d as int) / 2,
                d as int,
                pp as int,
            );
            assert(ip as int == (m as int + (d as int) / 2) / 1000000000);
            vstd::arithmetic::div_mod::lemma_div_is_ordered(
                m as int + (d as int) / 2,
                2000000000000000000000000001000000000,
                1000000000,
            );
            assert(ip <= 2000000000000000000000000001);
            assert(fr < pp);
        }
        if v < 0 {
            out.push('-' as u8);
        }
        let dd = u64_dec(ip as u64);
        append_bytes(&mut out, dd.as_slice());
        if prec > 0 {
            out.push('.' as u8);
            let fd = padded_dec(fr as u64, prec);
            append_bytes(&mut out, fd.as_slice());
            proof {
                assert(out@ =~= spec_format_scaled(v as int, prec as int, fp));
            }
        } else {
            proof {
                assert(out@ =~= spec_format_scaled(v as int, prec as int, fp));
            }
        }
        out
    }
}

/// Apply the operator to scaled operands.
pub fn apply_op(op: ExprOp, a: i128, b: i128) -> (r: Option<i128>)
    requires
        -1000000001000000000 <= a <= 1000000001000000000,
        -1000000001000000000 <= b <= 1000000001000000000,
    ensures
        match r {
            Some(v) => spec_apply(op, a as int, b as int) == Some(v as int)
                && -2000000000000000000000000000 <= v <= 2000000000000000000000000000,
            None => spec_apply(op, a as int, b as int) is None,
        },
{
    let ma: u128 = if a >= 0 {
        a as u128
    } else {
        (-a) as u128
    };
    let mb: u128 = if b >= 0 {
        b as u128
    } else {
        (-b) as u128
    };
    match op {
        ExprOp::Add => Some(a + b),
        ExprOp::Subtract => Some(a - b),
        ExprOp::Multiply => {
            proof {
                assert((ma as int) * (mb as int) <= 2000000000000000000000000000000000000)
                    by (nonlinear_arith)
                    requires
                        0 <= ma as int <= 1000000001000000000,
                        0 <= mb as int <= 1000000001000000000,
                ;
                vstd::arithmetic::div_mod::lemma_div_is_ordered(
                    (ma as int) * (mb as int),
                    2000000000000000000000000000000000000,
                    EXPR_SCALE as int,
                );
            }
            let m: u128 = ma * mb / (EXPR_SCALE as u128);
            let v: i128 = if (a >= 0) == (b >= 0) {
                m as i128
            } else {
                -(m as i128)
            };
            Some(v)
        },
        ExprOp::Divide => {
            if b == 0 {
                None
            } else {
                proof {
                    vstd::arithmetic::div_mod::lemma_div_nonincreasing(
                        (ma as int) * (EXPR_SCALE as int),
                        mb as int,
                    );
                }
                let m: u128 = ma * (EXPR_SCALE as u128) / mb;
                let v: i128 = if (a >= 0) == (b >= 0) {
                    m as i128
                } else {
                    -(m as i128)
                };
                Some(v)
            }
        },
        ExprOp::Modulus => {
            if b == 0 {
                None
            } else {
                let m: u128 = ma % mb;
                let v: i128 = if a >= 0 {
                    m as i128
                } else {
                    -(m as i128)
                };
                Some(v)
            }
        },
        ExprOp::Equal => Some(scaled_bool(a == b)),
        ExprOp::NotEqual => {
            let diff: i128 = if a >= b {
                a - b
            } else {
                b - a
            };
            Some(scaled_bool(diff > 1))
        },
        ExprOp::GreaterThan => Some(scaled_bool(a > b)),
        ExprOp::GreaterThanEqual => Some(scaled_bool(a >= b)),
        ExprOp::LessThan => Some(scaled_bool(a < b)),
        ExprOp::LessThanEqual => Some(scaled_bool(a <= b)),
    }
}

fn scaled_bool(b: bool) -> (r: i128)
    ensures
        r as int == bool_scaled(b),
{
    if b {
        EXPR_SCALE
    } else {
        0
    }
}

} // verus!
