//! Decimal and hexadecimal conversions between numbers and byte strings,
//! with exact specifications: template output prints counts, sizes and ids,
//! and several modifiers parse numeric arguments.

use vstd::prelude::*;

verus! {

pub open spec fn is_digit(c: u8) -> bool {
    '0' as u8 <= c <= '9' as u8
}

pub open spec fn all_digits(s: Seq<u8>) -> bool {
    forall|i: int| 0 <= i < s.len() ==> is_digit(#[trigger] s[i])
}

/// Decimal digits of `n`, most significant first.
pub open spec fn spec_u64_dec(n: nat) -> Seq<u8>
    decreases n,
{
    if n < 10 {
        seq![(48 + n) as u8]
    } else {
        spec_u64_dec(n / 10) + seq![(48 + n % 10) as u8]
    }
}

pub fn u64_dec(n: u64) -> (r: Vec<u8>)
    ensures
        r@ == spec_u64_dec(n as nat),
    decreases n,
{
    if n < 10 {
        let mut v: Vec<u8> = Vec::new();
        v.push(48 + (n as u8));
        proof {
            assert(v@ =~= spec_u64_dec(n as nat));
        }
        v
    } else {
        let mut v = u64_dec(n / 10);
        v.push(48 + ((n % 10) as u8));
        proof {
            assert(v@ =~= spec_u64_dec((n / 10) as nat) + seq![(48 + n % 10) as u8]);
        }
        v
    }
}

/// Decimal form of a signed number: a `-` sign before the digits when
/// negative.
pub open spec fn spec_i64_dec(n: int) -> Seq<u8> {
    if n < 0 {
        seq!['-' as u8] + spec_u64_dec((-n) as nat)
    } else {
        spec_u64_dec(n as nat)
    }
}

pub fn i64_dec(n: i64) -> (r: Vec<u8>)
    ensures
        r@ == spec_i64_dec(n as int),
{
    if n >= 0 {
        u64_dec(n as u64)
    } else {
        let mag: u64 = if n == i64::MIN {
            9223372036854775808u64
        } else {
            (-n) as u64
        };
        let mut v: Vec<u8> = Vec::new();
        v.push('-' as u8);
        let d = u64_dec(mag);
        crate::bytes::append_bytes(&mut v, d.as_slice());
        proof {
            assert(v@ =~= spec_i64_dec(n as int));
        }
        v
    }
}

/// Value of a digit string, most significant digit first.
pub open spec fn dec_value(s: Seq<u8>) -> int
    decreases s.len(),
{
    if s.len() == 0 {
        0
    } else {
        dec_value(s.drop_last()) * 10 + (s.last() - 48)
    }
}

/// The number a byte string denotes: an optional sign followed by at least
/// one digit, as the C `strtonum` accepts.
pub open spec fn spec_strtonum(s: Seq<u8>) -> Option<int> {
    if s.len() >= 1 && s[0] == '-' as u8 {
        if s.len() >= 2 && all_digits(s.skip(1)) {
            Some(-dec_value(s.skip(1)))
        } else {
            None
        }
    } else if s.len() >= 1 && s[0] == '+' as u8 {
        if s.len() >= 2 && all_digits(s.skip(1)) {
            Some(dec_value(s.skip(1)))
        } else {
            None
        }
    } else {
        if s.len() >= 1 && all_digits(s) {
            Some(dec_value(s))
        } else {
            None
        }
    }
}

/// Appending digits never decreases the value of a digit string.
proof fn lemma_dec_value_monotone(s: Seq<u8>, i: int)
    requires
        0 <= i <= s.len(),
        all_digits(s),
    ensures
        dec_value(s) >= dec_value(s.take(i)),
        dec_value(s) >= 0,
    decreases s.len() - i,
{
    if i == s.len() {
        assert(s.take(i) =~= s);
        lemma_dec_value_nonneg(s);
    } else {
        lemma_dec_value_monotone(s, i + 1);
        assert(s.take(i + 1).drop_last() =~= s.take(i));
        assert(dec_value(s.take(i + 1)) == dec_value(s.take(i)) * 10 + (s[i] - 48));
        lemma_dec_value_nonneg(s.take(i));
    }
}

pub proof fn lemma_dec_value_nonneg(s: Seq<u8>)
    requires
        all_digits(s),
    ensures
        dec_value(s) >= 0,
    decreases s.len(),
{
    if s.len() > 0 {
        assert(all_digits(s.drop_last())) by {
            assert(forall|j: int| 0 <= j < s.len() - 1 ==> s.drop_last()[j] == s[j]);
        }
        lemma_dec_value_nonneg(s.drop_last());
    }
}

/// Magnitude of a digit run, or `None` when it exceeds `u64` range or a
/// non-digit appears.
pub fn parse_digits(s: &[u8]) -> (r: Option<u64>)
    requires
        s@.len() >= 1,
    ensures
        match r {
            Some(v) => all_digits(s@) && v == dec_value(s@),
            None => !all_digits(s@) || dec_value(s@) > u64::MAX,
        },
{
    let mut val: u64 = 0;
    let mut i: usize = 0;
    while i < s.len()
        invariant
            i <= s@.len(),
            forall|j: int| 0 <= j < i ==> is_digit(#[trigger] s@[j]),
            val == dec_value(s@.take(i as int)),
        decreases s@.len() - i,
    {
        let c = s[i];
        if c < 48 || c > 57 {
            return None;
        }
        let d: u64 = (c - 48) as u64;
        if val > (u64::MAX - d) / 10 {
            proof {
                assert(s@.take(i + 1).drop_last() =~= s@.take(i as int));
                assert(dec_value(s@.take(i + 1)) == val * 10 + d);
                if all_digits(s@) {
                    lemma_dec_value_monotone(s@, i + 1);
                }
            }
            return None;
        }
        val = val * 10 + d;
        proof {
            assert(s@.take(i + 1).drop_last() =~= s@.take(i as int));
        }
        i = i + 1;
    }
    proof {
        assert(s@.take(i as int) =~= s@);
    }
    Some(val)
}

/// The C `strtonum`: parse a signed decimal and require it to lie within
/// `[minval, maxval]`; anything else is rejected.
pub fn strtonum(s: &[u8], minval: i64, maxval: i64) -> (r: Option<i64>)
    ensures
        r == match spec_strtonum(s@) {
            Some(v) => if minval <= v <= maxval {
                Some(v as i64)
            } else {
                None::<i64>
            },
            None => None::<i64>,
        },
{
    if s.len() == 0 {
        return None;
    }
    let c0 = s[0];
    if c0 == '-' as u8 {
        if s.len() < 2 {
            return None;
        }
        let rest = &s[1..s.len()];
        proof {
            assert(rest@ =~= s@.skip(1));
        }
        match parse_digits(rest) {
            None => {
                proof {
                    if all_digits(s@.skip(1)) {
                        assert(dec_value(s@.skip(1)) > u64::MAX);
                        assert(-dec_value(s@.skip(1)) < minval);
                    }
                }
                None
            },
            Some(mag) => {
                if mag > 9223372036854775808u64 {
                    proof {
                        assert(-dec_value(s@.skip(1)) < minval);
                    }
                    None
                } else {
                    let v: i64 = if mag == 9223372036854775808u64 {
                        i64::MIN
                    } else {
                        -(mag as i64)
                    };
                    if v < minval || v > maxval {
                        None
                    } else {
                        Some(v)
                    }
                }
            },
        }
    } else {
        let rest = if c0 == '+' as u8 {
            if s.len() < 2 {
                return None;
            }
            &s[1..s.len()]
        } else {
            &s[0..s.len()]
        };
        proof {
            if c0 == '+' as u8 {
                assert(rest@ =~= s@.skip(1));
            } else {
                assert(rest@ =~= s@);
            }
        }
        match parse_digits(rest) {
            None => {
                proof {
                    if all_digits(rest@) {
                        assert(dec_value(rest@) > u64::MAX >= maxval);
                    }
                }
                None
            },
            Some(mag) => {
                if mag > i64::MAX as u64 {
                    None
                } else {
                    let v: i64 = mag as i64;
                    if v < minval || v > maxval {
                        None
                    } else {
                        Some(v)
                    }
                }
            },
        }
    }
}

/// Six lower-case hex digits of `n & 0xffffff`, for colour output.
pub open spec fn hex_digit(d: nat) -> u8 {
    if d < 10 {
        (48 + d) as u8
    } else {
        (87 + d) as u8
    }
}

pub open spec fn spec_hex6(n: nat) -> Seq<u8> {
    seq![
        hex_digit((n / 0x100000) % 16),
        hex_digit((n / 0x10000) % 16),
        hex_digit((n / 0x1000) % 16),
        hex_digit((n / 0x100) % 16),
        hex_digit((n / 0x10) % 16),
        hex_digit(n % 16),
    ]
}

fn hex_digit_exec(d: u32) -> (r: u8)
    requires
        d < 16,
    ensures
        r == hex_digit(d as nat),
{
    if d < 10 {
        48 + (d as u8)
    } else {
        87 + (d as u8)
    }
}

pub fn hex6(n: u32) -> (r: Vec<u8>)
    requires
        n <= 0xffffff,
    ensures
        r@ == spec_hex6(n as nat),
{
    let mut v: Vec<u8> = Vec::new();
    v.push(hex_digit_exec((n / 0x100000) % 16));
    v.push(hex_digit_exec((n / 0x10000) % 16));
    v.push(hex_digit_exec((n / 0x1000) % 16));
    v.push(hex_digit_exec((n / 0x100) % 16));
    v.push(hex_digit_exec((n / 0x10) % 16));
    v.push(hex_digit_exec(n % 16));
    proof {
        assert(v@ =~= spec_hex6(n as nat));
    }
    v
}

} // verus!
