//! Display-column-aware truncation and padding. Text is decoded as UTF-8,
//! loosely: a malformed byte stands for itself with width one. East-Asian
//! wide characters count two columns, everything else one.

use vstd::prelude::*;
use crate::bytes::append_bytes;

verus! {

/// Code point starting at `s[i]`, with the count of bytes it occupies.
pub open spec fn spec_decode(s: Seq<u8>, i: int) -> (u32, int) {
    let b = s[i];
    if b < 0x80 {
        (b as u32, 1)
    } else if 0xC0 <= b < 0xE0 && i + 2 <= s.len() && is_cont(s[i + 1]) {
        ((((b - 0xC0) as u32) * 0x40 + cont_val(s[i + 1])) as u32, 2)
    } else if 0xE0 <= b < 0xF0 && i + 3 <= s.len() && is_cont(s[i + 1]) && is_cont(s[i + 2]) {
        ((((b - 0xE0) as u32) * 0x1000 + cont_val(s[i + 1]) * 0x40 + cont_val(s[i + 2])) as u32, 3)
    } else if 0xF0 <= b < 0xF8 && i + 4 <= s.len() && is_cont(s[i + 1]) && is_cont(s[i + 2])
        && is_cont(s[i + 3]) {
        ((((b - 0xF0) as u32) * 0x40000 + cont_val(s[i + 1]) * 0x1000 + cont_val(s[i + 2]) * 0x40
            + cont_val(s[i + 3])) as u32, 4)
    } else {
        (b as u32, 1)
    }
}

pub open spec fn is_cont(b: u8) -> bool {
    0x80 <= b < 0xC0
}

pub open spec fn cont_val(b: u8) -> int {
    (b - 0x80) as int
}

/// Columns a single code point occupies.
pub open spec fn spec_cp_width(cp: u32) -> int {
    if (0x1100 <= cp <= 0x115F) || (0x2E80 <= cp <= 0x303E) || (0x3041 <= cp <= 0x33FF) || (0x3400
        <= cp <= 0x4DBF) || (0x4E00 <= cp <= 0x9FFF) || (0xA000 <= cp <= 0xA4CF) || (0xAC00 <= cp
        <= 0xD7A3) || (0xF900 <= cp <= 0xFAFF) || (0xFE30 <= cp <= 0xFE4F) || (0xFF00 <= cp
        <= 0xFF60) || (0xFFE0 <= cp <= 0xFFE6) || (0x20000 <= cp <= 0x2FFFD) || (0x30000 <= cp
        <= 0x3FFFD) {
        2
    } else {
        1
    }
}

/// Columns the text from `i` on occupies.
pub open spec fn spec_width_from(s: Seq<u8>, i: int) -> int
    decreases s.len() - i,
{
    if i < 0 || i >= s.len() {
        0
    } else {
        let (cp, n) = spec_decode(s, i);
        spec_cp_width(cp) + spec_width_from(s, i + n)
    }
}

pub open spec fn spec_width(s: Seq<u8>) -> int {
    spec_width_from(s, 0)
}

proof fn lemma_decode_len(s: Seq<u8>, i: int)
    requires
        0 <= i < s.len(),
    ensures
        1 <= spec_decode(s, i).1 && i + spec_decode(s, i).1 <= s.len(),
{
}

proof fn lemma_width_nonneg(s: Seq<u8>, i: int)
    ensures
        spec_width_from(s, i) >= 0,
    decreases s.len() - i,
{
    if 0 <= i < s.len() {
        lemma_decode_len(s, i);
        lemma_width_nonneg(s, i + spec_decode(s, i).1);
    }
}

fn decode(s: &[u8], i: usize) -> (r: (u32, usize))
    requires
        i < s@.len(),
    ensures
        r.0 == spec_decode(s@, i as int).0,
        r.1 == spec_decode(s@, i as int).1,
        1 <= r.1 && i + r.1 <= s@.len(),
{
    let b = s[i];
    if b < 0x80 {
        (b as u32, 1)
    } else if 0xC0 <= b && b < 0xE0 && s.len() - i >= 2 && is_cont_exec(s[i + 1]) {
        (((b - 0xC0) as u32) * 0x40 + ((s[i + 1] - 0x80) as u32), 2)
    } else if 0xE0 <= b && b < 0xF0 && s.len() - i >= 3 && is_cont_exec(s[i + 1]) && is_cont_exec(
        s[i + 2],
    ) {
        (
            ((b - 0xE0) as u32) * 0x1000 + ((s[i + 1] - 0x80) as u32) * 0x40 + ((s[i + 2]
                - 0x80) as u32),
            3,
        )
    } else if 0xF0 <= b && b < 0xF8 && s.len() - i >= 4 && is_cont_exec(s[i + 1]) && is_cont_exec(
        s[i + 2],
    ) && is_cont_exec(s[i + 3]) {
        (
            ((b - 0xF0) as u32) * 0x40000 + ((s[i + 1] - 0x80) as u32) * 0x1000 + ((s[i + 2]
                - 0x80) as u32) * 0x40 + ((s[i + 3] - 0x80) as u32),
            4,
        )
    } else {
        (b as u32, 1)
    }
}

fn is_cont_exec(b: u8) -> (r: bool)
    ensures
        r == is_cont(b),
{
    0x80 <= b && b < 0xC0
}

fn cp_width(cp: u32) -> (r: u64)
    ensures
        r == spec_cp_width(cp),
{
    if (0x1100 <= cp && cp <= 0x115F) || (0x2E80 <= cp && cp <= 0x303E) || (0x3041 <= cp && cp
        <= 0x33FF) || (0x3400 <= cp && cp <= 0x4DBF) || (0x4E00 <= cp && cp <= 0x9FFF) || (0xA000
        <= cp && cp <= 0xA4CF) || (0xAC00 <= cp && cp <= 0xD7A3) || (0xF900 <= cp && cp <= 0xFAFF)
        || (0xFE30 <= cp && cp <= 0xFE4F) || (0xFF00 <= cp && cp <= 0xFF60) || (0xFFE0 <= cp && cp
        <= 0xFFE6) || (0x20000 <= cp && cp <= 0x2FFFD) || (0x30000 <= cp && cp <= 0x3FFFD) {
        2
    } else {
        1
    }
}

/// Total display width of the text.
pub fn format_width(s: &[u8]) -> (r: u64)
    requires
        s@.len() < 0x7fffffffffffffff,
    ensures
        r == spec_width(s@),
{
    let mut i: usize = 0;
    let mut w: u64 = 0;
    while i < s.len()
        invariant
            i <= s@.len(),
            s@.len() < 0x7fffffffffffffff,
            w + spec_width_from(s@, i as int) == spec_width(s@),
            w <= 2 * i,
        decreases s@.len() - i,
    {
        let (cp, n) = decode(s, i);
        let cw = cp_width(cp);
        proof {
            lemma_width_nonneg(s@, i + n);
        }
        w = w + cw;
        i = i + n;
    }
    w
}

/// The longest prefix, in whole characters, of width at most `limit`.
pub open spec fn spec_trim_left(s: Seq<u8>, limit: int) -> Seq<u8> {
    s.subrange(0, trim_left_end(s, limit, 0))
}

/// Where that prefix ends.
pub open spec fn trim_left_end(s: Seq<u8>, remaining: int, i: int) -> int
    decreases s.len() - i,
{
    if i < 0 || i >= s.len() {
        i
    } else {
        let (cp, n) = spec_decode(s, i);
        if spec_cp_width(cp) > remaining {
            i
        } else {
            trim_left_end(s, remaining - spec_cp_width(cp), i + n)
        }
    }
}

proof fn lemma_trim_left_end(s: Seq<u8>, remaining: int, i: int)
    requires
        0 <= i <= s.len(),
    ensures
        i <= trim_left_end(s, remaining, i) <= s.len(),
    decreases s.len() - i,
{
    if i < s.len() {
        let (cp, n) = spec_decode(s, i);
        lemma_decode_len(s, i);
        if spec_cp_width(cp) <= remaining {
            lemma_trim_left_end(s, remaining - spec_cp_width(cp), i + n);
        }
    }
}

/// Keep at most `limit` columns from the left.
pub fn format_trim_left(s: &[u8], limit: u64) -> (r: Vec<u8>)
    ensures
        r@ == spec_trim_left(s@, limit as int),
{
    let slen = s.len();
    let mut i: usize = 0;
    let mut remaining: u64 = limit;
    let mut out: Vec<u8> = Vec::new();
    while i < s.len()
        invariant
            slen == s@.len(),
            i <= s@.len(),
            out@ == s@.subrange(0, i as int),
            trim_left_end(s@, limit as int, 0) == trim_left_end(s@, remaining as int, i as int),
        decreases s@.len() - i,
    {
        let (cp, n) = decode(s, i);
        let cw = cp_width(cp);
        if cw > remaining {
            proof {
                assert(trim_left_end(s@, remaining as int, i as int) == i as int);
            }
            return out;
        }
        let mut j: usize = 0;
        while j < n
            invariant
                slen == s@.len(),
                j <= n,
                i + n <= s@.len(),
                out@ == s@.subrange(0, i + j),
            decreases n - j,
        {
            out.push(s[i + j]);
            proof {
                assert(out@ =~= s@.subrange(0, i + j + 1));
            }
            j = j + 1;
        }
        remaining = remaining - cw;
        i = i + n;
    }
    proof {
        assert(trim_left_end(s@, remaining as int, i as int) == i as int);
        assert(out@ =~= spec_trim_left(s@, limit as int));
    }
    out
}

/// Where the suffix kept by a right trim starts: characters are dropped from
/// the left while more than `limit` columns remain.
pub open spec fn trim_right_start(s: Seq<u8>, limit: int, i: int) -> int
    decreases s.len() - i,
{
    if i < 0 || i >= s.len() {
        i
    } else if spec_width_from(s, i) <= limit {
        i
    } else {
        let (cp, n) = spec_decode(s, i);
        trim_right_start(s, limit, i + n)
    }
}

pub open spec fn spec_trim_right(s: Seq<u8>, limit: int) -> Seq<u8> {
    s.subrange(trim_right_start(s, limit, 0), s.len() as int)
}

proof fn lemma_trim_right_start(s: Seq<u8>, limit: int, i: int)
    requires
        0 <= i <= s.len(),
    ensures
        i <= trim_right_start(s, limit, i) <= s.len(),
    decreases s.len() - i,
{
    if i < s.len() && spec_width_from(s, i) > limit {
        lemma_decode_len(s, i);
        lemma_trim_right_start(s, limit, i + spec_decode(s, i).1);
    }
}

/// Keep at most `limit` columns from the right.
pub fn format_trim_right(s: &[u8], limit: u64) -> (r: Vec<u8>)
    requires
        s@.len() < 0x7fffffffffffffff,
    ensures
        r@ == spec_trim_right(s@, limit as int),
{
    let total = format_width(s);
    let mut i: usize = 0;
    let mut seen: u64 = 0;
    while i < s.len()
        invariant
            i <= s@.len(),
            s@.len() < 0x7fffffffffffffff,
            seen + spec_width_from(s@, i as int) == spec_width(s@),
            total == spec_width(s@),
            seen <= 2 * i,
            trim_right_start(s@, limit as int, 0) == trim_right_start(
                s@,
                limit as int,
                i as int,
            ),
        decreases s@.len() - i,
    {
        proof {
            lemma_width_nonneg(s@, i as int);
        }
        if total - seen <= limit {
            proof {
                assert(trim_right_start(s@, limit as int, i as int) == i as int);
            }
            return crate::bytes::sub_vec(s, i, s.len());
        }
        let (cp, n) = decode(s, i);
        let cw = cp_width(cp);
        proof {
            lemma_width_nonneg(s@, i + n);
            assert(spec_width_from(s@, i as int) > limit);
        }
        seen = seen + cw;
        i = i + n;
    }
    proof {
        assert(trim_right_start(s@, limit as int, i as int) == i as int);
        assert(s@.subrange(i as int, s@.len() as int) =~= Seq::<u8>::empty());
    }
    Vec::new()
}

/// `n` spaces.
pub open spec fn spec_spaces(n: int) -> Seq<u8>
    decreases n,
{
    if n <= 0 {
        Seq::empty()
    } else {
        spec_spaces(n - 1) + seq![' ' as u8]
    }
}

fn push_spaces(out: &mut Vec<u8>, n: u64)
    ensures
        final(out)@ == old(out)@ + spec_spaces(n as int),
{
    let mut k: u64 = 0;
    while k < n
        invariant
            k <= n,
            out@ == old(out)@ + spec_spaces(k as int),
        decreases n - k,
    {
        out.push(' ' as u8);
        proof {
            assert(out@ =~= old(out)@ + spec_spaces(k + 1));
        }
        k = k + 1;
    }
}

/// Pad on the left (right-align) to `width` columns.
pub open spec fn spec_pad_left(s: Seq<u8>, width: int) -> Seq<u8> {
    if spec_width(s) < width {
        spec_spaces(width - spec_width(s)) + s
    } else {
        s
    }
}

pub fn format_pad_left(s: &[u8], width: u64) -> (r: Vec<u8>)
    requires
        s@.len() < 0x7fffffffffffffff,
    ensures
        r@ == spec_pad_left(s@, width as int),
{
    let w = format_width(s);
    if w < width {
        let mut out: Vec<u8> = Vec::new();
        push_spaces(&mut out, width - w);
        append_bytes(&mut out, s);
        proof {
            assert(out@ =~= spec_pad_left(s@, width as int));
        }
        out
    } else {
        crate::bytes::to_vec(s)
    }
}

/// Pad on the right (left-align) to `width` columns.
pub open spec fn spec_pad_right(s: Seq<u8>, width: int) -> Seq<u8> {
    if spec_width(s) < width {
        s + spec_spaces(width - spec_width(s))
    } else {
        s
    }
}

pub fn format_pad_right(s: &[u8], width: u64) -> (r: Vec<u8>)
    requires
        s@.len() < 0x7fffffffffffffff,
    ensures
        r@ == spec_pad_right(s@, width as int),
{
    let w = format_width(s);
    if w < width {
        let mut out: Vec<u8> = crate::bytes::to_vec(s);
        push_spaces(&mut out, width - w);
        proof {
            assert(out@ =~= spec_pad_right(s@, width as int));
        }
        out
    } else {
        crate::bytes::to_vec(s)
    }
}

} // verus!
