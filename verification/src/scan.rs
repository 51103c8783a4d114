//! Scanners over template text: finding an unescaped terminator, removing or
//! unescaping `#`-escapes, splitting alternatives on a top-level comma, the
//! truth test, and the two quoting helpers.

use vstd::prelude::*;
use vstd::string::StringSliceAdditionalSpecFns;
use crate::bytes::{sub_vec, spec_contains_byte, contains_byte};

verus! {

/// The characters a `#` may escape inside a placeholder body.
pub open spec fn is_escapable(c: u8) -> bool {
    c == ',' as u8 || c == '#' as u8 || c == '{' as u8 || c == '}' as u8 || c == ':' as u8
}

fn escapable(c: u8) -> (r: bool)
    ensures
        r == is_escapable(c),
{
    c == ',' as u8 || c == '#' as u8 || c == '{' as u8 || c == '}' as u8 || c == ':' as u8
}

/// A modifier list or placeholder body ends at `;` or `:`.
pub open spec fn spec_is_end(c: u8) -> bool {
    c == ';' as u8 || c == ':' as u8
}

/// Position, from `i` at bracket depth `depth`, of the first byte of `end`
/// that stands at depth zero; `#x` escapes are stepped over whole, `#{`
/// opens a bracket and `}` closes one.
pub open spec fn skip_rec(s: Seq<u8>, end: Seq<u8>, i: int, depth: int) -> Option<int>
    decreases s.len() - i,
{
    if i < 0 || i >= s.len() {
        None
    } else {
        let d2 = if s[i] == '#' as u8 && i + 1 < s.len() && s[i + 1] == '{' as u8 {
            depth + 1
        } else {
            depth
        };
        if s[i] == '#' as u8 && i + 1 < s.len() && is_escapable(s[i + 1]) {
            skip_rec(s, end, i + 2, d2)
        } else {
            let d3 = if s[i] == '}' as u8 {
                d2 - 1
            } else {
                d2
            };
            if spec_contains_byte(end, s[i]) && d3 == 0 {
                Some(i)
            } else {
                skip_rec(s, end, i + 1, d3)
            }
        }
    }
}

/// Skip until an unescaped, top-level occurrence of a byte of `end`.
pub fn format_skip(s: &[u8], from: usize, end: &[u8]) -> (r: Option<usize>)
    requires
        from <= s@.len(),
    ensures
        match skip_rec(s@, end@, from as int, 0) {
            Some(j) => r matches Some(i) && i as int == j && from <= j < s@.len()
                && spec_contains_byte(end@, s@[j]),
            None => r is None,
        },
{
    let mut i: usize = from;
    let mut depth: i128 = 0;
    while i < s.len()
        invariant
            from <= i <= s@.len(),
            skip_rec(s@, end@, from as int, 0) == skip_rec(s@, end@, i as int, depth as int),
            -(i as int) <= depth <= i as int,
        decreases s@.len() - i,
    {
        let c = s[i];
        let d2: i128 = if c == '#' as u8 && i + 1 < s.len() && s[i + 1] == '{' as u8 {
            depth + 1
        } else {
            depth
        };
        if c == '#' as u8 && i + 1 < s.len() && escapable(s[i + 1]) {
            i = i + 2;
            depth = d2;
        } else {
            let d3: i128 = if c == '}' as u8 {
                d2 - 1
            } else {
                d2
            };
            if contains_byte(end, c) && d3 == 0 {
                proof {
                    assert(skip_rec(s@, end@, i as int, depth as int) == Some(i as int));
                }
                return Some(i);
            }
            i = i + 1;
            depth = d3;
        }
    }
    None
}

/// The text with escapes removed: `#x` at depth zero loses the `#`; inside
/// brackets the `#` is kept.
pub open spec fn strip_rec(s: Seq<u8>, i: int, depth: int) -> Seq<u8>
    decreases s.len() - i,
{
    if i < 0 || i >= s.len() {
        Seq::empty()
    } else {
        let d2 = if s[i] == '#' as u8 && i + 1 < s.len() && s[i + 1] == '{' as u8 {
            depth + 1
        } else {
            depth
        };
        if s[i] == '#' as u8 && (i + 1 >= s.len() || is_escapable(s[i + 1])) {
            let kept: Seq<u8> = if d2 != 0 {
                seq!['#' as u8]
            } else {
                Seq::empty()
            };
            kept + strip_rec(s, i + 1, d2)
        } else {
            let d3 = if s[i] == '}' as u8 {
                d2 - 1
            } else {
                d2
            };
            seq![s[i]] + strip_rec(s, i + 1, d3)
        }
    }
}

/// Remove escape characters.
pub fn format_strip(s: &[u8]) -> (r: Vec<u8>)
    ensures
        r@ == strip_rec(s@, 0, 0),
{
    let mut out: Vec<u8> = Vec::new();
    let mut i: usize = 0;
    let mut depth: i128 = 0;
    while i < s.len()
        invariant
            i <= s@.len(),
            out@ + strip_rec(s@, i as int, depth as int) == strip_rec(s@, 0, 0),
            -(i as int) <= depth <= i as int,
        decreases s@.len() - i,
    {
        let ghost pre = out@;
        let ghost predepth = depth as int;
        let c = s[i];
        let d2: i128 = if c == '#' as u8 && i + 1 < s.len() && s[i + 1] == '{' as u8 {
            depth + 1
        } else {
            depth
        };
        if c == '#' as u8 && (i + 1 >= s.len() || escapable(s[i + 1])) {
            if d2 != 0 {
                out.push('#' as u8);
            }
            proof {
                assert(out@ + strip_rec(s@, i + 1, d2 as int) =~= pre + strip_rec(
                    s@,
                    i as int,
                    predepth,
                ));
            }
            i = i + 1;
            depth = d2;
        } else {
            let d3: i128 = if c == '}' as u8 {
                d2 - 1
            } else {
                d2
            };
            out.push(c);
            proof {
                assert(out@ + strip_rec(s@, i + 1, d3 as int) =~= pre + strip_rec(
                    s@,
                    i as int,
                    predepth,
                ));
            }
            i = i + 1;
            depth = d3;
        }
    }
    proof {
        assert(out@ + strip_rec(s@, i as int, depth as int) =~= out@);
    }
    out
}

/// The text with escapes resolved: `#x` at depth zero becomes `x`; bracketed
/// sub-placeholders are kept intact.
pub open spec fn unescape_rec(s: Seq<u8>, i: int, depth: int) -> Seq<u8>
    decreases s.len() - i,
{
    if i < 0 || i >= s.len() {
        Seq::empty()
    } else {
        let d2 = if s[i] == '#' as u8 && i + 1 < s.len() && s[i + 1] == '{' as u8 {
            depth + 1
        } else {
            depth
        };
        if d2 == 0 && s[i] == '#' as u8 && (i + 1 >= s.len() || is_escapable(s[i + 1])) {
            if i + 1 >= s.len() {
                Seq::empty()
            } else {
                seq![s[i + 1]] + unescape_rec(s, i + 2, d2)
            }
        } else {
            let d3 = if s[i] == '}' as u8 {
                d2 - 1
            } else {
                d2
            };
            seq![s[i]] + unescape_rec(s, i + 1, d3)
        }
    }
}

/// Resolve escape characters.
pub fn format_unescape(s: &[u8]) -> (r: Vec<u8>)
    ensures
        r@ == unescape_rec(s@, 0, 0),
{
    let mut out: Vec<u8> = Vec::new();
    let mut i: usize = 0;
    let mut depth: i128 = 0;
    while i < s.len()
        invariant
            i <= s@.len(),
            out@ + unescape_rec(s@, i as int, depth as int) == unescape_rec(s@, 0, 0),
            -(i as int) <= depth <= i as int,
        decreases s@.len() - i,
    {
        let ghost pre = out@;
        let ghost predepth = depth as int;
        let c = s[i];
        let d2: i128 = if c == '#' as u8 && i + 1 < s.len() && s[i + 1] == '{' as u8 {
            depth + 1
        } else {
            depth
        };
        if d2 == 0 && c == '#' as u8 && (i + 1 >= s.len() || escapable(s[i + 1])) {
            if i + 1 >= s.len() {
                proof {
                    assert(unescape_rec(s@, i as int, predepth) =~= Seq::<u8>::empty());
                    assert(unescape_rec(s@, s@.len() as int, d2 as int) =~= Seq::<u8>::empty());
                    assert(out@ + unescape_rec(s@, s@.len() as int, d2 as int) =~= pre
                        + unescape_rec(s@, i as int, predepth));
                }
                i = s.len();
                depth = d2;
            } else {
                out.push(s[i + 1]);
                proof {
                    assert(out@ + unescape_rec(s@, i + 2, d2 as int) =~= pre + unescape_rec(
                        s@,
                        i as int,
                        predepth,
                    ));
                }
                i = i + 2;
                depth = d2;
            }
        } else {
            let d3: i128 = if c == '}' as u8 {
                d2 - 1
            } else {
                d2
            };
            out.push(c);
            proof {
                assert(out@ + unescape_rec(s@, i + 1, d3 as int) =~= pre + unescape_rec(
                    s@,
                    i as int,
                    predepth,
                ));
            }
            i = i + 1;
            depth = d3;
        }
    }
    proof {
        assert(unescape_rec(s@, i as int, depth as int) =~= Seq::<u8>::empty());
        assert(out@ + unescape_rec(s@, i as int, depth as int) =~= out@);
    }
    out
}

/// Insert a `#` before each separator, so that the text survives one
/// unescaping pass.
pub open spec fn escape_rec(s: Seq<u8>, i: int) -> Seq<u8>
    decreases s.len() - i,
{
    if i < 0 || i >= s.len() {
        Seq::empty()
    } else if s[i] == ',' as u8 || s[i] == '#' as u8 || s[i] == ':' as u8 {
        seq!['#' as u8, s[i]] + escape_rec(s, i + 1)
    } else {
        seq![s[i]] + escape_rec(s, i + 1)
    }
}

pub fn format_escape(s: &[u8]) -> (r: Vec<u8>)
    ensures
        r@ == escape_rec(s@, 0),
{
    let mut out: Vec<u8> = Vec::new();
    let mut i: usize = 0;
    while i < s.len()
        invariant
            i <= s@.len(),
            out@ + escape_rec(s@, i as int) == escape_rec(s@, 0),
        decreases s@.len() - i,
    {
        let ghost pre = out@;
        let c = s[i];
        if c == ',' as u8 || c == '#' as u8 || c == ':' as u8 {
            out.push('#' as u8);
            out.push(c);
        } else {
            out.push(c);
        }
        proof {
            assert(out@ + escape_rec(s@, i + 1) =~= pre + escape_rec(s@, i as int));
        }
        i = i + 1;
    }
    proof {
        assert(out@ + escape_rec(s@, i as int) =~= out@);
    }
    out
}

/// Unescaping undoes the escaping of separators, as the literal modifier
/// performs it, for text free of braces.
pub proof fn lemma_unescape_escape(s: Seq<u8>)
    requires
        forall|i: int| 0 <= i < s.len() ==> s[i] != '{' as u8 && s[i] != '}' as u8,
    ensures
        unescape_rec(escape_rec(s, 0), 0, 0) == s,
{
    lemma_unescape_escape_rec(s, 0);
    assert(unescape_rec(escape_rec(s, 0), 0, 0) =~= s.skip(0));
    assert(s.skip(0) =~= s);
}

proof fn lemma_unescape_escape_rec(s: Seq<u8>, i: int)
    requires
        0 <= i <= s.len(),
        forall|j: int| 0 <= j < s.len() ==> s[j] != '{' as u8 && s[j] != '}' as u8,
    ensures
        unescape_rec(escape_rec(s, i), 0, 0) =~= s.skip(i),
    decreases s.len() - i,
{
    if i < s.len() {
        lemma_unescape_escape_rec(s, i + 1);
        let e = escape_rec(s, i);
        let tail = escape_rec(s, i + 1);
        if s[i] == ',' as u8 || s[i] == '#' as u8 || s[i] == ':' as u8 {
            assert(e =~= seq!['#' as u8, s[i]] + tail);
            assert(e[0] == '#' as u8 && e[1] == s[i]);
            assert(is_escapable(e[1]));
            assert(e[1] != '{' as u8);
            assert(e.skip(2) =~= tail);
            lemma_unescape_shift(e, tail, 2);
            assert(unescape_rec(e, 0, 0) =~= seq![s[i]] + unescape_rec(tail, 0, 0));
        } else {
            assert(e =~= seq![s[i]] + tail);
            assert(e[0] == s[i]);
            assert(e[0] != '#' as u8 && e[0] != '{' as u8 && e[0] != '}' as u8);
            assert(e.skip(1) =~= tail);
            lemma_unescape_shift(e, tail, 1);
            assert(unescape_rec(e, 0, 0) =~= seq![s[i]] + unescape_rec(tail, 0, 0));
        }
        assert(seq![s[i]] + s.skip(i + 1) =~= s.skip(i));
    } else {
        assert(escape_rec(s, i) =~= Seq::<u8>::empty());
        assert(s.skip(i) =~= Seq::<u8>::empty());
    }
}

/// Unescaping from position `k` only reads the suffix: shifting the input
/// leaves the result unchanged.
proof fn lemma_unescape_shift(e: Seq<u8>, tail: Seq<u8>, k: int)
    requires
        0 <= k <= e.len(),
        e.skip(k) =~= tail,
    ensures
        unescape_rec(e, k, 0) =~= unescape_rec(tail, 0, 0),
    decreases e.len() - k,
{
    lemma_unescape_shift_d(e, tail, k, 0, 0);
}

proof fn lemma_unescape_shift_d(e: Seq<u8>, tail: Seq<u8>, k: int, j: int, depth: int)
    requires
        0 <= k <= e.len(),
        0 <= j,
        e.skip(k) =~= tail,
    ensures
        unescape_rec(e, k + j, depth) =~= unescape_rec(tail, j, depth),
    decreases e.len() - k - j,
{
    if k + j < e.len() && j < tail.len() {
        assert(e[k + j] == tail[j]);
        if k + j + 1 < e.len() {
            assert(e[k + j + 1] == tail[j + 1]);
        }
        let d2 = if e[k + j] == '#' as u8 && k + j + 1 < e.len() && e[k + j + 1] == '{' as u8 {
            depth + 1
        } else {
            depth
        };
        if d2 == 0 && e[k + j] == '#' as u8 && (k + j + 1 >= e.len() || is_escapable(
            e[k + j + 1],
        )) {
            if k + j + 1 < e.len() {
                lemma_unescape_shift_d(e, tail, k, j + 2, d2);
            }
        } else {
            let d3 = if e[k + j] == '}' as u8 {
                d2 - 1
            } else {
                d2
            };
            lemma_unescape_shift_d(e, tail, k, j + 1, d3);
        }
    }
}

/// Is a resolved value true? Anything but the empty string and `0`.
pub open spec fn spec_true(s: Seq<u8>) -> bool {
    s.len() > 0 && !(s =~= seq!['0' as u8])
}

pub fn format_true(s: &[u8]) -> (r: bool)
    ensures
        r == spec_true(s@),
{
    if s.len() == 0 {
        false
    } else if s.len() == 1 && s[0] == '0' as u8 {
        proof {
            assert(s@ =~= seq!['0' as u8]);
        }
        false
    } else {
        proof {
            if s@ =~= seq!['0' as u8] {
                assert(s@.len() == 1 && s@[0] == '0' as u8);
            }
        }
        true
    }
}

/// Left and right alternatives separated by the first top-level comma.
pub open spec fn spec_choose(s: Seq<u8>) -> Option<(Seq<u8>, Seq<u8>)> {
    match skip_rec(s, seq![',' as u8], 0, 0) {
        None => None,
        Some(i) => Some((s.subrange(0, i), s.subrange(i + 1, s.len() as int))),
    }
}

/// Split on the first unescaped top-level comma; `None` when there is none.
pub fn format_choose_split(s: &[u8]) -> (r: Option<(Vec<u8>, Vec<u8>)>)
    ensures
        match r {
            Some((l, rr)) => spec_choose(s@) matches Some(p) && p.0 == l@ && p.1 == rr@,
            None => spec_choose(s@) is None,
        },
{
    let comma: Vec<u8> = {
        let mut v: Vec<u8> = Vec::new();
        v.push(',' as u8);
        v
    };
    proof {
        assert(comma@ =~= seq![',' as u8]);
    }
    match format_skip(s, 0, comma.as_slice()) {
        None => None,
        Some(i) => {
            proof {
                assert(skip_rec(s@, comma@, 0, 0) == skip_rec(s@, seq![',' as u8], 0, 0));
            }
            let n = s.len();
            proof {
                assert(i < n);
            }
            let l = sub_vec(s, 0, i);
            let rr = sub_vec(s, i + 1, n);
            Some((l, rr))
        },
    }
}

/// Backslash-escape the shell's special characters.
pub open spec fn is_shell_special(c: u8) -> bool {
    ||| c == '|' as u8
    ||| c == '&' as u8
    ||| c == ';' as u8
    ||| c == '<' as u8
    ||| c == '>' as u8
    ||| c == '(' as u8
    ||| c == ')' as u8
    ||| c == '$' as u8
    ||| c == '`' as u8
    ||| c == '\\' as u8
    ||| c == '"' as u8
    ||| c == '\'' as u8
    ||| c == '*' as u8
    ||| c == '?' as u8
    ||| c == '[' as u8
    ||| c == '#' as u8
    ||| c == ' ' as u8
    ||| c == '=' as u8
    ||| c == '%' as u8
}

pub open spec fn quote_shell_rec(s: Seq<u8>, i: int) -> Seq<u8>
    decreases s.len() - i,
{
    if i < 0 || i >= s.len() {
        Seq::empty()
    } else if is_shell_special(s[i]) {
        seq!['\\' as u8, s[i]] + quote_shell_rec(s, i + 1)
    } else {
        seq![s[i]] + quote_shell_rec(s, i + 1)
    }
}

fn shell_special(c: u8) -> (r: bool)
    ensures
        r == is_shell_special(c),
{
    c == '|' as u8 || c == '&' as u8 || c == ';' as u8 || c == '<' as u8 || c == '>' as u8 || c
        == '(' as u8 || c == ')' as u8 || c == '$' as u8 || c == '`' as u8 || c == '\\' as u8 || c
        == '"' as u8 || c == '\'' as u8 || c == '*' as u8 || c == '?' as u8 || c == '[' as u8 || c
        == '#' as u8 || c == ' ' as u8 || c == '=' as u8 || c == '%' as u8
}

pub fn format_quote_shell(s: &[u8]) -> (r: Vec<u8>)
    ensures
        r@ == quote_shell_rec(s@, 0),
{
    let mut out: Vec<u8> = Vec::new();
    let mut i: usize = 0;
    while i < s.len()
        invariant
            i <= s@.len(),
            out@ + quote_shell_rec(s@, i as int) == quote_shell_rec(s@, 0),
        decreases s@.len() - i,
    {
        let ghost pre = out@;
        let c = s[i];
        if shell_special(c) {
            out.push('\\' as u8);
            out.push(c);
        } else {
            out.push(c);
        }
        proof {
            assert(out@ + quote_shell_rec(s@, i + 1) =~= pre + quote_shell_rec(s@, i as int));
        }
        i = i + 1;
    }
    proof {
        assert(out@ + quote_shell_rec(s@, i as int) =~= out@);
    }
    out
}

/// Double each `#` so the value survives a style parse.
pub open spec fn quote_style_rec(s: Seq<u8>, i: int) -> Seq<u8>
    decreases s.len() - i,
{
    if i < 0 || i >= s.len() {
        Seq::empty()
    } else if s[i] == '#' as u8 {
        seq!['#' as u8, '#' as u8] + quote_style_rec(s, i + 1)
    } else {
        seq![s[i]] + quote_style_rec(s, i + 1)
    }
}

pub fn format_quote_style(s: &[u8]) -> (r: Vec<u8>)
    ensures
        r@ == quote_style_rec(s@, 0),
{
    let mut out: Vec<u8> = Vec::new();
    let mut i: usize = 0;
    while i < s.len()
        invariant
            i <= s@.len(),
            out@ + quote_style_rec(s@, i as int) == quote_style_rec(s@, 0),
        decreases s@.len() - i,
    {
        let ghost pre = out@;
        let c = s[i];
        if c == '#' as u8 {
            out.push('#' as u8);
            out.push('#' as u8);
        } else {
            out.push(c);
        }
        proof {
            assert(out@ + quote_style_rec(s@, i + 1) =~= pre + quote_style_rec(s@, i as int));
        }
        i = i + 1;
    }
    proof {
        assert(out@ + quote_style_rec(s@, i as int) =~= out@);
    }
    out
}

} // verus!
