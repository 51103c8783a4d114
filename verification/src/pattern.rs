//! Matching and substitution: a verified glob matcher for the comparison
//! modifier, substring search over pane text, and regular-expression search
//! and substitution through the `regex` crate. What a regular expression
//! matches is named, not restated: it is a function of the pattern, the
//! case flag and the text alone.

use vstd::prelude::*;
use crate::bytes::{sub_vec, append_bytes};

verus! {

/// ASCII lower-casing, for case-folded comparisons.
pub open spec fn spec_fold(c: u8) -> u8 {
    if 'A' as u8 <= c <= 'Z' as u8 {
        (c + 32) as u8
    } else {
        c
    }
}

pub open spec fn spec_fold_all(s: Seq<u8>) -> Seq<u8> {
    s.map(|i: int, c: u8| spec_fold(c))
}

pub fn fold_all(s: &[u8]) -> (r: Vec<u8>)
    ensures
        r@ == spec_fold_all(s@),
{
    let mut out: Vec<u8> = Vec::new();
    let mut i: usize = 0;
    while i < s.len()
        invariant
            i <= s@.len(),
            out@ == spec_fold_all(s@).subrange(0, i as int),
        decreases s@.len() - i,
    {
        let c = s[i];
        if 'A' as u8 <= c && c <= 'Z' as u8 {
            out.push(c + 32);
        } else {
            out.push(c);
        }
        proof {
            assert(out@ =~= spec_fold_all(s@).subrange(0, i + 1));
        }
        i = i + 1;
    }
    proof {
        assert(out@ =~= spec_fold_all(s@));
    }
    out
}

/// Glob matching: `*` spans any run, `?` any one byte, anything else
/// matches itself.
pub open spec fn glob_match(p: Seq<u8>, s: Seq<u8>) -> bool
    decreases p.len(), s.len(),
{
    if p.len() == 0 {
        s.len() == 0
    } else if p[0] == '*' as u8 {
        glob_match(p.skip(1), s) || (s.len() > 0 && glob_match(p, s.skip(1)))
    } else if s.len() == 0 {
        false
    } else if p[0] == '?' as u8 || p[0] == s[0] {
        glob_match(p.skip(1), s.skip(1))
    } else {
        false
    }
}

fn glob_rec(p: &[u8], s: &[u8], pi: usize, si: usize) -> (r: bool)
    requires
        pi <= p@.len(),
        si <= s@.len(),
    ensures
        r == glob_match(p@.skip(pi as int), s@.skip(si as int)),
    decreases p@.len() - pi, s@.len() - si,
{
    proof {
        if pi < p@.len() {
            assert(p@.skip(pi as int)[0] == p@[pi as int]);
            assert(p@.skip(pi as int).skip(1) =~= p@.skip(pi + 1));
        }
        if si < s@.len() {
            assert(s@.skip(si as int)[0] == s@[si as int]);
            assert(s@.skip(si as int).skip(1) =~= s@.skip(si + 1));
        }
    }
    if pi >= p.len() {
        si >= s.len()
    } else if p[pi] == '*' as u8 {
        if glob_rec(p, s, pi + 1, si) {
            true
        } else if si < s.len() {
            glob_rec(p, s, pi, si + 1)
        } else {
            false
        }
    } else if si >= s.len() {
        false
    } else if p[pi] == '?' as u8 || p[pi] == s[si] {
        glob_rec(p, s, pi + 1, si + 1)
    } else {
        false
    }
}

/// Does the pattern match the whole text, optionally case-folded?
pub open spec fn spec_glob(p: Seq<u8>, s: Seq<u8>, icase: bool) -> bool {
    if icase {
        glob_match(spec_fold_all(p), spec_fold_all(s))
    } else {
        glob_match(p, s)
    }
}

pub fn format_glob(p: &[u8], s: &[u8], icase: bool) -> (r: bool)
    ensures
        r == spec_glob(p@, s@, icase),
{
    if icase {
        let p2 = fold_all(p);
        let s2 = fold_all(s);
        proof {
            assert(p2@.skip(0) =~= p2@);
            assert(s2@.skip(0) =~= s2@);
        }
        glob_rec(p2.as_slice(), s2.as_slice(), 0, 0)
    } else {
        proof {
            assert(p@.skip(0) =~= p@);
            assert(s@.skip(0) =~= s@);
        }
        glob_rec(p, s, 0, 0)
    }
}

/// `needle` occurs in `hay` starting at `i`.
pub open spec fn spec_match_at(hay: Seq<u8>, needle: Seq<u8>, i: int) -> bool {
    0 <= i && i + needle.len() <= hay.len() && hay.subrange(i, i + needle.len()) == needle
}

pub open spec fn spec_contains_sub(hay: Seq<u8>, needle: Seq<u8>) -> bool {
    exists|i: int| spec_match_at(hay, needle, i)
}

pub fn contains_sub(hay: &[u8], needle: &[u8]) -> (r: bool)
    ensures
        r == spec_contains_sub(hay@, needle@),
{
    if needle.len() > hay.len() {
        proof {
            assert forall|i: int| !spec_match_at(hay@, needle@, i) by {}
        }
        return false;
    }
    if needle.len() == 0 {
        proof {
            assert(hay@.subrange(0, 0) =~= needle@);
            assert(spec_match_at(hay@, needle@, 0));
        }
        return true;
    }
    let hn = hay.len();
    let last = hay.len() - needle.len();
    let mut i: usize = 0;
    while i <= last
        invariant
            hn == hay@.len(),
            1 <= needle@.len() <= hay@.len(),
            last == hay@.len() - needle@.len(),
            i <= last + 1,
            forall|j: int| 0 <= j < i ==> !spec_match_at(hay@, needle@, j),
        decreases last + 1 - i,
    {
        let mut k: usize = 0;
        let mut ok = true;
        while k < needle.len()
            invariant
                hn == hay@.len(),
                i + needle@.len() <= hay@.len(),
                k <= needle@.len(),
                ok == (hay@.subrange(i as int, i + k) =~= needle@.subrange(0, k as int)),
            decreases needle@.len() - k,
        {
            let ghost preok = ok;
            if hay[i + k] != needle[k] {
                ok = false;
                proof {
                    if hay@.subrange(i as int, i + k + 1) =~= needle@.subrange(0, k + 1) {
                        assert(hay@.subrange(i as int, i + k + 1)[k as int] == needle@.subrange(
                            0,
                            k + 1,
                        )[k as int]);
                    }
                }
            } else {
                proof {
                    if preok {
                        assert(hay@.subrange(i as int, i + k + 1) =~= needle@.subrange(0, k + 1));
                    } else {
                        if hay@.subrange(i as int, i + k + 1) =~= needle@.subrange(0, k + 1) {
                            assert forall|j: int| 0 <= j < k implies hay@.subrange(
                                i as int,
                                i + k,
                            )[j] == needle@.subrange(0, k as int)[j] by {
                                assert(hay@.subrange(i as int, i + k + 1)[j] == needle@.subrange(
                                    0,
                                    k + 1,
                                )[j]);
                            }
                            assert(hay@.subrange(i as int, i + k) =~= needle@.subrange(
                                0,
                                k as int,
                            ));
                        }
                    }
                }
            }
            k = k + 1;
        }
        if ok {
            proof {
                assert(hay@.subrange(i as int, i + needle@.len()) =~= needle@);
                assert(spec_match_at(hay@, needle@, i as int));
            }
            return true;
        }
        proof {
            if spec_match_at(hay@, needle@, i as int) {
                assert(hay@.subrange(i as int, i + needle@.len()) == needle@);
                assert(needle@.subrange(0, needle@.len() as int) =~= needle@);
            }
        }
        i = i + 1;
    }
    proof {
        assert forall|j: int| !spec_match_at(hay@, needle@, j) by {
            if 0 <= j && j + needle@.len() <= hay@.len() {
                assert(j < i);
            }
        }
    }
    false
}

/// Whether this text compiles as a regular expression with the given case
/// flag; what the `regex` crate's parser accepts.
pub uninterp spec fn regex_valid_of(pat: Seq<u8>, icase: bool) -> bool;

/// The group spans of the leftmost match at or after `from`: what the
/// `regex` crate finds for the pattern in the text. `None` stands for no
/// match; an absent group is `None` inside the list.
pub uninterp spec fn regex_find_of(pat: Seq<u8>, icase: bool, text: Seq<u8>, from: int) -> Option<
    Seq<Option<(int, int)>>,
>;

/// Relies on regex::bytes::RegexBuilder::build and Regex::captures_at: the
/// leftmost-first match of the pattern at or after `from`, with one span
/// per capture group; which spans come back depends on the pattern and the
/// text alone.
#[verifier::external_body]
fn regex_find_raw(pat: &[u8], icase: bool, text: &[u8], from: usize) -> (r: Result<
    Option<Vec<Option<(usize, usize)>>>,
    (),
>)
    requires
        from <= text@.len(),
    ensures
        (r matches Err(_)) == !regex_valid_of(pat@, icase),
        r matches Ok(o) ==> (match (o, regex_find_of(pat@, icase, text@, from as int)) {
            (None, None) => true,
            (Some(v), Some(g)) => {
                &&& v@.len() == g.len()
                &&& v@.len() >= 1
                &&& forall|i: int|
                    0 <= i < g.len() ==> g[i] == (match v@[i] {
                        Some(p) => Some((p.0 as int, p.1 as int)),
                        None => None::<(int, int)>,
                    })
                &&& (v@[0] matches Some(p) && from <= p.0 <= p.1 <= text@.len())
                &&& forall|i: int|
                    0 <= i < v@.len() ==> (match #[trigger] v@[i] {
                        Some(p) => p.0 <= p.1 <= text@.len(),
                        None => true,
                    })
            },
            _ => false,
        }),
{
    let p = core::str::from_utf8(pat).map_err(|_| ())?;
    let re = regex::bytes::RegexBuilder::new(p).case_insensitive(icase).build().map_err(
        |_| (),
    )?;
    match re.captures_at(text, from) {
        None => Ok(None),
        Some(c) => Ok(Some(c.iter().map(|m| m.map(|mm| (mm.start(), mm.end()))).collect())),
    }
}

/// Does the expression match anywhere in the text? `None` when it does not
/// compile.
pub open spec fn spec_regex_match(pat: Seq<u8>, icase: bool, text: Seq<u8>) -> Option<bool> {
    if !regex_valid_of(pat, icase) {
        None
    } else {
        Some(regex_find_of(pat, icase, text, 0) is Some)
    }
}

pub fn format_regex_match(pat: &[u8], icase: bool, text: &[u8]) -> (r: Option<bool>)
    ensures
        r == spec_regex_match(pat@, icase, text@),
{
    match regex_find_raw(pat, icase, text, 0) {
        Err(_) => None,
        Ok(None) => Some(false),
        Ok(Some(_)) => Some(true),
    }
}

/// A backreference list rendered against the text: `\\N` becomes group
/// `N`'s text, anything else stands for itself.
pub open spec fn spec_backrefs(
    with: Seq<u8>,
    text: Seq<u8>,
    groups: Seq<Option<(int, int)>>,
    i: int,
) -> Seq<u8>
    decreases with.len() - i,
{
    if i < 0 || i >= with.len() {
        Seq::empty()
    } else if with[i] == '\\' as u8 && i + 1 < with.len() && '0' as u8 <= with[i + 1]
        <= '9' as u8 {
        let n = with[i + 1] - 48;
        let part: Seq<u8> = if n < groups.len() {
            match groups[n as int] {
                Some(p) => {
                    if 0 <= p.0 <= p.1 <= text.len() {
                        text.subrange(p.0, p.1)
                    } else {
                        Seq::empty()
                    }
                },
                None => Seq::empty(),
            }
        } else {
            Seq::empty()
        };
        part + spec_backrefs(with, text, groups, i + 2)
    } else {
        seq![with[i]] + spec_backrefs(with, text, groups, i + 1)
    }
}

fn backrefs(with: &[u8], text: &[u8], groups: &Vec<Option<(usize, usize)>>) -> (r: Vec<u8>)
    requires
        forall|i: int|
            0 <= i < groups@.len() ==> (match #[trigger] groups@[i] {
                Some(p) => p.0 <= p.1 <= text@.len(),
                None => true,
            }),
    ensures
        r@ == spec_backrefs(
            with@,
            text@,
            groups@.map(
                |i: int, x: Option<(usize, usize)>|
                    match x {
                        Some(p) => Some((p.0 as int, p.1 as int)),
                        None => None::<(int, int)>,
                    },
            ),
            0,
        ),
{
    let ghost gs = groups@.map(
        |i: int, x: Option<(usize, usize)>|
            match x {
                Some(p) => Some((p.0 as int, p.1 as int)),
                None => None::<(int, int)>,
            },
    );
    let mut out: Vec<u8> = Vec::new();
    let mut i: usize = 0;
    while i < with.len()
        invariant
            i <= with@.len(),
            gs == groups@.map(
                |i: int, x: Option<(usize, usize)>|
                    match x {
                        Some(p) => Some((p.0 as int, p.1 as int)),
                        None => None::<(int, int)>,
                    },
            ),
            forall|j: int|
                0 <= j < groups@.len() ==> (match #[trigger] groups@[j] {
                    Some(p) => p.0 <= p.1 <= text@.len(),
                    None => true,
                }),
            out@ + spec_backrefs(with@, text@, gs, i as int) == spec_backrefs(with@, text@, gs, 0),
        decreases with@.len() - i,
    {
        let ghost pre = out@;
        let c = with[i];
        if c == '\\' as u8 && i + 1 < with.len() && '0' as u8 <= with[i + 1] && with[i + 1]
            <= '9' as u8 {
            let n = (with[i + 1] - 48) as usize;
            if n < groups.len() {
                match groups[n] {
                    Some(p) => {
                        let piece = sub_vec(text, p.0, p.1);
                        append_bytes(&mut out, piece.as_slice());
                    },
                    None => {},
                }
            }
            proof {
                if n < groups@.len() {
                    assert(gs[n as int] == (match groups@[n as int] {
                        Some(p) => Some((p.0 as int, p.1 as int)),
                        None => None::<(int, int)>,
                    }));
                }
                assert(out@ + spec_backrefs(with@, text@, gs, i + 2) =~= pre + spec_backrefs(
                    with@,
                    text@,
                    gs,
                    i as int,
                ));
            }
            i = i + 2;
        } else {
            out.push(c);
            proof {
                assert(out@ + spec_backrefs(with@, text@, gs, i + 1) =~= pre + spec_backrefs(
                    with@,
                    text@,
                    gs,
                    i as int,
                ));
            }
            i = i + 1;
        }
    }
    proof {
        assert(out@ + spec_backrefs(with@, text@, gs, i as int) =~= out@);
    }
    out
}

/// The text with every match of the pattern replaced. Group spans are
/// pinned inside the text in the specification; the search itself never
/// yields anything else. An empty match consumes the byte after it.
pub open spec fn spec_regsub(
    pat: Seq<u8>,
    icase: bool,
    with: Seq<u8>,
    text: Seq<u8>,
    from: int,
) -> Seq<u8>
    decreases text.len() - from,
{
    if from < 0 || from > text.len() {
        Seq::empty()
    } else {
        match regex_find_of(pat, icase, text, from) {
            None => text.skip(from),
            Some(g) => {
                if g.len() >= 1 && (g[0] matches Some(p) && from <= p.0 <= p.1 <= text.len()) {
                    let p = g[0].unwrap();
                    let head = text.subrange(from, p.0) + spec_backrefs(with, text, g, 0);
                    if p.1 == p.0 {
                        if p.1 < text.len() {
                            head + seq![text[p.1]] + spec_regsub(pat, icase, with, text, p.1 + 1)
                        } else {
                            head
                        }
                    } else {
                        head + spec_regsub(pat, icase, with, text, p.1)
                    }
                } else {
                    text.skip(from)
                }
            },
        }
    }
}

fn regsub_rec(pat: &[u8], icase: bool, with: &[u8], text: &[u8], from: usize) -> (r: Vec<u8>)
    requires
        from <= text@.len(),
        regex_valid_of(pat@, icase),
    ensures
        r@ == spec_regsub(pat@, icase, with@, text@, from as int),
    decreases text@.len() - from,
{
    match regex_find_raw(pat, icase, text, from) {
        Err(_) => {
            proof {
                assert(false);
            }
            Vec::new()
        },
        Ok(None) => sub_vec(text, from, text.len()),
        Ok(Some(v)) => {
            let ghost g = regex_find_of(pat@, icase, text@, from as int).unwrap();
            proof {
                assert(g[0] == (match v@[0] {
                    Some(p) => Some((p.0 as int, p.1 as int)),
                    None => None::<(int, int)>,
                }));
                assert(g =~= v@.map(
                    |i: int, x: Option<(usize, usize)>|
                        match x {
                            Some(p) => Some((p.0 as int, p.1 as int)),
                            None => None::<(int, int)>,
                        },
                ));
            }
            let p = v[0].unwrap();
            let mut out = sub_vec(text, from, p.0);
            let reps = backrefs(with, text, &v);
            append_bytes(&mut out, reps.as_slice());
            if p.1 == p.0 {
                if p.1 < text.len() {
                    out.push(text[p.1]);
                    let rest = regsub_rec(pat, icase, with, text, p.1 + 1);
                    append_bytes(&mut out, rest.as_slice());
                    proof {
                        assert(out@ =~= spec_regsub(pat@, icase, with@, text@, from as int));
                    }
                    out
                } else {
                    proof {
                        assert(out@ =~= spec_regsub(pat@, icase, with@, text@, from as int));
                    }
                    out
                }
            } else {
                let rest = regsub_rec(pat, icase, with, text, p.1);
                append_bytes(&mut out, rest.as_slice());
                proof {
                    assert(out@ =~= spec_regsub(pat@, icase, with@, text@, from as int));
                }
                out
            }
        },
    }
}

/// The substitute modifier: replace every match, or hand the text back
/// unchanged when the pattern does not compile.
pub open spec fn spec_format_sub(pat: Seq<u8>, icase: bool, with: Seq<u8>, text: Seq<u8>) -> Seq<
    u8,
> {
    if regex_valid_of(pat, icase) {
        spec_regsub(pat, icase, with, text, 0)
    } else {
        text
    }
}

pub fn format_sub(pat: &[u8], icase: bool, with: &[u8], text: &[u8]) -> (r: Vec<u8>)
    ensures
        r@ == spec_format_sub(pat@, icase, with@, text@),
{
    match regex_find_raw(pat, icase, text, 0) {
        Err(_) => crate::bytes::to_vec(text),
        Ok(_) => regsub_rec(pat, icase, with, text, 0),
    }
}

} // verus!
