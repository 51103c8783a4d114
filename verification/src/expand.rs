//! The recursive expander: scans a template byte by byte, dispatches
//! `#`-escapes, parses the modifier list of a `#{...}` placeholder, resolves
//! it, and applies the post-processing pipeline. Recursion is bounded by an
//! explicit depth threaded through every call; at the ceiling a
//! sub-expansion resolves to the empty string.

use vstd::prelude::*;
use vstd::string::StringSliceAdditionalSpecFns;
use crate::bytes::lex_lt;
use crate::model::Server;
use crate::tree::{format_tree, format_create, format_defaults, FtSpec, format_type,
    FORMAT_NOJOBS, FORMAT_FORCE, FORMAT_STATUS};
use crate::kv::SortedKv;
use crate::table::{TableEntry, table_ok};
use crate::job::{JobCache, format_job, format_job_get_cached, spec_find_job};
use crate::find::{format_find, spec_format_find, FORMAT_TIMESTRING, FORMAT_BASENAME,
    FORMAT_DIRNAME, FORMAT_QUOTE_SHELL, FORMAT_PRETTY, FORMAT_QUOTE_STYLE};
use crate::scan::{format_skip, format_strip, format_unescape, format_true, format_choose_split,
    skip_rec, strip_rec, unescape_rec, spec_true, spec_choose, spec_is_end};
use crate::bytes::{to_vec, sub_vec, append_bytes, bytes_eq, contains_byte, spec_contains_byte,
    lit};
use crate::nums::{strtonum, u64_dec, hex6, spec_strtonum, spec_u64_dec, spec_hex6};
use crate::trim::{format_trim_left, format_trim_right, format_pad_left, format_pad_right,
    format_width, spec_trim_left, spec_trim_right, spec_pad_left, spec_pad_right, spec_width};
use crate::pattern::{format_glob, format_regex_match, format_sub, contains_sub, fold_all,
    spec_glob, spec_regex_match, spec_format_sub, spec_contains_sub, spec_fold_all};
use crate::expr::{parse_op, parse_scaled, apply_op, format_scaled, spec_parse_op,
    spec_parse_scaled, spec_apply, spec_format_scaled};
use crate::colour::{colour_rgb, spec_colour_rgb};
use crate::time::{time_tm, format_strftime, spec_tm, strftime_rec, TIME_MAX};

verus! {

/// Ceiling on recursive expansion.
pub const FORMAT_LOOP_LIMIT: u64 = 100;

/// Expansion-state flags.
pub const FORMAT_EXPAND_TIME: u32 = 0x1;

pub const FORMAT_EXPAND_NOJOBS: u32 = 0x2;

/// Placeholder modifier bits handled during replacement.
pub const FORMAT_LITERAL: u32 = 0x10;

pub const FORMAT_EXPAND: u32 = 0x20;

pub const FORMAT_EXPANDTIME: u32 = 0x40;

pub const FORMAT_SESSIONS: u32 = 0x80;

pub const FORMAT_WINDOWS: u32 = 0x100;

pub const FORMAT_PANES: u32 = 0x200;

pub const FORMAT_LENGTH: u32 = 0x800;

pub const FORMAT_WIDTH: u32 = 0x1000;

pub const FORMAT_WINDOW_NAME: u32 = 0x4000;

pub const FORMAT_SESSION_NAME: u32 = 0x8000;

pub const FORMAT_CHARACTER: u32 = 0x10000;

pub const FORMAT_COLOUR: u32 = 0x20000;

pub const FORMAT_CLIENTS: u32 = 0x40000;

/// A parsed modifier: a one- or two-byte opcode and its arguments, each
/// already expanded.
pub struct format_modifier {
    pub modifier: Vec<u8>,
    pub argv: Vec<Vec<u8>>,
}

/// Is this byte ASCII punctuation?
pub open spec fn spec_is_punct(c: u8) -> bool {
    (33 <= c <= 47) || (58 <= c <= 64) || (91 <= c <= 96) || (123 <= c <= 126)
}

fn is_punct(c: u8) -> (r: bool)
    ensures
        r == spec_is_punct(c),
{
    (33 <= c && c <= 47) || (58 <= c && c <= 64) || (91 <= c && c <= 96) || (123 <= c && c <= 126)
}

fn is_end(c: u8) -> (r: bool)
    ensures
        r == spec_is_end(c),
{
    c == ';' as u8 || c == ':' as u8
}

/// The variable a single-letter alias stands for.
pub open spec fn spec_alias(c: u8) -> Option<Seq<u8>> {
    if c == 'D' as u8 {
        Some(("pane_id").spec_bytes())
    } else if c == 'F' as u8 {
        Some(("window_flags").spec_bytes())
    } else if c == 'H' as u8 {
        Some(("host").spec_bytes())
    } else if c == 'I' as u8 {
        Some(("window_index").spec_bytes())
    } else if c == 'P' as u8 {
        Some(("pane_index").spec_bytes())
    } else if c == 'S' as u8 {
        Some(("session_name").spec_bytes())
    } else if c == 'T' as u8 {
        Some(("pane_title").spec_bytes())
    } else if c == 'W' as u8 {
        Some(("window_name").spec_bytes())
    } else if c == 'h' as u8 {
        Some(("host_short").spec_bytes())
    } else {
        None
    }
}

/// Single-letter aliases: `#D` and friends stand for well-known variables.
fn format_alias(c: u8) -> (r: Option<Vec<u8>>)
    ensures
        match r {
            Some(v) => spec_alias(c) == Some(v@),
            None => spec_alias(c) is None,
        },
{
    if c == 'D' as u8 {
        Some(lit("pane_id"))
    } else if c == 'F' as u8 {
        Some(lit("window_flags"))
    } else if c == 'H' as u8 {
        Some(lit("host"))
    } else if c == 'I' as u8 {
        Some(lit("window_index"))
    } else if c == 'P' as u8 {
        Some(lit("pane_index"))
    } else if c == 'S' as u8 {
        Some(lit("session_name"))
    } else if c == 'T' as u8 {
        Some(lit("pane_title"))
    } else if c == 'W' as u8 {
        Some(lit("window_name"))
    } else if c == 'h' as u8 {
        Some(lit("host_short"))
    } else {
        None
    }
}

/// Window and pane ids are folded into the job-scoping tag.
fn make_tag(bit: u32, id: u64) -> (r: u32)
    ensures
        r == spec_make_tag(bit, id),
{
    bit | ((id % 0x40000000) as u32)
}


/// Ghost image of a parsed modifier.
#[verifier::ext_equal]
pub struct ModSpec {
    pub modifier: Seq<u8>,
    pub argv: Seq<Seq<u8>>,
}

impl View for format_modifier {
    type V = ModSpec;

    open spec fn view(&self) -> ModSpec {
        ModSpec { modifier: self.modifier@, argv: self.argv@.map(|i: int, v: Vec<u8>| v@) }
    }
}

/// Ghost image of a collected modifier set.
#[verifier::ext_equal]
pub struct MsSpec {
    pub modifiers: u32,
    pub limit: i64,
    pub marker: Option<Seq<u8>>,
    pub width: i64,
    pub time_format: Option<Seq<u8>>,
    pub cmp: Option<int>,
    pub search: Option<int>,
    pub mexp: Option<int>,
    pub subs: Seq<int>,
}

/// Jobs are off in this context or expansion state.
pub open spec fn spec_disabled(ft: FtSpec, eflags: u32) -> bool {
    ft.flags & FORMAT_NOJOBS != 0 || eflags & FORMAT_EXPAND_NOJOBS != 0
}

/// Every cache entry was started in the current second and has produced no
/// output yet: every shell-out span then resolves empty, so the expansion
/// is a pure function of the template and the context. A fresh cache is
/// quiet.
pub open spec fn cache_quiet(jobs: Seq<format_job>, now: i64) -> bool {
    forall|j: int|
        0 <= j < jobs.len() ==> (#[trigger] jobs[j]).out is None && jobs[j].last == now
}

/// The expansion is a pure function of template and context: jobs are off,
/// or the cache holds nothing a shell-out span could show yet.
pub open spec fn spec_pinned(ft: FtSpec, eflags: u32, jobs: Seq<format_job>) -> bool {
    spec_disabled(ft, eflags) || cache_quiet(jobs, ft.now)
}

pub open spec fn spec_make_tag(bit: u32, id: u64) -> u32 {
    bit | ((id % 0x40000000) as u32)
}

/// A clamp that keeps spec recursion over positions well founded; on the
/// values execution produces it never fires.
pub open spec fn spec_step(next: int, cur: int, len: int) -> int {
    if cur < next && next <= len {
        next
    } else if cur + 1 <= len {
        cur + 1
    } else {
        len
    }
}

/// Position of the parenthesis closing a balanced run, `bdepth` deep.
pub open spec fn spec_paren_rec(s: Seq<u8>, j: int, bdepth: int) -> Option<int>
    decreases s.len() - j,
{
    if j < 0 || j >= s.len() {
        None
    } else if s[j] == '(' as u8 {
        spec_paren_rec(s, j + 1, bdepth + 1)
    } else if s[j] == ')' as u8 {
        if bdepth == 1 {
            Some(j)
        } else {
            spec_paren_rec(s, j + 1, bdepth - 1)
        }
    } else {
        spec_paren_rec(s, j + 1, bdepth)
    }
}

pub open spec fn spec_paren_end(s: Seq<u8>, from: int) -> Option<int> {
    spec_paren_rec(s, from, 1)
}

/// First position at or after `p` that is not a `#`.
pub open spec fn spec_hash_run(s: Seq<u8>, p: int) -> int
    decreases s.len() - p,
{
    if 0 <= p < s.len() && s[p] == '#' as u8 {
        spec_hash_run(s, p + 1)
    } else {
        p
    }
}

/// The context a loop iteration expands against: the scope handles filled
/// in and derived exactly as the defaulting step does, the top paste buffer
/// attached, with no overrides.
pub open spec fn spec_child_ft(
    server: Server,
    client: Option<usize>,
    flags: u32,
    tag: u32,
    now: i64,
    tz_offset: i64,
    c: Option<usize>,
    s: Option<usize>,
    wl: Option<usize>,
    wp: Option<usize>,
) -> FtSpec {
    let s2: Option<usize> = if s is Some {
        s
    } else if c is Some {
        server.clients@[c.unwrap() as int].session
    } else {
        None
    };
    let wl2: Option<usize> = if wl is Some {
        wl
    } else if s2 is Some {
        Some(server.sessions@[s2.unwrap() as int].curw)
    } else {
        None
    };
    let w2: Option<usize> = if s2 is Some {
        Some(server.sessions@[s2.unwrap() as int].winlinks@[wl2.unwrap() as int].window)
    } else {
        None
    };
    let wp2: Option<usize> = if w2 is Some {
        if wp is Some && wp.unwrap() < server.windows@[w2.unwrap() as int].panes@.len() {
            wp
        } else {
            Some(server.windows@[w2.unwrap() as int].active)
        }
    } else {
        None
    };
    FtSpec {
        type_: if wp is Some {
            format_type::FORMAT_TYPE_PANE
        } else if wl is Some {
            format_type::FORMAT_TYPE_WINDOW
        } else if s is Some {
            format_type::FORMAT_TYPE_SESSION
        } else {
            format_type::FORMAT_TYPE_UNKNOWN
        },
        c,
        s: s2,
        wl: wl2,
        w: w2,
        wp: wp2,
        pb: if server.paste_buffers@.len() > 0 {
            Some(0usize)
        } else {
            None
        },
        client,
        flags,
        tag,
        now,
        tz_offset,
        vars: Map::empty(),
    }
}

/// A numeric modifier argument, zero when it does not parse as a 32-bit
/// number.
pub open spec fn spec_num_or_zero(s: Seq<u8>) -> i64 {
    match spec_strtonum(s) {
        Some(v) => if -2147483648 <= v <= 2147483647 {
            v as i64
        } else {
            0
        },
        None => 0,
    }
}

/// What one modifier contributes to the collected set; `None` is the pad
/// modifier without a width, which stops the pass.
#[verifier::opaque]
pub open spec fn spec_scan_step(fm: ModSpec, i: int, acc: MsSpec) -> Option<MsSpec> {
    if fm.modifier.len() == 1 {
        let c = fm.modifier[0];
        if c == 'm' as u8 || c == '<' as u8 || c == '>' as u8 {
            Some(MsSpec { cmp: Some(i), ..acc })
        } else if c == 'C' as u8 {
            Some(MsSpec { search: Some(i), ..acc })
        } else if c == 's' as u8 {
            if fm.argv.len() >= 2 {
                Some(MsSpec { subs: acc.subs.push(i), ..acc })
            } else {
                Some(acc)
            }
        } else if c == '=' as u8 {
            if fm.argv.len() >= 1 {
                let acc1 = MsSpec { limit: spec_num_or_zero(fm.argv[0]), ..acc };
                if fm.argv.len() >= 2 {
                    Some(MsSpec { marker: Some(fm.argv[1]), ..acc1 })
                } else {
                    Some(acc1)
                }
            } else {
                Some(acc)
            }
        } else if c == 'p' as u8 {
            if fm.argv.len() < 1 {
                None
            } else {
                Some(MsSpec { width: spec_num_or_zero(fm.argv[0]), ..acc })
            }
        } else if c == 'w' as u8 {
            Some(MsSpec { modifiers: acc.modifiers | FORMAT_WIDTH, ..acc })
        } else if c == 'e' as u8 {
            if fm.argv.len() >= 1 && fm.argv.len() <= 3 {
                Some(MsSpec { mexp: Some(i), ..acc })
            } else {
                Some(acc)
            }
        } else if c == 'l' as u8 {
            Some(MsSpec { modifiers: acc.modifiers | FORMAT_LITERAL, ..acc })
        } else if c == 'a' as u8 {
            Some(MsSpec { modifiers: acc.modifiers | FORMAT_CHARACTER, ..acc })
        } else if c == 'b' as u8 {
            Some(MsSpec { modifiers: acc.modifiers | FORMAT_BASENAME, ..acc })
        } else if c == 'c' as u8 {
            Some(MsSpec { modifiers: acc.modifiers | FORMAT_COLOUR, ..acc })
        } else if c == 'd' as u8 {
            Some(MsSpec { modifiers: acc.modifiers | FORMAT_DIRNAME, ..acc })
        } else if c == 'n' as u8 {
            Some(MsSpec { modifiers: acc.modifiers | FORMAT_LENGTH, ..acc })
        } else if c == 't' as u8 {
            let acc1 = MsSpec { modifiers: acc.modifiers | FORMAT_TIMESTRING, ..acc };
            if fm.argv.len() >= 1 {
                if spec_contains_byte(fm.argv[0], 'p' as u8) {
                    Some(MsSpec { modifiers: acc1.modifiers | FORMAT_PRETTY, ..acc1 })
                } else if fm.argv.len() >= 2 && spec_contains_byte(fm.argv[0], 'f' as u8) {
                    Some(MsSpec { time_format: Some(strip_rec(fm.argv[1], 0, 0)), ..acc1 })
                } else {
                    Some(acc1)
                }
            } else {
                Some(acc1)
            }
        } else if c == 'q' as u8 {
            if fm.argv.len() < 1 {
                Some(MsSpec { modifiers: acc.modifiers | FORMAT_QUOTE_SHELL, ..acc })
            } else if spec_contains_byte(fm.argv[0], 'e' as u8) || spec_contains_byte(
                fm.argv[0],
                'h' as u8,
            ) {
                Some(MsSpec { modifiers: acc.modifiers | FORMAT_QUOTE_STYLE, ..acc })
            } else {
                Some(acc)
            }
        } else if c == 'E' as u8 {
            Some(MsSpec { modifiers: acc.modifiers | FORMAT_EXPAND, ..acc })
        } else if c == 'T' as u8 {
            Some(MsSpec { modifiers: acc.modifiers | FORMAT_EXPANDTIME, ..acc })
        } else if c == 'N' as u8 {
            if fm.argv.len() < 1 || spec_contains_byte(fm.argv[0], 'w' as u8) {
                Some(MsSpec { modifiers: acc.modifiers | FORMAT_WINDOW_NAME, ..acc })
            } else if spec_contains_byte(fm.argv[0], 's' as u8) {
                Some(MsSpec { modifiers: acc.modifiers | FORMAT_SESSION_NAME, ..acc })
            } else {
                Some(acc)
            }
        } else if c == 'S' as u8 {
            Some(MsSpec { modifiers: acc.modifiers | FORMAT_SESSIONS, ..acc })
        } else if c == 'W' as u8 {
            Some(MsSpec { modifiers: acc.modifiers | FORMAT_WINDOWS, ..acc })
        } else if c == 'P' as u8 {
            Some(MsSpec { modifiers: acc.modifiers | FORMAT_PANES, ..acc })
        } else if c == 'L' as u8 {
            Some(MsSpec { modifiers: acc.modifiers | FORMAT_CLIENTS, ..acc })
        } else {
            Some(acc)
        }
    } else if fm.modifier.len() == 2 {
        let c = fm.modifier[0];
        let d = fm.modifier[1];
        if spec_two_op(c, d) {
            Some(MsSpec { cmp: Some(i), ..acc })
        } else {
            Some(acc)
        }
    } else {
        Some(acc)
    }
}

/// One pass over the parsed modifiers, collecting what each one asks for.
#[verifier::opaque]
pub open spec fn spec_scan_rec(list: Seq<ModSpec>, i: int, acc: MsSpec) -> MsSpec
    decreases list.len() - i,
{
    if i < 0 || i >= list.len() {
        acc
    } else {
        match spec_scan_step(list[i], i, acc) {
            Some(a) => spec_scan_rec(list, i + 1, a),
            None => acc,
        }
    }
}

pub open spec fn spec_scan_init() -> MsSpec {
    MsSpec {
        modifiers: 0,
        limit: 0,
        marker: None,
        width: 0,
        time_format: None,
        cmp: None,
        search: None,
        mexp: None,
        subs: Seq::empty(),
    }
}

pub open spec fn spec_scan_modifiers(list: Seq<ModSpec>) -> MsSpec {
    spec_scan_rec(list, 0, spec_scan_init())
}

/// The comparison a modifier asks for, over its expanded sides.
pub open spec fn spec_eval_comparison(fm: ModSpec, l: Seq<u8>, r: Seq<u8>) -> Seq<u8> {
    let m = fm.modifier;
    let yes: bool = if m.len() == 2 && m[0] == '|' as u8 {
        spec_true(l) || spec_true(r)
    } else if m.len() == 2 && m[0] == '&' as u8 {
        spec_true(l) && spec_true(r)
    } else if m.len() == 2 && m[0] == '=' as u8 {
        l == r
    } else if m.len() == 2 && m[0] == '!' as u8 {
        l != r
    } else if m.len() == 2 && m[0] == '<' as u8 {
        lex_lt(l, r) || l == r
    } else if m.len() == 2 && m[0] == '>' as u8 {
        lex_lt(r, l) || l == r
    } else if m.len() == 1 && m[0] == '<' as u8 {
        lex_lt(l, r)
    } else if m.len() == 1 && m[0] == '>' as u8 {
        lex_lt(r, l)
    } else {
        let icase = fm.argv.len() >= 1 && spec_contains_byte(fm.argv[0], 'i' as u8);
        let re = fm.argv.len() >= 1 && spec_contains_byte(fm.argv[0], 'r' as u8);
        if re {
            match spec_regex_match(l, icase, r) {
                Some(b) => b,
                None => false,
            }
        } else {
            spec_glob(l, r, icase)
        }
    };
    if yes {
        ("1").spec_bytes()
    } else {
        ("0").spec_bytes()
    }
}

/// Number of the first pane line holding a match, counted from one.
pub open spec fn spec_search_rec(
    lines: Seq<Seq<u8>>,
    icase: bool,
    re: bool,
    s: Seq<u8>,
    i: int,
) -> Seq<u8>
    decreases lines.len() - i,
{
    if i < 0 || i >= lines.len() {
        ("0").spec_bytes()
    } else {
        let hit: bool = if re {
            match spec_regex_match(s, icase, lines[i]) {
                Some(b) => b,
                None => false,
            }
        } else if icase {
            spec_contains_sub(spec_fold_all(lines[i]), spec_fold_all(s))
        } else {
            spec_contains_sub(lines[i], s)
        };
        if hit {
            spec_u64_dec((i + 1) as nat)
        } else {
            spec_search_rec(lines, icase, re, s, i + 1)
        }
    }
}

pub open spec fn spec_search_pane(server: Server, ft: FtSpec, fm: ModSpec, s: Seq<u8>) -> Seq<
    u8,
> {
    match (ft.w, ft.wp) {
        (Some(w), Some(p)) => {
            let icase = fm.argv.len() >= 1 && spec_contains_byte(fm.argv[0], 'i' as u8);
            let re = fm.argv.len() >= 1 && spec_contains_byte(fm.argv[0], 'r' as u8);
            spec_search_rec(
                server.windows@[w as int].panes@[p as int].lines@.map(|i: int, l: Vec<u8>| l@),
                icase,
                re,
                s,
                0,
            )
        },
        _ => ("0").spec_bytes(),
    }
}

/// Truncation, padding and the length and width replacements, in order;
/// overlong values skip a step rather than overflow a width count.
pub open spec fn spec_apply_post(value0: Seq<u8>, ms: MsSpec) -> Seq<u8> {
    if value0.len() >= 0x7fffffffffffffff {
        value0
    } else {
        let v1: Seq<u8> = if ms.limit > 0 {
            let new = spec_trim_left(value0, ms.limit as int);
            match ms.marker {
                Some(mk) => if new != value0 {
                    new + mk
                } else {
                    new
                },
                None => new,
            }
        } else if ms.limit < 0 {
            let lm: int = if ms.limit == i64::MIN {
                0x8000000000000000
            } else {
                -(ms.limit as int)
            };
            let new = spec_trim_right(value0, lm);
            match ms.marker {
                Some(mk) => if new != value0 {
                    mk + new
                } else {
                    new
                },
                None => new,
            }
        } else {
            value0
        };
        if v1.len() >= 0x7fffffffffffffff {
            v1
        } else {
            let v2: Seq<u8> = if ms.width > 0 {
                spec_pad_left(v1, ms.width as int)
            } else if ms.width < 0 {
                let wm: int = if ms.width == i64::MIN {
                    0x8000000000000000
                } else {
                    -(ms.width as int)
                };
                spec_pad_right(v1, wm)
            } else {
                v1
            };
            let v3: Seq<u8> = if ms.modifiers & FORMAT_LENGTH != 0 {
                spec_u64_dec(v2.len())
            } else {
                v2
            };
            if ms.modifiers & FORMAT_WIDTH != 0 && v3.len() < 0x7fffffffffffffff {
                spec_u64_dec(spec_width(v3) as nat)
            } else {
                v3
            }
        }
    }
}


/// The two-character comparison opcodes.
pub open spec fn spec_two_op(c: u8, d: u8) -> bool {
    (c == '|' as u8 && d == '|' as u8) || (c == '&' as u8 && d == '&' as u8) || (c == '!' as u8
        && d == '=' as u8) || (c == '=' as u8 && d == '=' as u8) || (c == '<' as u8 && d
        == '=' as u8) || (c == '>' as u8 && d == '=' as u8)
}

/// Where a broken-off modifier parse ends: a list only when the scan stood
/// on the `:` separator.
pub open spec fn spec_build_finish(s: Seq<u8>, cp: int) -> Option<(Seq<ModSpec>, int)> {
    if 0 <= cp < s.len() && s[cp] == ':' as u8 {
        Some((Seq::empty(), cp + 1))
    } else {
        None
    }
}

/// The delimiter-wrapped arguments of one modifier, each expanded as it is
/// captured, and the position the scan continues from.
#[verifier::opaque]
pub open spec fn spec_wrapped_args(
    server: Server,
    ft: FtSpec,
    eflags: u32,
    depth: int,
    s: Seq<u8>,
    last: u8,
    cp: int,
) -> (Seq<Seq<u8>>, int)
    decreases FORMAT_LOOP_LIMIT as int - depth, 1int, 0int, s.len() - cp,
{
    if !(0 <= depth <= FORMAT_LOOP_LIMIT as int) {
        (Seq::empty(), cp)
    } else if cp < 0 || cp >= s.len() {
        (Seq::empty(), cp)
    } else if s[cp] == last && (s.len() - cp <= 1 || spec_is_end(s[cp + 1])) {
        (Seq::empty(), cp + 1)
    } else {
        match skip_rec(s, seq![last, ';' as u8, ':' as u8], cp + 1, 0) {
            None => (Seq::empty(), cp),
            Some(end) => {
                let exp = spec_expand1(
                    server,
                    ft,
                    eflags,
                    depth,
                    s.subrange(cp + 1, if cp + 1 <= end <= s.len() {
                        end
                    } else {
                        cp + 1
                    }),
                );
                if 0 <= end < s.len() && spec_is_end(s[end]) {
                    (seq![exp], end)
                } else {
                    let rest = spec_wrapped_args(
                        server,
                        ft,
                        eflags,
                        depth,
                        s,
                        last,
                        spec_step(end, cp, s.len() as int),
                    );
                    (seq![exp] + rest.0, rest.1)
                }
            },
        }
    }
}

/// The modifier prefix of a placeholder body: the parsed list and the index
/// just past the `:`, or nothing when the scan does not land on a `:`.
#[verifier::opaque]
pub open spec fn spec_build_rec(
    server: Server,
    ft: FtSpec,
    eflags: u32,
    depth: int,
    s: Seq<u8>,
    cp: int,
) -> Option<(Seq<ModSpec>, int)>
    decreases FORMAT_LOOP_LIMIT as int - depth, 1int, 1int, s.len() - cp,
{
    if !(0 <= depth <= FORMAT_LOOP_LIMIT as int) {
        None
    } else if cp < 0 || cp >= s.len() {
        None
    } else if s[cp] == ':' as u8 {
        Some((Seq::empty(), cp + 1))
    } else {
        let cp1 = if s[cp] == ';' as u8 {
            cp + 1
        } else {
            cp
        };
        if cp1 >= s.len() {
            None
        } else {
            let c = s[cp1];
            if spec_contains_byte(("labcdnwETSWPL<>").spec_bytes(), c) && s.len() - cp1 > 1
                && spec_is_end(s[cp1 + 1]) {
                match spec_build_rec(server, ft, eflags, depth, s, cp1 + 1) {
                    None => None,
                    Some(p) => Some(
                        (
                            seq![ModSpec { modifier: seq![c], argv: Seq::empty() }] + p.0,
                            p.1,
                        ),
                    ),
                }
            } else if s.len() - cp1 > 2 && spec_is_end(s[cp1 + 2]) && spec_two_op(
                c,
                s[cp1 + 1],
            ) {
                match spec_build_rec(server, ft, eflags, depth, s, cp1 + 2) {
                    None => None,
                    Some(p) => Some(
                        (
                            seq![
                                ModSpec { modifier: seq![c, s[cp1 + 1]], argv: Seq::empty() },
                            ] + p.0,
                            p.1,
                        ),
                    ),
                }
            } else if !spec_contains_byte(("mCNst=peq").spec_bytes(), c) {
                spec_build_finish(s, cp1)
            } else if s.len() - cp1 <= 1 || spec_is_end(s[cp1 + 1]) {
                match spec_build_rec(server, ft, eflags, depth, s, cp1 + 1) {
                    None => None,
                    Some(p) => Some(
                        (
                            seq![ModSpec { modifier: seq![c], argv: Seq::empty() }] + p.0,
                            p.1,
                        ),
                    ),
                }
            } else if !spec_is_punct(s[cp1 + 1]) || s[cp1 + 1] == '-' as u8 {
                match skip_rec(s, (":;").spec_bytes(), cp1 + 1, 0) {
                    None => spec_build_finish(s, cp1),
                    Some(end) => {
                        let exp = spec_expand1(
                            server,
                            ft,
                            eflags,
                            depth,
                            s.subrange(cp1 + 1, if cp1 + 1 <= end <= s.len() {
                                end
                            } else {
                                cp1 + 1
                            }),
                        );
                        match spec_build_rec(server, ft, eflags, depth, s, spec_step(end, cp1, s.len() as int)) {
                            None => None,
                            Some(p) => Some(
                                (
                                    seq![ModSpec { modifier: seq![c], argv: seq![exp] }] + p.0,
                                    p.1,
                                ),
                            ),
                        }
                    },
                }
            } else {
                let wa = spec_wrapped_args(server, ft, eflags, depth, s, s[cp1 + 1], cp1 + 1);
                match spec_build_rec(server, ft, eflags, depth, s, spec_step(wa.1, cp1, s.len() as int)) {
                    None => None,
                    Some(p) => Some(
                        (seq![ModSpec { modifier: seq![c], argv: wa.0 }] + p.0, p.1),
                    ),
                }
            }
        }
    }
}

pub open spec fn spec_build_modifiers(
    server: Server,
    ft: FtSpec,
    eflags: u32,
    depth: int,
    s: Seq<u8>,
) -> Option<(Seq<ModSpec>, int)>
    decreases FORMAT_LOOP_LIMIT as int - depth, 1int, 2int, 0int,
{
    spec_build_rec(server, ft, eflags, depth, s, 0)
}

/// Both alternatives around the first top-level comma, expanded.
pub open spec fn spec_choose_exp(
    server: Server,
    ft: FtSpec,
    eflags: u32,
    depth: int,
    s: Seq<u8>,
) -> Option<(Seq<u8>, Seq<u8>)>
    decreases FORMAT_LOOP_LIMIT as int - depth, 1int, 3int, 0int,
{
    if !(0 <= depth <= FORMAT_LOOP_LIMIT as int) {
        None
    } else {
        match spec_choose(s) {
            None => None,
            Some(p) => Some(
                (
                    spec_expand1(server, ft, eflags, depth, p.0),
                    spec_expand1(server, ft, eflags, depth, p.1),
                ),
            ),
        }
    }
}

/// Does any session from position `i` on bear this name?
pub open spec fn spec_session_name_rec(server: Server, name: Seq<u8>, i: int) -> Seq<u8>
    decreases server.sessions@.len() - i,
{
    if i < 0 || i >= server.sessions@.len() {
        ("0").spec_bytes()
    } else if server.sessions@[i].name@ == name {
        ("1").spec_bytes()
    } else {
        spec_session_name_rec(server, name, i + 1)
    }
}

/// Whether a session with the expanded name exists.
pub open spec fn spec_session_name_test(
    server: Server,
    ft: FtSpec,
    eflags: u32,
    depth: int,
    fmt: Seq<u8>,
) -> Seq<u8>
    decreases FORMAT_LOOP_LIMIT as int - depth, 2int, 0int, 0int,
{
    if !(0 <= depth <= FORMAT_LOOP_LIMIT as int) {
        Seq::empty()
    } else {
        let name = spec_expand1(server, ft, eflags, depth, fmt);
        spec_session_name_rec(server, name, 0)
    }
}

/// Does any window of session `si` from winlink position `i` on bear this
/// name?
pub open spec fn spec_window_name_rec(server: Server, si: int, name: Seq<u8>, i: int) -> Seq<u8>
    decreases server.sessions@[si].winlinks@.len() - i,
{
    if !(0 <= si < server.sessions@.len()) || i < 0 || i >= server.sessions@[
        si
    ].winlinks@.len() {
        ("0").spec_bytes()
    } else if server.windows@[server.sessions@[si].winlinks@[i].window as int].name@ == name {
        ("1").spec_bytes()
    } else {
        spec_window_name_rec(server, si, name, i + 1)
    }
}

/// Whether a window with the expanded name exists in the current session;
/// empty without a session in scope.
pub open spec fn spec_window_name_test(
    server: Server,
    ft: FtSpec,
    eflags: u32,
    depth: int,
    fmt: Seq<u8>,
) -> Seq<u8>
    decreases FORMAT_LOOP_LIMIT as int - depth, 2int, 0int, 1int,
{
    if !(0 <= depth <= FORMAT_LOOP_LIMIT as int) {
        Seq::empty()
    } else {
        match ft.s {
            None => Seq::empty(),
            Some(si) => {
                let name = spec_expand1(server, ft, eflags, depth, fmt);
                spec_window_name_rec(server, si as int, name, 0)
            },
        }
    }
}

pub open spec fn spec_loop_sessions_rec(
    server: Server,
    ft: FtSpec,
    eflags: u32,
    depth: int,
    all: Seq<u8>,
    active: Option<Seq<u8>>,
    i: int,
) -> Seq<u8>
    decreases FORMAT_LOOP_LIMIT as int - depth, 2int, 1int, server.sessions@.len() - i,
{
    if !(0 <= depth <= FORMAT_LOOP_LIMIT as int) || i < 0 || i >= server.sessions@.len() {
        Seq::empty()
    } else {
        let is_cur = match ft.s {
            Some(si) => si as int == i,
            None => false,
        };
        let child = spec_child_ft(
            server,
            ft.client,
            ft.flags,
            0,
            ft.now,
            ft.tz_offset,
            ft.c,
            Some(i as usize),
            None,
            None,
        );
        let body = match active {
            Some(a) => if is_cur {
                a
            } else {
                all
            },
            None => all,
        };
        spec_expand1(server, child, eflags, depth, body) + spec_loop_sessions_rec(
            server,
            ft,
            eflags,
            depth,
            all,
            active,
            i + 1,
        )
    }
}

/// The body expanded once per session, in id order, nothing between; an
/// alternative after a top-level comma applies to the context's session.
pub open spec fn spec_loop_sessions(
    server: Server,
    ft: FtSpec,
    eflags: u32,
    depth: int,
    fmt: Seq<u8>,
) -> Seq<u8>
    decreases FORMAT_LOOP_LIMIT as int - depth, 2int, 2int, 0int,
{
    let (all, active): (Seq<u8>, Option<Seq<u8>>) = match spec_choose(fmt) {
        Some(p) => (p.0, Some(p.1)),
        None => (fmt, None),
    };
    spec_loop_sessions_rec(server, ft, eflags, depth, all, active, 0)
}

pub open spec fn spec_loop_windows_rec(
    server: Server,
    ft: FtSpec,
    eflags: u32,
    depth: int,
    si: int,
    all: Seq<u8>,
    active: Option<Seq<u8>>,
    i: int,
) -> Seq<u8>
    decreases FORMAT_LOOP_LIMIT as int - depth, 2int, 1int, server.sessions@[si].winlinks@.len()
        - i,
{
    if !(0 <= depth <= FORMAT_LOOP_LIMIT as int) || i < 0 || !(0 <= si < server.sessions@.len())
        || i >= server.sessions@[si].winlinks@.len() {
        Seq::empty()
    } else {
        let is_cur = i == server.sessions@[si].curw;
        let wid = server.windows@[server.sessions@[si].winlinks@[i].window as int].id;
        let child = spec_child_ft(
            server,
            ft.client,
            ft.flags,
            spec_make_tag(0x40000000, wid),
            ft.now,
            ft.tz_offset,
            ft.c,
            ft.s,
            Some(i as usize),
            None,
        );
        let body = match active {
            Some(a) => if is_cur {
                a
            } else {
                all
            },
            None => all,
        };
        spec_expand1(server, child, eflags, depth, body) + spec_loop_windows_rec(
            server,
            ft,
            eflags,
            depth,
            si,
            all,
            active,
            i + 1,
        )
    }
}

/// The body expanded once per window of the current session; empty without
/// a session in scope.
pub open spec fn spec_loop_windows(
    server: Server,
    ft: FtSpec,
    eflags: u32,
    depth: int,
    fmt: Seq<u8>,
) -> Seq<u8>
    decreases FORMAT_LOOP_LIMIT as int - depth, 2int, 2int, 1int,
{
    match ft.s {
        None => Seq::empty(),
        Some(si) => {
            let (all, active): (Seq<u8>, Option<Seq<u8>>) = match spec_choose(fmt) {
                Some(p) => (p.0, Some(p.1)),
                None => (fmt, None),
            };
            spec_loop_windows_rec(server, ft, eflags, depth, si as int, all, active, 0)
        },
    }
}

pub open spec fn spec_loop_panes_rec(
    server: Server,
    ft: FtSpec,
    eflags: u32,
    depth: int,
    wi: int,
    all: Seq<u8>,
    active: Option<Seq<u8>>,
    i: int,
) -> Seq<u8>
    decreases FORMAT_LOOP_LIMIT as int - depth, 2int, 1int, server.windows@[wi].panes@.len() - i,
{
    if !(0 <= depth <= FORMAT_LOOP_LIMIT as int) || i < 0 || !(0 <= wi < server.windows@.len())
        || i >= server.windows@[wi].panes@.len() {
        Seq::empty()
    } else {
        let is_active = i == server.windows@[wi].active;
        let pid = server.windows@[wi].panes@[i].id;
        let child = spec_child_ft(
            server,
            ft.client,
            ft.flags,
            spec_make_tag(0x80000000, pid),
            ft.now,
            ft.tz_offset,
            ft.c,
            ft.s,
            ft.wl,
            Some(i as usize),
        );
        let body = match active {
            Some(a) => if is_active {
                a
            } else {
                all
            },
            None => all,
        };
        spec_expand1(server, child, eflags, depth, body) + spec_loop_panes_rec(
            server,
            ft,
            eflags,
            depth,
            wi,
            all,
            active,
            i + 1,
        )
    }
}

/// The body expanded once per pane of the current window; empty without a
/// window in scope.
pub open spec fn spec_loop_panes(
    server: Server,
    ft: FtSpec,
    eflags: u32,
    depth: int,
    fmt: Seq<u8>,
) -> Seq<u8>
    decreases FORMAT_LOOP_LIMIT as int - depth, 2int, 2int, 2int,
{
    match ft.w {
        None => Seq::empty(),
        Some(wi) => {
            let (all, active): (Seq<u8>, Option<Seq<u8>>) = match spec_choose(fmt) {
                Some(p) => (p.0, Some(p.1)),
                None => (fmt, None),
            };
            spec_loop_panes_rec(server, ft, eflags, depth, wi as int, all, active, 0)
        },
    }
}

pub open spec fn spec_loop_clients_rec(
    server: Server,
    ft: FtSpec,
    eflags: u32,
    depth: int,
    fmt: Seq<u8>,
    i: int,
) -> Seq<u8>
    decreases FORMAT_LOOP_LIMIT as int - depth, 2int, 1int, server.clients@.len() - i,
{
    if !(0 <= depth <= FORMAT_LOOP_LIMIT as int) || i < 0 || i >= server.clients@.len() {
        Seq::empty()
    } else {
        let child = spec_child_ft(
            server,
            Some(i as usize),
            ft.flags,
            0,
            ft.now,
            ft.tz_offset,
            Some(i as usize),
            ft.s,
            ft.wl,
            ft.wp,
        );
        spec_expand1(server, child, eflags, depth, fmt) + spec_loop_clients_rec(
            server,
            ft,
            eflags,
            depth,
            fmt,
            i + 1,
        )
    }
}

/// The body expanded once per client, in list order.
pub open spec fn spec_loop_clients(
    server: Server,
    ft: FtSpec,
    eflags: u32,
    depth: int,
    fmt: Seq<u8>,
) -> Seq<u8>
    decreases FORMAT_LOOP_LIMIT as int - depth, 2int, 2int, 3int,
{
    spec_loop_clients_rec(server, ft, eflags, depth, fmt, 0)
}

/// An arithmetic placeholder's result; `None` stands for any failure, which
/// the placeholder renders empty.
pub open spec fn spec_replace_expression(
    server: Server,
    ft: FtSpec,
    eflags: u32,
    depth: int,
    mexp: ModSpec,
    copy: Seq<u8>,
) -> Option<Seq<u8>>
    decreases FORMAT_LOOP_LIMIT as int - depth, 2int, 3int, 0int,
{
    if !(0 <= depth <= FORMAT_LOOP_LIMIT as int) || mexp.argv.len() < 1 {
        None
    } else {
        match spec_parse_op(mexp.argv[0]) {
            None => None,
            Some(op) => {
                let use_fp = mexp.argv.len() >= 2 && spec_contains_byte(mexp.argv[1], 'f' as u8);
                let prec0: int = if use_fp {
                    2
                } else {
                    0
                };
                let prec_opt: Option<int> = if mexp.argv.len() >= 3 {
                    match spec_strtonum(mexp.argv[2]) {
                        Some(p) => if -2147483648 <= p <= 2147483647 {
                            Some(
                                if p < 0 {
                                    0
                                } else if p > 9 {
                                    9
                                } else {
                                    p
                                },
                            )
                        } else {
                            None
                        },
                        None => None,
                    }
                } else {
                    Some(prec0)
                };
                match prec_opt {
                    None => None,
                    Some(prec) => match spec_choose_exp(server, ft, eflags, depth, copy) {
                        None => None,
                        Some(p) => match (spec_parse_scaled(p.0), spec_parse_scaled(p.1)) {
                            (Some(ml), Some(mr)) => match spec_apply(op, ml, mr) {
                                None => None,
                                Some(res) => Some(spec_format_scaled(res, prec, use_fp)),
                            },
                            _ => None,
                        },
                    },
                }
            },
        }
    }
}

/// The substitution modifiers applied in parse order, each pattern and
/// replacement expanded first.
pub open spec fn spec_apply_subs(
    server: Server,
    ft: FtSpec,
    eflags: u32,
    depth: int,
    list: Seq<ModSpec>,
    subs: Seq<int>,
    k: int,
    value: Seq<u8>,
) -> Seq<u8>
    decreases FORMAT_LOOP_LIMIT as int - depth, 2int, 4int, subs.len() - k,
{
    if !(0 <= depth <= FORMAT_LOOP_LIMIT as int) || k < 0 || k >= subs.len() {
        value
    } else {
        let idx = subs[k];
        if 0 <= idx < list.len() && list[idx].argv.len() >= 2 {
            let fm = list[idx];
            let pat = spec_expand1(server, ft, eflags, depth, fm.argv[0]);
            let rep = spec_expand1(server, ft, eflags, depth, fm.argv[1]);
            let icase = fm.argv.len() >= 3 && spec_contains_byte(fm.argv[2], 'i' as u8);
            spec_apply_subs(
                server,
                ft,
                eflags,
                depth,
                list,
                subs,
                k + 1,
                spec_format_sub(pat, icase, rep, value),
            )
        } else {
            spec_apply_subs(server, ft, eflags, depth, list, subs, k + 1, value)
        }
    }
}

/// The raw value one placeholder body resolves to, before the
/// post-processing pipeline; `None` is a malformed body (a comparison or
/// ternary without its comma), which renders empty with no pipeline.
#[verifier::opaque]
pub open spec fn spec_replace_value(
    server: Server,
    ft: FtSpec,
    eflags: u32,
    depth: int,
    list: Seq<ModSpec>,
    ms: MsSpec,
    copy: Seq<u8>,
) -> Option<Seq<u8>>
    decreases FORMAT_LOOP_LIMIT as int - depth, 3int, 0int, 0int,
{
    if !(0 <= depth <= FORMAT_LOOP_LIMIT as int) {
        Some(Seq::empty())
    } else if ms.modifiers & FORMAT_LITERAL != 0 {
        Some(unescape_rec(copy, 0, 0))
    } else if ms.modifiers & FORMAT_CHARACTER != 0 {
        let new = spec_expand1(server, ft, eflags, depth, copy);
        Some(
            match spec_strtonum(new) {
                Some(n) => if 32 <= n <= 126 {
                    seq![n as u8]
                } else {
                    Seq::empty()
                },
                None => Seq::empty(),
            },
        )
    } else if ms.modifiers & FORMAT_COLOUR != 0 {
        let new = spec_expand1(server, ft, eflags, depth, copy);
        Some(
            match spec_colour_rgb(new) {
                Some(c) => spec_hex6(c as nat),
                None => Seq::empty(),
            },
        )
    } else if ms.modifiers & FORMAT_SESSIONS != 0 {
        Some(spec_loop_sessions(server, ft, eflags, depth, copy))
    } else if ms.modifiers & FORMAT_WINDOWS != 0 {
        Some(spec_loop_windows(server, ft, eflags, depth, copy))
    } else if ms.modifiers & FORMAT_PANES != 0 {
        Some(spec_loop_panes(server, ft, eflags, depth, copy))
    } else if ms.modifiers & FORMAT_CLIENTS != 0 {
        Some(spec_loop_clients(server, ft, eflags, depth, copy))
    } else if ms.modifiers & FORMAT_WINDOW_NAME != 0 {
        Some(spec_window_name_test(server, ft, eflags, depth, copy))
    } else if ms.modifiers & FORMAT_SESSION_NAME != 0 {
        Some(spec_session_name_test(server, ft, eflags, depth, copy))
    } else if ms.search is Some {
        let new = spec_expand1(server, ft, eflags, depth, copy);
        let fm: ModSpec = if 0 <= ms.search.unwrap() < list.len() {
            list[ms.search.unwrap()]
        } else {
            ModSpec { modifier: Seq::empty(), argv: Seq::empty() }
        };
        Some(spec_search_pane(server, ft, fm, new))
    } else if ms.cmp is Some {
        match spec_choose_exp(server, ft, eflags, depth, copy) {
            Some(p) => {
                let fm: ModSpec = if 0 <= ms.cmp.unwrap() < list.len() {
                    list[ms.cmp.unwrap()]
                } else {
                    ModSpec { modifier: Seq::empty(), argv: Seq::empty() }
                };
                Some(spec_eval_comparison(fm, p.0, p.1))
            },
            None => None,
        }
    } else if copy.len() > 0 && copy[0] == '?' as u8 {
        match skip_rec(copy, (",").spec_bytes(), 1, 0) {
            None => None,
            Some(cp) => {
                let condition = copy.subrange(1, if 1 <= cp <= copy.len() {
                    cp
                } else {
                    1
                });
                let found: Seq<u8> = match spec_format_find(
                    server,
                    ft,
                    condition,
                    ms.modifiers,
                    ms.time_format,
                ) {
                    Some(v) => v,
                    None => {
                        let f = spec_expand1(server, ft, eflags, depth, condition);
                        if f == condition {
                            Seq::empty()
                        } else {
                            f
                        }
                    },
                };
                let rest = copy.subrange(if 0 <= cp + 1 <= copy.len() {
                    cp + 1
                } else {
                    copy.len() as int
                }, copy.len() as int);
                match spec_choose(rest) {
                    Some(p) => if spec_true(found) {
                        Some(spec_expand1(server, ft, eflags, depth, p.0))
                    } else {
                        Some(spec_expand1(server, ft, eflags, depth, p.1))
                    },
                    None => None,
                }
            },
        }
    } else if ms.mexp is Some {
        let fm: ModSpec = if 0 <= ms.mexp.unwrap() < list.len() {
            list[ms.mexp.unwrap()]
        } else {
            ModSpec { modifier: Seq::empty(), argv: Seq::empty() }
        };
        Some(
            match spec_replace_expression(server, ft, eflags, depth, fm, copy) {
                Some(v) => v,
                None => Seq::empty(),
            },
        )
    } else {
        if spec_contains_sub(copy, ("#{").spec_bytes()) {
            Some(spec_expand1(server, ft, eflags, depth, copy))
        } else {
            Some(
                match spec_format_find(server, ft, copy, ms.modifiers, ms.time_format) {
                    Some(v) => if spec_contains_sub(v, ("#{").spec_bytes()) {
                        spec_expand1(server, ft, eflags, depth, v)
                    } else {
                        v
                    },
                    None => Seq::empty(),
                },
            )
        }
    }
}

/// One placeholder body resolved: modifiers parsed and collected, the body
/// dispatched on them, the result re-expanded, substituted, truncated and
/// padded. Shell-out spans inside render empty, as they do whenever jobs
/// are off or the cache holds no prior output.
#[verifier::opaque]
pub open spec fn spec_replace(
    server: Server,
    ft: FtSpec,
    eflags: u32,
    depth: int,
    key: Seq<u8>,
) -> Seq<u8>
    decreases FORMAT_LOOP_LIMIT as int - depth, 3int, 1int, 0int,
{
    if !(0 <= depth <= FORMAT_LOOP_LIMIT as int) {
        Seq::empty()
    } else {
        let built = spec_build_modifiers(server, ft, eflags, depth, key);
        let list: Seq<ModSpec> = match built {
            Some(p) => p.0,
            None => Seq::empty(),
        };
        let at: int = match built {
            Some(p) => if 0 <= p.1 <= key.len() {
                p.1
            } else {
                0
            },
            None => 0,
        };
        let copy = key.subrange(at, key.len() as int);
        let ms = spec_scan_modifiers(list);
        match spec_replace_value(server, ft, eflags, depth, list, ms, copy) {
            None => Seq::empty(),
            Some(value) => {
                let value2: Seq<u8> = if ms.modifiers & FORMAT_EXPAND != 0 {
                    spec_expand1(server, ft, eflags, depth, value)
                } else if ms.modifiers & FORMAT_EXPANDTIME != 0 {
                    spec_expand1(server, ft, eflags | FORMAT_EXPAND_TIME, depth, value)
                } else {
                    value
                };
                let value3 = spec_apply_subs(server, ft, eflags, depth, list, ms.subs, 0, value2);
                spec_apply_post(value3, ms)
            },
        }
    }
}

/// The scan from position `i`: literal bytes copied, `#`-escapes
/// dispatched. An unterminated span ends the scan; a style span suppresses
/// aliases up to its closing bracket.
pub open spec fn spec_expand1_rec(
    server: Server,
    ft: FtSpec,
    eflags: u32,
    depth: int,
    work: Seq<u8>,
    i: int,
    style_end: Option<int>,
) -> Seq<u8>
    decreases FORMAT_LOOP_LIMIT as int - depth, 0int, 0int, work.len() - i,
{
    if !(0 <= depth < FORMAT_LOOP_LIMIT as int) || i < 0 || i >= work.len() {
        Seq::empty()
    } else {
        let c = work[i];
        if c != '#' as u8 {
            seq![c] + spec_expand1_rec(server, ft, eflags, depth, work, i + 1, style_end)
        } else if i + 1 >= work.len() {
            seq![c] + spec_expand1_rec(server, ft, eflags, depth, work, i + 1, style_end)
        } else {
            let ch = work[i + 1];
            if ch == '(' as u8 {
                match spec_paren_end(work, i + 2) {
                    None => Seq::empty(),
                    Some(j) => spec_expand1_rec(
                        server,
                        ft,
                        eflags,
                        depth,
                        work,
                        spec_step(j + 1, i, work.len() as int),
                        style_end,
                    ),
                }
            } else if ch == '{' as u8 {
                match skip_rec(work, ("}").spec_bytes(), i, 0) {
                    None => Seq::empty(),
                    Some(j) => if j < i + 2 {
                        Seq::empty()
                    } else {
                        spec_replace(server, ft, eflags, depth + 1, work.subrange(i + 2, if j
                            <= work.len() {
                            j
                        } else {
                            i + 2
                        })) + spec_expand1_rec(
                            server,
                            ft,
                            eflags,
                            depth,
                            work,
                            spec_step(j + 1, i, work.len() as int),
                            style_end,
                        )
                    },
                }
            } else if ch == '[' as u8 || ch == '#' as u8 {
                let p: int = if ch == '[' as u8 {
                    i + 1
                } else {
                    spec_hash_run(work, i + 2)
                };
                if 0 <= p < work.len() && work[p] == '[' as u8 {
                    work.subrange(i, p + 1) + spec_expand1_rec(
                        server,
                        ft,
                        eflags,
                        depth,
                        work,
                        spec_step(p + 1, i, work.len() as int),
                        skip_rec(work, ("]").spec_bytes(), i, 0),
                    )
                } else {
                    seq![ch] + spec_expand1_rec(server, ft, eflags, depth, work, i + 2, style_end)
                }
            } else if ch == '}' as u8 || ch == ',' as u8 {
                seq![ch] + spec_expand1_rec(server, ft, eflags, depth, work, i + 2, style_end)
            } else {
                let in_style = match style_end {
                    Some(e) => i + 2 <= e,
                    None => false,
                };
                let alias = if in_style {
                    None
                } else {
                    spec_alias(ch)
                };
                match alias {
                    Some(name) => spec_replace(server, ft, eflags, depth + 1, name)
                        + spec_expand1_rec(server, ft, eflags, depth, work, i + 2, style_end),
                    None => seq!['#' as u8, ch] + spec_expand1_rec(
                        server,
                        ft,
                        eflags,
                        depth,
                        work,
                        i + 2,
                        style_end,
                    ),
                }
            }
        }
    }
}

/// Ghost image of the style-span cursor.
pub open spec fn style_view(se: Option<usize>) -> Option<int> {
    match se {
        Some(e) => Some(e as int),
        None => None,
    }
}

/// A whole template expanded at the given depth: the time pre-pass when it
/// applies, then the placeholder scan. Empty at the recursion ceiling.
pub open spec fn spec_expand1(
    server: Server,
    ft: FtSpec,
    eflags: u32,
    depth: int,
    fmt: Seq<u8>,
) -> Seq<u8>
    decreases FORMAT_LOOP_LIMIT as int - depth, 0int, 1int, 0int,
{
    if fmt.len() == 0 {
        Seq::empty()
    } else if !(0 <= depth < FORMAT_LOOP_LIMIT as int) {
        Seq::empty()
    } else {
        let work: Seq<u8> = if eflags & FORMAT_EXPAND_TIME != 0 && spec_contains_byte(
            fmt,
            '%' as u8,
        ) && 0 <= ft.now + ft.tz_offset <= TIME_MAX as int {
            strftime_rec(fmt, spec_tm(ft.now as int, ft.tz_offset as int), 0)
        } else {
            fmt
        };
        spec_expand1_rec(server, ft, eflags, depth, work, 0, None)
    }
}

/// Position of the parenthesis closing a balanced `#(`-run that starts
/// just before `from`.
fn paren_end(s: &[u8], from: usize) -> (r: Option<usize>)
    requires
        from <= s@.len(),
    ensures
        (r matches Some(j) ==> from <= j < s@.len()),
        r == (match spec_paren_end(s@, from as int) {
            Some(j) => Some(j as usize),
            None => None::<usize>,
        }),
        (spec_paren_end(s@, from as int) matches Some(j) ==> from <= j < s@.len()),
{
    let n = s.len();
    let mut bdepth: u128 = 1;
    let mut j: usize = from;
    while j < n
        invariant
            n == s@.len(),
            from <= j <= n,
            1 <= bdepth <= j + 1,
            spec_paren_rec(s@, j as int, bdepth as int) == spec_paren_end(s@, from as int),
        decreases n - j,
    {
        let cj = s[j];
        if cj == '(' as u8 {
            bdepth = bdepth + 1;
        } else if cj == ')' as u8 {
            if bdepth == 1 {
                return Some(j);
            }
            bdepth = bdepth - 1;
        }
        j = j + 1;
    }
    None
}

/// First position at or after `from` that is not a `#`.
fn hash_run(s: &[u8], from: usize) -> (r: usize)
    requires
        from <= s@.len(),
    ensures
        from <= r <= s@.len(),
        r as int == spec_hash_run(s@, from as int),
{
    let n = s.len();
    let mut p: usize = from;
    while p < n && s[p] == '#' as u8
        invariant
            n == s@.len(),
            from <= p <= n,
            spec_hash_run(s@, p as int) == spec_hash_run(s@, from as int),
        decreases n - p,
    {
        p = p + 1;
    }
    p
}

/// The delimiter-wrapped arguments of one modifier, each expanded as it is
/// captured.
#[verifier::rlimit(100)]
#[verifier::spinoff_prover]
fn wrapped_args(
    server: &Server,
    cache: &mut JobCache,
    table: &SortedKv<TableEntry>,
    ft: &format_tree,
    eflags: u32,
    depth: u64,
    s: &[u8],
    last: u8,
    cp: usize,
) -> (r: (Vec<Vec<u8>>, usize))
    requires
        server.wf(),
        ft.wf(*server),
        table_ok(*table),
        depth <= FORMAT_LOOP_LIMIT,
        cp <= s@.len(),
    ensures
        spec_disabled(ft@, eflags) ==> *final(cache) == *old(cache),
        cache_quiet(old(cache).jobs@, ft.now) ==> cache_quiet(final(cache).jobs@, ft.now),
        r.1 <= s@.len(),
        spec_pinned(ft@, eflags, old(cache).jobs@) ==> ({
            let p = spec_wrapped_args(*server, ft@, eflags, depth as int, s@, last, cp as int);
            r.0@.map(|k: int, v: Vec<u8>| v@) == p.0 && r.1 as int == p.1
        }),
    decreases FORMAT_LOOP_LIMIT - depth, 1int, 0int, s@.len() - cp,
{
    proof {
        reveal(spec_wrapped_args);
    }
    let ghost p = spec_wrapped_args(*server, ft@, eflags, depth as int, s@, last, cp as int);
    if cp >= s.len() {
        let empty: Vec<Vec<u8>> = Vec::new();
        proof {
            assert(empty@.map(|k: int, v: Vec<u8>| v@) =~= Seq::<Seq<u8>>::empty());
        }
        return (empty, cp);
    }
    if s[cp] == last && (s.len() - cp <= 1 || is_end(s[cp + 1])) {
        let empty: Vec<Vec<u8>> = Vec::new();
        proof {
            assert(empty@.map(|k: int, v: Vec<u8>| v@) =~= Seq::<Seq<u8>>::empty());
        }
        return (empty, cp + 1);
    }
    let mut lastv: Vec<u8> = Vec::new();
    lastv.push(last);
    lastv.push(';' as u8);
    lastv.push(':' as u8);
    proof {
        assert(lastv@ =~= seq![last, ';' as u8, ':' as u8]);
    }
    match format_skip(s, cp + 1, lastv.as_slice()) {
        None => {
            let empty: Vec<Vec<u8>> = Vec::new();
            proof {
                assert(empty@.map(|k: int, v: Vec<u8>| v@) =~= Seq::<Seq<u8>>::empty());
            }
            (empty, cp)
        },
        Some(end) => {
            let value = sub_vec(s, cp + 1, end);
            let exp = format_expand1(server, cache, table, ft, eflags, depth, value.as_slice());
            if is_end(s[end]) {
                let mut argv: Vec<Vec<u8>> = Vec::new();
                argv.push(exp);
                proof {
                    if spec_pinned(ft@, eflags, old(cache).jobs@) {
                        assert(argv@.map(|k: int, v: Vec<u8>| v@) =~= p.0);
                    }
                }
                (argv, end)
            } else {
                let (rest, after) = wrapped_args(
                    server,
                    cache,
                    table,
                    ft,
                    eflags,
                    depth,
                    s,
                    last,
                    end,
                );
                let ghost grest = rest@.map(|q: int, v: Vec<u8>| v@);
                let mut argv = rest;
                argv.insert(0, exp);
                proof {
                    if spec_pinned(ft@, eflags, old(cache).jobs@) {
                        assert(argv@.map(|q: int, v: Vec<u8>| v@) =~= seq![exp@] + grest);
                        assert(spec_step(end as int, cp as int, s@.len() as int) == end as int);
                    }
                }
                (argv, after)
            }
        },
    }
}

/// Split the body's modifier prefix into a typed list and return the index
/// just past the `:`; `None` when the list is malformed, which makes the
/// whole placeholder resolve as a plain lookup of the entire body.
#[verifier::rlimit(100)]
#[verifier::spinoff_prover]
pub fn format_build_modifiers(
    server: &Server,
    cache: &mut JobCache,
    table: &SortedKv<TableEntry>,
    ft: &format_tree,
    eflags: u32,
    depth: u64,
    s: &[u8],
) -> (r: Option<(Vec<format_modifier>, usize)>)
    requires
        server.wf(),
        ft.wf(*server),
        table_ok(*table),
        depth <= FORMAT_LOOP_LIMIT,
    ensures
        (r matches Some(p) ==> p.1 <= s@.len()),
        spec_disabled(ft@, eflags) ==> *final(cache) == *old(cache),
        cache_quiet(old(cache).jobs@, ft.now) ==> cache_quiet(final(cache).jobs@, ft.now),
        spec_pinned(ft@, eflags, old(cache).jobs@) ==> (match spec_build_modifiers(
            *server,
            ft@,
            eflags,
            depth as int,
            s@,
        ) {
            Some(p) => r matches Some(q) && q.0@.map(|k: int, m: format_modifier| m@) == p.0
                && q.1 as int == p.1,
            None => r is None,
        }),
    decreases FORMAT_LOOP_LIMIT - depth, 1int, 2int, 0int,
{
    build_rec(server, cache, table, ft, eflags, depth, s, 0)
}

/// One step of the modifier scan, from position `cp`.
#[verifier::rlimit(100)]
#[verifier::spinoff_prover]
fn build_rec(
    server: &Server,
    cache: &mut JobCache,
    table: &SortedKv<TableEntry>,
    ft: &format_tree,
    eflags: u32,
    depth: u64,
    s: &[u8],
    cp: usize,
) -> (r: Option<(Vec<format_modifier>, usize)>)
    requires
        server.wf(),
        ft.wf(*server),
        table_ok(*table),
        depth <= FORMAT_LOOP_LIMIT,
        cp <= s@.len(),
    ensures
        (r matches Some(p) ==> p.1 <= s@.len()),
        spec_disabled(ft@, eflags) ==> *final(cache) == *old(cache),
        cache_quiet(old(cache).jobs@, ft.now) ==> cache_quiet(final(cache).jobs@, ft.now),
        spec_pinned(ft@, eflags, old(cache).jobs@) ==> (match spec_build_rec(
            *server,
            ft@,
            eflags,
            depth as int,
            s@,
            cp as int,
        ) {
            Some(p) => r matches Some(q) && q.0@.map(|k: int, m: format_modifier| m@) == p.0
                && q.1 as int == p.1,
            None => r is None,
        }),
    decreases FORMAT_LOOP_LIMIT - depth, 1int, 1int, s@.len() - cp,
{
    proof {
        reveal(spec_build_rec);
        reveal(spec_wrapped_args);
    }
    if cp >= s.len() {
        return None;
    }
    if s[cp] == ':' as u8 {
        let empty: Vec<format_modifier> = Vec::new();
        proof {
            assert(empty@.map(|k: int, m: format_modifier| m@) =~= Seq::<ModSpec>::empty());
        }
        return Some((empty, cp + 1));
    }
    let cp1: usize = if s[cp] == ';' as u8 {
        cp + 1
    } else {
        cp
    };
    if cp1 >= s.len() {
        return None;
    }
    let c = s[cp1];
    let single = lit("labcdnwETSWPL<>");
    let argful = lit("mCNst=peq");
    if contains_byte(single.as_slice(), c) && s.len() - cp1 > 1 && is_end(s[cp1 + 1]) {
        let m = format_modifier { modifier: sub_vec(s, cp1, cp1 + 1), argv: Vec::new() };
        proof {
            assert(m@.modifier =~= seq![c]);
            assert(m@.argv =~= Seq::<Seq<u8>>::empty());
        }
        return prepend(
            m,
            build_rec(server, cache, table, ft, eflags, depth, s, cp1 + 1),
            Ghost(spec_build_rec(*server, ft@, eflags, depth as int, s@, cp1 + 1)),
            Ghost(spec_pinned(ft@, eflags, old(cache).jobs@)),
        );
    }
    if s.len() - cp1 > 2 && is_end(s[cp1 + 2]) {
        let d = s[cp1 + 1];
        let two = (c == '|' as u8 && d == '|' as u8) || (c == '&' as u8 && d == '&' as u8) || (c
            == '!' as u8 && d == '=' as u8) || (c == '=' as u8 && d == '=' as u8) || (c
            == '<' as u8 && d == '=' as u8) || (c == '>' as u8 && d == '=' as u8);
        if two {
            let m = format_modifier { modifier: sub_vec(s, cp1, cp1 + 2), argv: Vec::new() };
            proof {
                assert(m@.modifier =~= seq![c, s@[cp1 + 1]]);
                assert(m@.argv =~= Seq::<Seq<u8>>::empty());
            }
            return prepend(
                m,
                build_rec(server, cache, table, ft, eflags, depth, s, cp1 + 2),
                Ghost(spec_build_rec(*server, ft@, eflags, depth as int, s@, cp1 + 2)),
                Ghost(spec_pinned(ft@, eflags, old(cache).jobs@)),
            );
        }
    }
    if !contains_byte(argful.as_slice(), c) {
        return build_finish(s, cp1);
    }
    if s.len() - cp1 <= 1 || is_end(s[cp1 + 1]) {
        let m = format_modifier { modifier: sub_vec(s, cp1, cp1 + 1), argv: Vec::new() };
        proof {
            assert(m@.modifier =~= seq![c]);
            assert(m@.argv =~= Seq::<Seq<u8>>::empty());
        }
        return prepend(
            m,
            build_rec(server, cache, table, ft, eflags, depth, s, cp1 + 1),
            Ghost(spec_build_rec(*server, ft@, eflags, depth as int, s@, cp1 + 1)),
            Ghost(spec_pinned(ft@, eflags, old(cache).jobs@)),
        );
    }
    if !is_punct(s[cp1 + 1]) || s[cp1 + 1] == '-' as u8 {
        let ends = lit(":;");
        match format_skip(s, cp1 + 1, ends.as_slice()) {
            None => {
                return build_finish(s, cp1);
            },
            Some(end) => {
                let value = sub_vec(s, cp1 + 1, end);
                let exp = format_expand1(
                    server,
                    cache,
                    table,
                    ft,
                    eflags,
                    depth,
                    value.as_slice(),
                );
                let mut argv: Vec<Vec<u8>> = Vec::new();
                argv.push(exp);
                let m = format_modifier { modifier: sub_vec(s, cp1, cp1 + 1), argv };
                proof {
                    assert(m@.modifier =~= seq![c]);
                    assert(m@.argv =~= seq![m.argv@[0]@]);
                    assert(spec_step(end as int, cp1 as int, s@.len() as int) == end as int);
                }
                return prepend(
                    m,
                    build_rec(server, cache, table, ft, eflags, depth, s, end),
                    Ghost(spec_build_rec(*server, ft@, eflags, depth as int, s@, end as int)),
                    Ghost(spec_pinned(ft@, eflags, old(cache).jobs@)),
                );
            },
        }
    }
    let (argv, after) = wrapped_args(server, cache, table, ft, eflags, depth, s, s[cp1 + 1], cp1
        + 1);
    let after2: usize = if after > cp1 {
        after
    } else {
        cp1 + 1
    };
    let m = format_modifier { modifier: sub_vec(s, cp1, cp1 + 1), argv };
    proof {
        assert(m@.modifier =~= seq![c]);
    }
    prepend(
        m,
        build_rec(server, cache, table, ft, eflags, depth, s, after2),
        Ghost(spec_build_rec(*server, ft@, eflags, depth as int, s@, after2 as int)),
        Ghost(spec_pinned(ft@, eflags, old(cache).jobs@)),
    )
}

/// Where a broken-off scan ends: a list only on the `:` separator.
fn build_finish(s: &[u8], cp: usize) -> (r: Option<(Vec<format_modifier>, usize)>)
    requires
        cp < s@.len(),
    ensures
        (r matches Some(p) ==> p.1 <= s@.len()),
        match spec_build_finish(s@, cp as int) {
            Some(p) => r matches Some(q) && q.0@.map(|k: int, m: format_modifier| m@) == p.0
                && q.1 as int == p.1,
            None => r is None,
        },
{
    if s[cp] == ':' as u8 {
        let empty: Vec<format_modifier> = Vec::new();
        proof {
            assert(empty@.map(|k: int, m: format_modifier| m@) =~= Seq::<ModSpec>::empty());
        }
        Some((empty, cp + 1))
    } else {
        None
    }
}

/// Put one parsed modifier before the rest of the list.
fn prepend(
    m: format_modifier,
    rest: Option<(Vec<format_modifier>, usize)>,
    tail: Ghost<Option<(Seq<ModSpec>, int)>>,
    pin: Ghost<bool>,
) -> (r: Option<(Vec<format_modifier>, usize)>)
    requires
        pin@ ==> (match (rest, tail@) {
            (Some(q), Some(p)) => q.0@.map(|k: int, mm: format_modifier| mm@) == p.0 && q.1 as int
                == p.1,
            (None, None) => true,
            _ => false,
        }),
    ensures
        (match (r, rest) {
            (Some(a), Some(b)) => a.1 == b.1,
            (None, None) => true,
            _ => false,
        }),
        pin@ ==> (match tail@ {
            Some(p) => r matches Some(q) && q.0@.map(|k: int, mm: format_modifier| mm@) == seq![
                m@,
            ] + p.0 && q.1 as int == p.1,
            None => r is None,
        }),
{
    match rest {
        None => {
            proof {
                if pin@ {
                    assert(tail@ is None);
                }
            }
            None
        },
        Some((list, at)) => {
            let ghost glist = list@.map(|k: int, mm: format_modifier| mm@);
            let mut list = list;
            list.insert(0, m);
            proof {
                assert(list@.map(|k: int, mm: format_modifier| mm@) =~= seq![m@] + glist);
            }
            Some((list, at))
        },
    }
}

/// Split on the first top-level comma and expand both sides.
fn format_choose_exp(
    server: &Server,
    cache: &mut JobCache,
    table: &SortedKv<TableEntry>,
    ft: &format_tree,
    eflags: u32,
    depth: u64,
    s: &[u8],
) -> (r: Option<(Vec<u8>, Vec<u8>)>)
    requires
        server.wf(),
        ft.wf(*server),
        table_ok(*table),
        depth <= FORMAT_LOOP_LIMIT,
    ensures
        spec_disabled(ft@, eflags) ==> *final(cache) == *old(cache),
        cache_quiet(old(cache).jobs@, ft.now) ==> cache_quiet(final(cache).jobs@, ft.now),
        spec_pinned(ft@, eflags, old(cache).jobs@) ==> (match spec_choose_exp(
            *server,
            ft@,
            eflags,
            depth as int,
            s@,
        ) {
            Some(p) => r matches Some(q) && q.0@ == p.0 && q.1@ == p.1,
            None => r is None,
        }),
    decreases FORMAT_LOOP_LIMIT - depth, 1int, 1int,
{
    match format_choose_split(s) {
        None => None,
        Some((l, rr)) => {
            let le = format_expand1(server, cache, table, ft, eflags, depth, l.as_slice());
            let re = format_expand1(server, cache, table, ft, eflags, depth, rr.as_slice());
            Some((le, re))
        },
    }
}

/// Does a session with this (expanded) name exist?
fn format_session_name_test(
    server: &Server,
    cache: &mut JobCache,
    table: &SortedKv<TableEntry>,
    ft: &format_tree,
    eflags: u32,
    depth: u64,
    fmt: &[u8],
) -> (r: Vec<u8>)
    requires
        server.wf(),
        ft.wf(*server),
        table_ok(*table),
        depth <= FORMAT_LOOP_LIMIT,
    ensures
        spec_disabled(ft@, eflags) ==> *final(cache) == *old(cache),
        cache_quiet(old(cache).jobs@, ft.now) ==> cache_quiet(final(cache).jobs@, ft.now),
        spec_pinned(ft@, eflags, old(cache).jobs@) ==> r@ == spec_session_name_test(
            *server,
            ft@,
            eflags,
            depth as int,
            fmt@,
        ),
    decreases FORMAT_LOOP_LIMIT - depth, 1int, 2int,
{
    let name = format_expand1(server, cache, table, ft, eflags, depth, fmt);
    let ghost gname = name@;
    let mut hit = false;
    let mut i: usize = 0;
    while i < server.sessions.len() && !hit
        invariant
            server.wf(),
            i <= server.sessions@.len(),
            gname == name@,
            spec_disabled(ft@, eflags) ==> *cache == *old(cache),
            cache_quiet(old(cache).jobs@, ft.now) ==> cache_quiet(cache.jobs@, ft.now),
            spec_pinned(ft@, eflags, old(cache).jobs@) ==> gname == spec_expand1(
                *server,
                ft@,
                eflags,
                depth as int,
                fmt@,
            ),
            !hit ==> spec_session_name_rec(*server, gname, i as int) == spec_session_name_rec(
                *server,
                gname,
                0,
            ),
            hit ==> spec_session_name_rec(*server, gname, 0) == ("1").spec_bytes(),
        decreases server.sessions@.len() - i, 1int - (if hit { 1int } else { 0int }),
    {
        if bytes_eq(server.sessions[i].name.as_slice(), name.as_slice()) {
            hit = true;
        } else {
            i = i + 1;
        }
    }
    proof {
        reveal_with_fuel(spec_session_name_test, 1);
        if spec_pinned(ft@, eflags, old(cache).jobs@) {
            if hit {
                assert(spec_session_name_test(*server, ft@, eflags, depth as int, fmt@) == (
                "1").spec_bytes());
            } else {
                assert(spec_session_name_test(*server, ft@, eflags, depth as int, fmt@) == (
                "0").spec_bytes());
            }
        }
    }
    if hit {
        lit("1")
    } else {
        lit("0")
    }
}

fn format_window_name_test(
    server: &Server,
    cache: &mut JobCache,
    table: &SortedKv<TableEntry>,
    ft: &format_tree,
    eflags: u32,
    depth: u64,
    fmt: &[u8],
) -> (r: Vec<u8>)
    requires
        server.wf(),
        ft.wf(*server),
        table_ok(*table),
        depth <= FORMAT_LOOP_LIMIT,
    ensures
        spec_disabled(ft@, eflags) ==> *final(cache) == *old(cache),
        cache_quiet(old(cache).jobs@, ft.now) ==> cache_quiet(final(cache).jobs@, ft.now),
        spec_pinned(ft@, eflags, old(cache).jobs@) ==> r@ == spec_window_name_test(
            *server,
            ft@,
            eflags,
            depth as int,
            fmt@,
        ),
    decreases FORMAT_LOOP_LIMIT - depth, 1int, 2int,
{
    let si = match ft.s {
        Some(si) => si,
        None => {
            proof {
                reveal_with_fuel(spec_window_name_test, 1);
            }
            return Vec::new();
        },
    };
    let name = format_expand1(server, cache, table, ft, eflags, depth, fmt);
    let ghost gname = name@;
    let n = server.sessions[si].winlinks.len();
    let mut hit = false;
    let mut i: usize = 0;
    while i < n && !hit
        invariant
            server.wf(),
            si < server.sessions@.len(),
            n == server.sessions@[si as int].winlinks@.len(),
            gname == name@,
            ft.s == Some(si),
            i <= n,
            spec_disabled(ft@, eflags) ==> *cache == *old(cache),
            cache_quiet(old(cache).jobs@, ft.now) ==> cache_quiet(cache.jobs@, ft.now),
            spec_pinned(ft@, eflags, old(cache).jobs@) ==> gname == spec_expand1(
                *server,
                ft@,
                eflags,
                depth as int,
                fmt@,
            ),
            !hit ==> spec_window_name_rec(*server, si as int, gname, i as int)
                == spec_window_name_rec(*server, si as int, gname, 0),
            hit ==> spec_window_name_rec(*server, si as int, gname, 0) == ("1").spec_bytes(),
        decreases n - i, 1int - (if hit { 1int } else { 0int }),
    {
        let w = server.sessions[si].winlinks[i].window;
        if bytes_eq(server.windows[w].name.as_slice(), name.as_slice()) {
            hit = true;
        } else {
            i = i + 1;
        }
    }
    proof {
        reveal_with_fuel(spec_window_name_test, 1);
        if spec_pinned(ft@, eflags, old(cache).jobs@) {
            if hit {
                assert(spec_window_name_test(*server, ft@, eflags, depth as int, fmt@) == (
                "1").spec_bytes());
            } else {
                assert(spec_window_name_test(*server, ft@, eflags, depth as int, fmt@) == (
                "0").spec_bytes());
            }
        }
    }
    if hit {
        lit("1")
    } else {
        lit("0")
    }
}

/// Expand the body once per session, against that session's own context,
/// and concatenate in id order with nothing between; an alternative after a
/// top-level comma applies to the context's own session.
#[verifier::rlimit(100)]
#[verifier::spinoff_prover]
fn format_loop_sessions(
    server: &Server,
    cache: &mut JobCache,
    table: &SortedKv<TableEntry>,
    ft: &format_tree,
    eflags: u32,
    depth: u64,
    fmt: &[u8],
) -> (r: Vec<u8>)
    requires
        server.wf(),
        ft.wf(*server),
        table_ok(*table),
        depth <= FORMAT_LOOP_LIMIT,
    ensures
        spec_disabled(ft@, eflags) ==> *final(cache) == *old(cache),
        cache_quiet(old(cache).jobs@, ft.now) ==> cache_quiet(final(cache).jobs@, ft.now),
        spec_pinned(ft@, eflags, old(cache).jobs@) ==> r@ == spec_loop_sessions(
            *server,
            ft@,
            eflags,
            depth as int,
            fmt@,
        ),
    decreases FORMAT_LOOP_LIMIT - depth, 2int, 0int, 0int,
{
    let (all, active): (Vec<u8>, Option<Vec<u8>>) = match format_choose_split(fmt) {
        Some((l, rr)) => (l, Some(rr)),
        None => (to_vec(fmt), None),
    };
    let ghost gall = all@;
    let ghost gactive: Option<Seq<u8>> = match &active {
        Some(a) => Some(a@),
        None => None,
    };
    let mut value: Vec<u8> = Vec::new();
    let mut i: usize = 0;
    while i < server.sessions.len()
        invariant
            server.wf(),
            ft.wf(*server),
            table_ok(*table),
            depth <= FORMAT_LOOP_LIMIT,
            i <= server.sessions@.len(),
            gall == all@,
            gactive == (match &active {
                Some(a) => Some(a@),
                None => None::<Seq<u8>>,
            }),
            spec_disabled(ft@, eflags) ==> *cache == *old(cache),
            cache_quiet(old(cache).jobs@, ft.now) ==> cache_quiet(cache.jobs@, ft.now),
            spec_pinned(ft@, eflags, old(cache).jobs@) ==> value@ + spec_loop_sessions_rec(
                *server,
                ft@,
                eflags,
                depth as int,
                gall,
                gactive,
                i as int,
            ) == spec_loop_sessions_rec(*server, ft@, eflags, depth as int, gall, gactive, 0),
        decreases server.sessions@.len() - i,
    {
        let ghost prevalue = value@;
        let is_cur = match ft.s {
            Some(si) => si == i,
            None => false,
        };
        let mut nft = format_create(ft.client, 0, ft.flags, ft.now, ft.tz_offset);
        format_defaults(&mut nft, server, ft.c, Some(i), None, None);
        proof {
            assert(nft@.vars =~= Map::<Seq<u8>, crate::tree::EntrySpec>::empty());
            assert(nft@ =~= spec_child_ft(
                *server,
                ft.client,
                ft.flags,
                0,
                ft.now,
                ft.tz_offset,
                ft.c,
                Some(i),
                None,
                None,
            ));
        }
        let body: &Vec<u8> = match &active {
            Some(a) => if is_cur {
                a
            } else {
                &all
            },
            None => &all,
        };
        let expanded = format_expand1(server, cache, table, &nft, eflags, depth, body.as_slice());
        append_bytes(&mut value, expanded.as_slice());
        proof {
            if spec_pinned(ft@, eflags, old(cache).jobs@) {
                assert(value@ + spec_loop_sessions_rec(
                    *server,
                    ft@,
                    eflags,
                    depth as int,
                    gall,
                    gactive,
                    i + 1,
                ) =~= prevalue + spec_loop_sessions_rec(
                    *server,
                    ft@,
                    eflags,
                    depth as int,
                    gall,
                    gactive,
                    i as int,
                ));
            }
        }
        i = i + 1;
    }
    value
}

/// Expand the body once per window of the current session, the active
/// alternative for the current window when one is given; empty without a
/// session in scope.
#[verifier::rlimit(100)]
#[verifier::spinoff_prover]
fn format_loop_windows(
    server: &Server,
    cache: &mut JobCache,
    table: &SortedKv<TableEntry>,
    ft: &format_tree,
    eflags: u32,
    depth: u64,
    fmt: &[u8],
) -> (r: Vec<u8>)
    requires
        server.wf(),
        ft.wf(*server),
        table_ok(*table),
        depth <= FORMAT_LOOP_LIMIT,
    ensures
        spec_disabled(ft@, eflags) ==> *final(cache) == *old(cache),
        cache_quiet(old(cache).jobs@, ft.now) ==> cache_quiet(final(cache).jobs@, ft.now),
        spec_pinned(ft@, eflags, old(cache).jobs@) ==> r@ == spec_loop_windows(
            *server,
            ft@,
            eflags,
            depth as int,
            fmt@,
        ),
    decreases FORMAT_LOOP_LIMIT - depth, 2int, 0int, 1int,
{
    let si = match ft.s {
        Some(si) => si,
        None => {
            return Vec::new();
        },
    };
    let (all, active): (Vec<u8>, Option<Vec<u8>>) = match format_choose_split(fmt) {
        Some((l, rr)) => (l, Some(rr)),
        None => (to_vec(fmt), None),
    };
    let ghost gall = all@;
    let ghost gactive: Option<Seq<u8>> = match &active {
        Some(a) => Some(a@),
        None => None,
    };
    let mut value: Vec<u8> = Vec::new();
    let n = server.sessions[si].winlinks.len();
    let mut i: usize = 0;
    while i < n
        invariant
            server.wf(),
            ft.wf(*server),
            table_ok(*table),
            depth <= FORMAT_LOOP_LIMIT,
            ft.s == Some(si),
            si < server.sessions@.len(),
            n == server.sessions@[si as int].winlinks@.len(),
            i <= n,
            gall == all@,
            gactive == (match &active {
                Some(a) => Some(a@),
                None => None::<Seq<u8>>,
            }),
            spec_disabled(ft@, eflags) ==> *cache == *old(cache),
            cache_quiet(old(cache).jobs@, ft.now) ==> cache_quiet(cache.jobs@, ft.now),
            spec_pinned(ft@, eflags, old(cache).jobs@) ==> value@ + spec_loop_windows_rec(
                *server,
                ft@,
                eflags,
                depth as int,
                si as int,
                gall,
                gactive,
                i as int,
            ) == spec_loop_windows_rec(
                *server,
                ft@,
                eflags,
                depth as int,
                si as int,
                gall,
                gactive,
                0,
            ),
        decreases n - i,
    {
        let ghost prevalue = value@;
        let is_cur = i == server.sessions[si].curw;
        let wid = server.windows[server.sessions[si].winlinks[i].window].id;
        let mut nft = format_create(
            ft.client,
            make_tag(0x40000000, wid),
            ft.flags,
            ft.now,
            ft.tz_offset,
        );
        format_defaults(&mut nft, server, ft.c, ft.s, Some(i), None);
        proof {
            assert(nft@.vars =~= Map::<Seq<u8>, crate::tree::EntrySpec>::empty());
            assert(nft@ =~= spec_child_ft(
                *server,
                ft.client,
                ft.flags,
                spec_make_tag(0x40000000, wid),
                ft.now,
                ft.tz_offset,
                ft.c,
                ft.s,
                Some(i),
                None,
            ));
        }
        let body: &Vec<u8> = match &active {
            Some(a) => if is_cur {
                a
            } else {
                &all
            },
            None => &all,
        };
        let expanded = format_expand1(server, cache, table, &nft, eflags, depth, body.as_slice());
        append_bytes(&mut value, expanded.as_slice());
        proof {
            if spec_pinned(ft@, eflags, old(cache).jobs@) {
                assert(value@ + spec_loop_windows_rec(
                    *server,
                    ft@,
                    eflags,
                    depth as int,
                    si as int,
                    gall,
                    gactive,
                    i + 1,
                ) =~= prevalue + spec_loop_windows_rec(
                    *server,
                    ft@,
                    eflags,
                    depth as int,
                    si as int,
                    gall,
                    gactive,
                    i as int,
                ));
            }
        }
        i = i + 1;
    }
    value
}

/// Expand the body once per pane of the current window, in pane order;
/// empty without a window in scope.
#[verifier::rlimit(100)]
#[verifier::spinoff_prover]
fn format_loop_panes(
    server: &Server,
    cache: &mut JobCache,
    table: &SortedKv<TableEntry>,
    ft: &format_tree,
    eflags: u32,
    depth: u64,
    fmt: &[u8],
) -> (r: Vec<u8>)
    requires
        server.wf(),
        ft.wf(*server),
        table_ok(*table),
        depth <= FORMAT_LOOP_LIMIT,
    ensures
        spec_disabled(ft@, eflags) ==> *final(cache) == *old(cache),
        cache_quiet(old(cache).jobs@, ft.now) ==> cache_quiet(final(cache).jobs@, ft.now),
        spec_pinned(ft@, eflags, old(cache).jobs@) ==> r@ == spec_loop_panes(
            *server,
            ft@,
            eflags,
            depth as int,
            fmt@,
        ),
    decreases FORMAT_LOOP_LIMIT - depth, 2int, 0int, 2int,
{
    let wi = match ft.w {
        Some(wi) => wi,
        None => {
            return Vec::new();
        },
    };
    let (all, active): (Vec<u8>, Option<Vec<u8>>) = match format_choose_split(fmt) {
        Some((l, rr)) => (l, Some(rr)),
        None => (to_vec(fmt), None),
    };
    let ghost gall = all@;
    let ghost gactive: Option<Seq<u8>> = match &active {
        Some(a) => Some(a@),
        None => None,
    };
    let mut value: Vec<u8> = Vec::new();
    let n = server.windows[wi].panes.len();
    let mut i: usize = 0;
    while i < n
        invariant
            server.wf(),
            ft.wf(*server),
            table_ok(*table),
            depth <= FORMAT_LOOP_LIMIT,
            ft.w == Some(wi),
            wi < server.windows@.len(),
            n == server.windows@[wi as int].panes@.len(),
            i <= n,
            gall == all@,
            gactive == (match &active {
                Some(a) => Some(a@),
                None => None::<Seq<u8>>,
            }),
            spec_disabled(ft@, eflags) ==> *cache == *old(cache),
            cache_quiet(old(cache).jobs@, ft.now) ==> cache_quiet(cache.jobs@, ft.now),
            spec_pinned(ft@, eflags, old(cache).jobs@) ==> value@ + spec_loop_panes_rec(
                *server,
                ft@,
                eflags,
                depth as int,
                wi as int,
                gall,
                gactive,
                i as int,
            ) == spec_loop_panes_rec(
                *server,
                ft@,
                eflags,
                depth as int,
                wi as int,
                gall,
                gactive,
                0,
            ),
        decreases n - i,
    {
        let ghost prevalue = value@;
        let is_active = i == server.windows[wi].active;
        let pid = server.windows[wi].panes[i].id;
        let mut nft = format_create(
            ft.client,
            make_tag(0x80000000, pid),
            ft.flags,
            ft.now,
            ft.tz_offset,
        );
        format_defaults(&mut nft, server, ft.c, ft.s, ft.wl, Some(i));
        proof {
            assert(nft@.vars =~= Map::<Seq<u8>, crate::tree::EntrySpec>::empty());
            assert(nft@ =~= spec_child_ft(
                *server,
                ft.client,
                ft.flags,
                spec_make_tag(0x80000000, pid),
                ft.now,
                ft.tz_offset,
                ft.c,
                ft.s,
                ft.wl,
                Some(i),
            ));
        }
        let body: &Vec<u8> = match &active {
            Some(a) => if is_active {
                a
            } else {
                &all
            },
            None => &all,
        };
        let expanded = format_expand1(server, cache, table, &nft, eflags, depth, body.as_slice());
        append_bytes(&mut value, expanded.as_slice());
        proof {
            if spec_pinned(ft@, eflags, old(cache).jobs@) {
                assert(value@ + spec_loop_panes_rec(
                    *server,
                    ft@,
                    eflags,
                    depth as int,
                    wi as int,
                    gall,
                    gactive,
                    i + 1,
                ) =~= prevalue + spec_loop_panes_rec(
                    *server,
                    ft@,
                    eflags,
                    depth as int,
                    wi as int,
                    gall,
                    gactive,
                    i as int,
                ));
            }
        }
        i = i + 1;
    }
    value
}

/// Expand the body once per client, in list order.
#[verifier::rlimit(100)]
#[verifier::spinoff_prover]
fn format_loop_clients(
    server: &Server,
    cache: &mut JobCache,
    table: &SortedKv<TableEntry>,
    ft: &format_tree,
    eflags: u32,
    depth: u64,
    fmt: &[u8],
) -> (r: Vec<u8>)
    requires
        server.wf(),
        ft.wf(*server),
        table_ok(*table),
        depth <= FORMAT_LOOP_LIMIT,
    ensures
        spec_disabled(ft@, eflags) ==> *final(cache) == *old(cache),
        cache_quiet(old(cache).jobs@, ft.now) ==> cache_quiet(final(cache).jobs@, ft.now),
        spec_pinned(ft@, eflags, old(cache).jobs@) ==> r@ == spec_loop_clients(
            *server,
            ft@,
            eflags,
            depth as int,
            fmt@,
        ),
    decreases FORMAT_LOOP_LIMIT - depth, 2int, 0int, 3int,
{
    let mut value: Vec<u8> = Vec::new();
    let mut i: usize = 0;
    while i < server.clients.len()
        invariant
            server.wf(),
            ft.wf(*server),
            table_ok(*table),
            depth <= FORMAT_LOOP_LIMIT,
            i <= server.clients@.len(),
            spec_disabled(ft@, eflags) ==> *cache == *old(cache),
            cache_quiet(old(cache).jobs@, ft.now) ==> cache_quiet(cache.jobs@, ft.now),
            spec_pinned(ft@, eflags, old(cache).jobs@) ==> value@ + spec_loop_clients_rec(
                *server,
                ft@,
                eflags,
                depth as int,
                fmt@,
                i as int,
            ) == spec_loop_clients_rec(*server, ft@, eflags, depth as int, fmt@, 0),
        decreases server.clients@.len() - i,
    {
        let ghost prevalue = value@;
        let mut nft = format_create(Some(i), 0, ft.flags, ft.now, ft.tz_offset);
        format_defaults(&mut nft, server, Some(i), ft.s, ft.wl, ft.wp);
        proof {
            assert(nft@.vars =~= Map::<Seq<u8>, crate::tree::EntrySpec>::empty());
            assert(nft@ =~= spec_child_ft(
                *server,
                Some(i),
                ft.flags,
                0,
                ft.now,
                ft.tz_offset,
                Some(i),
                ft.s,
                ft.wl,
                ft.wp,
            ));
        }
        let expanded = format_expand1(server, cache, table, &nft, eflags, depth, fmt);
        append_bytes(&mut value, expanded.as_slice());
        proof {
            if spec_pinned(ft@, eflags, old(cache).jobs@) {
                assert(value@ + spec_loop_clients_rec(
                    *server,
                    ft@,
                    eflags,
                    depth as int,
                    fmt@,
                    i + 1,
                ) =~= prevalue + spec_loop_clients_rec(
                    *server,
                    ft@,
                    eflags,
                    depth as int,
                    fmt@,
                    i as int,
                ));
            }
        }
        i = i + 1;
    }
    value
}

/// Evaluate an arithmetic placeholder: operator and flags from the
/// modifier's arguments, operands split on the top-level comma.
#[verifier::rlimit(100)]
#[verifier::spinoff_prover]
fn format_replace_expression(
    server: &Server,
    cache: &mut JobCache,
    table: &SortedKv<TableEntry>,
    ft: &format_tree,
    eflags: u32,
    depth: u64,
    mexp: &format_modifier,
    copy: &[u8],
) -> (r: Option<Vec<u8>>)
    requires
        server.wf(),
        ft.wf(*server),
        table_ok(*table),
        depth <= FORMAT_LOOP_LIMIT,
    ensures
        spec_disabled(ft@, eflags) ==> *final(cache) == *old(cache),
        cache_quiet(old(cache).jobs@, ft.now) ==> cache_quiet(final(cache).jobs@, ft.now),
        spec_pinned(ft@, eflags, old(cache).jobs@) ==> (match spec_replace_expression(
            *server,
            ft@,
            eflags,
            depth as int,
            mexp@,
            copy@,
        ) {
            Some(v) => r matches Some(q) && q@ == v,
            None => r is None,
        }),
    decreases FORMAT_LOOP_LIMIT - depth, 2int, 1int,
{
    proof {
        if mexp.argv@.len() >= 1 {
            assert(mexp@.argv[0] == mexp.argv@[0]@);
        }
        if mexp.argv@.len() >= 2 {
            assert(mexp@.argv[1] == mexp.argv@[1]@);
        }
        if mexp.argv@.len() >= 3 {
            assert(mexp@.argv[2] == mexp.argv@[2]@);
        }
    }
    if mexp.argv.len() < 1 {
        return None;
    }
    let op = match parse_op(mexp.argv[0].as_slice()) {
        Some(op) => op,
        None => {
            return None;
        },
    };
    let mut use_fp = false;
    let mut prec: u64 = 0;
    if mexp.argv.len() >= 2 && contains_byte(mexp.argv[1].as_slice(), 'f' as u8) {
        use_fp = true;
        prec = 2;
    }
    if mexp.argv.len() >= 3 {
        match strtonum(mexp.argv[2].as_slice(), i32::MIN as i64, i32::MAX as i64) {
            Some(p) => {
                prec = if p < 0 {
                    0
                } else if p > 9 {
                    9
                } else {
                    p as u64
                };
            },
            None => {
                return None;
            },
        }
    }
    let (left, right) = match format_choose_exp(server, cache, table, ft, eflags, depth, copy) {
        Some(p) => p,
        None => {
            return None;
        },
    };
    let ml = match parse_scaled(left.as_slice()) {
        Some(v) => v,
        None => {
            return None;
        },
    };
    let mr = match parse_scaled(right.as_slice()) {
        Some(v) => v,
        None => {
            return None;
        },
    };
    let result = match apply_op(op, ml, mr) {
        Some(v) => v,
        None => {
            return None;
        },
    };
    Some(format_scaled(result, prec, use_fp))
}

/// Search the pane's text for the (already expanded) needle: the number of
/// the first line holding a match, counted from one, or zero.
fn format_search_pane(server: &Server, ft: &format_tree, fm: &format_modifier, s: &[u8]) -> (r:
    Vec<u8>)
    requires
        server.wf(),
        ft.wf(*server),
    ensures
        r@ == spec_search_pane(*server, ft@, fm@, s@),
{
    let (wi, pi) = match (ft.w, ft.wp) {
        (Some(w), Some(p)) => (w, p),
        _ => {
            return lit("0");
        },
    };
    let mut icase = false;
    let mut re = false;
    if fm.argv.len() >= 1 {
        proof {
            assert(fm@.argv[0] == fm.argv@[0]@);
        }
        icase = contains_byte(fm.argv[0].as_slice(), 'i' as u8);
        re = contains_byte(fm.argv[0].as_slice(), 'r' as u8);
    }
    let ghost glines = server.windows@[wi as int].panes@[pi as int].lines@.map(
        |k: int, l: Vec<u8>| l@,
    );
    let ghost gicase = fm@.argv.len() >= 1 && spec_contains_byte(fm@.argv[0], 'i' as u8);
    let ghost gre = fm@.argv.len() >= 1 && spec_contains_byte(fm@.argv[0], 'r' as u8);
    proof {
        assert(glines =~= server.windows@[ft@.w.unwrap() as int].panes@[
            ft@.wp.unwrap() as int
        ].lines@.map(|q: int, l: Vec<u8>| l@));
        assert(spec_search_pane(*server, ft@, fm@, s@) == spec_search_rec(
            glines,
            gicase,
            gre,
            s@,
            0,
        ));
    }
    let n = server.windows[wi].panes[pi].lines.len();
    let mut i: usize = 0;
    while i < n
        invariant
            server.wf(),
            ft.wf(*server),
            ft.w == Some(wi),
            ft.wp == Some(pi),
            wi < server.windows@.len(),
            pi < server.windows@[wi as int].panes@.len(),
            n == server.windows@[wi as int].panes@[pi as int].lines@.len(),
            glines == server.windows@[wi as int].panes@[pi as int].lines@.map(
                |k: int, l: Vec<u8>| l@,
            ),
            icase == gicase,
            re == gre,
            i <= n,
            spec_search_rec(glines, gicase, gre, s@, i as int) == spec_search_rec(
                glines,
                gicase,
                gre,
                s@,
                0,
            ),
            spec_search_pane(*server, ft@, fm@, s@) == spec_search_rec(glines, gicase, gre, s@, 0),
        decreases n - i,
    {
        let line = &server.windows[wi].panes[pi].lines[i];
        proof {
            assert(glines[i as int] == line@);
        }
        let hit = if re {
            match format_regex_match(s, icase, line.as_slice()) {
                Some(b) => b,
                None => false,
            }
        } else if icase {
            let l2 = fold_all(line.as_slice());
            let s2 = fold_all(s);
            contains_sub(l2.as_slice(), s2.as_slice())
        } else {
            contains_sub(line.as_slice(), s)
        };
        if hit {
            proof {
                assert(spec_search_rec(glines, gicase, gre, s@, i as int) == spec_u64_dec(
                    (i + 1) as nat,
                ));
            }
            return u64_dec((i + 1) as u64);
        }
        i = i + 1;
    }
    lit("0")
}

/// What the modifier list asks for, collected in one pass.
struct ModifierSet {
    modifiers: u32,
    limit: i64,
    marker: Option<Vec<u8>>,
    width: i64,
    time_format: Option<Vec<u8>>,
    cmp: Option<usize>,
    search: Option<usize>,
    mexp: Option<usize>,
    subs: Vec<usize>,
}

/// Ghost image of the collected set.
spec fn ms_view(ms: ModifierSet) -> MsSpec {
    MsSpec {
        modifiers: ms.modifiers,
        limit: ms.limit,
        marker: match ms.marker {
            Some(v) => Some(v@),
            None => None,
        },
        width: ms.width,
        time_format: match ms.time_format {
            Some(v) => Some(v@),
            None => None,
        },
        cmp: match ms.cmp {
            Some(j) => Some(j as int),
            None => None,
        },
        search: match ms.search {
            Some(j) => Some(j as int),
            None => None,
        },
        mexp: match ms.mexp {
            Some(j) => Some(j as int),
            None => None,
        },
        subs: ms.subs@.map(|k: int, v: usize| v as int),
    }
}

/// Apply one modifier's contribution; false stops the pass.
#[verifier::rlimit(100)]
#[verifier::spinoff_prover]
fn scan_step(r: ModifierSet, fm: &format_modifier, i: usize) -> (out: (ModifierSet, bool))
    ensures
        match spec_scan_step(fm@, i as int, ms_view(r)) {
            Some(a) => out.1 && ms_view(out.0) == a,
            None => !out.1 && ms_view(out.0) == ms_view(r),
        },
        out.0.cmp == r.cmp || out.0.cmp == Some(i),
        out.0.search == r.search || out.0.search == Some(i),
        out.0.mexp == r.mexp || out.0.mexp == Some(i),
        out.0.subs@ == r.subs@ || out.0.subs@ == r.subs@.push(i),
{
    proof {
        reveal(spec_scan_step);
    }
    let mut r = r;
    if fm.modifier.len() == 1 {
        let c = fm.modifier[0];
        if c == 'm' as u8 || c == '<' as u8 || c == '>' as u8 {
            r.cmp = Some(i);
        } else if c == 'C' as u8 {
            r.search = Some(i);
        } else if c == 's' as u8 {
            if fm.argv.len() >= 2 {
                let ghost pre = ms_view(r);
                r.subs.push(i);
                proof {
                    assert(ms_view(r).subs =~= pre.subs.push(i as int));
                }
            }
        } else if c == '=' as u8 {
            if fm.argv.len() >= 1 {
                r.limit = match strtonum(fm.argv[0].as_slice(), i32::MIN as i64, i32::MAX as i64) {
                    Some(v) => v,
                    None => 0,
                };
                if fm.argv.len() >= 2 {
                    r.marker = Some(to_vec(fm.argv[1].as_slice()));
                }
            }
        } else if c == 'p' as u8 {
            if fm.argv.len() < 1 {
                return (r, false);
            }
            r.width = match strtonum(fm.argv[0].as_slice(), i32::MIN as i64, i32::MAX as i64) {
                Some(v) => v,
                None => 0,
            };
        } else if c == 'w' as u8 {
            r.modifiers = r.modifiers | FORMAT_WIDTH;
        } else if c == 'e' as u8 {
            if fm.argv.len() >= 1 && fm.argv.len() <= 3 {
                r.mexp = Some(i);
            }
        } else if c == 'l' as u8 {
            r.modifiers = r.modifiers | FORMAT_LITERAL;
        } else if c == 'a' as u8 {
            r.modifiers = r.modifiers | FORMAT_CHARACTER;
        } else if c == 'b' as u8 {
            r.modifiers = r.modifiers | FORMAT_BASENAME;
        } else if c == 'c' as u8 {
            r.modifiers = r.modifiers | FORMAT_COLOUR;
        } else if c == 'd' as u8 {
            r.modifiers = r.modifiers | FORMAT_DIRNAME;
        } else if c == 'n' as u8 {
            r.modifiers = r.modifiers | FORMAT_LENGTH;
        } else if c == 't' as u8 {
            r.modifiers = r.modifiers | FORMAT_TIMESTRING;
            if fm.argv.len() >= 1 {
                if contains_byte(fm.argv[0].as_slice(), 'p' as u8) {
                    r.modifiers = r.modifiers | FORMAT_PRETTY;
                } else if fm.argv.len() >= 2 && contains_byte(fm.argv[0].as_slice(), 'f' as u8) {
                    r.time_format = Some(format_strip(fm.argv[1].as_slice()));
                }
            }
        } else if c == 'q' as u8 {
            if fm.argv.len() < 1 {
                r.modifiers = r.modifiers | FORMAT_QUOTE_SHELL;
            } else if contains_byte(fm.argv[0].as_slice(), 'e' as u8) || contains_byte(
                fm.argv[0].as_slice(),
                'h' as u8,
            ) {
                r.modifiers = r.modifiers | FORMAT_QUOTE_STYLE;
            }
        } else if c == 'E' as u8 {
            r.modifiers = r.modifiers | FORMAT_EXPAND;
        } else if c == 'T' as u8 {
            r.modifiers = r.modifiers | FORMAT_EXPANDTIME;
        } else if c == 'N' as u8 {
            if fm.argv.len() < 1 || contains_byte(fm.argv[0].as_slice(), 'w' as u8) {
                r.modifiers = r.modifiers | FORMAT_WINDOW_NAME;
            } else if contains_byte(fm.argv[0].as_slice(), 's' as u8) {
                r.modifiers = r.modifiers | FORMAT_SESSION_NAME;
            }
        } else if c == 'S' as u8 {
            r.modifiers = r.modifiers | FORMAT_SESSIONS;
        } else if c == 'W' as u8 {
            r.modifiers = r.modifiers | FORMAT_WINDOWS;
        } else if c == 'P' as u8 {
            r.modifiers = r.modifiers | FORMAT_PANES;
        } else if c == 'L' as u8 {
            r.modifiers = r.modifiers | FORMAT_CLIENTS;
        }
    } else if fm.modifier.len() == 2 {
        let c = fm.modifier[0];
        let d = fm.modifier[1];
        let two = (c == '|' as u8 && d == '|' as u8) || (c == '&' as u8 && d == '&' as u8) || (c
            == '=' as u8 && d == '=' as u8) || (c == '!' as u8 && d == '=' as u8) || (c
            == '>' as u8 && d == '=' as u8) || (c == '<' as u8 && d == '=' as u8);
        if two {
            r.cmp = Some(i);
        }
    }
    (r, true)
}

/// Collect what the modifier list asks for, in one pass.
#[verifier::rlimit(100)]
#[verifier::spinoff_prover]
fn scan_modifiers(list: &Vec<format_modifier>) -> (r: ModifierSet)
    ensures
        ms_view(r) == spec_scan_modifiers(list@.map(|k: int, m: format_modifier| m@)),
        (ms_view(r).cmp matches Some(j) ==> 0 <= j < list@.len()),
        (ms_view(r).search matches Some(j) ==> 0 <= j < list@.len()),
        (ms_view(r).mexp matches Some(j) ==> 0 <= j < list@.len()),
        forall|k: int|
            0 <= k < ms_view(r).subs.len() ==> 0 <= #[trigger] ms_view(r).subs[k] < list@.len(),
{
    let ghost glist = list@.map(|k: int, m: format_modifier| m@);
    let mut r = ModifierSet {
        modifiers: 0,
        limit: 0,
        marker: None,
        width: 0,
        time_format: None,
        cmp: None,
        search: None,
        mexp: None,
        subs: Vec::new(),
    };
    proof {
        reveal(spec_scan_rec);
        assert(ms_view(r) =~= spec_scan_init());
    }
    let mut i: usize = 0;
    let mut stop = false;
    while i < list.len() && !stop
        invariant
            glist == list@.map(|k: int, m: format_modifier| m@),
            i <= list@.len(),
            !stop ==> spec_scan_rec(glist, i as int, ms_view(r)) == spec_scan_modifiers(glist),
            stop ==> ms_view(r) == spec_scan_modifiers(glist),
            (r.cmp matches Some(j) ==> j < list@.len()),
            (r.search matches Some(j) ==> j < list@.len()),
            (r.mexp matches Some(j) ==> j < list@.len()),
            forall|k: int| 0 <= k < r.subs@.len() ==> r.subs@[k] < list@.len(),
        decreases list@.len() - i, 1int - (if stop { 1int } else { 0int }),
    {
        let fm = &list[i];
        proof {
            reveal(spec_scan_rec);
            assert(glist[i as int] == fm@);
        }
        let (r2, cont) = scan_step(r, fm, i);
        r = r2;
        if !cont {
            stop = true;
        } else {
            i = i + 1;
        }
    }
    proof {
        reveal(spec_scan_rec);
        if !stop {
            assert(spec_scan_rec(glist, i as int, ms_view(r)) == ms_view(r));
        }
        assert forall|k: int|
            0 <= k < ms_view(r).subs.len() implies 0 <= #[trigger] ms_view(r).subs[k]
            < list@.len() by {
            assert(ms_view(r).subs[k] == r.subs@[k] as int);
        }
    }
    r
}

/// Truncation, padding and the length and width replacements, in that
/// order.
#[verifier::rlimit(100)]
#[verifier::spinoff_prover]
fn apply_post(value0: Vec<u8>, ms: &ModifierSet) -> (r: Vec<u8>)
    ensures
        r@ == spec_apply_post(value0@, ms_view(*ms)),
{
    let mut value = value0;
    if (value.len() as u64) >= 0x7fffffffffffffff {
        return value;
    }
    if ms.limit > 0 {
        let new = format_trim_left(value.as_slice(), ms.limit as u64);
        value = match &ms.marker {
            Some(mk) if !bytes_eq(new.as_slice(), value.as_slice()) => {
                let mut v = new;
                append_bytes(&mut v, mk.as_slice());
                v
            },
            _ => new,
        };
    } else if ms.limit < 0 {
        let lm: u64 = if ms.limit == i64::MIN {
            9223372036854775808u64
        } else {
            (-ms.limit) as u64
        };
        let new = format_trim_right(value.as_slice(), lm);
        value = match &ms.marker {
            Some(mk) if !bytes_eq(new.as_slice(), value.as_slice()) => {
                let mut v = to_vec(mk.as_slice());
                append_bytes(&mut v, new.as_slice());
                v
            },
            _ => new,
        };
    }
    if (value.len() as u64) >= 0x7fffffffffffffff {
        return value;
    }
    if ms.width > 0 {
        value = format_pad_left(value.as_slice(), ms.width as u64);
    } else if ms.width < 0 {
        let wm: u64 = if ms.width == i64::MIN {
            9223372036854775808u64
        } else {
            (-ms.width) as u64
        };
        value = format_pad_right(value.as_slice(), wm);
    }
    if ms.modifiers & FORMAT_LENGTH != 0 {
        value = u64_dec(value.len() as u64);
    }
    if ms.modifiers & FORMAT_WIDTH != 0 && (value.len() as u64) < 0x7fffffffffffffff {
        let w = format_width(value.as_slice());
        value = u64_dec(w);
    }
    value
}

/// The raw value of one placeholder body, dispatched on the collected
/// modifiers; `None` is a malformed body, rendered empty with no pipeline.
#[verifier::rlimit(100)]
#[verifier::spinoff_prover]
fn replace_value(
    server: &Server,
    cache: &mut JobCache,
    table: &SortedKv<TableEntry>,
    ft: &format_tree,
    eflags: u32,
    depth: u64,
    list: &Vec<format_modifier>,
    ms: &ModifierSet,
    copy: &Vec<u8>,
) -> (r: Option<Vec<u8>>)
    requires
        server.wf(),
        ft.wf(*server),
        table_ok(*table),
        depth <= FORMAT_LOOP_LIMIT,
        (ms.cmp matches Some(j) ==> j < list@.len()),
        (ms.search matches Some(j) ==> j < list@.len()),
        (ms.mexp matches Some(j) ==> j < list@.len()),
    ensures
        spec_disabled(ft@, eflags) ==> *final(cache) == *old(cache),
        cache_quiet(old(cache).jobs@, ft.now) ==> cache_quiet(final(cache).jobs@, ft.now),
        spec_pinned(ft@, eflags, old(cache).jobs@) ==> (match spec_replace_value(
            *server,
            ft@,
            eflags,
            depth as int,
            list@.map(|k: int, m: format_modifier| m@),
            ms_view(*ms),
            copy@,
        ) {
            Some(v) => r matches Some(q) && q@ == v,
            None => r is None,
        }),
    decreases FORMAT_LOOP_LIMIT - depth, 3int, 0int,
{
    let ghost pin = spec_pinned(ft@, eflags, old(cache).jobs@);
    let ghost glist = list@.map(|k: int, m: format_modifier| m@);
    proof {
        reveal(spec_replace_value);
        if ms.cmp is Some {
            assert(ms_view(*ms).cmp == Some(ms.cmp.unwrap() as int));
        }
        if ms.search is Some {
            assert(ms_view(*ms).search == Some(ms.search.unwrap() as int));
        }
        if ms.mexp is Some {
            assert(ms_view(*ms).mexp == Some(ms.mexp.unwrap() as int));
        }
    }
    let mut value: Vec<u8>;
    if ms.modifiers & FORMAT_LITERAL != 0 {
        value = format_unescape(copy.as_slice());
    } else if ms.modifiers & FORMAT_CHARACTER != 0 {
        let new = format_expand1(server, cache, table, ft, eflags, depth, copy.as_slice());
        value = match strtonum(new.as_slice(), 32, 126) {
            Some(n) => {
                let mut v: Vec<u8> = Vec::new();
                v.push(n as u8);
                v
            },
            None => Vec::new(),
        };
    } else if ms.modifiers & FORMAT_COLOUR != 0 {
        let new = format_expand1(server, cache, table, ft, eflags, depth, copy.as_slice());
        value = match colour_rgb(new.as_slice()) {
            Some(c) => hex6(c),
            None => Vec::new(),
        };
    } else if ms.modifiers & FORMAT_SESSIONS != 0 {
        value = format_loop_sessions(server, cache, table, ft, eflags, depth, copy.as_slice());
    } else if ms.modifiers & FORMAT_WINDOWS != 0 {
        value = format_loop_windows(server, cache, table, ft, eflags, depth, copy.as_slice());
    } else if ms.modifiers & FORMAT_PANES != 0 {
        value = format_loop_panes(server, cache, table, ft, eflags, depth, copy.as_slice());
    } else if ms.modifiers & FORMAT_CLIENTS != 0 {
        value = format_loop_clients(server, cache, table, ft, eflags, depth, copy.as_slice());
    } else if ms.modifiers & FORMAT_WINDOW_NAME != 0 {
        value = format_window_name_test(
            server,
            cache,
            table,
            ft,
            eflags,
            depth,
            copy.as_slice(),
        );
    } else if ms.modifiers & FORMAT_SESSION_NAME != 0 {
        value = format_session_name_test(
            server,
            cache,
            table,
            ft,
            eflags,
            depth,
            copy.as_slice(),
        );
    } else if ms.search.is_some() {
        let new = format_expand1(server, cache, table, ft, eflags, depth, copy.as_slice());
        let fm = &list[ms.search.unwrap()];
        proof {
            assert(fm@ == glist[ms.search.unwrap() as int]);
        }
        value = format_search_pane(server, ft, fm, new.as_slice());
    } else if ms.cmp.is_some() {
        value = match format_choose_exp(
            server,
            cache,
            table,
            ft,
            eflags,
            depth,
            copy.as_slice(),
        ) {
            Some((left, right)) => {
                let fm = &list[ms.cmp.unwrap()];
                proof {
                    assert(fm@ == glist[ms.cmp.unwrap() as int]);
                }
                eval_comparison(fm, left, right)
            },
            None => {
                return None;
            },
        };
    } else if copy.len() > 0 && copy[0] == '?' as u8 {
        // Ternary: resolve the condition, then expand only the chosen arm.
        let comma = lit(",");
        let cp = match format_skip(copy.as_slice(), 1, comma.as_slice()) {
            Some(cp) => cp,
            None => {
                return None;
            },
        };
        let condition = sub_vec(copy.as_slice(), 1, cp);
        let found = match format_find(
            server,
            ft,
            table,
            condition.as_slice(),
            ms.modifiers,
            ms.time_format.as_ref(),
        ) {
            Some(v) => v,
            None => {
                let f = format_expand1(
                    server,
                    cache,
                    table,
                    ft,
                    eflags,
                    depth,
                    condition.as_slice(),
                );
                if bytes_eq(f.as_slice(), condition.as_slice()) {
                    Vec::new()
                } else {
                    f
                }
            },
        };
        let rest = sub_vec(copy.as_slice(), cp + 1, copy.len());
        value = match format_choose_split(rest.as_slice()) {
            Some((left, right)) => {
                if format_true(found.as_slice()) {
                    format_expand1(server, cache, table, ft, eflags, depth, left.as_slice())
                } else {
                    format_expand1(server, cache, table, ft, eflags, depth, right.as_slice())
                }
            },
            None => {
                return None;
            },
        };
    } else if ms.mexp.is_some() {
        let fm = &list[ms.mexp.unwrap()];
        proof {
            assert(fm@ == glist[ms.mexp.unwrap() as int]);
        }
        value = match format_replace_expression(
            server,
            cache,
            table,
            ft,
            eflags,
            depth,
            fm,
            copy.as_slice(),
        ) {
            Some(v) => v,
            None => Vec::new(),
        };
    } else {
        let nested = lit("#{");
        if contains_sub(copy.as_slice(), nested.as_slice()) {
            value = format_expand1(server, cache, table, ft, eflags, depth, copy.as_slice());
        } else {
            value = match format_find(
                server,
                ft,
                table,
                copy.as_slice(),
                ms.modifiers,
                ms.time_format.as_ref(),
            ) {
                Some(v) => {
                    // A value holding placeholders of its own is itself a
                    // template; the depth ceiling bounds self-reference.
                    if contains_sub(v.as_slice(), nested.as_slice()) {
                        format_expand1(server, cache, table, ft, eflags, depth, v.as_slice())
                    } else {
                        v
                    }
                },
                None => Vec::new(),
            };
        }
    }
    Some(value)
}

/// The post pipeline of one placeholder: re-expansion when asked, the
/// substitutions in parse order, then truncation and padding.
#[verifier::rlimit(100)]
#[verifier::spinoff_prover]
fn replace_pipeline(
    server: &Server,
    cache: &mut JobCache,
    table: &SortedKv<TableEntry>,
    ft: &format_tree,
    eflags: u32,
    depth: u64,
    list: &Vec<format_modifier>,
    ms: &ModifierSet,
    value0: Vec<u8>,
) -> (r: Vec<u8>)
    requires
        server.wf(),
        ft.wf(*server),
        table_ok(*table),
        depth <= FORMAT_LOOP_LIMIT,
        forall|k: int| 0 <= k < ms.subs@.len() ==> ms.subs@[k] < list@.len(),
    ensures
        spec_disabled(ft@, eflags) ==> *final(cache) == *old(cache),
        cache_quiet(old(cache).jobs@, ft.now) ==> cache_quiet(final(cache).jobs@, ft.now),
        spec_pinned(ft@, eflags, old(cache).jobs@) ==> r@ == spec_apply_post(
            spec_apply_subs(
                *server,
                ft@,
                eflags,
                depth as int,
                list@.map(|k: int, m: format_modifier| m@),
                ms_view(*ms).subs,
                0,
                (if ms_view(*ms).modifiers & FORMAT_EXPAND != 0 {
                    spec_expand1(*server, ft@, eflags, depth as int, value0@)
                } else if ms_view(*ms).modifiers & FORMAT_EXPANDTIME != 0 {
                    spec_expand1(*server, ft@, eflags | FORMAT_EXPAND_TIME, depth as int, value0@)
                } else {
                    value0@
                }),
            ),
            ms_view(*ms),
        ),
    decreases FORMAT_LOOP_LIMIT - depth, 3int, 2int,
{
    let ghost pin = spec_pinned(ft@, eflags, old(cache).jobs@);
    let ghost glist = list@.map(|k: int, m: format_modifier| m@);
    proof {
        assert((eflags | 0x1u32) & 0x4u32 == eflags & 0x4u32) by (bit_vector);
        assert((eflags | 0x1u32) & 0x2u32 == eflags & 0x2u32) by (bit_vector);
        assert(spec_disabled(ft@, eflags | FORMAT_EXPAND_TIME) == spec_disabled(ft@, eflags));
    }
    let mut value = value0;
    // Expand the result again if asked to.
    if ms.modifiers & FORMAT_EXPAND != 0 {
        value = format_expand1(server, cache, table, ft, eflags, depth, value.as_slice());
    } else if ms.modifiers & FORMAT_EXPANDTIME != 0 {
        value = format_expand1(
            server,
            cache,
            table,
            ft,
            eflags | FORMAT_EXPAND_TIME,
            depth,
            value.as_slice(),
        );
    }

    // Substitutions, in parse order.
    proof {
        assert forall|k: int| 0 <= k < ms.subs@.len() implies ms.subs@[k] < list@.len() by {
            assert(ms_view(*ms).subs[k] == ms.subs@[k] as int);
        }
    }
    let ghost gvalue2 = value@;
    let mut si: usize = 0;
    while si < ms.subs.len()
        invariant
            server.wf(),
            ft.wf(*server),
            table_ok(*table),
            depth <= FORMAT_LOOP_LIMIT,
            si <= ms.subs@.len(),
            glist == list@.map(|k: int, m: format_modifier| m@),
            ms_view(*ms).subs == ms.subs@.map(|k: int, v: usize| v as int),
            forall|k: int| 0 <= k < ms.subs@.len() ==> ms.subs@[k] < list@.len(),
            spec_disabled(ft@, eflags) ==> *cache == *old(cache),
            cache_quiet(old(cache).jobs@, ft.now) ==> cache_quiet(cache.jobs@, ft.now),
            pin == spec_pinned(ft@, eflags, old(cache).jobs@),
            pin ==> spec_apply_subs(
                *server,
                ft@,
                eflags,
                depth as int,
                glist,
                ms_view(*ms).subs,
                si as int,
                value@,
            ) == spec_apply_subs(
                *server,
                ft@,
                eflags,
                depth as int,
                glist,
                ms_view(*ms).subs,
                0,
                gvalue2,
            ),
        decreases ms.subs@.len() - si,
    {
        let ghost prevalue = value@;
        let fm = &list[ms.subs[si]];
        proof {
            assert(ms_view(*ms).subs[si as int] == ms.subs@[si as int] as int);
            assert(fm@ == glist[ms.subs@[si as int] as int]);
            if fm.argv@.len() >= 2 {
                assert(fm@.argv[0] == fm.argv@[0]@);
                assert(fm@.argv[1] == fm.argv@[1]@);
            }
            if fm.argv@.len() >= 3 {
                assert(fm@.argv[2] == fm.argv@[2]@);
            }
        }
        if fm.argv.len() >= 2 {
            let pat = format_expand1(server, cache, table, ft, eflags, depth, fm.argv[0].as_slice());
            let rep = format_expand1(server, cache, table, ft, eflags, depth, fm.argv[1].as_slice());
            let icase = fm.argv.len() >= 3 && contains_byte(fm.argv[2].as_slice(), 'i' as u8);
            value = format_sub(pat.as_slice(), icase, rep.as_slice(), value.as_slice());
        }
        si = si + 1;
    }
    proof {
        if pin {
            assert(spec_apply_subs(
                *server,
                ft@,
                eflags,
                depth as int,
                glist,
                ms_view(*ms).subs,
                si as int,
                value@,
            ) == value@);
            reveal(spec_replace);
        }
    }
    apply_post(value, &ms)
}

/// Resolve one placeholder body: parse its modifiers, produce the value and
/// run the post-processing pipeline. A malformed body resolves to the empty
/// string; the scan around it carries on.
#[verifier::rlimit(100)]
#[verifier::spinoff_prover]
pub fn format_replace(
    server: &Server,
    cache: &mut JobCache,
    table: &SortedKv<TableEntry>,
    ft: &format_tree,
    eflags: u32,
    depth: u64,
    key: &[u8],
) -> (r: Vec<u8>)
    requires
        server.wf(),
        ft.wf(*server),
        table_ok(*table),
        depth <= FORMAT_LOOP_LIMIT,
    ensures
        spec_disabled(ft@, eflags) ==> *final(cache) == *old(cache),
        cache_quiet(old(cache).jobs@, ft.now) ==> cache_quiet(final(cache).jobs@, ft.now),
        spec_pinned(ft@, eflags, old(cache).jobs@) ==> r@ == spec_replace(
            *server,
            ft@,
            eflags,
            depth as int,
            key@,
        ),
    decreases FORMAT_LOOP_LIMIT - depth, 3int, 3int,
{
    let ghost pin = spec_pinned(ft@, eflags, old(cache).jobs@);
    let ghost gbuilt = spec_build_modifiers(*server, ft@, eflags, depth as int, key@);
    // Parse the modifier list.
    let built = format_build_modifiers(server, cache, table, ft, eflags, depth, key);
    let (list, body_at): (Vec<format_modifier>, usize) = match built {
        Some(p) => p,
        None => (Vec::new(), 0),
    };
    let ghost glist = list@.map(|k: int, m: format_modifier| m@);
    proof {
        if pin {
            match gbuilt {
                Some(p) => {
                    assert(glist == p.0 && body_at as int == p.1);
                },
                None => {
                    assert(glist =~= Seq::<ModSpec>::empty());
                },
            }
        }
    }
    let copy = sub_vec(key, body_at, key.len());
    let ms = scan_modifiers(&list);
    proof {
        if pin {
            assert(ms_view(ms) == spec_scan_modifiers(glist));
        }
    }

    proof {
        assert forall|k: int| 0 <= k < ms.subs@.len() implies ms.subs@[k] < list@.len() by {
            assert(ms_view(ms).subs[k] == ms.subs@[k] as int);
        }
    }
    let value = match replace_value(server, cache, table, ft, eflags, depth, &list, &ms, &copy) {
        Some(v) => v,
        None => {
            proof {
                if pin {
                    reveal(spec_replace);
                }
            }
            return Vec::new();
        },
    };
    let mut value = value;

    let r = replace_pipeline(server, cache, table, ft, eflags, depth, &list, &ms, value);
    proof {
        if pin {
            reveal(spec_replace);
        }
    }
    r
}

/// Evaluate a comparison modifier over its expanded sides.
fn eval_comparison(fm: &format_modifier, left: Vec<u8>, right: Vec<u8>) -> (r: Vec<u8>)
    ensures
        r@ == spec_eval_comparison(fm@, left@, right@),
{
    proof {
        if fm.argv@.len() >= 1 {
            assert(fm@.argv[0] == fm.argv@[0]@);
        }
    }
    let m = &fm.modifier;
    let yes: bool;
    if m.len() == 2 && m[0] == '|' as u8 {
        yes = format_true(left.as_slice()) || format_true(right.as_slice());
    } else if m.len() == 2 && m[0] == '&' as u8 {
        yes = format_true(left.as_slice()) && format_true(right.as_slice());
    } else if m.len() == 2 && m[0] == '=' as u8 {
        yes = bytes_eq(left.as_slice(), right.as_slice());
    } else if m.len() == 2 && m[0] == '!' as u8 {
        yes = !bytes_eq(left.as_slice(), right.as_slice());
    } else if m.len() == 2 && m[0] == '<' as u8 {
        yes = crate::bytes::bytes_cmp(left.as_slice(), right.as_slice()) <= 0;
    } else if m.len() == 2 && m[0] == '>' as u8 {
        yes = crate::bytes::bytes_cmp(left.as_slice(), right.as_slice()) >= 0;
    } else if m.len() == 1 && m[0] == '<' as u8 {
        yes = crate::bytes::bytes_cmp(left.as_slice(), right.as_slice()) < 0;
    } else if m.len() == 1 && m[0] == '>' as u8 {
        yes = crate::bytes::bytes_cmp(left.as_slice(), right.as_slice()) > 0;
    } else {
        // The glob (or regex) match modifier.
        let mut icase = false;
        let mut re = false;
        if fm.argv.len() >= 1 {
            icase = contains_byte(fm.argv[0].as_slice(), 'i' as u8);
            re = contains_byte(fm.argv[0].as_slice(), 'r' as u8);
        }
        if re {
            yes = match format_regex_match(left.as_slice(), icase, right.as_slice()) {
                Some(b) => b,
                None => false,
            };
        } else {
            yes = format_glob(left.as_slice(), right.as_slice(), icase);
        }
    }
    if yes {
        lit("1")
    } else {
        lit("0")
    }
}

/// The `#(...)` placeholder: expand the command with jobs disabled, let the
/// cache decide whether to start anything, and render whatever output it
/// holds, itself treated as a template.
fn format_job_expand(
    server: &Server,
    cache: &mut JobCache,
    table: &SortedKv<TableEntry>,
    ft: &format_tree,
    eflags: u32,
    depth: u64,
    name: &[u8],
) -> (r: Vec<u8>)
    requires
        server.wf(),
        ft.wf(*server),
        table_ok(*table),
        depth <= FORMAT_LOOP_LIMIT,
    ensures
        cache_quiet(old(cache).jobs@, ft.now) ==> (r@ == Seq::<u8>::empty() && cache_quiet(
            final(cache).jobs@,
            ft.now,
        )),
    decreases FORMAT_LOOP_LIMIT - depth, 3int, 1int,
{
    let jflags = (eflags | FORMAT_EXPAND_NOJOBS) & !FORMAT_EXPAND_TIME;
    proof {
        assert(jflags & FORMAT_EXPAND_NOJOBS != 0) by (bit_vector)
            requires
                jflags == (eflags | 0x2u32) & !0x1u32,
        ;
        assert(spec_disabled(ft@, jflags));
    }
    let ghost jobs0 = cache.jobs@;
    let expanded = format_expand1(server, cache, table, ft, jflags, depth, name);
    let ghost jobs1 = cache.jobs@;
    let out_line = format_job_get_cached(
        cache,
        ft.client,
        ft.tag,
        name,
        expanded.as_slice(),
        ft.now,
        ft.flags & FORMAT_FORCE != 0,
        ft.flags & FORMAT_STATUS != 0,
    );
    proof {
        if cache_quiet(jobs0, ft.now) {
            assert(jobs1 == jobs0);
            crate::job::lemma_find_job(jobs1, ft.client, ft.tag, name@);
            let found = spec_find_job(jobs1, ft.client, ft.tag, name@);
            let idx: int = match found {
                Some(i) => i,
                None => jobs1.len() as int,
            };
            if found is Some {
                assert(jobs1[idx].out is None && jobs1[idx].last == ft.now);
            }
            assert(cache.jobs@[idx].out is None && cache.jobs@[idx].last == ft.now);
            assert(out_line@ == Seq::<u8>::empty());
            assert forall|j: int|
                0 <= j < cache.jobs@.len() implies (#[trigger] cache.jobs@[j]).out is None
                && cache.jobs@[j].last == ft.now by {
                if j != idx {
                    assert(cache.jobs@[j] == jobs1[j]);
                }
            }
            assert(cache_quiet(cache.jobs@, ft.now));
        }
    }
    let r = format_expand1(server, cache, table, ft, jflags, depth, out_line.as_slice());
    proof {
        if cache_quiet(jobs0, ft.now) {
            assert(r@ == Seq::<u8>::empty());
        }
    }
    r
}

/// Expand every placeholder in a template. At the recursion ceiling the
/// result is empty; a template free of `#` (and of `%` when the time
/// pre-pass is on) comes back unchanged.
#[verifier::rlimit(100)]
#[verifier::spinoff_prover]
pub fn format_expand1(
    server: &Server,
    cache: &mut JobCache,
    table: &SortedKv<TableEntry>,
    ft: &format_tree,
    eflags: u32,
    depth: u64,
    fmt: &[u8],
) -> (r: Vec<u8>)
    requires
        server.wf(),
        ft.wf(*server),
        table_ok(*table),
        depth <= FORMAT_LOOP_LIMIT,
    ensures
        depth == FORMAT_LOOP_LIMIT ==> r@ == Seq::<u8>::empty(),
        (depth < FORMAT_LOOP_LIMIT && !spec_contains_byte(fmt@, '#' as u8) && (eflags
            & FORMAT_EXPAND_TIME == 0 || !spec_contains_byte(fmt@, '%' as u8))) ==> r@ == fmt@,
        spec_disabled(ft@, eflags) ==> *final(cache) == *old(cache),
        cache_quiet(old(cache).jobs@, ft.now) ==> cache_quiet(final(cache).jobs@, ft.now),
        spec_pinned(ft@, eflags, old(cache).jobs@) ==> r@ == spec_expand1(
            *server,
            ft@,
            eflags,
            depth as int,
            fmt@,
        ),
    decreases FORMAT_LOOP_LIMIT - depth, 0int, 0int,
{
    if fmt.len() == 0 {
        proof {
            assert(Seq::<u8>::empty() =~= fmt@);
        }
        return Vec::new();
    }
    if depth >= FORMAT_LOOP_LIMIT {
        return Vec::new();
    }
    let ghost plain = !spec_contains_byte(fmt@, '#' as u8) && (eflags & FORMAT_EXPAND_TIME == 0
        || !spec_contains_byte(fmt@, '%' as u8));

    // The time pre-pass: render strftime directives over the whole template
    // first, once, when asked to and a `%` is present.
    let prepass: Option<Vec<u8>> = if eflags & FORMAT_EXPAND_TIME != 0 && contains_byte(
        fmt,
        '%' as u8,
    ) {
        let ok = match ft.now.checked_add(ft.tz_offset) {
            Some(lt) => 0 <= lt && lt <= TIME_MAX,
            None => false,
        };
        if ok {
            let tm = time_tm(ft.now, ft.tz_offset);
            Some(format_strftime(fmt, &tm))
        } else {
            None
        }
    } else {
        None
    };
    let work: &[u8] = match &prepass {
        Some(v) => v.as_slice(),
        None => fmt,
    };
    proof {
        if plain {
            assert(work@ == fmt@);
        }
        assert(work@ == (if eflags & FORMAT_EXPAND_TIME != 0 && spec_contains_byte(
            fmt@,
            '%' as u8,
        ) && 0 <= ft.now + ft.tz_offset <= TIME_MAX as int {
            strftime_rec(fmt@, spec_tm(ft.now as int, ft.tz_offset as int), 0)
        } else {
            fmt@
        }));
    }

    let mut out: Vec<u8> = Vec::new();
    let mut i: usize = 0;
    let mut style_end: Option<usize> = None;
    let mut stop = false;
    let n = work.len();
    while i < n && !stop
        invariant
            n == work@.len(),
            i <= n,
            server.wf(),
            ft.wf(*server),
            table_ok(*table),
            depth < FORMAT_LOOP_LIMIT,
            plain == (!spec_contains_byte(fmt@, '#' as u8) && (eflags & FORMAT_EXPAND_TIME == 0
                || !spec_contains_byte(fmt@, '%' as u8))),
            plain ==> work@ == fmt@,
            plain ==> !stop,
            plain ==> out@ == fmt@.subrange(0, i as int),
            spec_disabled(ft@, eflags) ==> *cache == *old(cache),
            cache_quiet(old(cache).jobs@, ft.now) ==> cache_quiet(cache.jobs@, ft.now),
            spec_pinned(ft@, eflags, old(cache).jobs@) ==> (out@ + spec_expand1_rec(
                *server,
                ft@,
                eflags,
                depth as int,
                work@,
                i as int,
                style_view(style_end),
            ) == spec_expand1_rec(*server, ft@, eflags, depth as int, work@, 0, None) && (stop
                ==> spec_expand1_rec(
                *server,
                ft@,
                eflags,
                depth as int,
                work@,
                i as int,
                style_view(style_end),
            ) == Seq::<u8>::empty())),
        decreases n - i, 1int - (if stop { 1int } else { 0int }),
    {
        let ghost pin = spec_pinned(ft@, eflags, old(cache).jobs@);
        let ghost preout = out@;
        let ghost prestyle = style_view(style_end);
        let c = work[i];
        if c != '#' as u8 {
            out.push(c);
            proof {
                if plain {
                    assert(out@ =~= fmt@.subrange(0, i + 1));
                }
                if pin {
                    assert(out@ + spec_expand1_rec(
                        *server,
                        ft@,
                        eflags,
                        depth as int,
                        work@,
                        i + 1,
                        prestyle,
                    ) =~= preout + spec_expand1_rec(
                        *server,
                        ft@,
                        eflags,
                        depth as int,
                        work@,
                        i as int,
                        prestyle,
                    ));
                }
            }
            i = i + 1;
            continue ;
        }
        proof {
            assert(work@[i as int] == '#' as u8);
            if plain {
                assert(fmt@[i as int] == '#' as u8);
                assert(spec_contains_byte(fmt@, '#' as u8));
            }
            assert(!plain);
        }
        if i + 1 >= n {
            out.push(c);
            proof {
                if pin {
                    assert(out@ + spec_expand1_rec(
                        *server,
                        ft@,
                        eflags,
                        depth as int,
                        work@,
                        i + 1,
                        prestyle,
                    ) =~= preout + spec_expand1_rec(
                        *server,
                        ft@,
                        eflags,
                        depth as int,
                        work@,
                        i as int,
                        prestyle,
                    ));
                }
            }
            i = i + 1;
            continue ;
        }
        let ch = work[i + 1];
        if ch == '(' as u8 {
            // A shell-out: find the balanced closing paren.
            let j = match paren_end(work, i + 2) {
                Some(j) => j,
                None => {
                    stop = true;
                    continue ;
                },
            };
            let name = sub_vec(work, i + 2, j);
            if (ft.flags & FORMAT_NOJOBS != 0) || (eflags & FORMAT_EXPAND_NOJOBS != 0) {
                // Jobs are disabled: the placeholder goes empty.
            } else {
                let rendered = format_job_expand(
                    server,
                    cache,
                    table,
                    ft,
                    eflags,
                    depth + 1,
                    name.as_slice(),
                );
                proof {
                    if pin {
                        assert(!spec_disabled(ft@, eflags));
                        assert(rendered@ == Seq::<u8>::empty());
                    }
                }
                append_bytes(&mut out, rendered.as_slice());
            }
            proof {
                if pin {
                    assert(spec_step(j + 1, i as int, work@.len() as int) == j + 1);
                    assert(out@ + spec_expand1_rec(
                        *server,
                        ft@,
                        eflags,
                        depth as int,
                        work@,
                        j + 1,
                        prestyle,
                    ) =~= preout + spec_expand1_rec(
                        *server,
                        ft@,
                        eflags,
                        depth as int,
                        work@,
                        i as int,
                        prestyle,
                    ));
                }
            }
            i = j + 1;
            continue ;
        }
        if ch == '{' as u8 {
            let closer = lit("}");
            match format_skip(work, i, closer.as_slice()) {
                None => {
                    stop = true;
                    continue ;
                },
                Some(j) => {
                    if j < i + 2 {
                        stop = true;
                        continue ;
                    }
                    let body = sub_vec(work, i + 2, j);
                    let v = format_replace(
                        server,
                        cache,
                        table,
                        ft,
                        eflags,
                        depth + 1,
                        body.as_slice(),
                    );
                    append_bytes(&mut out, v.as_slice());
                    proof {
                        if pin {
                            assert(spec_step(j + 1, i as int, work@.len() as int) == j + 1);
                            assert(out@ + spec_expand1_rec(
                                *server,
                                ft@,
                                eflags,
                                depth as int,
                                work@,
                                j + 1,
                                prestyle,
                            ) =~= preout + spec_expand1_rec(
                                *server,
                                ft@,
                                eflags,
                                depth as int,
                                work@,
                                i as int,
                                prestyle,
                            ));
                        }
                    }
                    i = j + 1;
                    continue ;
                },
            }
        }
        if ch == '[' as u8 || ch == '#' as u8 {
            // A style span (possibly behind several `#`s) passes through
            // for the drawing layer; a `##` pair collapses to one `#`.
            let p: usize = if ch == '[' as u8 {
                i + 1
            } else {
                hash_run(work, i + 2)
            };
            if p < n && work[p] == '[' as u8 {
                let span = sub_vec(work, i, p + 1);
                append_bytes(&mut out, span.as_slice());
                let closer = lit("]");
                style_end = format_skip(work, i, closer.as_slice());
                proof {
                    if pin {
                        assert(spec_step(p + 1, i as int, work@.len() as int) == p + 1);
                        assert(style_view(style_end) == skip_rec(work@, ("]").spec_bytes(), i as int, 0));
                        assert(out@ + spec_expand1_rec(
                            *server,
                            ft@,
                            eflags,
                            depth as int,
                            work@,
                            p + 1,
                            style_view(style_end),
                        ) =~= preout + spec_expand1_rec(
                            *server,
                            ft@,
                            eflags,
                            depth as int,
                            work@,
                            i as int,
                            prestyle,
                        ));
                    }
                }
                i = p + 1;
                continue ;
            }
            out.push(ch);
            proof {
                if pin {
                    assert(out@ + spec_expand1_rec(
                        *server,
                        ft@,
                        eflags,
                        depth as int,
                        work@,
                        i + 2,
                        prestyle,
                    ) =~= preout + spec_expand1_rec(
                        *server,
                        ft@,
                        eflags,
                        depth as int,
                        work@,
                        i as int,
                        prestyle,
                    ));
                }
            }
            i = i + 2;
            continue ;
        }
        if ch == '}' as u8 || ch == ',' as u8 {
            out.push(ch);
            proof {
                if pin {
                    assert(out@ + spec_expand1_rec(
                        *server,
                        ft@,
                        eflags,
                        depth as int,
                        work@,
                        i + 2,
                        prestyle,
                    ) =~= preout + spec_expand1_rec(
                        *server,
                        ft@,
                        eflags,
                        depth as int,
                        work@,
                        i as int,
                        prestyle,
                    ));
                }
            }
            i = i + 2;
            continue ;
        }
        // A single-letter alias, active outside any style span.
        let in_style = match style_end {
            Some(e) => i + 2 <= e,
            None => false,
        };
        let alias = if in_style {
            None
        } else {
            format_alias(ch)
        };
        match alias {
            Some(name) => {
                let v = format_replace(
                    server,
                    cache,
                    table,
                    ft,
                    eflags,
                    depth + 1,
                    name.as_slice(),
                );
                append_bytes(&mut out, v.as_slice());
            proof {
                if pin {
                    assert(out@ + spec_expand1_rec(
                        *server,
                        ft@,
                        eflags,
                        depth as int,
                        work@,
                        i + 2,
                        prestyle,
                    ) =~= preout + spec_expand1_rec(
                        *server,
                        ft@,
                        eflags,
                        depth as int,
                        work@,
                        i as int,
                        prestyle,
                    ));
                }
            }
                i = i + 2;
                continue ;
            },
            None => {
                out.push('#' as u8);
                out.push(ch);
            proof {
                if pin {
                    assert(out@ + spec_expand1_rec(
                        *server,
                        ft@,
                        eflags,
                        depth as int,
                        work@,
                        i + 2,
                        prestyle,
                    ) =~= preout + spec_expand1_rec(
                        *server,
                        ft@,
                        eflags,
                        depth as int,
                        work@,
                        i as int,
                        prestyle,
                    ));
                }
            }
                i = i + 2;
                continue ;
            },
        }
    }
    proof {
        if plain {
            assert(out@ =~= fmt@);
        }
        if spec_pinned(ft@, eflags, old(cache).jobs@) {
            if !stop {
                assert(spec_expand1_rec(
                    *server,
                    ft@,
                    eflags,
                    depth as int,
                    work@,
                    i as int,
                    style_view(style_end),
                ) == Seq::<u8>::empty());
            }
            assert(out@ =~= spec_expand1_rec(*server, ft@, eflags, depth as int, work@, 0, None));
            assert(out@ =~= spec_expand1(*server, ft@, eflags, depth as int, fmt@));
        }
    }
    out
}

/// Expand a template with the time pre-pass enabled.
pub fn format_expand_time(
    server: &Server,
    cache: &mut JobCache,
    table: &SortedKv<TableEntry>,
    ft: &format_tree,
    fmt: &[u8],
) -> (r: Vec<u8>)
    requires
        server.wf(),
        ft.wf(*server),
        table_ok(*table),
    ensures
        (!spec_contains_byte(fmt@, '#' as u8) && !spec_contains_byte(fmt@, '%' as u8)) ==> r@
            == fmt@,
        spec_disabled(ft@, FORMAT_EXPAND_TIME) ==> *final(cache) == *old(cache),
        cache_quiet(old(cache).jobs@, ft.now) ==> cache_quiet(final(cache).jobs@, ft.now),
        spec_pinned(ft@, FORMAT_EXPAND_TIME, old(cache).jobs@) ==> r@ == spec_expand1(
            *server,
            ft@,
            FORMAT_EXPAND_TIME,
            0,
            fmt@,
        ),
{
    format_expand1(server, cache, table, ft, FORMAT_EXPAND_TIME, 0, fmt)
}

/// Expand a template.
pub fn format_expand(
    server: &Server,
    cache: &mut JobCache,
    table: &SortedKv<TableEntry>,
    ft: &format_tree,
    fmt: &[u8],
) -> (r: Vec<u8>)
    requires
        server.wf(),
        ft.wf(*server),
        table_ok(*table),
    ensures
        !spec_contains_byte(fmt@, '#' as u8) ==> r@ == fmt@,
        spec_disabled(ft@, 0) ==> *final(cache) == *old(cache),
        cache_quiet(old(cache).jobs@, ft.now) ==> cache_quiet(final(cache).jobs@, ft.now),
        spec_pinned(ft@, 0, old(cache).jobs@) ==> r@ == spec_expand1(*server, ft@, 0, 0, fmt@),
{
    proof {
        assert(0u32 & FORMAT_EXPAND_TIME == 0) by (bit_vector);
    }
    format_expand1(server, cache, table, ft, 0, 0, fmt)
}

/// Build a context from the given scope, expand one template against it and
/// throw the context away.
pub fn format_single(
    server: &Server,
    cache: &mut JobCache,
    table: &SortedKv<TableEntry>,
    fmt: &[u8],
    c: Option<usize>,
    s: Option<usize>,
    wl: Option<usize>,
    wp: Option<usize>,
    now: i64,
    tz_offset: i64,
) -> (r: Vec<u8>)
    requires
        server.wf(),
        table_ok(*table),
        c matches Some(i) ==> i < server.clients@.len(),
        s matches Some(i) ==> i < server.sessions@.len(),
        wl is Some ==> s is Some && wl.unwrap() < server.sessions@[s.unwrap() as int].winlinks@.len(),
    ensures
        !spec_contains_byte(fmt@, '#' as u8) ==> r@ == fmt@,
{
    let mut ft = format_create(c, 0, 0, now, tz_offset);
    format_defaults(&mut ft, server, c, s, wl, wp);
    format_expand(server, cache, table, &ft, fmt)
}

} // verus!
