//! Resolving a variable name: options first (global, then pane, window,
//! window-type and session options), then the built-in table, then the
//! context's overrides, then the environment; timestamp values are rendered
//! as calendar text, and the basename, dirname and quoting modifiers apply
//! in a fixed order afterwards.

use vstd::prelude::*;
use crate::kv::SortedKv;
use crate::model::Server;
use crate::tree::{format_tree, FtSpec};
use crate::table::{
    TableEntry, table_lookup, table_ok, format_table_get, table_resolve, spec_resolve, VSpec,
    TableValue,
};
use crate::time::{spec_tm, time_tm, spec_pretty_time, format_pretty_time, strftime_rec,
    format_strftime, spec_ctime, format_ctime, TIME_MAX};
use crate::nums::{spec_strtonum, strtonum, spec_i64_dec, i64_dec};
use crate::scan::{quote_shell_rec, format_quote_shell, quote_style_rec, format_quote_style};
use crate::bytes::{to_vec, sub_vec, lit};
use vstd::string::StringSliceAdditionalSpecFns;

verus! {

/// Modifier bits that reach the lookup.
pub const FORMAT_TIMESTRING: u32 = 0x1;

pub const FORMAT_BASENAME: u32 = 0x2;

pub const FORMAT_DIRNAME: u32 = 0x4;

pub const FORMAT_QUOTE_SHELL: u32 = 0x8;

pub const FORMAT_PRETTY: u32 = 0x400;

pub const FORMAT_QUOTE_STYLE: u32 = 0x2000;

/// The option value for `key`, searched global options first, then the
/// pane's, the window's, the window-type defaults and the session's.
pub open spec fn spec_option_lookup(server: Server, ft: FtSpec, key: Seq<u8>) -> Option<
    Vec<u8>,
> {
    if server.global_options.spec_get(key) is Some {
        server.global_options.spec_get(key)
    } else if ft.wp is Some && ft.w is Some && server.windows@[ft.w.unwrap() as int].panes@[
        ft.wp.unwrap() as int
    ].options.spec_get(key) is Some {
        server.windows@[ft.w.unwrap() as int].panes@[ft.wp.unwrap() as int].options.spec_get(key)
    } else if ft.w is Some && server.windows@[ft.w.unwrap() as int].options.spec_get(key)
        is Some {
        server.windows@[ft.w.unwrap() as int].options.spec_get(key)
    } else if server.global_w_options.spec_get(key) is Some {
        server.global_w_options.spec_get(key)
    } else if ft.s is Some && server.sessions@[ft.s.unwrap() as int].options.spec_get(key)
        is Some {
        server.sessions@[ft.s.unwrap() as int].options.spec_get(key)
    } else {
        server.global_s_options.spec_get(key)
    }
}

fn option_lookup(server: &Server, ft: &format_tree, key: &[u8]) -> (r: Option<Vec<u8>>)
    requires
        server.wf(),
        ft.wf(*server),
    ensures
        match r {
            Some(v) => spec_option_lookup(*server, ft@, key@) matches Some(v2) && v2@ == v@,
            None => spec_option_lookup(*server, ft@, key@) is None,
        },
{
    if let Some(v) = server.global_options.get(key) {
        return Some(to_vec(v.as_slice()));
    }
    if let (Some(w), Some(p)) = (ft.w, ft.wp) {
        if let Some(v) = server.windows[w].panes[p].options.get(key) {
            return Some(to_vec(v.as_slice()));
        }
    }
    if let Some(w) = ft.w {
        if let Some(v) = server.windows[w].options.get(key) {
            return Some(to_vec(v.as_slice()));
        }
    }
    if let Some(v) = server.global_w_options.get(key) {
        return Some(to_vec(v.as_slice()));
    }
    if let Some(si) = ft.s {
        if let Some(v) = server.sessions[si].options.get(key) {
            return Some(to_vec(v.as_slice()));
        }
    }
    match server.global_s_options.get(key) {
        Some(v) => Some(to_vec(v.as_slice())),
        None => None,
    }
}

/// The environment value for `key`: the session's environment first, then
/// the global one.
pub open spec fn spec_environ_lookup(server: Server, ft: FtSpec, key: Seq<u8>) -> Option<
    Vec<u8>,
> {
    if ft.s is Some && server.sessions@[ft.s.unwrap() as int].environ.spec_get(key) is Some {
        server.sessions@[ft.s.unwrap() as int].environ.spec_get(key)
    } else {
        server.global_environ.spec_get(key)
    }
}

fn environ_lookup(server: &Server, ft: &format_tree, key: &[u8]) -> (r: Option<Vec<u8>>)
    requires
        server.wf(),
        ft.wf(*server),
    ensures
        match r {
            Some(v) => spec_environ_lookup(*server, ft@, key@) matches Some(v2) && v2@ == v@,
            None => spec_environ_lookup(*server, ft@, key@) is None,
        },
{
    if let Some(si) = ft.s {
        if let Some(v) = server.sessions[si].environ.get(key) {
            return Some(to_vec(v.as_slice()));
        }
    }
    match server.global_environ.get(key) {
        Some(v) => Some(to_vec(v.as_slice())),
        None => None,
    }
}

/// What the four-tier lookup yields before any formatting: a string, a
/// timestamp, or nothing. The context's own overrides take priority over
/// the built-in table; the environment is never consulted for a timestring
/// lookup.
pub open spec fn spec_find_raw(server: Server, ft: FtSpec, key: Seq<u8>, timestring: bool)
    -> Option<VSpec> {
    match spec_option_lookup(server, ft, key) {
        Some(v) => Some(VSpec::Str(v@)),
        None => if ft.vars.contains_key(key) {
            let e = ft.vars[key];
            if e.time != 0 {
                Some(VSpec::Time(e.time as int))
            } else {
                match e.value {
                    Some(v) => Some(VSpec::Str(v)),
                    None => None,
                }
            }
        } else {
            match table_lookup(key) {
                Some(te) => spec_resolve(server, ft, te.var),
                None => if timestring {
                    None
                } else {
                    match spec_environ_lookup(server, ft, key) {
                        Some(v) => Some(VSpec::Str(v@)),
                        None => None,
                    }
                },
            }
        },
    }
}

/// Trailing slashes removed.
pub open spec fn spec_trim_slashes(s: Seq<u8>) -> Seq<u8>
    decreases s.len(),
{
    if s.len() > 0 && s.last() == '/' as u8 {
        spec_trim_slashes(s.drop_last())
    } else {
        s
    }
}

fn trim_slashes(s: &[u8]) -> (r: Vec<u8>)
    ensures
        r@ == spec_trim_slashes(s@),
{
    let mut n = s.len();
    proof {
        assert(s@.subrange(0, n as int) =~= s@);
    }
    while n > 0 && s[n - 1] == '/' as u8
        invariant
            n <= s@.len(),
            spec_trim_slashes(s@.subrange(0, n as int)) == spec_trim_slashes(s@),
        decreases n,
    {
        proof {
            assert(s@.subrange(0, n as int).drop_last() =~= s@.subrange(0, n - 1));
        }
        n = n - 1;
    }
    proof {
        assert(spec_trim_slashes(s@.subrange(0, n as int)) == s@.subrange(0, n as int));
    }
    sub_vec(s, 0, n)
}

/// Index just past the last `/`, or zero.
pub open spec fn spec_after_last_slash(s: Seq<u8>) -> int
    decreases s.len(),
{
    if s.len() == 0 {
        0
    } else if s.last() == '/' as u8 {
        s.len() as int
    } else {
        spec_after_last_slash(s.drop_last())
    }
}

proof fn lemma_after_last_slash(s: Seq<u8>)
    ensures
        0 <= spec_after_last_slash(s) <= s.len(),
    decreases s.len(),
{
    if s.len() > 0 && s.last() != '/' as u8 {
        lemma_after_last_slash(s.drop_last());
    }
}

fn after_last_slash(s: &[u8]) -> (r: usize)
    ensures
        r == spec_after_last_slash(s@),
{
    let mut n = s.len();
    proof {
        assert(s@.subrange(0, n as int) =~= s@);
    }
    while n > 0 && s[n - 1] != '/' as u8
        invariant
            n <= s@.len(),
            spec_after_last_slash(s@.subrange(0, n as int)) == spec_after_last_slash(s@),
        decreases n,
    {
        proof {
            assert(s@.subrange(0, n as int).drop_last() =~= s@.subrange(0, n - 1));
        }
        n = n - 1;
    }
    proof {
        if n > 0 {
            assert(s@.subrange(0, n as int).last() == s@[n - 1]);
        }
        assert(spec_after_last_slash(s@.subrange(0, n as int)) == n as int);
    }
    n
}

/// The last path component, as POSIX `basename` gives it.
pub open spec fn spec_basename(s: Seq<u8>) -> Seq<u8> {
    let t = spec_trim_slashes(s);
    if t.len() == 0 {
        if s.len() > 0 {
            ("/").spec_bytes()
        } else {
            (".").spec_bytes()
        }
    } else {
        t.skip(spec_after_last_slash(t))
    }
}

pub fn format_basename(s: &[u8]) -> (r: Vec<u8>)
    ensures
        r@ == spec_basename(s@),
{
    let t = trim_slashes(s);
    if t.len() == 0 {
        if s.len() > 0 {
            lit("/")
        } else {
            lit(".")
        }
    } else {
        let i = after_last_slash(t.as_slice());
        proof {
            lemma_after_last_slash(t@);
            assert(t@.subrange(i as int, t@.len() as int) =~= t@.skip(i as int));
        }
        sub_vec(t.as_slice(), i, t.len())
    }
}

/// The directory part, as POSIX `dirname` gives it.
pub open spec fn spec_dirname(s: Seq<u8>) -> Seq<u8> {
    let t = spec_trim_slashes(s);
    if t.len() == 0 {
        if s.len() > 0 {
            ("/").spec_bytes()
        } else {
            (".").spec_bytes()
        }
    } else {
        let i = spec_after_last_slash(t);
        if i == 0 {
            (".").spec_bytes()
        } else {
            let h = spec_trim_slashes(t.subrange(0, i));
            if h.len() == 0 {
                ("/").spec_bytes()
            } else {
                h
            }
        }
    }
}

pub fn format_dirname(s: &[u8]) -> (r: Vec<u8>)
    ensures
        r@ == spec_dirname(s@),
{
    let t = trim_slashes(s);
    if t.len() == 0 {
        if s.len() > 0 {
            lit("/")
        } else {
            lit(".")
        }
    } else {
        let i = after_last_slash(t.as_slice());
        proof {
            lemma_after_last_slash(t@);
        }
        if i == 0 {
            lit(".")
        } else {
            let head = sub_vec(t.as_slice(), 0, i);
            let h = trim_slashes(head.as_slice());
            if h.len() == 0 {
                lit("/")
            } else {
                h
            }
        }
    }
}

/// The timestamp a lookup result denotes: the entry's own time, or the
/// string parsed as a number of seconds.
pub open spec fn spec_found_time(found: Option<VSpec>) -> Option<int> {
    match found {
        Some(VSpec::Time(t)) => if t != 0 {
            Some(t)
        } else {
            None
        },
        Some(VSpec::Str(s)) => match spec_strtonum(s) {
            Some(v) => if 0 < v <= i64::MAX as int {
                Some(v)
            } else {
                None
            },
            None => None,
        },
        None => None,
    }
}

/// A found value after the lookup modifiers. Timestamp output needs the
/// time to fall between 1970 and the year 9999 once the zone offset is
/// applied; anything else resolves to nothing.
pub open spec fn spec_format_find(
    server: Server,
    ft: FtSpec,
    key: Seq<u8>,
    modifiers: u32,
    time_format: Option<Seq<u8>>,
) -> Option<Seq<u8>> {
    let found = spec_find_raw(server, ft, key, modifiers & FORMAT_TIMESTRING != 0);
    if modifiers & FORMAT_TIMESTRING != 0 {
        match spec_found_time(found) {
            None => None,
            Some(t) => {
                if modifiers & FORMAT_PRETTY != 0 {
                    if 0 <= t + ft.tz_offset <= TIME_MAX as int && 0 <= ft.now + ft.tz_offset
                        <= TIME_MAX as int {
                        Some(spec_pretty_time(t, ft.now as int, ft.tz_offset as int, false))
                    } else {
                        None
                    }
                } else if 0 <= t + ft.tz_offset <= TIME_MAX as int {
                    match time_format {
                        Some(f) => Some(strftime_rec(f, spec_tm(t, ft.tz_offset as int), 0)),
                        None => Some(spec_ctime(spec_tm(t, ft.tz_offset as int))),
                    }
                } else {
                    None
                }
            },
        }
    } else {
        let base = match found {
            Some(VSpec::Time(t)) => Some(spec_i64_dec(t)),
            Some(VSpec::Str(s)) => Some(s),
            None => None,
        };
        match base {
            None => None,
            Some(v0) => {
                let v1 = if modifiers & FORMAT_BASENAME != 0 {
                    spec_basename(v0)
                } else {
                    v0
                };
                let v2 = if modifiers & FORMAT_DIRNAME != 0 {
                    spec_dirname(v1)
                } else {
                    v1
                };
                let v3 = if modifiers & FORMAT_QUOTE_SHELL != 0 {
                    quote_shell_rec(v2, 0)
                } else {
                    v2
                };
                if modifiers & FORMAT_QUOTE_STYLE != 0 {
                    Some(quote_style_rec(v3, 0))
                } else {
                    Some(v3)
                }
            },
        }
    }
}

/// Resolve a variable name against the whole lookup chain and apply the
/// lookup-level modifiers.
pub fn format_find(
    server: &Server,
    ft: &format_tree,
    table: &SortedKv<TableEntry>,
    key: &[u8],
    modifiers: u32,
    time_format: Option<&Vec<u8>>,
) -> (r: Option<Vec<u8>>)
    requires
        server.wf(),
        ft.wf(*server),
        table_ok(*table),
    ensures
        match r {
            Some(v) => spec_format_find(
                *server,
                ft@,
                key@,
                modifiers,
                match time_format {
                    Some(f) => Some(f@),
                    None => None,
                },
            ) == Some(v@),
            None => spec_format_find(
                *server,
                ft@,
                key@,
                modifiers,
                match time_format {
                    Some(f) => Some(f@),
                    None => None,
                },
            ) is None,
        },
{
    let found: Option<TableValue> = match option_lookup(server, ft, key) {
        Some(v) => Some(TableValue::S(v)),
        None => match ft.vars.get(key) {
            Some(e) => {
                if e.time != 0 {
                    Some(TableValue::T(e.time))
                } else {
                    match &e.value {
                        Some(v) => Some(TableValue::S(to_vec(v.as_slice()))),
                        None => None,
                    }
                }
            },
            None => match format_table_get(table, key) {
                Some(te) => table_resolve(server, ft, te.var),
                None => if modifiers & FORMAT_TIMESTRING != 0 {
                    None
                } else {
                    match environ_lookup(server, ft, key) {
                        Some(v) => Some(TableValue::S(v)),
                        None => None,
                    }
                },
            },
        },
    };
    if modifiers & FORMAT_TIMESTRING != 0 {
        let t: i64 = match &found {
            Some(TableValue::T(t)) => *t,
            Some(TableValue::S(s)) => match strtonum(s.as_slice(), 1, i64::MAX) {
                Some(v) => v,
                None => 0,
            },
            None => 0,
        };
        if t == 0 {
            proof {
                if let Some(TableValue::S(s)) = found {
                    if let Some(v) = spec_strtonum(s@) {
                        if 0 < v <= i64::MAX as int {
                            assert(false);
                        }
                    }
                }
            }
            return None;
        }
        if modifiers & FORMAT_PRETTY != 0 {
            if 0 <= t.checked_add(ft.tz_offset).unwrap_or(-1) && t.checked_add(
                ft.tz_offset,
            ).unwrap_or(-1) <= TIME_MAX && 0 <= ft.now.checked_add(ft.tz_offset).unwrap_or(-1)
                && ft.now.checked_add(ft.tz_offset).unwrap_or(-1) <= TIME_MAX {
                Some(format_pretty_time(t, ft.now, ft.tz_offset, false))
            } else {
                None
            }
        } else {
            if 0 <= t.checked_add(ft.tz_offset).unwrap_or(-1) && t.checked_add(
                ft.tz_offset,
            ).unwrap_or(-1) <= TIME_MAX {
                let tm = time_tm(t, ft.tz_offset);
                match time_format {
                    Some(f) => Some(format_strftime(f.as_slice(), &tm)),
                    None => Some(format_ctime(&tm)),
                }
            } else {
                None
            }
        }
    } else {
        let base: Option<Vec<u8>> = match found {
            Some(TableValue::T(t)) => Some(i64_dec(t)),
            Some(TableValue::S(s)) => Some(s),
            None => None,
        };
        match base {
            None => None,
            Some(v0) => {
                let v1 = if modifiers & FORMAT_BASENAME != 0 {
                    format_basename(v0.as_slice())
                } else {
                    v0
                };
                let v2 = if modifiers & FORMAT_DIRNAME != 0 {
                    format_dirname(v1.as_slice())
                } else {
                    v1
                };
                let v3 = if modifiers & FORMAT_QUOTE_SHELL != 0 {
                    format_quote_shell(v2.as_slice())
                } else {
                    v2
                };
                if modifiers & FORMAT_QUOTE_STYLE != 0 {
                    Some(format_quote_style(v3.as_slice()))
                } else {
                    Some(v3)
                }
            },
        }
    }
}

/// Every variable the context can see, with its value: the built-in table
/// first, in name order, then the overrides, names and resolved values as
/// byte strings. Entries that do not apply in the current scope are
/// skipped.
pub fn format_each(server: &Server, ft: &format_tree, table: &SortedKv<TableEntry>) -> (r: Vec<
    (Vec<u8>, Vec<u8>),
>)
    requires
        server.wf(),
        ft.wf(*server),
        table_ok(*table),
    ensures
        r@.len() <= table.spec_len() + ft.vars.spec_len(),
{
    proof {
        crate::table::reveal_table_ok();
    }
    let mut out: Vec<(Vec<u8>, Vec<u8>)> = Vec::new();
    let n = table.len();
    let mut i: usize = 0;
    while i < n
        invariant
            server.wf(),
            ft.wf(*server),
            table.wf(),
            n == table.spec_len(),
            i <= n,
            out@.len() <= i,
        decreases n - i,
    {
        let key = table.key_at(i);
        let te = *table.val_at(i);
        match table_resolve(server, ft, te.var) {
            Some(TableValue::S(v)) => {
                out.push((to_vec(key.as_slice()), v));
            },
            Some(TableValue::T(t)) => {
                out.push((to_vec(key.as_slice()), i64_dec(t)));
            },
            None => {},
        }
        i = i + 1;
    }
    let m = ft.vars.len();
    let mut j: usize = 0;
    while j < m
        invariant
            ft.vars.wf(),
            m == ft.vars.spec_len(),
            j <= m,
            out@.len() <= table.spec_len() + j,
        decreases m - j,
    {
        let key = ft.vars.key_at(j);
        let e = ft.vars.val_at(j);
        if e.time != 0 {
            out.push((to_vec(key.as_slice()), i64_dec(e.time)));
        } else {
            match &e.value {
                Some(v) => {
                    out.push((to_vec(key.as_slice()), to_vec(v.as_slice())));
                },
                None => {},
            }
        }
        j = j + 1;
    }
    out
}

} // verus!
