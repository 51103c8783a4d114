//! Automatic window naming: derive a name from the running command, decide
//! when a rename is due, and expand the configured name template against the
//! window.

use vstd::prelude::*;
use vstd::string::StringSliceAdditionalSpecFns;
use crate::model::Server;
use crate::tree::{format_create, format_type, FtSpec};
use crate::kv::SortedKv;
use crate::table::{TableEntry, table_ok};
use crate::job::JobCache;
use crate::expand::{cache_quiet, format_expand, spec_expand1};
use crate::find::{spec_basename, format_basename};
use crate::bytes::{spec_find_byte, find_byte, lemma_find_byte, sub_vec, to_vec, lit};

verus! {

/// Microseconds between automatic renames.
pub const NAME_INTERVAL: i64 = 500000;

/// Truncate at the first occurrence of `c`.
pub open spec fn spec_cut_at(s: Seq<u8>, c: u8) -> Seq<u8> {
    match spec_find_byte(s, c) {
        None => s,
        Some(i) => s.subrange(0, i),
    }
}

fn cut_at(s: &[u8], c: u8) -> (r: Vec<u8>)
    ensures
        r@ == spec_cut_at(s@, c),
{
    match find_byte(s, c) {
        None => to_vec(s),
        Some(i) => {
            proof {
                lemma_find_byte(s@, c);
            }
            sub_vec(s, 0, i)
        },
    }
}

/// Leading spaces and dashes removed.
pub open spec fn spec_skip_space_dash(s: Seq<u8>) -> Seq<u8>
    decreases s.len(),
{
    if s.len() > 0 && (s[0] == ' ' as u8 || s[0] == '-' as u8) {
        spec_skip_space_dash(s.skip(1))
    } else {
        s
    }
}

fn skip_space_dash(s: &[u8]) -> (r: Vec<u8>)
    ensures
        r@ == spec_skip_space_dash(s@),
{
    let mut i: usize = 0;
    proof {
        assert(s@.skip(0) =~= s@);
    }
    while i < s.len() && (s[i] == ' ' as u8 || s[i] == '-' as u8)
        invariant
            i <= s@.len(),
            spec_skip_space_dash(s@.skip(i as int)) == spec_skip_space_dash(s@),
        decreases s@.len() - i,
    {
        proof {
            assert(s@.skip(i as int)[0] == s@[i as int]);
            assert(s@.skip(i as int).skip(1) =~= s@.skip(i + 1));
        }
        i = i + 1;
    }
    proof {
        if i < s@.len() {
            assert(s@.skip(i as int)[0] == s@[i as int]);
        }
        assert(spec_skip_space_dash(s@.skip(i as int)) == s@.skip(i as int));
        assert(s@.subrange(i as int, s@.len() as int) =~= s@.skip(i as int));
    }
    sub_vec(s, i, s.len())
}

pub open spec fn is_name_keep(c: u8) -> bool {
    ('0' as u8 <= c <= '9' as u8) || ('a' as u8 <= c <= 'z' as u8) || ('A' as u8 <= c
        <= 'Z' as u8) || (33 <= c <= 47) || (58 <= c <= 64) || (91 <= c <= 96) || (123 <= c <= 126)
}

/// Trailing bytes that are neither alphanumeric nor punctuation removed.
fn name_keep(c: u8) -> (r: bool)
    ensures
        r == is_name_keep(c),
{
    ('0' as u8 <= c && c <= '9' as u8) || ('a' as u8 <= c && c <= 'z' as u8) || ('A' as u8 <= c
        && c <= 'Z' as u8) || (33 <= c && c <= 47) || (58 <= c && c <= 64) || (91 <= c && c <= 96)
        || (123 <= c && c <= 126)
}

pub open spec fn spec_trim_name_end(s: Seq<u8>) -> Seq<u8>
    decreases s.len(),
{
    if s.len() > 1 && !is_name_keep(s.last()) {
        spec_trim_name_end(s.drop_last())
    } else {
        s
    }
}

fn trim_name_end(s: &[u8]) -> (r: Vec<u8>)
    ensures
        r@ == spec_trim_name_end(s@),
{
    let mut n = s.len();
    proof {
        assert(s@.subrange(0, n as int) =~= s@);
    }
    while n > 1 && !name_keep(s[n - 1])
        invariant
            n <= s@.len(),
            spec_trim_name_end(s@.subrange(0, n as int)) == spec_trim_name_end(s@),
        decreases n,
    {
        proof {
            assert(s@.subrange(0, n as int).last() == s@[n - 1]);
            assert(s@.subrange(0, n as int).drop_last() =~= s@.subrange(0, n - 1));
        }
        n = n - 1;
    }
    proof {
        if n > 1 {
            assert(s@.subrange(0, n as int).last() == s@[n - 1]);
        }
        assert(spec_trim_name_end(s@.subrange(0, n as int)) == s@.subrange(0, n as int));
    }
    sub_vec(s, 0, n)
}

/// The window name a command line gives: the quoted or first word, an
/// `exec ` prefix and option dashes dropped, stray trailing bytes removed,
/// and a path reduced to its base name.
pub open spec fn spec_parse_window_name(s: Seq<u8>) -> Seq<u8> {
    let t = if s.len() > 0 && s[0] == '"' as u8 {
        s.skip(1)
    } else {
        s
    };
    let t = spec_cut_at(t, '"' as u8);
    let t = if t.len() >= 5 && t.subrange(0, 5) == ("exec ").spec_bytes() {
        t.skip(5)
    } else {
        t
    };
    let t = spec_skip_space_dash(t);
    let t = spec_cut_at(t, ' ' as u8);
    let t = if t.len() > 0 {
        spec_trim_name_end(t)
    } else {
        t
    };
    if t.len() > 0 && t[0] == '/' as u8 {
        spec_basename(t)
    } else {
        t
    }
}

pub fn parse_window_name(s: &[u8]) -> (r: Vec<u8>)
    ensures
        r@ == spec_parse_window_name(s@),
{
    let t0 = if s.len() > 0 && s[0] == '"' as u8 {
        proof {
            assert(s@.subrange(1, s@.len() as int) =~= s@.skip(1));
        }
        sub_vec(s, 1, s.len())
    } else {
        to_vec(s)
    };
    let t1 = cut_at(t0.as_slice(), '"' as u8);
    let ex = lit("exec ");
    let t2 = if t1.len() >= 5 && crate::bytes::bytes_eq(&t1.as_slice()[0..5], ex.as_slice()) {
        proof {
            assert(t1@.subrange(0, 5) =~= t1@.subrange(0, 5));
            assert(t1@.subrange(5, t1@.len() as int) =~= t1@.skip(5));
        }
        sub_vec(t1.as_slice(), 5, t1.len())
    } else {
        t1
    };
    let t3 = skip_space_dash(t2.as_slice());
    let t4 = cut_at(t3.as_slice(), ' ' as u8);
    let t5 = if t4.len() > 0 {
        trim_name_end(t4.as_slice())
    } else {
        t4
    };
    if t5.len() > 0 && t5.as_slice()[0] == '/' as u8 {
        format_basename(t5.as_slice())
    } else {
        t5
    }
}

/// The name a pane suggests: its command line when it has one, its shell
/// otherwise.
pub open spec fn spec_default_window_name(cmd: Seq<u8>, shell: Seq<u8>) -> Seq<u8> {
    if cmd.len() > 0 {
        spec_parse_window_name(cmd)
    } else {
        spec_parse_window_name(shell)
    }
}

pub fn default_window_name(cmd: &[u8], shell: &[u8]) -> (r: Vec<u8>)
    ensures
        r@ == spec_default_window_name(cmd@, shell@),
{
    if cmd.len() > 0 {
        parse_window_name(cmd)
    } else {
        parse_window_name(shell)
    }
}

/// Microseconds left before the window may rename again; zero when the
/// interval has passed.
pub open spec fn spec_name_time_expired(
    last_sec: int,
    last_usec: int,
    now_sec: int,
    now_usec: int,
) -> int {
    let d_sec = now_sec - last_sec;
    let d_usec = now_usec - last_usec;
    let (ds, du) = if d_usec < 0 {
        (d_sec - 1, d_usec + 1000000)
    } else {
        (d_sec, d_usec)
    };
    if ds != 0 || du > NAME_INTERVAL as int {
        0
    } else {
        NAME_INTERVAL as int - du
    }
}

pub fn name_time_expired(last_sec: i64, last_usec: i64, now_sec: i64, now_usec: i64) -> (r: i64)
    requires
        0 <= last_sec <= 100000000000,
        0 <= now_sec <= 100000000000,
        0 <= last_usec < 1000000,
        0 <= now_usec < 1000000,
    ensures
        r as int == spec_name_time_expired(
            last_sec as int,
            last_usec as int,
            now_sec as int,
            now_usec as int,
        ),
{
    let d_sec = now_sec - last_sec;
    let d_usec = now_usec - last_usec;
    let (ds, du) = if d_usec < 0 {
        (d_sec - 1, d_usec + 1000000)
    } else {
        (d_sec, d_usec)
    };
    if ds != 0 || du > NAME_INTERVAL {
        0
    } else {
        NAME_INTERVAL - du
    }
}

/// What a window-name check should do next.
pub enum NameCheck {
    /// Nothing: renaming is off, or the pane has not changed.
    Nothing,
    /// Too soon: queue a timer for this many microseconds.
    Defer(i64),
    /// Expand the name template now and rename if it changed.
    Rename,
}

/// The automatic-rename decision for one window: nothing unless the option
/// is on and the active pane changed; defer inside the rename interval;
/// otherwise rename.
pub open spec fn spec_check_window_name(
    rename_on: bool,
    pane_changed: bool,
    left: int,
) -> NameCheck {
    if !rename_on || !pane_changed {
        NameCheck::Nothing
    } else if left != 0 {
        NameCheck::Defer(left as i64)
    } else {
        NameCheck::Rename
    }
}

pub fn check_window_name(
    rename_on: bool,
    pane_changed: bool,
    last_sec: i64,
    last_usec: i64,
    now_sec: i64,
    now_usec: i64,
) -> (r: NameCheck)
    requires
        0 <= last_sec <= 100000000000,
        0 <= now_sec <= 100000000000,
        0 <= last_usec < 1000000,
        0 <= now_usec < 1000000,
    ensures
        r == spec_check_window_name(
            rename_on,
            pane_changed,
            spec_name_time_expired(
                last_sec as int,
                last_usec as int,
                now_sec as int,
                now_usec as int,
            ),
        ),
{
    if !rename_on || !pane_changed {
        return NameCheck::Nothing;
    }
    let left = name_time_expired(last_sec, last_usec, now_sec, now_usec);
    if left != 0 {
        NameCheck::Defer(left)
    } else {
        NameCheck::Rename
    }
}

/// The template a window renames itself with: its own option first, then
/// the window-type default, empty when neither is set.
pub open spec fn spec_rename_template(server: Server, wi: int) -> Seq<u8> {
    let key = ("automatic-rename-format").spec_bytes();
    match server.windows@[wi].options.spec_get(key) {
        Some(v) => v@,
        None => match server.global_w_options.spec_get(key) {
            Some(v) => v@,
            None => Seq::empty(),
        },
    }
}

/// The context a rename expands against: just the window and its active
/// pane.
pub open spec fn spec_rename_ft(server: Server, wi: int, now: i64, tz_offset: i64) -> FtSpec {
    FtSpec {
        type_: format_type::FORMAT_TYPE_UNKNOWN,
        c: None,
        s: None,
        wl: None,
        w: Some(wi as usize),
        wp: Some(server.windows@[wi].active),
        pb: None,
        client: None,
        flags: 0,
        tag: 0,
        now,
        tz_offset,
        vars: Map::empty(),
    }
}

/// Expand the window's automatic-rename template against a context holding
/// just that window and its active pane.
pub fn format_window_name(
    server: &Server,
    cache: &mut JobCache,
    table: &SortedKv<TableEntry>,
    wi: usize,
    now: i64,
    tz_offset: i64,
) -> (r: Vec<u8>)
    requires
        server.wf(),
        table_ok(*table),
        wi < server.windows@.len(),
    ensures
        cache_quiet(old(cache).jobs@, now) ==> (r@ == spec_expand1(
            *server,
            spec_rename_ft(*server, wi as int, now, tz_offset),
            0,
            0,
            spec_rename_template(*server, wi as int),
        ) && cache_quiet(final(cache).jobs@, now)),
{
    let mut ft = format_create(None, 0, 0, now, tz_offset);
    ft.w = Some(wi);
    ft.wp = Some(server.windows[wi].active);
    proof {
        assert(ft@.vars =~= Map::<Seq<u8>, crate::tree::EntrySpec>::empty());
        assert(ft@ =~= spec_rename_ft(*server, wi as int, now, tz_offset));
    }
    let key = lit("automatic-rename-format");
    let fmt: Vec<u8> = match server.windows[wi].options.get(key.as_slice()) {
        Some(v) => to_vec(v.as_slice()),
        None => match server.global_w_options.get(key.as_slice()) {
            Some(v) => to_vec(v.as_slice()),
            None => Vec::new(),
        },
    };
    format_expand(server, cache, table, &ft, fmt.as_slice())
}

} // verus!
