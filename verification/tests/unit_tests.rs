//! Unit scenarios for the leaf helpers: scanning, numbers, trimming,
//! patterns, time and names.

use tmux_format::bytes::{bytes_cmp, find_byte};
use tmux_format::find::format_each;
use tmux_format::grid::{format_grid_line, format_grid_word};
use tmux_format::job::{last_complete_line, trailing_fragment, JobCache};
use tmux_format::kv::SortedKv;
use tmux_format::model::Server;
use tmux_format::table::build_table;
use tmux_format::tree::{format_add, format_create};
use tmux_format::expr::{apply_op, format_scaled, parse_op, parse_scaled, ExprOp};
use tmux_format::find::{format_basename, format_dirname};
use tmux_format::format_is_end;
use tmux_format::names::{check_window_name, default_window_name, name_time_expired,
    parse_window_name, NameCheck};
use tmux_format::nums::{i64_dec, strtonum, u64_dec};
use tmux_format::pattern::{contains_sub, format_glob, format_sub};
use tmux_format::scan::{format_choose_split, format_escape, format_quote_shell,
    format_quote_style, format_skip, format_strip, format_true, format_unescape};
use tmux_format::time::{format_ctime, format_pretty_time, format_strftime, time_tm};
use tmux_format::trim::{format_pad_left, format_pad_right, format_trim_left, format_trim_right,
    format_width};

#[test]
fn is_end_recognises_terminators() {
    assert!(format_is_end(b';'));
    assert!(format_is_end(b':'));
    assert!(!format_is_end(b'a'));
}

#[test]
fn skip_honours_escapes_and_brackets() {
    // The comma inside the nested #{} is not a top-level comma.
    let s = b"#{?x,a,b},tail";
    assert_eq!(format_skip(s, 0, b","), Some(9));
    // An escaped comma is stepped over.
    assert_eq!(format_skip(b"a#,b,c", 0, b","), Some(4));
    assert_eq!(format_skip(b"abc", 0, b","), None);
}

#[test]
fn strip_and_unescape() {
    assert_eq!(format_strip(b"a#,b"), b"a,b".to_vec());
    assert_eq!(format_unescape(b"a##b"), b"a#b".to_vec());
    assert_eq!(format_unescape(b"x#:y"), b"x:y".to_vec());
    // Escapes inside a nested placeholder stay as they are.
    assert_eq!(format_unescape(b"#{x#,y}"), b"#{x#,y}".to_vec());
}

#[test]
fn escape_then_unescape_round_trips() {
    let cases: [&[u8]; 4] = [b"plain", b"a,b:c", b"x#y", b""];
    for c in cases {
        let esc = format_escape(c);
        assert_eq!(format_unescape(esc.as_slice()), c.to_vec());
    }
}

#[test]
fn truth_test() {
    assert!(!format_true(b""));
    assert!(!format_true(b"0"));
    assert!(format_true(b"1"));
    assert!(format_true(b"00"));
    assert!(format_true(b"no"));
}

#[test]
fn choose_splits_on_top_level_comma() {
    let r = format_choose_split(b"a#,x,b").unwrap();
    assert_eq!(r.0, b"a#,x".to_vec());
    assert_eq!(r.1, b"b".to_vec());
    assert!(format_choose_split(b"nocomma").is_none());
}

#[test]
fn quoting() {
    assert_eq!(format_quote_shell(b"a b$c"), b"a\\ b\\$c".to_vec());
    assert_eq!(format_quote_style(b"a#b"), b"a##b".to_vec());
}

#[test]
fn numbers_round_trip() {
    assert_eq!(u64_dec(0), b"0".to_vec());
    assert_eq!(u64_dec(1234567890), b"1234567890".to_vec());
    assert_eq!(i64_dec(-42), b"-42".to_vec());
    assert_eq!(strtonum(b"123", 0, 1000), Some(123));
    assert_eq!(strtonum(b"-7", -10, 10), Some(-7));
    assert_eq!(strtonum(b"+9", 0, 10), Some(9));
    assert_eq!(strtonum(b"12x", 0, 1000), None);
    assert_eq!(strtonum(b"1001", 0, 1000), None);
    assert_eq!(strtonum(b"", 0, 1000), None);
}

#[test]
fn byte_comparison_is_lexicographic() {
    assert!(bytes_cmp(b"abc", b"abd") < 0);
    assert!(bytes_cmp(b"abc", b"abc") == 0);
    assert!(bytes_cmp(b"abcd", b"abc") > 0);
    assert!(bytes_cmp(b"", b"a") < 0);
    assert_eq!(find_byte(b"hello", b'l'), Some(2));
    assert_eq!(find_byte(b"hello", b'z'), None);
}

#[test]
fn trim_and_pad_are_width_aware() {
    assert_eq!(format_trim_left(b"abcdefgh", 5), b"abcde".to_vec());
    assert_eq!(format_trim_right(b"abcdefgh", 5), b"defgh".to_vec());
    assert_eq!(format_pad_right(b"ab", 5), b"ab   ".to_vec());
    assert_eq!(format_pad_left(b"ab", 5), b"   ab".to_vec());
    // A CJK character is two columns wide.
    let wide = "名".as_bytes();
    assert_eq!(format_width(wide), 2);
    assert_eq!(format_width(b"abc"), 3);
    let mut s = Vec::new();
    s.extend_from_slice(wide);
    s.extend_from_slice(b"x");
    assert_eq!(format_trim_left(s.as_slice(), 2), wide.to_vec());
    assert_eq!(format_pad_left(wide, 4), {
        let mut v = b"  ".to_vec();
        v.extend_from_slice(wide);
        v
    });
}

#[test]
fn glob_matching() {
    assert!(format_glob(b"*", b"anything", false));
    assert!(format_glob(b"a*c", b"abbbc", false));
    assert!(!format_glob(b"a*c", b"abd", false));
    assert!(format_glob(b"a?c", b"axc", false));
    assert!(!format_glob(b"a?c", b"ac", false));
    assert!(format_glob(b"AB*", b"abx", true));
    assert!(!format_glob(b"AB*", b"abx", false));
}

#[test]
fn substring_search() {
    assert!(contains_sub(b"hello world", b"lo wo"));
    assert!(!contains_sub(b"hello", b"world"));
    assert!(contains_sub(b"x", b""));
}

#[test]
fn regex_substitution_changes_text() {
    assert_eq!(format_sub(b"l+", false, b"L", b"hello"), b"heLo".to_vec());
    assert_eq!(
        format_sub(b"(a)(b)", false, b"\\2\\1", b"zabz"),
        b"zbaz".to_vec()
    );
    assert_eq!(format_sub(b"L", true, b"_", b"hello"), b"he__o".to_vec());
    // No match leaves the text unchanged.
    assert_eq!(format_sub(b"q", false, b"_", b"hello"), b"hello".to_vec());
}

#[test]
fn expression_primitives() {
    assert_eq!(parse_op(b"+"), Some(ExprOp::Add));
    assert_eq!(parse_op(b"!="), Some(ExprOp::NotEqual));
    assert_eq!(parse_op(b"??"), None);
    let three_and_a_half = parse_scaled(b"3.5").unwrap();
    assert_eq!(three_and_a_half, 3_500_000_000);
    assert_eq!(parse_scaled(b"-2"), Some(-2_000_000_000));
    assert_eq!(parse_scaled(b".25"), Some(250_000_000));
    assert_eq!(parse_scaled(b"x"), None);
    let sum = apply_op(ExprOp::Add, three_and_a_half, parse_scaled(b"2").unwrap()).unwrap();
    assert_eq!(format_scaled(sum, 2, true), b"5.50".to_vec());
    assert_eq!(format_scaled(sum, 0, false), b"5".to_vec());
}

#[test]
fn calendar_output() {
    // 2021-04-05 12:34:56 UTC was a Monday.
    let tm = time_tm(1617626096, 0);
    assert_eq!(format_ctime(&tm), b"Mon Apr  5 12:34:56 2021".to_vec());
    assert_eq!(format_strftime(b"%Y-%m-%d", &tm), b"2021-04-05".to_vec());
    assert_eq!(format_strftime(b"%H:%M", &tm), b"12:34".to_vec());
    assert_eq!(format_strftime(b"%I %p", &tm), b"12 PM".to_vec());
    assert_eq!(format_strftime(b"100%%", &tm), b"100%".to_vec());
    // Within a day: clock time.
    assert_eq!(
        format_pretty_time(1617626096, 1617626100, 0, false),
        b"12:34".to_vec()
    );
    // Days back in the same month: weekday and day.
    assert_eq!(
        format_pretty_time(1617626096, 1617626096 + 5 * 86400, 0, false),
        b"Mon05".to_vec()
    );
}

#[test]
fn paths() {
    assert_eq!(format_basename(b"/usr/local/bin/prog"), b"prog".to_vec());
    assert_eq!(format_basename(b"/usr/"), b"usr".to_vec());
    assert_eq!(format_basename(b"///"), b"/".to_vec());
    assert_eq!(format_basename(b""), b".".to_vec());
    assert_eq!(format_dirname(b"/usr/local/bin/prog"), b"/usr/local/bin".to_vec());
    assert_eq!(format_dirname(b"prog"), b".".to_vec());
    assert_eq!(format_dirname(b"/usr"), b"/".to_vec());
}

#[test]
fn window_names_from_commands() {
    assert_eq!(parse_window_name(b"vim notes.txt"), b"vim".to_vec());
    assert_eq!(parse_window_name(b"\"quoted name\" rest"), b"quoted".to_vec());
    assert_eq!(parse_window_name(b"exec /bin/sh"), b"sh".to_vec());
    assert_eq!(parse_window_name(b"--flag cmd"), b"flag".to_vec());
    assert_eq!(default_window_name(b"", b"/bin/zsh"), b"zsh".to_vec());
    assert_eq!(default_window_name(b"top", b"/bin/zsh"), b"top".to_vec());
}

#[test]
fn grid_word_and_line() {
    let lines: Vec<Vec<u8>> = vec![b"alpha beta".to_vec(), b"gamma".to_vec()];
    assert_eq!(format_grid_word(&lines, b" ", 1, 0), b"alpha".to_vec());
    assert_eq!(format_grid_word(&lines, b" ", 7, 0), b"beta".to_vec());
    assert_eq!(format_grid_word(&lines, b" ", 5, 0), b"".to_vec());
    assert_eq!(format_grid_word(&lines, b" ", 0, 9), b"".to_vec());
    assert_eq!(format_grid_line(&lines, 1), b"gamma".to_vec());
    assert_eq!(format_grid_line(&lines, 5), b"".to_vec());
}

#[test]
fn each_lists_table_then_overrides() {
    let server = Server {
        sessions: vec![],
        windows: vec![],
        clients: vec![],
        paste_buffers: vec![],
        global_options: SortedKv::new(),
        global_w_options: SortedKv::new(),
        global_s_options: SortedKv::new(),
        global_environ: SortedKv::new(),
        host: b"host1".to_vec(),
        pid: 5,
        version: b"3.4".to_vec(),
        start_time: 10,
    };
    let _ = JobCache::new();
    let table = build_table();
    let mut ft = format_create(None, 0, 0, 100, 0);
    format_add(&mut ft, b"custom", b"value");
    let all = format_each(&server, &ft, &table);
    // Scope-free variables come out; the override comes last.
    assert!(all.iter().any(|(k, v)| k == b"host" && v == b"host1"));
    assert!(all.iter().any(|(k, v)| k == b"pid" && v == b"5"));
    let last = all.last().unwrap();
    assert_eq!(last.0, b"custom".to_vec());
    assert_eq!(last.1, b"value".to_vec());
}

#[test]
fn job_output_line_splitting() {
    assert_eq!(last_complete_line(b"one\ntwo\npart"), Some(b"two".to_vec()));
    assert_eq!(last_complete_line(b"one\n"), Some(b"one".to_vec()));
    assert_eq!(last_complete_line(b"nopart"), None);
    assert_eq!(trailing_fragment(b"one\ntwo\npart"), b"part".to_vec());
    assert_eq!(trailing_fragment(b"one\n"), b"".to_vec());
    assert_eq!(trailing_fragment(b"nopart"), b"nopart".to_vec());
}

#[test]
fn rename_timing() {
    // Over half a second has passed.
    assert_eq!(name_time_expired(100, 0, 101, 0), 0);
    // 100 ms passed: 400 ms to wait.
    assert_eq!(name_time_expired(100, 500000, 100, 600000), 400000);
    assert!(matches!(
        check_window_name(true, true, 100, 0, 101, 0),
        NameCheck::Rename
    ));
    assert!(matches!(
        check_window_name(true, false, 100, 0, 101, 0),
        NameCheck::Nothing
    ));
    assert!(matches!(
        check_window_name(false, true, 100, 0, 101, 0),
        NameCheck::Nothing
    ));
    assert!(matches!(
        check_window_name(true, true, 100, 500000, 100, 600000),
        NameCheck::Defer(400000)
    ));
}
