//! End-to-end expansion scenarios: placeholders, modifiers, conditionals,
//! arithmetic, loops, the job cache and the override precedence.

use tmux_format::expand::{format_expand, FORMAT_LOOP_LIMIT};
use tmux_format::job::{format_job_didnt_start, format_job_get_cached, JobAction, JobCache};
use tmux_format::kv::SortedKv;
use tmux_format::model::{Client, Pane, PasteBuffer, Server, Session, Window, Winlink};
use tmux_format::table::build_table;
use tmux_format::tree::{format_add, format_create, format_defaults, format_tree};

fn kv_from(pairs: &[(&str, &str)]) -> SortedKv<Vec<u8>> {
    let mut kv = SortedKv::new();
    for (k, v) in pairs {
        kv.insert(k.as_bytes().to_vec(), v.as_bytes().to_vec());
    }
    kv
}

fn pane(id: u64, title: &str) -> Pane {
    Pane {
        id,
        title: title.as_bytes().to_vec(),
        width: 80,
        height: 24,
        path: b"/tmp".to_vec(),
        pid: 4242,
        dead: false,
        lines: vec![b"alpha beta".to_vec(), b"gamma".to_vec()],
        cursor_x: 1,
        cursor_y: 2,
        start_command: b"vim notes.txt".to_vec(),
        shell: b"/bin/sh".to_vec(),
        options: SortedKv::new(),
    }
}

fn window(id: u64, name: &str) -> Window {
    Window {
        id,
        name: name.as_bytes().to_vec(),
        width: 80,
        height: 24,
        panes: vec![pane(id * 10, "title0"), pane(id * 10 + 1, "title1")],
        active: 0,
        options: SortedKv::new(),
    }
}

fn session(id: u64, name: &str, windows: &[usize]) -> Session {
    Session {
        id,
        name: name.as_bytes().to_vec(),
        winlinks: windows
            .iter()
            .enumerate()
            .map(|(i, w)| Winlink { idx: i as u64, window: *w })
            .collect(),
        curw: 0,
        attached: 1,
        created: 1700000000,
        activity: 1700000100,
        last_attached: 1700000050,
        path: b"/home/user".to_vec(),
        options: SortedKv::new(),
        environ: SortedKv::new(),
    }
}

fn server() -> Server {
    Server {
        sessions: vec![session(1, "a", &[0]), session(2, "b", &[1])],
        windows: vec![window(1, "editor"), window(2, "logs")],
        clients: vec![Client {
            name: b"client0".to_vec(),
            tty: b"/dev/ttys001".to_vec(),
            termname: b"xterm".to_vec(),
            width: 80,
            height: 24,
            pid: 100,
            created: 1700000000,
            activity: 1700000100,
            session: Some(0),
        }],
        paste_buffers: vec![PasteBuffer {
            name: b"buffer0".to_vec(),
            data: b"copied".to_vec(),
            created: 1700000000,
        }],
        global_options: kv_from(&[]),
        global_w_options: kv_from(&[("automatic-rename-format", "#{pane_title}")]),
        global_s_options: kv_from(&[]),
        global_environ: kv_from(&[("HOME", "/home/user")]),
        host: b"box.example.org".to_vec(),
        pid: 999,
        version: b"3.4".to_vec(),
        start_time: 1700000000,
    }
}

fn ctx(server: &Server) -> format_tree {
    let mut ft = format_create(None, 0, 0, 1700000200, 0);
    format_defaults(&mut ft, server, None, Some(0), None, None);
    ft
}

fn expand(server: &Server, ft: &format_tree, fmt: &str) -> String {
    let mut cache = JobCache::new();
    let table = build_table();
    let out = format_expand(server, &mut cache, &table, ft, fmt.as_bytes());
    String::from_utf8(out).unwrap()
}

#[test]
fn plain_text_is_unchanged() {
    let s = server();
    let ft = ctx(&s);
    assert_eq!(expand(&s, &ft, "hello world 100%"), "hello world 100%");
    assert_eq!(expand(&s, &ft, ""), "");
}

#[test]
fn literal_modifier_unescapes() {
    let s = server();
    let ft = ctx(&s);
    assert_eq!(expand(&s, &ft, "#{l:a#,b}"), "a,b");
    assert_eq!(expand(&s, &ft, "#{l:x##y}"), "x#y");
}

#[test]
fn self_referential_variable_terminates_empty() {
    let s = server();
    let mut ft = ctx(&s);
    format_add(&mut ft, b"x", b"#{x}");
    assert_eq!(expand(&s, &ft, "#{x}"), "");
    assert_eq!(FORMAT_LOOP_LIMIT, 100);
}

#[test]
fn ternary_picks_branch_by_condition() {
    let s = server();
    let mut ft = ctx(&s);
    assert_eq!(expand(&s, &ft, "#{?foo,YES,NO}"), "NO");
    format_add(&mut ft, b"foo", b"1");
    assert_eq!(expand(&s, &ft, "#{?foo,YES,NO}"), "YES");
}

#[test]
fn arithmetic_addition_integer_and_float() {
    let s = server();
    let ft = ctx(&s);
    assert_eq!(expand(&s, &ft, "#{e|+|:3,4}"), "7");
    assert_eq!(expand(&s, &ft, "#{e|+|f|2:3.5,2}"), "5.50");
}

#[test]
fn arithmetic_other_operators() {
    let s = server();
    let ft = ctx(&s);
    assert_eq!(expand(&s, &ft, "#{e|-|:10,4}"), "6");
    assert_eq!(expand(&s, &ft, "#{e|*|:6,7}"), "42");
    assert_eq!(expand(&s, &ft, "#{e|/|:9,2}"), "4");
    assert_eq!(expand(&s, &ft, "#{e|/|f|2:1,3}"), "0.33");
    assert_eq!(expand(&s, &ft, "#{e|%|:9,4}"), "1");
    assert_eq!(expand(&s, &ft, "#{e|==|:2,2}"), "1");
    assert_eq!(expand(&s, &ft, "#{e|<|:2,3}"), "1");
    // Division by zero is a syntax-level failure: the placeholder is empty.
    assert_eq!(expand(&s, &ft, "#{e|/|:1,0}"), "");
}

#[test]
fn string_comparison() {
    let s = server();
    let ft = ctx(&s);
    assert_eq!(expand(&s, &ft, "#{==:abc,abc}"), "1");
    assert_eq!(expand(&s, &ft, "#{==:abc,xyz}"), "0");
    assert_eq!(expand(&s, &ft, "#{!=:abc,xyz}"), "1");
    assert_eq!(expand(&s, &ft, "#{<:abc,abd}"), "1");
    assert_eq!(expand(&s, &ft, "#{>:abc,abd}"), "0");
    assert_eq!(expand(&s, &ft, "#{||:0,1}"), "1");
    assert_eq!(expand(&s, &ft, "#{&&:0,1}"), "0");
}

#[test]
fn glob_match_modifier() {
    let s = server();
    let ft = ctx(&s);
    assert_eq!(expand(&s, &ft, "#{m:a*c,abc}"), "1");
    assert_eq!(expand(&s, &ft, "#{m:a?c,abc}"), "1");
    assert_eq!(expand(&s, &ft, "#{m:a*d,abc}"), "0");
    assert_eq!(expand(&s, &ft, "#{m/i:ABC,abc}"), "1");
    assert_eq!(expand(&s, &ft, "#{m/ri:^A.C$,abc}"), "1");
}

#[test]
fn truncation_with_marker() {
    let s = server();
    let mut ft = ctx(&s);
    format_add(&mut ft, b"v", b"abcdefgh");
    assert_eq!(expand(&s, &ft, "#{=/5/...:v}"), "abcde...");
    assert_eq!(expand(&s, &ft, "#{=/-5/...:v}"), "...defgh");
    // No marker when nothing was removed.
    format_add(&mut ft, b"w", b"abc");
    assert_eq!(expand(&s, &ft, "#{=/5/...:w}"), "abc");
}

#[test]
fn padding_both_sides() {
    let s = server();
    let mut ft = ctx(&s);
    format_add(&mut ft, b"v", b"ab");
    assert_eq!(expand(&s, &ft, "#{p5:v}"), "   ab");
    assert_eq!(expand(&s, &ft, "#{p-5:v}"), "ab   ");
}

#[test]
fn length_and_width_replacements() {
    let s = server();
    let mut ft = ctx(&s);
    format_add(&mut ft, b"v", b"abcd");
    assert_eq!(expand(&s, &ft, "#{n:v}"), "4");
    assert_eq!(expand(&s, &ft, "#{w:v}"), "4");
}

#[test]
fn session_loop_in_id_order_without_separator() {
    let s = server();
    let ft = format_create(None, 0, 0, 1700000200, 0);
    assert_eq!(expand(&s, &ft, "#{S:#{session_name},}"), "ab");
    // Other expansions in between do not disturb the order.
    let _ = expand(&s, &ft, "#{e|+|:1,1}");
    assert_eq!(expand(&s, &ft, "#{S:#{session_name},}"), "ab");
}

#[test]
fn window_and_pane_loops() {
    let s = server();
    let ft = ctx(&s);
    assert_eq!(expand(&s, &ft, "#{W:#{window_name}.}"), "editor.");
    assert_eq!(expand(&s, &ft, "#{P:#{pane_id};}"), "%10;%11;");
}

#[test]
fn job_cache_reuses_entry_within_second() {
    let s = server();
    let ft = format_create(None, 7, 0, 1700000200, 0);
    let table = build_table();
    let mut cache = JobCache::new();
    let _ = format_expand(&s, &mut cache, &table, &ft, b"#(echo hi)");
    let starts = cache
        .actions
        .iter()
        .filter(|a| matches!(a, JobAction::Start { .. }))
        .count();
    assert_eq!(starts, 1);
    assert_eq!(cache.jobs.len(), 1);

    // Same command in the same second: the entry is reused, nothing new
    // is spawned.
    let _ = format_expand(&s, &mut cache, &table, &ft, b"#(echo hi)");
    let starts = cache
        .actions
        .iter()
        .filter(|a| matches!(a, JobAction::Start { .. }))
        .count();
    assert_eq!(starts, 1);
    assert_eq!(cache.jobs.len(), 1);

    // A different command makes a new entry and a second start.
    let _ = format_expand(&s, &mut cache, &table, &ft, b"#(echo there)");
    let starts = cache
        .actions
        .iter()
        .filter(|a| matches!(a, JobAction::Start { .. }))
        .count();
    assert_eq!(starts, 2);
    assert_eq!(cache.jobs.len(), 2);
}

#[test]
fn job_killed_when_expanded_command_changes() {
    let s = server();
    let mut ft = format_create(None, 7, 0, 1700000200, 0);
    let table = build_table();
    let mut cache = JobCache::new();
    // The raw command is the key; its expansion is what runs.
    format_add(&mut ft, b"v", b"one");
    let _ = format_expand(&s, &mut cache, &table, &ft, b"#(echo #{v})");
    assert_eq!(cache.jobs.len(), 1);
    let kills = cache.actions.iter().filter(|a| matches!(a, JobAction::Kill { .. })).count();
    assert_eq!(kills, 0);
    // The expansion changed: the running job is killed and a new one starts,
    // still under the same entry.
    format_add(&mut ft, b"v", b"two");
    let _ = format_expand(&s, &mut cache, &table, &ft, b"#(echo #{v})");
    assert_eq!(cache.jobs.len(), 1);
    let kills = cache.actions.iter().filter(|a| matches!(a, JobAction::Kill { .. })).count();
    assert_eq!(kills, 1);
    let starts = cache.actions.iter().filter(|a| matches!(a, JobAction::Start { .. })).count();
    assert_eq!(starts, 2);
}

#[test]
fn job_placeholders_for_missing_output() {
    assert_eq!(
        format_job_didnt_start(b"echo hi"),
        b"<'echo hi' didn't start>".to_vec()
    );
    let mut cache = JobCache::new();
    // Start at one moment; two seconds on, still no output: the entry
    // shows the not-ready placeholder.
    let out = format_job_get_cached(&mut cache, None, 0, b"sleep 9", b"sleep 9", 100, false, false);
    assert_eq!(out, b"".to_vec());
    let out = format_job_get_cached(&mut cache, None, 0, b"sleep 9", b"sleep 9", 103, false, false);
    assert_eq!(out, b"<'sleep 9' not ready>".to_vec());
}

#[test]
fn job_output_is_reused_and_reexpanded() {
    let s = server();
    let ft = format_create(None, 7, 0, 1700000200, 0);
    let table = build_table();
    let mut cache = JobCache::new();
    let _ = format_expand(&s, &mut cache, &table, &ft, b"#(echo hi)");
    tmux_format::job::format_job_update(&mut cache, None, 7, b"echo hi", b"hi", 1700000200);
    let out = format_expand(&s, &mut cache, &table, &ft, b"#(echo hi)");
    assert_eq!(out, b"hi".to_vec());
}

#[test]
fn override_beats_table_and_live_state() {
    let s = server();
    let mut ft = ctx(&s);
    assert_eq!(expand(&s, &ft, "#{session_name}"), "a");
    format_add(&mut ft, b"session_name", b"X");
    assert_eq!(expand(&s, &ft, "#{session_name}"), "X");
}

#[test]
fn builtin_variables_resolve() {
    let s = server();
    let ft = ctx(&s);
    assert_eq!(expand(&s, &ft, "#{session_id}"), "$1");
    assert_eq!(expand(&s, &ft, "#{window_id}"), "@1");
    assert_eq!(expand(&s, &ft, "#{pane_id}"), "%10");
    assert_eq!(expand(&s, &ft, "#{window_name}"), "editor");
    assert_eq!(expand(&s, &ft, "#{session_windows}"), "1");
    assert_eq!(expand(&s, &ft, "#{host}"), "box.example.org");
    assert_eq!(expand(&s, &ft, "#{host_short}"), "box");
    assert_eq!(expand(&s, &ft, "#{pane_width}x#{pane_height}"), "80x24");
}

#[test]
fn environment_fallback() {
    let s = server();
    let ft = ctx(&s);
    assert_eq!(expand(&s, &ft, "#{HOME}"), "/home/user");
    assert_eq!(expand(&s, &ft, "#{NO_SUCH_VAR}"), "");
}

#[test]
fn single_letter_aliases() {
    let s = server();
    let ft = ctx(&s);
    assert_eq!(expand(&s, &ft, "#S"), "a");
    assert_eq!(expand(&s, &ft, "#W"), "editor");
    assert_eq!(expand(&s, &ft, "#h"), "box");
    // An unknown letter passes through.
    assert_eq!(expand(&s, &ft, "#z"), "#z");
}

#[test]
fn style_spans_pass_through() {
    let s = server();
    let ft = ctx(&s);
    assert_eq!(expand(&s, &ft, "#[bold]x"), "#[bold]x");
    assert_eq!(expand(&s, &ft, "##[notstyle"), "##[notstyle");
    assert_eq!(expand(&s, &ft, "a##b"), "a#b");
    assert_eq!(expand(&s, &ft, "#}#,"), "},");
}

#[test]
fn character_and_colour_modifiers() {
    let s = server();
    let ft = ctx(&s);
    assert_eq!(expand(&s, &ft, "#{a:65}"), "A");
    assert_eq!(expand(&s, &ft, "#{a:200}"), "");
    assert_eq!(expand(&s, &ft, "#{c:#ff0000}"), "ff0000");
    assert_eq!(expand(&s, &ft, "#{c:colour196}"), "ff0000");
    assert_eq!(expand(&s, &ft, "#{c:red}"), "800000");
    assert_eq!(expand(&s, &ft, "#{c:junk}"), "");
}

#[test]
fn substitution_modifier() {
    let s = server();
    let mut ft = ctx(&s);
    format_add(&mut ft, b"v", b"hello");
    assert_eq!(expand(&s, &ft, "#{s/l/L/:v}"), "heLLo");
    assert_eq!(expand(&s, &ft, "#{s/(h)(e)/\\2\\1/:v}"), "ehllo");
    // A pattern that does not compile leaves the text alone.
    assert_eq!(expand(&s, &ft, "#{s/[/x/:v}"), "hello");
}

#[test]
fn basename_dirname_and_quoting() {
    let s = server();
    let mut ft = ctx(&s);
    format_add(&mut ft, b"pth", b"/usr/local/bin/prog");
    assert_eq!(expand(&s, &ft, "#{b:pth}"), "prog");
    assert_eq!(expand(&s, &ft, "#{d:pth}"), "/usr/local/bin");
    format_add(&mut ft, b"q1", b"a b");
    assert_eq!(expand(&s, &ft, "#{q:q1}"), "a\\ b");
    format_add(&mut ft, b"q2", b"a#b");
    assert_eq!(expand(&s, &ft, "#{q/h:q2}"), "a##b");
}

#[test]
fn name_existence_tests() {
    let s = server();
    let ft = ctx(&s);
    assert_eq!(expand(&s, &ft, "#{N/s:a}"), "1");
    assert_eq!(expand(&s, &ft, "#{N/s:zz}"), "0");
    assert_eq!(expand(&s, &ft, "#{N/w:editor}"), "1");
    assert_eq!(expand(&s, &ft, "#{N/w:logs}"), "0");
}

#[test]
fn search_modifier_counts_lines_from_one() {
    let s = server();
    let ft = ctx(&s);
    assert_eq!(expand(&s, &ft, "#{C:gamma}"), "2");
    assert_eq!(expand(&s, &ft, "#{C:zeta}"), "0");
    assert_eq!(expand(&s, &ft, "#{C/i:GAMMA}"), "2");
    assert_eq!(expand(&s, &ft, "#{C/r:ga.ma}"), "2");
}

#[test]
fn nested_placeholder_expands() {
    let s = server();
    let mut ft = ctx(&s);
    // An inner placeholder names the variable; the body expands to that
    // name, which is the value.
    format_add(&mut ft, b"which", b"session_name");
    assert_eq!(expand(&s, &ft, "#{#{which}}"), "session_name");
    // A literal that builds a placeholder, re-expanded by E.
    assert_eq!(expand(&s, &ft, "#{E:#{l:##{session_name#}}}"), "a");
    // A value that is itself a template is treated as one.
    format_add(&mut ft, b"tpl", b"#{session_name}");
    assert_eq!(expand(&s, &ft, "#{tpl}"), "a");
}

#[test]
fn malformed_placeholder_aborts_scan() {
    let s = server();
    let ft = ctx(&s);
    // An unterminated placeholder stops the expansion there.
    assert_eq!(expand(&s, &ft, "ab#{oops"), "ab");
}

#[test]
fn failed_placeholder_resolves_empty_and_scan_continues() {
    let s = server();
    let ft = ctx(&s);
    // A ternary without its comma is malformed: empty, rest expanded.
    assert_eq!(expand(&s, &ft, "x#{?noComma}y"), "xy");
    // A comparison without its comma likewise.
    assert_eq!(expand(&s, &ft, "x#{==:lonely}y#{session_name}"), "xya");
    // A scoped loop without its scope resolves empty.
    let bare = format_create(None, 0, 0, 1700000200, 0);
    assert_eq!(expand(&s, &bare, "a#{W:n}b"), "ab");
    assert_eq!(expand(&s, &bare, "a#{P:n}b"), "ab");
}

#[test]
fn environment_is_not_consulted_for_timestrings() {
    let s = server();
    let ft = ctx(&s);
    // HOME holds no number anyway, but even a numeric environment value
    // must not feed a timestring lookup.
    assert_eq!(expand(&s, &ft, "#{t:HOME}"), "");
}

#[test]
fn buffer_variables_resolve_from_the_top_buffer() {
    let s = server();
    let ft = ctx(&s);
    assert_eq!(expand(&s, &ft, "#{buffer_name}"), "buffer0");
    assert_eq!(expand(&s, &ft, "#{buffer_size}"), "6");
}

#[test]
fn conditional_with_comparison_inside() {
    let s = server();
    let ft = ctx(&s);
    assert_eq!(
        expand(&s, &ft, "#{?#{==:#{session_name},a},same,diff}"),
        "same"
    );
    assert_eq!(
        expand(&s, &ft, "#{?#{==:#{session_name},b},same,diff}"),
        "diff"
    );
}

#[test]
fn timestamp_variables_render_as_calendar_text() {
    let s = server();
    let mut ft = ctx(&s);
    // 2021-04-05 12:00:00 UTC.
    format_add(&mut ft, b"when", b"1617624000");
    assert_eq!(
        expand(&s, &ft, "#{t/f/%Y-%m-%d %H#:%M#:%S:when}"),
        "2021-04-05 12:00:00"
    );
    assert_eq!(expand(&s, &ft, "#{t:when}"), "Mon Apr  5 12:00:00 2021");
}
