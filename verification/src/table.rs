//! The built-in variable table: well-known names mapped to typed accessors
//! over the live state. The table is sorted so a lookup is a binary search;
//! time-typed entries yield a Unix timestamp for later calendar formatting.

use vstd::prelude::*;
use vstd::string::StringSliceAdditionalSpecFns;
use crate::kv::SortedKv;
use crate::bytes::{lit, to_vec, sub_vec, append_bytes, find_byte, lemma_find_byte, spec_find_byte};
use crate::nums::{u64_dec, spec_u64_dec};
use crate::model::Server;
use crate::tree::{format_tree, format_type, FtSpec};

verus! {

/// Whether a table entry yields a plain string or a timestamp.
#[derive(PartialEq, Eq, Structural, Clone, Copy, Debug)]
pub enum format_table_type {
    FORMAT_TABLE_STRING,
    FORMAT_TABLE_TIME,
}

/// Accessor code of a built-in variable.
#[derive(PartialEq, Eq, Structural, Clone, Copy, Debug)]
pub enum Var {
    ActiveWindowIndex,
    BufferCreated,
    BufferName,
    BufferSize,
    ClientActivity,
    ClientCreated,
    ClientHeight,
    ClientName,
    ClientPid,
    ClientSession,
    ClientTermname,
    ClientTty,
    ClientWidth,
    CursorX,
    CursorY,
    Host,
    HostShort,
    PaneActive,
    PaneDead,
    PaneFormat,
    PaneHeight,
    PaneId,
    PaneIndex,
    PanePath,
    PanePid,
    PaneTitle,
    PaneWidth,
    Pid,
    SessionActivity,
    SessionAttached,
    SessionCreated,
    SessionFormat,
    SessionId,
    SessionLastAttached,
    SessionName,
    SessionPath,
    SessionWindows,
    StartTime,
    Version,
    WindowActive,
    WindowFormat,
    WindowHeight,
    WindowId,
    WindowIndex,
    WindowName,
    WindowPanes,
    WindowWidth,
}

#[derive(PartialEq, Eq, Structural, Clone, Copy, Debug)]
pub struct TableEntry {
    pub var: Var,
    pub ttype: format_table_type,
}

/// The accessor, if any, that a variable name resolves to.
pub open spec fn table_lookup(k: Seq<u8>) -> Option<TableEntry> {
    if k == ("window_width").spec_bytes() {
        Some(TableEntry { var: Var::WindowWidth, ttype: format_table_type::FORMAT_TABLE_STRING })
    } else if k == ("window_panes").spec_bytes() {
        Some(TableEntry { var: Var::WindowPanes, ttype: format_table_type::FORMAT_TABLE_STRING })
    } else if k == ("window_name").spec_bytes() {
        Some(TableEntry { var: Var::WindowName, ttype: format_table_type::FORMAT_TABLE_STRING })
    } else if k == ("window_index").spec_bytes() {
        Some(TableEntry { var: Var::WindowIndex, ttype: format_table_type::FORMAT_TABLE_STRING })
    } else if k == ("window_id").spec_bytes() {
        Some(TableEntry { var: Var::WindowId, ttype: format_table_type::FORMAT_TABLE_STRING })
    } else if k == ("window_height").spec_bytes() {
        Some(TableEntry { var: Var::WindowHeight, ttype: format_table_type::FORMAT_TABLE_STRING })
    } else if k == ("window_format").spec_bytes() {
        Some(TableEntry { var: Var::WindowFormat, ttype: format_table_type::FORMAT_TABLE_STRING })
    } else if k == ("window_active").spec_bytes() {
        Some(TableEntry { var: Var::WindowActive, ttype: format_table_type::FORMAT_TABLE_STRING })
    } else if k == ("version").spec_bytes() {
        Some(TableEntry { var: Var::Version, ttype: format_table_type::FORMAT_TABLE_STRING })
    } else if k == ("start_time").spec_bytes() {
        Some(TableEntry { var: Var::StartTime, ttype: format_table_type::FORMAT_TABLE_TIME })
    } else if k == ("session_windows").spec_bytes() {
        Some(TableEntry { var: Var::SessionWindows, ttype: format_table_type::FORMAT_TABLE_STRING })
    } else if k == ("session_path").spec_bytes() {
        Some(TableEntry { var: Var::SessionPath, ttype: format_table_type::FORMAT_TABLE_STRING })
    } else if k == ("session_name").spec_bytes() {
        Some(TableEntry { var: Var::SessionName, ttype: format_table_type::FORMAT_TABLE_STRING })
    } else if k == ("session_last_attached").spec_bytes() {
        Some(TableEntry { var: Var::SessionLastAttached, ttype: format_table_type::FORMAT_TABLE_TIME })
    } else if k == ("session_id").spec_bytes() {
        Some(TableEntry { var: Var::SessionId, ttype: format_table_type::FORMAT_TABLE_STRING })
    } else if k == ("session_format").spec_bytes() {
        Some(TableEntry { var: Var::SessionFormat, ttype: format_table_type::FORMAT_TABLE_STRING })
    } else if k == ("session_created").spec_bytes() {
        Some(TableEntry { var: Var::SessionCreated, ttype: format_table_type::FORMAT_TABLE_TIME })
    } else if k == ("session_attached").spec_bytes() {
        Some(TableEntry { var: Var::SessionAttached, ttype: format_table_type::FORMAT_TABLE_STRING })
    } else if k == ("session_activity").spec_bytes() {
        Some(TableEntry { var: Var::SessionActivity, ttype: format_table_type::FORMAT_TABLE_TIME })
    } else if k == ("pid").spec_bytes() {
        Some(TableEntry { var: Var::Pid, ttype: format_table_type::FORMAT_TABLE_STRING })
    } else if k == ("pane_width").spec_bytes() {
        Some(TableEntry { var: Var::PaneWidth, ttype: format_table_type::FORMAT_TABLE_STRING })
    } else if k == ("pane_title").spec_bytes() {
        Some(TableEntry { var: Var::PaneTitle, ttype: format_table_type::FORMAT_TABLE_STRING })
    } else if k == ("pane_pid").spec_bytes() {
        Some(TableEntry { var: Var::PanePid, ttype: format_table_type::FORMAT_TABLE_STRING })
    } else if k == ("pane_path").spec_bytes() {
        Some(TableEntry { var: Var::PanePath, ttype: format_table_type::FORMAT_TABLE_STRING })
    } else if k == ("pane_index").spec_bytes() {
        Some(TableEntry { var: Var::PaneIndex, ttype: format_table_type::FORMAT_TABLE_STRING })
    } else if k == ("pane_id").spec_bytes() {
        Some(TableEntry { var: Var::PaneId, ttype: format_table_type::FORMAT_TABLE_STRING })
    } else if k == ("pane_height").spec_bytes() {
        Some(TableEntry { var: Var::PaneHeight, ttype: format_table_type::FORMAT_TABLE_STRING })
    } else if k == ("pane_format").spec_bytes() {
        Some(TableEntry { var: Var::PaneFormat, ttype: format_table_type::FORMAT_TABLE_STRING })
    } else if k == ("pane_dead").spec_bytes() {
        Some(TableEntry { var: Var::PaneDead, ttype: format_table_type::FORMAT_TABLE_STRING })
    } else if k == ("pane_active").spec_bytes() {
        Some(TableEntry { var: Var::PaneActive, ttype: format_table_type::FORMAT_TABLE_STRING })
    } else if k == ("host_short").spec_bytes() {
        Some(TableEntry { var: Var::HostShort, ttype: format_table_type::FORMAT_TABLE_STRING })
    } else if k == ("host").spec_bytes() {
        Some(TableEntry { var: Var::Host, ttype: format_table_type::FORMAT_TABLE_STRING })
    } else if k == ("cursor_y").spec_bytes() {
        Some(TableEntry { var: Var::CursorY, ttype: format_table_type::FORMAT_TABLE_STRING })
    } else if k == ("cursor_x").spec_bytes() {
        Some(TableEntry { var: Var::CursorX, ttype: format_table_type::FORMAT_TABLE_STRING })
    } else if k == ("client_width").spec_bytes() {
        Some(TableEntry { var: Var::ClientWidth, ttype: format_table_type::FORMAT_TABLE_STRING })
    } else if k == ("client_tty").spec_bytes() {
        Some(TableEntry { var: Var::ClientTty, ttype: format_table_type::FORMAT_TABLE_STRING })
    } else if k == ("client_termname").spec_bytes() {
        Some(TableEntry { var: Var::ClientTermname, ttype: format_table_type::FORMAT_TABLE_STRING })
    } else if k == ("client_session").spec_bytes() {
        Some(TableEntry { var: Var::ClientSession, ttype: format_table_type::FORMAT_TABLE_STRING })
    } else if k == ("client_pid").spec_bytes() {
        Some(TableEntry { var: Var::ClientPid, ttype: format_table_type::FORMAT_TABLE_STRING })
    } else if k == ("client_name").spec_bytes() {
        Some(TableEntry { var: Var::ClientName, ttype: format_table_type::FORMAT_TABLE_STRING })
    } else if k == ("client_height").spec_bytes() {
        Some(TableEntry { var: Var::ClientHeight, ttype: format_table_type::FORMAT_TABLE_STRING })
    } else if k == ("client_created").spec_bytes() {
        Some(TableEntry { var: Var::ClientCreated, ttype: format_table_type::FORMAT_TABLE_TIME })
    } else if k == ("client_activity").spec_bytes() {
        Some(TableEntry { var: Var::ClientActivity, ttype: format_table_type::FORMAT_TABLE_TIME })
    } else if k == ("buffer_size").spec_bytes() {
        Some(TableEntry { var: Var::BufferSize, ttype: format_table_type::FORMAT_TABLE_STRING })
    } else if k == ("buffer_name").spec_bytes() {
        Some(TableEntry { var: Var::BufferName, ttype: format_table_type::FORMAT_TABLE_STRING })
    } else if k == ("buffer_created").spec_bytes() {
        Some(TableEntry { var: Var::BufferCreated, ttype: format_table_type::FORMAT_TABLE_TIME })
    } else if k == ("active_window_index").spec_bytes() {
        Some(TableEntry { var: Var::ActiveWindowIndex, ttype: format_table_type::FORMAT_TABLE_STRING })
    } else {
        None
    }
}

#[verifier::rlimit(100)]
#[verifier::spinoff_prover]
fn build_table_part0(t: &mut SortedKv<TableEntry>)
    requires
        old(t).wf(),
    ensures
        final(t).wf(),
        forall|k: Seq<u8>| #[trigger] final(t).spec_get(k) == (
            if k == ("client_tty").spec_bytes() {
                Some(TableEntry { var: Var::ClientTty, ttype: format_table_type::FORMAT_TABLE_STRING })
            } else if k == ("client_termname").spec_bytes() {
                Some(TableEntry { var: Var::ClientTermname, ttype: format_table_type::FORMAT_TABLE_STRING })
            } else if k == ("client_session").spec_bytes() {
                Some(TableEntry { var: Var::ClientSession, ttype: format_table_type::FORMAT_TABLE_STRING })
            } else if k == ("client_pid").spec_bytes() {
                Some(TableEntry { var: Var::ClientPid, ttype: format_table_type::FORMAT_TABLE_STRING })
            } else if k == ("client_name").spec_bytes() {
                Some(TableEntry { var: Var::ClientName, ttype: format_table_type::FORMAT_TABLE_STRING })
            } else if k == ("client_height").spec_bytes() {
                Some(TableEntry { var: Var::ClientHeight, ttype: format_table_type::FORMAT_TABLE_STRING })
            } else if k == ("client_created").spec_bytes() {
                Some(TableEntry { var: Var::ClientCreated, ttype: format_table_type::FORMAT_TABLE_TIME })
            } else if k == ("client_activity").spec_bytes() {
                Some(TableEntry { var: Var::ClientActivity, ttype: format_table_type::FORMAT_TABLE_TIME })
            } else if k == ("buffer_size").spec_bytes() {
                Some(TableEntry { var: Var::BufferSize, ttype: format_table_type::FORMAT_TABLE_STRING })
            } else if k == ("buffer_name").spec_bytes() {
                Some(TableEntry { var: Var::BufferName, ttype: format_table_type::FORMAT_TABLE_STRING })
            } else if k == ("buffer_created").spec_bytes() {
                Some(TableEntry { var: Var::BufferCreated, ttype: format_table_type::FORMAT_TABLE_TIME })
            } else if k == ("active_window_index").spec_bytes() {
                Some(TableEntry { var: Var::ActiveWindowIndex, ttype: format_table_type::FORMAT_TABLE_STRING })
            } else {
                old(t).spec_get(k)
            }
        ),
{
    t.insert(lit("active_window_index"), TableEntry { var: Var::ActiveWindowIndex, ttype: format_table_type::FORMAT_TABLE_STRING });
    t.insert(lit("buffer_created"), TableEntry { var: Var::BufferCreated, ttype: format_table_type::FORMAT_TABLE_TIME });
    t.insert(lit("buffer_name"), TableEntry { var: Var::BufferName, ttype: format_table_type::FORMAT_TABLE_STRING });
    t.insert(lit("buffer_size"), TableEntry { var: Var::BufferSize, ttype: format_table_type::FORMAT_TABLE_STRING });
    t.insert(lit("client_activity"), TableEntry { var: Var::ClientActivity, ttype: format_table_type::FORMAT_TABLE_TIME });
    t.insert(lit("client_created"), TableEntry { var: Var::ClientCreated, ttype: format_table_type::FORMAT_TABLE_TIME });
    t.insert(lit("client_height"), TableEntry { var: Var::ClientHeight, ttype: format_table_type::FORMAT_TABLE_STRING });
    t.insert(lit("client_name"), TableEntry { var: Var::ClientName, ttype: format_table_type::FORMAT_TABLE_STRING });
    t.insert(lit("client_pid"), TableEntry { var: Var::ClientPid, ttype: format_table_type::FORMAT_TABLE_STRING });
    t.insert(lit("client_session"), TableEntry { var: Var::ClientSession, ttype: format_table_type::FORMAT_TABLE_STRING });
    t.insert(lit("client_termname"), TableEntry { var: Var::ClientTermname, ttype: format_table_type::FORMAT_TABLE_STRING });
    t.insert(lit("client_tty"), TableEntry { var: Var::ClientTty, ttype: format_table_type::FORMAT_TABLE_STRING });
}

#[verifier::rlimit(100)]
#[verifier::spinoff_prover]
fn build_table_part1(t: &mut SortedKv<TableEntry>)
    requires
        old(t).wf(),
    ensures
        final(t).wf(),
        forall|k: Seq<u8>| #[trigger] final(t).spec_get(k) == (
            if k == ("pane_path").spec_bytes() {
                Some(TableEntry { var: Var::PanePath, ttype: format_table_type::FORMAT_TABLE_STRING })
            } else if k == ("pane_index").spec_bytes() {
                Some(TableEntry { var: Var::PaneIndex, ttype: format_table_type::FORMAT_TABLE_STRING })
            } else if k == ("pane_id").spec_bytes() {
                Some(TableEntry { var: Var::PaneId, ttype: format_table_type::FORMAT_TABLE_STRING })
            } else if k == ("pane_height").spec_bytes() {
                Some(TableEntry { var: Var::PaneHeight, ttype: format_table_type::FORMAT_TABLE_STRING })
            } else if k == ("pane_format").spec_bytes() {
                Some(TableEntry { var: Var::PaneFormat, ttype: format_table_type::FORMAT_TABLE_STRING })
            } else if k == ("pane_dead").spec_bytes() {
                Some(TableEntry { var: Var::PaneDead, ttype: format_table_type::FORMAT_TABLE_STRING })
            } else if k == ("pane_active").spec_bytes() {
                Some(TableEntry { var: Var::PaneActive, ttype: format_table_type::FORMAT_TABLE_STRING })
            } else if k == ("host_short").spec_bytes() {
                Some(TableEntry { var: Var::HostShort, ttype: format_table_type::FORMAT_TABLE_STRING })
            } else if k == ("host").spec_bytes() {
                Some(TableEntry { var: Var::Host, ttype: format_table_type::FORMAT_TABLE_STRING })
            } else if k == ("cursor_y").spec_bytes() {
                Some(TableEntry { var: Var::CursorY, ttype: format_table_type::FORMAT_TABLE_STRING })
            } else if k == ("cursor_x").spec_bytes() {
                Some(TableEntry { var: Var::CursorX, ttype: format_table_type::FORMAT_TABLE_STRING })
            } else if k == ("client_width").spec_bytes() {
                Some(TableEntry { var: Var::ClientWidth, ttype: format_table_type::FORMAT_TABLE_STRING })
            } else {
                old(t).spec_get(k)
            }
        ),
{
    t.insert(lit("client_width"), TableEntry { var: Var::ClientWidth, ttype: format_table_type::FORMAT_TABLE_STRING });
    t.insert(lit("cursor_x"), TableEntry { var: Var::CursorX, ttype: format_table_type::FORMAT_TABLE_STRING });
    t.insert(lit("cursor_y"), TableEntry { var: Var::CursorY, ttype: format_table_type::FORMAT_TABLE_STRING });
    t.insert(lit("host"), TableEntry { var: Var::Host, ttype: format_table_type::FORMAT_TABLE_STRING });
    t.insert(lit("host_short"), TableEntry { var: Var::HostShort, ttype: format_table_type::FORMAT_TABLE_STRING });
    t.insert(lit("pane_active"), TableEntry { var: Var::PaneActive, ttype: format_table_type::FORMAT_TABLE_STRING });
    t.insert(lit("pane_dead"), TableEntry { var: Var::PaneDead, ttype: format_table_type::FORMAT_TABLE_STRING });
    t.insert(lit("pane_format"), TableEntry { var: Var::PaneFormat, ttype: format_table_type::FORMAT_TABLE_STRING });
    t.insert(lit("pane_height"), TableEntry { var: Var::PaneHeight, ttype: format_table_type::FORMAT_TABLE_STRING });
    t.insert(lit("pane_id"), TableEntry { var: Var::PaneId, ttype: format_table_type::FORMAT_TABLE_STRING });
    t.insert(lit("pane_index"), TableEntry { var: Var::PaneIndex, ttype: format_table_type::FORMAT_TABLE_STRING });
    t.insert(lit("pane_path"), TableEntry { var: Var::PanePath, ttype: format_table_type::FORMAT_TABLE_STRING });
}

#[verifier::rlimit(100)]
#[verifier::spinoff_prover]
fn build_table_part2(t: &mut SortedKv<TableEntry>)
    requires
        old(t).wf(),
    ensures
        final(t).wf(),
        forall|k: Seq<u8>| #[trigger] final(t).spec_get(k) == (
            if k == ("session_path").spec_bytes() {
                Some(TableEntry { var: Var::SessionPath, ttype: format_table_type::FORMAT_TABLE_STRING })
            } else if k == ("session_name").spec_bytes() {
                Some(TableEntry { var: Var::SessionName, ttype: format_table_type::FORMAT_TABLE_STRING })
            } else if k == ("session_last_attached").spec_bytes() {
                Some(TableEntry { var: Var::SessionLastAttached, ttype: format_table_type::FORMAT_TABLE_TIME })
            } else if k == ("session_id").spec_bytes() {
                Some(TableEntry { var: Var::SessionId, ttype: format_table_type::FORMAT_TABLE_STRING })
            } else if k == ("session_format").spec_bytes() {
                Some(TableEntry { var: Var::SessionFormat, ttype: format_table_type::FORMAT_TABLE_STRING })
            } else if k == ("session_created").spec_bytes() {
                Some(TableEntry { var: Var::SessionCreated, ttype: format_table_type::FORMAT_TABLE_TIME })
            } else if k == ("session_attached").spec_bytes() {
                Some(TableEntry { var: Var::SessionAttached, ttype: format_table_type::FORMAT_TABLE_STRING })
            } else if k == ("session_activity").spec_bytes() {
                Some(TableEntry { var: Var::SessionActivity, ttype: format_table_type::FORMAT_TABLE_TIME })
            } else if k == ("pid").spec_bytes() {
                Some(TableEntry { var: Var::Pid, ttype: format_table_type::FORMAT_TABLE_STRING })
            } else if k == ("pane_width").spec_bytes() {
                Some(TableEntry { var: Var::PaneWidth, ttype: format_table_type::FORMAT_TABLE_STRING })
            } else if k == ("pane_title").spec_bytes() {
                Some(TableEntry { var: Var::PaneTitle, ttype: format_table_type::FORMAT_TABLE_STRING })
            } else if k == ("pane_pid").spec_bytes() {
                Some(TableEntry { var: Var::PanePid, ttype: format_table_type::FORMAT_TABLE_STRING })
            } else {
                old(t).spec_get(k)
            }
        ),
{
    t.insert(lit("pane_pid"), TableEntry { var: Var::PanePid, ttype: format_table_type::FORMAT_TABLE_STRING });
    t.insert(lit("pane_title"), TableEntry { var: Var::PaneTitle, ttype: format_table_type::FORMAT_TABLE_STRING });
    t.insert(lit("pane_width"), TableEntry { var: Var::PaneWidth, ttype: format_table_type::FORMAT_TABLE_STRING });
    t.insert(lit("pid"), TableEntry { var: Var::Pid, ttype: format_table_type::FORMAT_TABLE_STRING });
    t.insert(lit("session_activity"), TableEntry { var: Var::SessionActivity, ttype: format_table_type::FORMAT_TABLE_TIME });
    t.insert(lit("session_attached"), TableEntry { var: Var::SessionAttached, ttype: format_table_type::FORMAT_TABLE_STRING });
    t.insert(lit("session_created"), TableEntry { var: Var::SessionCreated, ttype: format_table_type::FORMAT_TABLE_TIME });
    t.insert(lit("session_format"), TableEntry { var: Var::SessionFormat, ttype: format_table_type::FORMAT_TABLE_STRING });
    t.insert(lit("session_id"), TableEntry { var: Var::SessionId, ttype: format_table_type::FORMAT_TABLE_STRING });
    t.insert(lit("session_last_attached"), TableEntry { var: Var::SessionLastAttached, ttype: format_table_type::FORMAT_TABLE_TIME });
    t.insert(lit("session_name"), TableEntry { var: Var::SessionName, ttype: format_table_type::FORMAT_TABLE_STRING });
    t.insert(lit("session_path"), TableEntry { var: Var::SessionPath, ttype: format_table_type::FORMAT_TABLE_STRING });
}

#[verifier::rlimit(100)]
#[verifier::spinoff_prover]
fn build_table_part3(t: &mut SortedKv<TableEntry>)
    requires
        old(t).wf(),
    ensures
        final(t).wf(),
        forall|k: Seq<u8>| #[trigger] final(t).spec_get(k) == (
            if k == ("window_width").spec_bytes() {
                Some(TableEntry { var: Var::WindowWidth, ttype: format_table_type::FORMAT_TABLE_STRING })
            } else if k == ("window_panes").spec_bytes() {
                Some(TableEntry { var: Var::WindowPanes, ttype: format_table_type::FORMAT_TABLE_STRING })
            } else if k == ("window_name").spec_bytes() {
                Some(TableEntry { var: Var::WindowName, ttype: format_table_type::FORMAT_TABLE_STRING })
            } else if k == ("window_index").spec_bytes() {
                Some(TableEntry { var: Var::WindowIndex, ttype: format_table_type::FORMAT_TABLE_STRING })
            } else if k == ("window_id").spec_bytes() {
                Some(TableEntry { var: Var::WindowId, ttype: format_table_type::FORMAT_TABLE_STRING })
            } else if k == ("window_height").spec_bytes() {
                Some(TableEntry { var: Var::WindowHeight, ttype: format_table_type::FORMAT_TABLE_STRING })
            } else if k == ("window_format").spec_bytes() {
                Some(TableEntry { var: Var::WindowFormat, ttype: format_table_type::FORMAT_TABLE_STRING })
            } else if k == ("window_active").spec_bytes() {
                Some(TableEntry { var: Var::WindowActive, ttype: format_table_type::FORMAT_TABLE_STRING })
            } else if k == ("version").spec_bytes() {
                Some(TableEntry { var: Var::Version, ttype: format_table_type::FORMAT_TABLE_STRING })
            } else if k == ("start_time").spec_bytes() {
                Some(TableEntry { var: Var::StartTime, ttype: format_table_type::FORMAT_TABLE_TIME })
            } else if k == ("session_windows").spec_bytes() {
                Some(TableEntry { var: Var::SessionWindows, ttype: format_table_type::FORMAT_TABLE_STRING })
            } else {
                old(t).spec_get(k)
            }
        ),
{
    t.insert(lit("session_windows"), TableEntry { var: Var::SessionWindows, ttype: format_table_type::FORMAT_TABLE_STRING });
    t.insert(lit("start_time"), TableEntry { var: Var::StartTime, ttype: format_table_type::FORMAT_TABLE_TIME });
    t.insert(lit("version"), TableEntry { var: Var::Version, ttype: format_table_type::FORMAT_TABLE_STRING });
    t.insert(lit("window_active"), TableEntry { var: Var::WindowActive, ttype: format_table_type::FORMAT_TABLE_STRING });
    t.insert(lit("window_format"), TableEntry { var: Var::WindowFormat, ttype: format_table_type::FORMAT_TABLE_STRING });
    t.insert(lit("window_height"), TableEntry { var: Var::WindowHeight, ttype: format_table_type::FORMAT_TABLE_STRING });
    t.insert(lit("window_id"), TableEntry { var: Var::WindowId, ttype: format_table_type::FORMAT_TABLE_STRING });
    t.insert(lit("window_index"), TableEntry { var: Var::WindowIndex, ttype: format_table_type::FORMAT_TABLE_STRING });
    t.insert(lit("window_name"), TableEntry { var: Var::WindowName, ttype: format_table_type::FORMAT_TABLE_STRING });
    t.insert(lit("window_panes"), TableEntry { var: Var::WindowPanes, ttype: format_table_type::FORMAT_TABLE_STRING });
    t.insert(lit("window_width"), TableEntry { var: Var::WindowWidth, ttype: format_table_type::FORMAT_TABLE_STRING });
}

/// Build the sorted table; it holds exactly the names of `table_lookup`.
#[verifier::rlimit(100)]
#[verifier::spinoff_prover]
pub fn build_table() -> (t: SortedKv<TableEntry>)
    ensures
        table_ok(t),
{
    let mut t: SortedKv<TableEntry> = SortedKv::new();
    build_table_part0(&mut t);
    build_table_part1(&mut t);
    build_table_part2(&mut t);
    build_table_part3(&mut t);
    proof {
        assert forall|k: Seq<u8>| #[trigger] t.spec_get(k) == table_lookup(k) by {}
        reveal(table_ok);
    }
    t
}

/// A table that holds exactly the names of `table_lookup`; opaque so that
/// passing it around stays cheap.
#[verifier::opaque]
pub open spec fn table_ok(t: SortedKv<TableEntry>) -> bool {
    t.wf() && forall|k: Seq<u8>| #[trigger] t.spec_get(k) == table_lookup(k)
}

/// Open the table predicate where its parts are needed.
pub proof fn reveal_table_ok()
    ensures
        forall|t: SortedKv<TableEntry>| #[trigger] table_ok(t) ==> t.wf() && forall|k: Seq<u8>|
            #[trigger] t.spec_get(k) == table_lookup(k),
{
    reveal(table_ok);
}

/// Look a name up in the built table.
pub fn format_table_get(t: &SortedKv<TableEntry>, key: &[u8]) -> (r: Option<TableEntry>)
    requires
        table_ok(*t),
    ensures
        r == table_lookup(key@),
{
    proof {
        reveal(table_ok);
    }
    match t.get(key) {
        Some(e) => Some(*e),
        None => None,
    }
}


/// A resolved variable: a plain string or a timestamp.
pub enum TableValue {
    S(Vec<u8>),
    T(i64),
}

/// Ghost image of a resolved variable.
pub enum VSpec {
    Str(Seq<u8>),
    Time(int),
}

impl View for TableValue {
    type V = VSpec;

    open spec fn view(&self) -> VSpec {
        match self {
            TableValue::S(v) => VSpec::Str(v@),
            TableValue::T(t) => VSpec::Time(*t as int),
        }
    }
}

/// "1" for true, "0" for false.
pub open spec fn spec_flag(b: bool) -> Seq<u8> {
    if b {
        ("1").spec_bytes()
    } else {
        ("0").spec_bytes()
    }
}

fn flag(b: bool) -> (r: Vec<u8>)
    ensures
        r@ == spec_flag(b),
{
    if b {
        lit("1")
    } else {
        lit("0")
    }
}

/// The host name up to its first dot.
pub open spec fn spec_host_short(h: Seq<u8>) -> Seq<u8> {
    match spec_find_byte(h, '.' as u8) {
        None => h,
        Some(i) => h.subrange(0, i),
    }
}

/// What each accessor reads from the live state; `None` when the variable
/// does not apply in the current scope.
pub open spec fn spec_resolve(server: Server, ft: FtSpec, var: Var) -> Option<VSpec> {
    let sw = spec_scope(server, ft);
    match var {
        Var::ActiveWindowIndex => match ft.s {
            Some(i) => Some(VSpec::Str(spec_u64_dec(
                server.sessions@[i as int].winlinks@[server.sessions@[i as int].curw as int].idx as nat,
            ))),
            None => None,
        },
        Var::BufferCreated => match ft.pb {
            Some(i) => Some(VSpec::Time(server.paste_buffers@[i as int].created as int)),
            None => None,
        },
        Var::BufferName => match ft.pb {
            Some(i) => Some(VSpec::Str(server.paste_buffers@[i as int].name@)),
            None => None,
        },
        Var::BufferSize => match ft.pb {
            Some(i) => Some(VSpec::Str(spec_u64_dec(server.paste_buffers@[i as int].data@.len()))),
            None => None,
        },
        Var::ClientActivity => match ft.c {
            Some(i) => Some(VSpec::Time(server.clients@[i as int].activity as int)),
            None => None,
        },
        Var::ClientCreated => match ft.c {
            Some(i) => Some(VSpec::Time(server.clients@[i as int].created as int)),
            None => None,
        },
        Var::ClientHeight => match ft.c {
            Some(i) => Some(VSpec::Str(spec_u64_dec(server.clients@[i as int].height as nat))),
            None => None,
        },
        Var::ClientName => match ft.c {
            Some(i) => Some(VSpec::Str(server.clients@[i as int].name@)),
            None => None,
        },
        Var::ClientPid => match ft.c {
            Some(i) => Some(VSpec::Str(spec_u64_dec(server.clients@[i as int].pid as nat))),
            None => None,
        },
        Var::ClientSession => match ft.c {
            Some(i) => match server.clients@[i as int].session {
                Some(si) => Some(VSpec::Str(server.sessions@[si as int].name@)),
                None => None,
            },
            None => None,
        },
        Var::ClientTermname => match ft.c {
            Some(i) => Some(VSpec::Str(server.clients@[i as int].termname@)),
            None => None,
        },
        Var::ClientTty => match ft.c {
            Some(i) => Some(VSpec::Str(server.clients@[i as int].tty@)),
            None => None,
        },
        Var::ClientWidth => match ft.c {
            Some(i) => Some(VSpec::Str(spec_u64_dec(server.clients@[i as int].width as nat))),
            None => None,
        },
        Var::CursorX => match sw {
            Some((w, p)) => Some(VSpec::Str(spec_u64_dec(
                server.windows@[w].panes@[p].cursor_x as nat,
            ))),
            None => None,
        },
        Var::CursorY => match sw {
            Some((w, p)) => Some(VSpec::Str(spec_u64_dec(
                server.windows@[w].panes@[p].cursor_y as nat,
            ))),
            None => None,
        },
        Var::Host => Some(VSpec::Str(server.host@)),
        Var::HostShort => Some(VSpec::Str(spec_host_short(server.host@))),
        Var::PaneActive => match sw {
            Some((w, p)) => Some(VSpec::Str(spec_flag(p == server.windows@[w].active))),
            None => None,
        },
        Var::PaneDead => match sw {
            Some((w, p)) => Some(VSpec::Str(spec_flag(server.windows@[w].panes@[p].dead))),
            None => None,
        },
        Var::PaneFormat => Some(VSpec::Str(spec_flag(
            ft.type_ == format_type::FORMAT_TYPE_PANE,
        ))),
        Var::PaneHeight => match sw {
            Some((w, p)) => Some(VSpec::Str(spec_u64_dec(
                server.windows@[w].panes@[p].height as nat,
            ))),
            None => None,
        },
        Var::PaneId => match sw {
            Some((w, p)) => Some(VSpec::Str(
                seq!['%' as u8] + spec_u64_dec(server.windows@[w].panes@[p].id as nat),
            )),
            None => None,
        },
        Var::PaneIndex => match sw {
            Some((w, p)) => Some(VSpec::Str(spec_u64_dec(p as nat))),
            None => None,
        },
        Var::PanePath => match sw {
            Some((w, p)) => Some(VSpec::Str(server.windows@[w].panes@[p].path@)),
            None => None,
        },
        Var::PanePid => match sw {
            Some((w, p)) => Some(VSpec::Str(spec_u64_dec(server.windows@[w].panes@[p].pid as nat))),
            None => None,
        },
        Var::PaneTitle => match sw {
            Some((w, p)) => Some(VSpec::Str(server.windows@[w].panes@[p].title@)),
            None => None,
        },
        Var::PaneWidth => match sw {
            Some((w, p)) => Some(VSpec::Str(spec_u64_dec(
                server.windows@[w].panes@[p].width as nat,
            ))),
            None => None,
        },
        Var::Pid => Some(VSpec::Str(spec_u64_dec(server.pid as nat))),
        Var::SessionActivity => match ft.s {
            Some(i) => Some(VSpec::Time(server.sessions@[i as int].activity as int)),
            None => None,
        },
        Var::SessionAttached => match ft.s {
            Some(i) => Some(VSpec::Str(spec_u64_dec(server.sessions@[i as int].attached as nat))),
            None => None,
        },
        Var::SessionCreated => match ft.s {
            Some(i) => Some(VSpec::Time(server.sessions@[i as int].created as int)),
            None => None,
        },
        Var::SessionFormat => Some(VSpec::Str(spec_flag(
            ft.type_ == format_type::FORMAT_TYPE_SESSION,
        ))),
        Var::SessionId => match ft.s {
            Some(i) => Some(VSpec::Str(
                seq!['$' as u8] + spec_u64_dec(server.sessions@[i as int].id as nat),
            )),
            None => None,
        },
        Var::SessionLastAttached => match ft.s {
            Some(i) => Some(VSpec::Time(server.sessions@[i as int].last_attached as int)),
            None => None,
        },
        Var::SessionName => match ft.s {
            Some(i) => Some(VSpec::Str(server.sessions@[i as int].name@)),
            None => None,
        },
        Var::SessionPath => match ft.s {
            Some(i) => Some(VSpec::Str(server.sessions@[i as int].path@)),
            None => None,
        },
        Var::SessionWindows => match ft.s {
            Some(i) => Some(VSpec::Str(spec_u64_dec(server.sessions@[i as int].winlinks@.len()))),
            None => None,
        },
        Var::StartTime => Some(VSpec::Time(server.start_time as int)),
        Var::Version => Some(VSpec::Str(server.version@)),
        Var::WindowActive => match ft.s {
            Some(i) => match ft.wl {
                Some(j) => Some(VSpec::Str(spec_flag(j == server.sessions@[i as int].curw))),
                None => None,
            },
            None => None,
        },
        Var::WindowFormat => Some(VSpec::Str(spec_flag(
            ft.type_ == format_type::FORMAT_TYPE_WINDOW,
        ))),
        Var::WindowHeight => match ft.w {
            Some(i) => Some(VSpec::Str(spec_u64_dec(server.windows@[i as int].height as nat))),
            None => None,
        },
        Var::WindowId => match ft.w {
            Some(i) => Some(VSpec::Str(
                seq!['@' as u8] + spec_u64_dec(server.windows@[i as int].id as nat),
            )),
            None => None,
        },
        Var::WindowIndex => match ft.s {
            Some(i) => match ft.wl {
                Some(j) => Some(VSpec::Str(spec_u64_dec(
                    server.sessions@[i as int].winlinks@[j as int].idx as nat,
                ))),
                None => None,
            },
            None => None,
        },
        Var::WindowName => match ft.w {
            Some(i) => Some(VSpec::Str(server.windows@[i as int].name@)),
            None => None,
        },
        Var::WindowPanes => match ft.w {
            Some(i) => Some(VSpec::Str(spec_u64_dec(server.windows@[i as int].panes@.len()))),
            None => None,
        },
        Var::WindowWidth => match ft.w {
            Some(i) => Some(VSpec::Str(spec_u64_dec(server.windows@[i as int].width as nat))),
            None => None,
        },
    }
}

/// The (window, pane) pair in scope, if a pane is set.
pub open spec fn spec_scope(server: Server, ft: FtSpec) -> Option<(int, int)> {
    match ft.w {
        Some(w) => match ft.wp {
            Some(p) => Some((w as int, p as int)),
            None => None,
        },
        None => None,
    }
}

fn id_str(prefix: u8, n: u64) -> (r: Vec<u8>)
    ensures
        r@ == seq![prefix] + spec_u64_dec(n as nat),
{
    let mut v: Vec<u8> = Vec::new();
    v.push(prefix);
    let d = u64_dec(n);
    append_bytes(&mut v, d.as_slice());
    proof {
        assert(v@ =~= seq![prefix] + spec_u64_dec(n as nat));
    }
    v
}

fn host_short(h: &[u8]) -> (r: Vec<u8>)
    ensures
        r@ == spec_host_short(h@),
{
    match find_byte(h, '.' as u8) {
        None => to_vec(h),
        Some(i) => {
            proof {
                lemma_find_byte(h@, '.' as u8);
            }
            sub_vec(h, 0, i)
        },
    }
}

/// Run the accessor for `var` against the live state.
pub fn table_resolve(server: &Server, ft: &format_tree, var: Var) -> (r: Option<TableValue>)
    requires
        server.wf(),
        ft.wf(*server),
    ensures
        match r {
            Some(v) => spec_resolve(*server, ft@, var) == Some(v@),
            None => spec_resolve(*server, ft@, var) is None,
        },
{
    let sw: Option<(usize, usize)> = match (ft.w, ft.wp) {
        (Some(w), Some(p)) => Some((w, p)),
        _ => None,
    };
    match var {
        Var::ActiveWindowIndex => match ft.s {
            Some(i) => {
                let sess = &server.sessions[i];
                Some(TableValue::S(u64_dec(sess.winlinks[sess.curw].idx)))
            },
            None => None,
        },
        Var::BufferCreated => match ft.pb {
            Some(i) => Some(TableValue::T(server.paste_buffers[i].created)),
            None => None,
        },
        Var::BufferName => match ft.pb {
            Some(i) => Some(TableValue::S(to_vec(server.paste_buffers[i].name.as_slice()))),
            None => None,
        },
        Var::BufferSize => match ft.pb {
            Some(i) => Some(TableValue::S(u64_dec(server.paste_buffers[i].data.len() as u64))),
            None => None,
        },
        Var::ClientActivity => match ft.c {
            Some(i) => Some(TableValue::T(server.clients[i].activity)),
            None => None,
        },
        Var::ClientCreated => match ft.c {
            Some(i) => Some(TableValue::T(server.clients[i].created)),
            None => None,
        },
        Var::ClientHeight => match ft.c {
            Some(i) => Some(TableValue::S(u64_dec(server.clients[i].height))),
            None => None,
        },
        Var::ClientName => match ft.c {
            Some(i) => Some(TableValue::S(to_vec(server.clients[i].name.as_slice()))),
            None => None,
        },
        Var::ClientPid => match ft.c {
            Some(i) => Some(TableValue::S(u64_dec(server.clients[i].pid))),
            None => None,
        },
        Var::ClientSession => match ft.c {
            Some(i) => match server.clients[i].session {
                Some(si) => Some(TableValue::S(to_vec(server.sessions[si].name.as_slice()))),
                None => None,
            },
            None => None,
        },
        Var::ClientTermname => match ft.c {
            Some(i) => Some(TableValue::S(to_vec(server.clients[i].termname.as_slice()))),
            None => None,
        },
        Var::ClientTty => match ft.c {
            Some(i) => Some(TableValue::S(to_vec(server.clients[i].tty.as_slice()))),
            None => None,
        },
        Var::ClientWidth => match ft.c {
            Some(i) => Some(TableValue::S(u64_dec(server.clients[i].width))),
            None => None,
        },
        Var::CursorX => match sw {
            Some((w, p)) => Some(TableValue::S(u64_dec(server.windows[w].panes[p].cursor_x))),
            None => None,
        },
        Var::CursorY => match sw {
            Some((w, p)) => Some(TableValue::S(u64_dec(server.windows[w].panes[p].cursor_y))),
            None => None,
        },
        Var::Host => Some(TableValue::S(to_vec(server.host.as_slice()))),
        Var::HostShort => Some(TableValue::S(host_short(server.host.as_slice()))),
        Var::PaneActive => match sw {
            Some((w, p)) => Some(TableValue::S(flag(p == server.windows[w].active))),
            None => None,
        },
        Var::PaneDead => match sw {
            Some((w, p)) => Some(TableValue::S(flag(server.windows[w].panes[p].dead))),
            None => None,
        },
        Var::PaneFormat => Some(TableValue::S(flag(
            ft.type_ == format_type::FORMAT_TYPE_PANE,
        ))),
        Var::PaneHeight => match sw {
            Some((w, p)) => Some(TableValue::S(u64_dec(server.windows[w].panes[p].height))),
            None => None,
        },
        Var::PaneId => match sw {
            Some((w, p)) => Some(TableValue::S(id_str('%' as u8, server.windows[w].panes[p].id))),
            None => None,
        },
        Var::PaneIndex => match sw {
            Some((w, p)) => Some(TableValue::S(u64_dec(p as u64))),
            None => None,
        },
        Var::PanePath => match sw {
            Some((w, p)) => Some(TableValue::S(to_vec(server.windows[w].panes[p].path.as_slice()))),
            None => None,
        },
        Var::PanePid => match sw {
            Some((w, p)) => Some(TableValue::S(u64_dec(server.windows[w].panes[p].pid))),
            None => None,
        },
        Var::PaneTitle => match sw {
            Some((w, p)) => Some(TableValue::S(to_vec(
                server.windows[w].panes[p].title.as_slice(),
            ))),
            None => None,
        },
        Var::PaneWidth => match sw {
            Some((w, p)) => Some(TableValue::S(u64_dec(server.windows[w].panes[p].width))),
            None => None,
        },
        Var::Pid => Some(TableValue::S(u64_dec(server.pid))),
        Var::SessionActivity => match ft.s {
            Some(i) => Some(TableValue::T(server.sessions[i].activity)),
            None => None,
        },
        Var::SessionAttached => match ft.s {
            Some(i) => Some(TableValue::S(u64_dec(server.sessions[i].attached))),
            None => None,
        },
        Var::SessionCreated => match ft.s {
            Some(i) => Some(TableValue::T(server.sessions[i].created)),
            None => None,
        },
        Var::SessionFormat => Some(TableValue::S(flag(
            ft.type_ == format_type::FORMAT_TYPE_SESSION,
        ))),
        Var::SessionId => match ft.s {
            Some(i) => Some(TableValue::S(id_str('$' as u8, server.sessions[i].id))),
            None => None,
        },
        Var::SessionLastAttached => match ft.s {
            Some(i) => Some(TableValue::T(server.sessions[i].last_attached)),
            None => None,
        },
        Var::SessionName => match ft.s {
            Some(i) => Some(TableValue::S(to_vec(server.sessions[i].name.as_slice()))),
            None => None,
        },
        Var::SessionPath => match ft.s {
            Some(i) => Some(TableValue::S(to_vec(server.sessions[i].path.as_slice()))),
            None => None,
        },
        Var::SessionWindows => match ft.s {
            Some(i) => Some(TableValue::S(u64_dec(server.sessions[i].winlinks.len() as u64))),
            None => None,
        },
        Var::StartTime => Some(TableValue::T(server.start_time)),
        Var::Version => Some(TableValue::S(to_vec(server.version.as_slice()))),
        Var::WindowActive => match ft.s {
            Some(i) => match ft.wl {
                Some(j) => Some(TableValue::S(flag(j == server.sessions[i].curw))),
                None => None,
            },
            None => None,
        },
        Var::WindowFormat => Some(TableValue::S(flag(
            ft.type_ == format_type::FORMAT_TYPE_WINDOW,
        ))),
        Var::WindowHeight => match ft.w {
            Some(i) => Some(TableValue::S(u64_dec(server.windows[i].height))),
            None => None,
        },
        Var::WindowId => match ft.w {
            Some(i) => Some(TableValue::S(id_str('@' as u8, server.windows[i].id))),
            None => None,
        },
        Var::WindowIndex => match ft.s {
            Some(i) => match ft.wl {
                Some(j) => Some(TableValue::S(u64_dec(server.sessions[i].winlinks[j].idx))),
                None => None,
            },
            None => None,
        },
        Var::WindowName => match ft.w {
            Some(i) => Some(TableValue::S(to_vec(server.windows[i].name.as_slice()))),
            None => None,
        },
        Var::WindowPanes => match ft.w {
            Some(i) => Some(TableValue::S(u64_dec(server.windows[i].panes.len() as u64))),
            None => None,
        },
        Var::WindowWidth => match ft.w {
            Some(i) => Some(TableValue::S(u64_dec(server.windows[i].width))),
            None => None,
        },
    }
}

} // verus!
