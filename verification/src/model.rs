//! Plain-data model of the live server state the engine reads: sessions,
//! windows linked into them, panes, clients and paste buffers, plus the
//! option and environment tables. The engine only ever reads these values;
//! their lifecycle belongs to the surrounding server.

use vstd::prelude::*;
use crate::kv::SortedKv;

verus! {

pub struct Pane {
    /// The `%id` of the pane.
    pub id: u64,
    pub title: Vec<u8>,
    pub width: u64,
    pub height: u64,
    pub path: Vec<u8>,
    pub pid: u64,
    pub dead: bool,
    /// Visible and history text, one line per entry, for searches.
    pub lines: Vec<Vec<u8>>,
    pub cursor_x: u64,
    pub cursor_y: u64,
    /// Command line the pane was started with, and the fallback shell.
    pub start_command: Vec<u8>,
    pub shell: Vec<u8>,
    pub options: SortedKv<Vec<u8>>,
}

pub struct Window {
    /// The `@id` of the window.
    pub id: u64,
    pub name: Vec<u8>,
    pub width: u64,
    pub height: u64,
    pub panes: Vec<Pane>,
    /// Index of the active pane in `panes`.
    pub active: usize,
    pub options: SortedKv<Vec<u8>>,
}

/// A binding of a window into a session's window list.
pub struct Winlink {
    pub idx: u64,
    /// Index of the window in the server's window list.
    pub window: usize,
}

pub struct Session {
    /// The `$id` of the session.
    pub id: u64,
    pub name: Vec<u8>,
    /// Winlinks in index order.
    pub winlinks: Vec<Winlink>,
    /// Position of the current winlink in `winlinks`.
    pub curw: usize,
    pub attached: u64,
    pub created: i64,
    pub activity: i64,
    pub last_attached: i64,
    pub path: Vec<u8>,
    pub options: SortedKv<Vec<u8>>,
    pub environ: SortedKv<Vec<u8>>,
}

pub struct Client {
    pub name: Vec<u8>,
    pub tty: Vec<u8>,
    pub termname: Vec<u8>,
    pub width: u64,
    pub height: u64,
    pub pid: u64,
    pub created: i64,
    pub activity: i64,
    /// Index of the attached session, if any.
    pub session: Option<usize>,
}

pub struct PasteBuffer {
    pub name: Vec<u8>,
    pub data: Vec<u8>,
    pub created: i64,
}

pub struct Server {
    /// Sessions in id order.
    pub sessions: Vec<Session>,
    pub windows: Vec<Window>,
    /// Clients in list order.
    pub clients: Vec<Client>,
    pub paste_buffers: Vec<PasteBuffer>,
    pub global_options: SortedKv<Vec<u8>>,
    pub global_w_options: SortedKv<Vec<u8>>,
    pub global_s_options: SortedKv<Vec<u8>>,
    pub global_environ: SortedKv<Vec<u8>>,
    pub host: Vec<u8>,
    pub pid: u64,
    pub version: Vec<u8>,
    pub start_time: i64,
}

impl Server {
    /// Every cross-reference lands in bounds and every table is ordered.
    pub open spec fn wf(self) -> bool {
        &&& forall|i: int|
            0 <= i < self.sessions@.len() ==> (#[trigger] self.sessions@[i]).wf(self)
        &&& forall|i: int| 0 <= i < self.windows@.len() ==> (#[trigger] self.windows@[i]).wf()
        &&& forall|i: int|
            0 <= i < self.clients@.len() ==> (#[trigger] self.clients@[i]).wf(self)
        &&& self.global_options.wf()
        &&& self.global_w_options.wf()
        &&& self.global_s_options.wf()
        &&& self.global_environ.wf()
    }
}

impl Session {
    pub open spec fn wf(self, server: Server) -> bool {
        &&& self.winlinks@.len() > 0
        &&& self.curw < self.winlinks@.len()
        &&& forall|j: int|
            0 <= j < self.winlinks@.len() ==> (#[trigger] self.winlinks@[j]).window
                < server.windows@.len()
        &&& self.options.wf()
        &&& self.environ.wf()
    }
}

impl Window {
    pub open spec fn wf(self) -> bool {
        &&& self.panes@.len() > 0
        &&& self.active < self.panes@.len()
        &&& self.options.wf()
        &&& forall|j: int| 0 <= j < self.panes@.len() ==> (#[trigger] self.panes@[j]).options.wf()
    }
}

impl Client {
    pub open spec fn wf(self, server: Server) -> bool {
        match self.session {
            Some(s) => s < server.sessions@.len(),
            None => true,
        }
    }
}

} // verus!
