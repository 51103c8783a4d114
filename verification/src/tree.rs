//! The expansion context ("format tree"): which client, session, winlink and
//! pane a template is resolved against, the caller's variable overrides, and
//! the flags and tag that scope jobs.

use vstd::prelude::*;
use crate::kv::SortedKv;
use crate::model::Server;
use crate::bytes::to_vec;

verus! {

/// Context flags.
pub const FORMAT_STATUS: u32 = 0x1;

pub const FORMAT_FORCE: u32 = 0x2;

pub const FORMAT_NOJOBS: u32 = 0x4;

pub const FORMAT_VERBOSE: u32 = 0x8;

/// Tag value meaning "no particular window or pane".
pub const FORMAT_NONE: u32 = 0;

/// What kind of scope the defaulting step found.
#[derive(PartialEq, Eq, Structural, Clone, Copy, Debug)]
pub enum format_type {
    FORMAT_TYPE_UNKNOWN,
    FORMAT_TYPE_SESSION,
    FORMAT_TYPE_WINDOW,
    FORMAT_TYPE_PANE,
}

/// A caller-supplied override: either a literal value or a timestamp.
pub struct format_entry {
    pub value: Option<Vec<u8>>,
    pub time: i64,
}

pub struct format_tree {
    pub type_: format_type,
    /// Scope handles: indices into the server model.
    pub c: Option<usize>,
    pub s: Option<usize>,
    /// Winlink position inside session `s`.
    pub wl: Option<usize>,
    /// Window index in the server's window list.
    pub w: Option<usize>,
    /// Pane position inside window `w`.
    pub wp: Option<usize>,
    pub pb: Option<usize>,
    /// Client that owns any jobs this expansion starts.
    pub client: Option<usize>,
    pub flags: u32,
    pub tag: u32,
    /// The current wall-clock time, supplied by the caller.
    pub now: i64,
    /// Seconds east of UTC, applied before calendar output.
    pub tz_offset: i64,
    pub vars: SortedKv<format_entry>,
}

impl format_tree {
    pub open spec fn wf(self, server: Server) -> bool {
        &&& self.vars.wf()
        &&& match self.c {
            Some(i) => i < server.clients@.len(),
            None => true,
        }
        &&& match self.client {
            Some(i) => i < server.clients@.len(),
            None => true,
        }
        &&& match self.s {
            Some(i) => i < server.sessions@.len() && (match self.wl {
                Some(j) => j < server.sessions@[i as int].winlinks@.len(),
                None => true,
            }),
            None => self.wl is None,
        }
        &&& match self.w {
            Some(i) => i < server.windows@.len() && (match self.wp {
                Some(j) => j < server.windows@[i as int].panes@.len(),
                None => true,
            }),
            None => self.wp is None,
        }
        &&& match self.pb {
            Some(i) => i < server.paste_buffers@.len(),
            None => true,
        }
    }
}

/// Make an empty context owned by `client`, with no scope set yet.
pub fn format_create(client: Option<usize>, tag: u32, flags: u32, now: i64, tz_offset: i64) -> (r:
    format_tree)
    ensures
        r.type_ == format_type::FORMAT_TYPE_UNKNOWN,
        r.c is None && r.s is None && r.wl is None && r.w is None && r.wp is None && r.pb is None,
        r.client == client,
        r.tag == tag,
        r.flags == flags,
        r.now == now,
        r.tz_offset == tz_offset,
        r.vars.wf(),
        forall|k: Seq<u8>| r.vars.spec_get(k) is None,
{
    format_tree {
        type_: format_type::FORMAT_TYPE_UNKNOWN,
        c: None,
        s: None,
        wl: None,
        w: None,
        wp: None,
        pb: None,
        client,
        flags,
        tag,
        now,
        tz_offset,
        vars: SortedKv::new(),
    }
}

/// Fill in whichever scope handles are given and derive the rest: a client
/// supplies its session, a session its current winlink, a winlink its window,
/// and a window its active pane; the top paste buffer is attached when none
/// is set. The scope type records which handle was given directly.
pub fn format_defaults(
    ft: &mut format_tree,
    server: &Server,
    c: Option<usize>,
    s: Option<usize>,
    wl: Option<usize>,
    wp: Option<usize>,
)
    requires
        server.wf(),
        old(ft).vars.wf(),
        match c {
            Some(i) => i < server.clients@.len(),
            None => true,
        },
        match s {
            Some(i) => i < server.sessions@.len(),
            None => true,
        },
        wl is Some ==> s is Some && wl.unwrap() < server.sessions@[s.unwrap() as int].winlinks@.len(),
        old(ft).client is Some ==> old(ft).client.unwrap() < server.clients@.len(),
        old(ft).pb is Some ==> old(ft).pb.unwrap() < server.paste_buffers@.len(),
    ensures
        final(ft).wf(*server),
        final(ft).type_ == (if wp is Some {
            format_type::FORMAT_TYPE_PANE
        } else if wl is Some {
            format_type::FORMAT_TYPE_WINDOW
        } else if s is Some {
            format_type::FORMAT_TYPE_SESSION
        } else {
            format_type::FORMAT_TYPE_UNKNOWN
        }),
        final(ft).c == c,
        final(ft).s == (if s is Some {
            s
        } else if c is Some {
            server.clients@[c.unwrap() as int].session
        } else {
            None::<usize>
        }),
        final(ft).wl == (if wl is Some {
            wl
        } else if final(ft).s is Some {
            Some(server.sessions@[final(ft).s.unwrap() as int].curw)
        } else {
            None::<usize>
        }),
        final(ft).w == (if final(ft).s is Some {
            Some(
                server.sessions@[final(ft).s.unwrap() as int]
                    .winlinks@[final(ft).wl.unwrap() as int].window,
            )
        } else {
            None::<usize>
        }),
        final(ft).w is Some ==> final(ft).wp == (if wp is Some
            && wp.unwrap() < server.windows@[final(ft).w.unwrap() as int].panes@.len() {
            wp
        } else {
            Some(server.windows@[final(ft).w.unwrap() as int].active)
        }),
        final(ft).w is None ==> final(ft).wp is None,
        final(ft).vars == old(ft).vars,
        final(ft).client == old(ft).client,
        final(ft).flags == old(ft).flags,
        final(ft).tag == old(ft).tag,
        final(ft).now == old(ft).now,
        final(ft).tz_offset == old(ft).tz_offset,
        final(ft).pb == (if old(ft).pb is Some {
            old(ft).pb
        } else if server.paste_buffers@.len() > 0 {
            Some(0usize)
        } else {
            None
        }),
{
    ft.type_ = if wp.is_some() {
        format_type::FORMAT_TYPE_PANE
    } else if wl.is_some() {
        format_type::FORMAT_TYPE_WINDOW
    } else if s.is_some() {
        format_type::FORMAT_TYPE_SESSION
    } else {
        format_type::FORMAT_TYPE_UNKNOWN
    };

    ft.c = c;

    let s2: Option<usize> = if s.is_some() {
        s
    } else if let Some(ci) = c {
        server.clients[ci].session
    } else {
        None
    };
    ft.s = s2;

    let wl2: Option<usize> = if wl.is_some() {
        wl
    } else if let Some(si) = s2 {
        Some(server.sessions[si].curw)
    } else {
        None
    };
    ft.wl = wl2;

    let w2: Option<usize> = if let Some(si) = s2 {
        if let Some(wli) = wl2 {
            Some(server.sessions[si].winlinks[wli].window)
        } else {
            None
        }
    } else {
        None
    };
    ft.w = w2;

    let wp2: Option<usize> = if let Some(wi) = w2 {
        if let Some(pi) = wp {
            if pi < server.windows[wi].panes.len() {
                Some(pi)
            } else {
                Some(server.windows[wi].active)
            }
        } else {
            Some(server.windows[wi].active)
        }
    } else {
        None
    };
    ft.wp = wp2;

    if ft.pb.is_none() && server.paste_buffers.len() > 0 {
        ft.pb = Some(0);
    }
}

/// Add (or replace) a literal override.
pub fn format_add(ft: &mut format_tree, key: &[u8], value: &[u8])
    requires
        old(ft).vars.wf(),
    ensures
        final(ft).vars.wf(),
        (final(ft).vars.spec_get(key@) matches Some(e) && e.value matches Some(v)
            && v@ == value@ && e.time == 0),
        forall|k2: Seq<u8>|
            k2 != key@ ==> final(ft).vars.spec_get(k2) == old(ft).vars.spec_get(k2),
        *final(ft) == (format_tree { vars: final(ft).vars, ..*old(ft) }),
{
    let e = format_entry { value: Some(to_vec(value)), time: 0 };
    ft.vars.insert(to_vec(key), e);
}

/// Add (or replace) a timestamp override.
pub fn format_add_tv(ft: &mut format_tree, key: &[u8], secs: i64)
    requires
        old(ft).vars.wf(),
    ensures
        final(ft).vars.wf(),
        (final(ft).vars.spec_get(key@) matches Some(e) && e.value is None && e.time == secs),
        forall|k2: Seq<u8>|
            k2 != key@ ==> final(ft).vars.spec_get(k2) == old(ft).vars.spec_get(k2),
        *final(ft) == (format_tree { vars: final(ft).vars, ..*old(ft) }),
{
    let e = format_entry { value: None, time: secs };
    ft.vars.insert(to_vec(key), e);
}

/// Copy every literal override of `from` into `ft`.
pub fn format_merge(ft: &mut format_tree, from: &format_tree)
    requires
        old(ft).vars.wf(),
        from.vars.wf(),
    ensures
        final(ft).vars.wf(),
        *final(ft) == (format_tree { vars: final(ft).vars, ..*old(ft) }),
        forall|k2: Seq<u8>|
            (match #[trigger] from.vars.spec_get(k2) {
                Some(e) => e.value is Some,
                None => false,
            }) ==> (final(ft).vars.spec_get(k2) matches Some(e2) && e2.value matches Some(v2)
                && v2@ == from.vars.spec_get(k2).unwrap().value.unwrap()@ && e2.time == 0),
{
    let n = from.vars.len();
    let mut i: usize = 0;
    while i < n
        invariant
            n == from.vars.spec_len(),
            i <= n,
            ft.vars.wf(),
            from.vars.wf(),
            *ft == (format_tree { vars: ft.vars, ..*old(ft) }),
            forall|j: int|
                0 <= j < i && (#[trigger] from.vars.spec_val_at(j)).value is Some
                    ==> (ft.vars.spec_get(from.vars.spec_key_at(j)) matches Some(e2)
                    && e2.value matches Some(v2)
                    && v2@ == from.vars.spec_val_at(j).value.unwrap()@ && e2.time == 0),
        decreases n - i,
    {
        let key = from.vars.key_at(i);
        let val = from.vars.val_at(i);
        if let Some(v) = &val.value {
            let key2 = to_vec(key.as_slice());
            let e = format_entry { value: Some(to_vec(v.as_slice())), time: 0 };
            let ghost prevars = ft.vars;
            ft.vars.insert(key2, e);
            proof {
                assert forall|j: int|
                    0 <= j < i + 1 && (#[trigger] from.vars.spec_val_at(j)).value is Some
                        implies ft.vars.spec_get(from.vars.spec_key_at(j)) matches Some(e2)
                        && e2.value matches Some(v2)
                        && v2@ == from.vars.spec_val_at(j).value.unwrap()@ && e2.time == 0 by {
                    if j < i && from.vars.spec_key_at(j) != from.vars.spec_key_at(i as int) {
                        assert(ft.vars.spec_get(from.vars.spec_key_at(j)) == prevars.spec_get(
                            from.vars.spec_key_at(j),
                        ));
                    } else if j < i {
                        crate::kv::lemma_lex_asym(
                            from.vars.spec_key_at(j),
                            from.vars.spec_key_at(i as int),
                        );
                    }
                }
            }
        } else {
            proof {
                assert forall|j: int|
                    0 <= j < i + 1 && (#[trigger] from.vars.spec_val_at(j)).value is Some
                        implies ft.vars.spec_get(from.vars.spec_key_at(j)) matches Some(e2)
                        && e2.value matches Some(v2)
                        && v2@ == from.vars.spec_val_at(j).value.unwrap()@ && e2.time == 0 by {}
            }
        }
        i = i + 1;
    }
    proof {
        assert forall|k2: Seq<u8>|
            (match #[trigger] from.vars.spec_get(k2) {
                Some(e) => e.value is Some,
                None => false,
            }) implies ft.vars.spec_get(k2) matches Some(e2) && e2.value matches Some(v2)
            && v2@ == from.vars.spec_get(
            k2,
        ).unwrap().value.unwrap()@ && e2.time == 0 by {
            let j = from.vars.key_index(k2);
            assert(from.vars.spec_key_at(j) == k2);
            assert(from.vars.spec_val_at(j) == from.vars.spec_get(k2).unwrap());
        }
    }
}


/// Ghost image of an override entry.
pub struct EntrySpec {
    pub value: Option<Seq<u8>>,
    pub time: i64,
}

impl View for format_entry {
    type V = EntrySpec;

    open spec fn view(&self) -> EntrySpec {
        EntrySpec {
            value: match self.value {
                Some(v) => Some(v@),
                None => None,
            },
            time: self.time,
        }
    }
}

/// Ghost image of a context: the same scope fields, with the override table
/// as a map. The spec-level expansion runs over this image, so that child
/// contexts can be written down in specifications.
#[verifier::ext_equal]
pub struct FtSpec {
    pub type_: format_type,
    pub c: Option<usize>,
    pub s: Option<usize>,
    pub wl: Option<usize>,
    pub w: Option<usize>,
    pub wp: Option<usize>,
    pub pb: Option<usize>,
    pub client: Option<usize>,
    pub flags: u32,
    pub tag: u32,
    pub now: i64,
    pub tz_offset: i64,
    pub vars: Map<Seq<u8>, EntrySpec>,
}

impl View for format_tree {
    type V = FtSpec;

    open spec fn view(&self) -> FtSpec {
        FtSpec {
            type_: self.type_,
            c: self.c,
            s: self.s,
            wl: self.wl,
            w: self.w,
            wp: self.wp,
            pb: self.pb,
            client: self.client,
            flags: self.flags,
            tag: self.tag,
            now: self.now,
            tz_offset: self.tz_offset,
            vars: Map::new(
                |k: Seq<u8>| self.vars.spec_get(k) is Some,
                |k: Seq<u8>| self.vars.spec_get(k).unwrap()@,
            ),
        }
    }
}

impl FtSpec {
    pub open spec fn wf(self, server: Server) -> bool {
        &&& match self.c {
            Some(i) => i < server.clients@.len(),
            None => true,
        }
        &&& match self.client {
            Some(i) => i < server.clients@.len(),
            None => true,
        }
        &&& match self.s {
            Some(i) => i < server.sessions@.len() && (match self.wl {
                Some(j) => j < server.sessions@[i as int].winlinks@.len(),
                None => true,
            }),
            None => self.wl is None,
        }
        &&& match self.w {
            Some(i) => i < server.windows@.len() && (match self.wp {
                Some(j) => j < server.windows@[i as int].panes@.len(),
                None => true,
            }),
            None => self.wp is None,
        }
        &&& match self.pb {
            Some(i) => i < server.paste_buffers@.len(),
            None => true,
        }
    }
}

} // verus!
