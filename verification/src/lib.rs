//! A template expansion engine for a terminal multiplexer: resolves
//! `#{...}` placeholders, `#(...)` shell-outs and `#X` aliases in
//! status-line and window-name templates against session, window, pane and
//! client state, with conditionals, comparisons, substitution, arithmetic,
//! truncation, padding and calendar output, bounded recursion, and a cache
//! that keeps at most one shell command running per key.

pub mod bytes;
pub mod colour;
pub mod expand;
pub mod expr;
pub mod find;
pub mod grid;
pub mod job;
pub mod kv;
pub mod model;
pub mod names;
pub mod nums;
pub mod pattern;
pub mod scan;
pub mod table;
pub mod time;
pub mod tree;
pub mod trim;

use vstd::prelude::*;

verus! {

/// A modifier list or placeholder body ends at `;` or `:`.
pub fn format_is_end(c: u8) -> (r: bool)
    ensures
        r == crate::scan::spec_is_end(c),
{
    c == ';' as u8 || c == ':' as u8
}

} // verus!
