//! A key-indexed registry of append-only string stacks, backed by a sharded
//! concurrent map, with JSON snapshots of one stack or of every stack whose
//! key holds a given substring.

mod backing;
mod json;
mod laws;
mod model;
mod search;
mod store;

pub use json::{
    escape_char, escape_str, hex_digit, join_commas, json_array, json_of_entries, json_of_stack,
    json_string,
};
pub use laws::{
    law_drop_once, law_dropped_stays_absent, law_empty_filter_selects_all, law_push_keeps_prefix,
    law_push_order, law_push_then_snapshot, law_pushes_append_all, law_selection_exact, pushed_all,
};
pub use model::{
    entries_view, key_matches, opt_view, pushed, selection, snapshot_of, stack_or_empty, strs_view,
};
pub use search::{contains_bytes, is_infix};
pub use store::StackStore;
