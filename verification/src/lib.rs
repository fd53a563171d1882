//! Wi-Fi diagnostics: 802.11 beacon analysis, connection history and a
//! change-only chronicle of what the radio does.
//!
//! Analysis is kept apart from collection. The library takes what a collector
//! read, as plain values, and decides: what changed, what to record, which
//! probes to run, what a history amounts to, what to answer. Whoever holds the
//! radio, the files and the sockets does the rest.
//!
//! The contracts say what each function returns, over models of its values: a
//! text is its characters, a map is a map, and a type with more to it has a view
//! of its own. The public proof functions are the laws that hold between them.

use vstd::prelude::*;

pub mod chronicle;
pub mod connectivity;
pub mod counting;
pub mod embedded;
pub mod esp_idf;
pub mod events;
pub mod json;
pub mod link;
pub mod mcp;
pub mod num;
pub mod ordered;
pub mod scan;
pub mod schema;
pub mod sorting;
pub mod text;
pub mod time;
pub mod wlan;

verus! {

} // verus!
