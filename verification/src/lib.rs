//! Building business concepts directly from an event stream.
//!
//! Events carry domain identifiers; stream queries select the events of interest by name,
//! domain identifiers and position in the stream; states are built by applying the selected
//! events; decisions are taken on states and produce new events. The PostgreSQL side turns
//! queries into SQL criteria (values written inline or bound as parameters), builds the
//! inserts of events, the keys of snapshots and the migrations, and holds the decisions of
//! the event listeners.
use vstd::prelude::*;

pub mod decision;
pub mod domain_id;
pub mod domain_identifier;
pub mod event;
pub mod filter_expr;
pub mod identifier;
pub mod postgres;
pub mod serde;
pub mod state;
pub mod stream_query;
pub mod testing;
pub mod text;
pub mod utils;
