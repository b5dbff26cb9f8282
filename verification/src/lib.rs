//! The commands of an in-memory key-value server: strings, lists, sets, streams,
//! JSON documents, transactions, publish and subscribe, persistence and
//! replication, with what each of them answers and changes stated and proved.
//!
//! A command is a function on a [`context::CommandContext`]: the client that asks,
//! the selected database, and the replies so far. Its contract equates what it
//! returns and what it leaves with an outcome that is computed from what was there
//! before. Time, seeds, thresholds, floating-point results and the results of input
//! and output are arguments: callers read them, the commands only decide.

pub mod bytes;
pub mod context;
pub mod dict;
pub mod entry_laws;
pub mod error;
pub mod filters;
pub mod glob;
pub mod group_laws;
pub mod json;
pub mod json_data;
pub mod json_edit;
pub mod json_laws;
pub mod json_number;
pub mod json_path;
pub mod json_places;
pub mod json_remove;
pub mod json_text;
pub mod keyspace;
pub mod latency;
pub mod lcs;
pub mod list;
pub mod list_laws;
pub mod list_move;
pub mod list_range;
pub mod list_type;
pub mod listeners;
pub mod lists;
pub mod migrate;
pub mod multi;
pub mod persist;
pub mod pick;
pub mod plain_text;
pub mod pubsub;
pub mod repl_state;
pub mod replica_dialer;
pub mod replica_stream;
pub mod replication;
pub mod replication_laws;
pub mod reply;
pub mod resp;
pub mod set;
pub mod set_algebra;
pub mod shutdown_signals;
pub mod slowlog;
pub mod stream;
pub mod stream_claim;
pub mod stream_data;
pub mod stream_groups;
pub mod stream_info;
pub mod stream_laws;
pub mod stream_parse;
pub mod stream_wake;
pub mod string;
pub mod string_laws;
pub mod string_multi;
pub mod waiters;
pub mod words;
