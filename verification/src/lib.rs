//! The core of an agent harness: turns with durable receipts, capability projection, exact
//! approval, crash recovery, and the planes around them.
//!
//! Everything here computes on plain values. The host does the reading and writing, runs
//! processes and requests, and hands back what came of it.

// Texts, maps, JSON and copies.
pub mod datum;
pub mod json;
pub mod keyed;
pub mod text;
pub mod text_laws;
pub mod utf8;
pub mod wire;

// The protocol of threads, turns, tools and models.
pub mod approval;
pub mod context;
pub mod event;
pub mod executor;
pub mod fault_laws;
pub mod hook;
pub mod id;
pub mod model;
pub mod policy;
pub mod protocol;
pub mod protocol_laws;
pub mod tool;

// The agent loop, its journal and its recovery.
pub mod journal_laws;
pub mod recovery;
pub mod runtime;
pub mod store;
pub mod turn;
pub mod turn_laws;
pub mod turn_step_laws;

// Optional planes.
pub mod app_server;
pub mod context_fs;
pub mod context_laws;
pub mod entry_laws;
pub mod eval;
pub mod eval_laws;
pub mod interface_laws;
pub mod ledger;
pub mod ledger_laws;
pub mod ledger_step_laws;
pub mod memory;
pub mod memory_laws;
pub mod options;
pub mod output;
pub mod output_laws;
pub mod process;
pub mod process_laws;
pub mod progress;
pub mod provider;
pub mod provider_laws;
pub mod session;
pub mod stream;
pub mod stream_laws;
pub mod task;
pub mod task_laws;
pub mod transport;
pub mod transport_laws;
pub mod tui;
