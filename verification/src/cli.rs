//! The commands of the tool.
pub mod args;
pub mod devices;
pub mod direction_laws;
pub mod hidden_laws;
pub mod pull;
pub mod push;
pub mod queue;
pub mod run_laws;
pub mod scan;
pub mod scan_laws;
pub mod shell;
pub mod size;
pub mod sync;
pub mod sync_laws;
pub mod writer;
pub mod writer_laws;
