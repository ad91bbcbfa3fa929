//! Execution and streaming engine of a remote shell worker: sequenced output
//! frames, a bounded replay backlog, the NDJSON line codec and the resumable
//! stream encoder.
pub mod text;
pub mod frame;
pub mod backlog;
pub mod stream;
pub mod encoder;
pub mod hub;
pub mod exec;
pub mod job;
pub mod profile;
pub mod deadline;
pub mod ndjson;
pub mod gateway;
