//! Core logic of a multi-protocol download engine.
//!
//! The crate holds every decision of the engine as plain, verified functions
//! and state machines. Clocks, sockets and files live outside: callers hand in
//! times as integers and the results of I/O as values.

pub mod adaptive;
pub mod bits;
pub mod bt;
pub mod compat;
pub mod config;
pub mod conns;
pub mod ctrl;
pub mod drive;
pub mod errors;
pub mod estimate;
pub mod geo;
pub mod headers;
pub mod json;
pub mod lifecycle;
pub mod lists;
pub mod manager;
pub mod manifest;
pub mod media;
pub mod native;
pub mod options;
pub mod outcome;
pub mod outside;
pub mod perform;
pub mod pieces;
pub mod playlist;
pub mod queries;
pub mod ranges;
pub mod rate;
pub mod requests;
pub mod restore;
pub mod router;
pub mod rpc;
pub mod segments;
pub mod session;
pub mod settings;
pub mod shown;
pub mod start;
pub mod status;
pub mod subscriptions;
pub mod task;
pub mod text;
pub mod torrent;
pub mod trackers;
pub mod worker;
pub mod writer;
