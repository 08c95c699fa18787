//! Titanium: the verified core of a single-binary web runtime.
//!
//! The library holds the runtime's logic: route discovery and matching,
//! sessions and flash messages, the TTL cache, the pub/sub hub, the job
//! queue's bookkeeping, rate limiting, the WebSocket and cluster
//! bookkeeping, form validation and the page engine's helpers, SQL building,
//! media helpers, the AI assistant's routing and local replies, the command
//! line, and the request-dispatch decisions of the HTTP server. The I/O
//! around it (sockets, files, SQLite, threads, the clock, the script
//! interpreter and the template engine) lives in the application crate.

pub mod text;
pub mod router;
pub mod config;
pub mod keymap;
pub mod value;
pub mod session;
pub mod cache;
pub mod pubsub;
pub mod queue;
pub mod ratelimit;
pub mod engine;
pub mod media;
pub mod cluster;
pub mod websocket;
pub mod sql;
pub mod server;
pub mod cli;
pub mod ai;
pub mod vector;
