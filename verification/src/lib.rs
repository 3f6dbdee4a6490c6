//! Building blocks for programs that wait for many things at once.
//!
//! The core is the bookkeeping of a single-threaded event loop that merges
//! three sources of events: expiring timers, completions from a fixed pool
//! of worker threads, and readiness notifications from a poller thread.
//! Nothing in it blocks, spawns or calls back. The crate decides; a driver
//! around it owns the threads and the channel, performs what the crate
//! returns, and feeds back what happened.
//!
//! - `js`, `task`, `event`: the values that travel between the loop and
//!   its threads.
//! - `timers`, `registry`, `pool`: the three stores of the loop.
//! - `model`, `runtime`: the loop as a state machine, and the executable
//!   runtime that follows it.
//! - `preserve`, `firing`, `accounting`, `shutdown`: what is proved of the
//!   loop.
//!
//! Beside the loop stand the rules of a few small programs of the same
//! kind: a scheduler of cooperative threads (`green`), a chat room
//! (`chat`), pieces of an HTTP server (`http`), a search by halving
//! (`search`) and a one-letter parser (`parser`).

pub mod js;
pub mod task;
pub mod event;
pub mod timers;
pub mod registry;
pub mod pool;
pub mod model;
pub mod runtime;
pub mod preserve;
pub mod firing;
pub mod accounting;
pub mod shutdown;
pub mod green;
pub mod chat;
pub mod http;
pub mod search;
pub mod parser;
