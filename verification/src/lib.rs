//! A fixed-size worker pool, verified, and a handful of small programs'
//! rules beside it.
//!
//! The pool is the heart of the crate. `pool::ThreadPool` holds the whole
//! state of a pool of workers around one shared queue and decides every
//! change to it; `model` says what each change is, `history` keeps the record
//! of an execution, and `laws` proves what holds of all of them: that every
//! job runs exactly once, that jobs start in parallel, that shutdown waits
//! for every worker, ends, and can be repeated without harm.
//!
//! The other modules hold the rules of a line search (`minigrep`), of a
//! guessing game (`guessing`), of a small web server's answers (`web`) and
//! of a key-value store in shards (`kv`), and a garden (`garden`).

pub mod error;
pub mod garden;
pub mod guessing;
pub mod history;
pub mod kv;
pub mod laws;
pub mod minigrep;
pub mod model;
pub mod pool;
pub mod queue;
pub mod web;
pub mod worker;
