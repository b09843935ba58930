//! Session tokens and their life cycle.
//!
//! A session token is an opaque handle that is replaced on every successful
//! use. This crate holds the rules that decide when a token is trusted, when
//! it is replaced and when it may be thrown away, each with a contract that
//! is proved against a mathematical model of the token table and the user
//! directory.
//!
//! - `clock`, `token`, `user`, `error`: the values the rules speak of.
//! - `token_store`, `directory`: the two tables as mathematical values, and
//!   stores in memory that are proved to implement them.
//! - `session`: the two expiry policies.
//! - `flow`: the decisions of a request, one step at a time, for whoever
//!   performs the store and network calls in between.
//! - `service`: the same flows run to the end against the stores in memory.
//! - `wire`, `boundary`: handles as text, and the calls as a client sees
//!   them.
//! - `laws`: what holds of all of it, whatever is done in whatever order.

pub mod boundary;
pub mod clock;
pub mod directory;
pub mod error;
pub mod flow;
pub mod laws;
pub mod service;
pub mod session;
pub mod token;
pub mod token_store;
pub mod user;
pub mod wire;
