//! A verified storage engine for polling sessions: votings, per-user vote
//! dialogs, and the opaque custom ids behind interactive controls, kept in
//! four sorted string tables of an embedded single-file store, with a
//! derived secondary index maintained alongside its primary table.

pub mod chars;
pub mod codec;
pub mod db;
pub mod entities;
pub mod keys;
pub mod laws;
pub mod store;
pub mod util;
