//! A small persistent leaderboard: named scores for named players within
//! named games, with ranked top-N views.
//!
//! The crate is verified with Verus; its contracts are stated over `Map` and
//! `Seq` models of the stored data. It does no input or output: a server
//! around it holds the lock and the snapshot file. The one thing taken on
//! trust is the RON encoder and decoder of `rustbreak`, which stand behind two
//! wrappers in [`snapshot`].

pub mod auth;
pub mod board;
pub mod laws;
pub mod ranking;
pub mod scores;
pub mod service;
pub mod snapshot;
pub mod store;
pub mod style;
pub mod table;
pub mod text;
