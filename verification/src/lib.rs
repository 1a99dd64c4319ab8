//! SessionGuard keeps AI coding sessions intact when projects move.
#![allow(unused_imports)]

use vstd::prelude::*;

pub mod activity;
pub mod atomic;
pub mod chars;
pub mod cli;
pub mod config;
pub mod daemon;
pub mod detector;
pub mod documents;
pub mod error;
pub mod event_log;
pub mod fleet;
pub mod globs;
pub mod health;
pub mod inventory;
pub mod known;
pub mod laws;
pub mod migrate;
pub mod order;
pub mod paths;
pub mod picks;
pub mod reconcile;
pub mod reconciler;
pub mod registry;
pub mod rekey;
pub mod service;
pub mod sessions;
pub mod sorted;
pub mod text;
pub mod tools;
pub mod update;
pub mod watcher;

verus! {

} // verus!
