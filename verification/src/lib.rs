//! Decisions behind the `mati` command line: what each command computes, apart
//! from reading files, talking to the daemon and printing.
#![allow(unused_imports)]

pub mod check;
pub mod civil;
pub mod clusters;
pub mod colors;
pub mod config;
pub mod daemon;
pub mod diff;
pub mod doctor;
pub mod enforce;
pub mod enrich;
pub mod eval;
pub mod explain;
pub mod gaps;
pub mod gate;
pub mod globs;
pub mod gotcha;
pub mod history;
pub mod hook;
pub mod hooks;
pub mod host;
pub mod init;
pub mod json;
pub mod language;
pub mod listing;
pub mod paths;
pub mod policy;
pub mod proxy;
pub mod ranking;
pub mod record;
pub mod repair;
pub mod sandbox;
pub mod search;
pub mod sentinel;
pub mod show;
pub mod signals;
pub mod stale;
pub mod startup;
pub mod strset;
pub mod text;
