//! Supervising a `dsh web` server from a desktop shell.
use vstd::prelude::*;

pub mod bytes;
pub mod childenv;
pub mod config;
pub mod generations;
pub mod harness;
pub mod identity;
pub mod json;
pub mod launch;
pub mod locator;
pub mod number;
pub mod paths;
pub mod process;
pub mod redaction;
pub mod resolve;
pub mod runtime;
pub mod scripts;
pub mod search;
pub mod search_path;
pub mod seed;
pub mod shellenv;
pub mod snapshot;
pub mod split;
pub mod supervise;
pub mod takeover;
pub mod text;
pub mod transaction;
pub mod update;
pub mod update_flow;
pub mod version;
pub mod webview;
pub mod window;

verus! {

} // verus!
