//! Native backend core for a desktop chat application.
//!
//! The crate models the backend's command surface: the versioned schema
//! migration list, the window-control state machine, the HTTP passthrough
//! request/response handling, and the relational store's cascade rules.
//! The host-framework wiring (plugin registration, event loop) lives
//! outside this library.

use vstd::prelude::*;
use vstd::string::StringExecFns;

pub mod http;
pub mod migrations;
pub mod store;
pub mod window;

verus! {

/// Builds the greeting returned by the `greet` command.
pub fn greet(name: &str) -> (r: String)
    ensures
        r@ == "Hello, "@ + name@ + "! You've been greeted from Rust!"@,
{
    let mut r = String::from_str("Hello, ");
    r.append(name);
    r.append("! You've been greeted from Rust!");
    r
}

} // verus!
