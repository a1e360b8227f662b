//! peekr: the verified core of a Docker log and stats viewer. A hub serves the
//! local Docker daemon to the browser, and remote agents connect to the hub to
//! serve theirs; this library holds the rules both sides follow.

use vstd::prelude::*;

pub mod agents;
pub mod api;
pub mod assets;
pub mod auth;
pub mod claims_json;
pub mod clock;
pub mod containers;
pub mod hosts;
pub mod logs;
pub mod protocol;
pub mod random;
pub mod stats;
pub mod text;

verus! {

} // verus!
