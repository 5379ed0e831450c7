//! A small native library around one operation: listing the CSV files of a
//! team-points data directory whose names match a fixed pattern, most recent
//! (lexically greatest) name first. A fixed greeting is exposed beside it as a
//! liveness check for the embedding boundary.
//!
//! The library itself is pure: the ambient context the listing depends on
//! (the configured directory, whether it exists, and the raw scan of the
//! filesystem) is read at the embedding boundary and handed in as plain
//! values. Every decision made on those values is specified and verified here.
use vstd::prelude::*;

pub mod csv_handler;
pub mod order;

verus! {

/// The exact text of the greeting.
pub open spec fn greeting() -> Seq<char> {
    "Hello from rustlibs, implemented in Rust!"@
}

/// Returns the fixed greeting: always the same non-empty constant string,
/// whatever the environment or filesystem hold.
pub fn greet() -> (r: String)
    ensures
        r@ == greeting(),
        r@.len() > 0,
{
    let r: String = "Hello from rustlibs, implemented in Rust!".to_owned();
    proof {
        reveal_strlit("Hello from rustlibs, implemented in Rust!");
    }
    r
}

} // verus!
