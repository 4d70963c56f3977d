//! Traffic core of a reverse proxy: admission control, routing and
//! upstream selection, with their decisions stated and proved.

use vstd::prelude::*;

pub mod config;
pub mod ip_table;
pub mod token_bucket;
pub mod rate_limiter;
pub mod router;
pub mod text;
pub mod proxy;

verus! {

} // verus!
