//! Fixed values shared by the three programs.

use vstd::prelude::*;

verus! {

pub const VERSION: &'static str = "0.1.3";

/// How many ticks are in a second.
pub const TICK_RATE: i32 = 30;

pub const DEFAULT_IP: &'static str = "127.0.0.1";

/// The Master's default port.
pub const MASTER_PORT: u16 = 6256;

/// A Cluster's default port.
pub const CLUSTER_PORT: u16 = 6257;

} // verus!
