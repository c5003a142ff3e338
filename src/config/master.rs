//! The Master's settings.

use vstd::prelude::*;
use crate::constants::MASTER_PORT;

verus! {

pub struct Settings {
    pub server_name: String,
    /// 0 means no cap.
    pub max_connections: u32,
    pub port: u16,
}

/// The port a configured value stands for: 0 or nothing means the default.
pub open spec fn port_or(port: Option<u16>, default: u16) -> u16 {
    match port {
        Some(p) => if p == 0 { default } else { p },
        None => default,
    }
}

/// Decides the Master's settings from what the configuration gave for
/// `all.server_name`, `all.max_connections` and `all.port`.
pub fn read(server_name: Option<String>, max_connections: Option<u32>, port: Option<u16>) -> (r: Settings)
    ensures
        r.server_name@ == match server_name {
            Some(s) => s@,
            None => "Master Server"@,
        },
        r.max_connections == match max_connections {
            Some(m) => m,
            None => 0,
        },
        r.port == port_or(port, MASTER_PORT),
{
    proof { reveal_strlit("Master Server"); }
    Settings {
        server_name: match server_name {
            Some(s) => s,
            None => String::from_str("Master Server"),
        },
        max_connections: match max_connections {
            Some(m) => m,
            None => 0,
        },
        port: match port {
            Some(p) => if p == 0 { MASTER_PORT } else { p },
            None => MASTER_PORT,
        },
    }
}

} // verus!
