//! A Cluster's settings.

use vstd::prelude::*;
use crate::constants::{CLUSTER_PORT, DEFAULT_IP, MASTER_PORT};
use crate::config::master::port_or;

verus! {

pub struct Settings {
    pub server_name: String,
    /// 0 means no cap.
    pub max_connections: u32,
    pub port: u16,
    /// The name of the AES key the Cluster registers with.
    pub key_name: String,
    pub master_ip: String,
    pub master_port: u16,
    /// Reserved for trusting domain keys.
    pub domain_pub_key: Option<String>,
}

/// Decides a Cluster's settings from what the configuration gave for
/// `all.server_name`, `max_connections`, `all.port`, `cluster.key_name`,
/// `cluster.master_ip`, `cluster.master_port` and `cluster.domain_pub_key`.
pub fn read(
    server_name: Option<String>,
    max_connections: Option<u32>,
    port: Option<u16>,
    key_name: Option<String>,
    master_ip: Option<String>,
    master_port: Option<u16>,
    domain_pub_key: Option<String>,
) -> (r: Settings)
    ensures
        r.server_name@ == match server_name {
            Some(s) => s@,
            None => "Cluster Server"@,
        },
        r.max_connections == match max_connections {
            Some(m) => m,
            None => 0,
        },
        r.port == port_or(port, CLUSTER_PORT),
        r.key_name@ == match key_name {
            Some(s) => s@,
            None => "cluster_key"@,
        },
        r.master_ip@ == match master_ip {
            Some(s) => s@,
            None => DEFAULT_IP@,
        },
        r.master_port == port_or(master_port, MASTER_PORT),
        r.domain_pub_key == domain_pub_key,
{
    proof {
        reveal_strlit("Cluster Server");
        reveal_strlit("cluster_key");
        reveal_strlit("127.0.0.1");
    }
    Settings {
        server_name: match server_name {
            Some(s) => s,
            None => String::from_str("Cluster Server"),
        },
        max_connections: match max_connections {
            Some(m) => m,
            None => 0,
        },
        port: match port {
            Some(p) => if p == 0 { CLUSTER_PORT } else { p },
            None => CLUSTER_PORT,
        },
        key_name: match key_name {
            Some(s) => s,
            None => String::from_str("cluster_key"),
        },
        master_ip: match master_ip {
            Some(s) => s,
            None => String::from_str(DEFAULT_IP),
        },
        master_port: match master_port {
            Some(p) => if p == 0 { MASTER_PORT } else { p },
            None => MASTER_PORT,
        },
        domain_pub_key,
    }
}

} // verus!
