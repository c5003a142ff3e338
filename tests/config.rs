use sustenet::config::{cluster, master};

#[test]
fn master_defaults() {
    let s = master::read(None, None, None);
    assert_eq!(s.server_name, "Master Server");
    assert_eq!(s.max_connections, 0);
    assert_eq!(s.port, 6256);
    let s = master::read(Some("M".to_string()), Some(5), Some(0));
    assert_eq!(s.server_name, "M");
    assert_eq!(s.max_connections, 5);
    assert_eq!(s.port, 6256);
    assert_eq!(master::read(None, None, Some(9000)).port, 9000);
}

#[test]
fn cluster_defaults() {
    let s = cluster::read(None, None, None, None, None, None, None);
    assert_eq!(s.server_name, "Cluster Server");
    assert_eq!(s.port, 6257);
    assert_eq!(s.key_name, "cluster_key");
    assert_eq!(s.master_ip, "127.0.0.1");
    assert_eq!(s.master_port, 6256);
    assert_eq!(s.domain_pub_key, None);
    let s = cluster::read(None, Some(3), Some(7000), Some("k".to_string()), Some("10.0.0.2".to_string()), Some(0), Some("d".to_string()));
    assert_eq!(s.max_connections, 3);
    assert_eq!(s.port, 7000);
    assert_eq!(s.key_name, "k");
    assert_eq!(s.master_ip, "10.0.0.2");
    assert_eq!(s.master_port, 6256);
    assert_eq!(s.domain_pub_key, Some("d".to_string()));
}
