use sustenet::client::{Client, ClientState};
use sustenet::cluster::ClusterServer;
use sustenet::master::MasterServer;

#[test]
fn test_client() {
    println!("Testing client module");
    let client = Client::new();
    assert_eq!(client.get_state(), ClientState::Disconnected);
}

#[test]
fn test_cluster() {
    println!("Testing cluster module");
    let cluster = ClusterServer::new(0, 6257);
    assert_eq!(cluster.get_port(), 6257);
}

#[test]
fn test_master() {
    println!("Testing master module");
    let master = MasterServer::new(0, 6256);
    assert_eq!(master.get_port(), 6256);
}
