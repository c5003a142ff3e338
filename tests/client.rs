use sustenet::client::{Client, ClientAction, ClientError, ClientEvent, ClientState, ConnectionType};
use sustenet::codec::{decode_frame, encode_frame, ClusterInfo, Frame};

fn info(name: &str, port: u16) -> ClusterInfo {
    ClusterInfo { name: name.to_string(), ip: "127.0.0.1".to_string(), port, max_connections: 10 }
}

#[test]
fn fresh_client_gets_an_empty_list() {
    let mut client = Client::new();
    assert_eq!(client.on_connected(), ClientEvent::Connected);
    client.add_cluster_server(info("stale", 1));
    assert_eq!(client.request_clusters(), vec![230]);
    let events = client.handle_command(decode_frame(&[231, 0], 0));
    assert_eq!(events, vec![ClientEvent::CommandReceived(231)]);
    assert!(client.get_cluster_servers().is_empty());
}

#[test]
fn client_switches_from_master_to_cluster() {
    let mut client = Client::new();
    client.on_connected();
    assert_eq!(client.connection_type(), ConnectionType::MasterServer);
    let list = encode_frame(&Frame::SendClusters(vec![info("main", 7000)])).unwrap();
    client.handle_command(decode_frame(&list, 0));
    assert_eq!(client.get_cluster_servers().len(), 1);
    assert_eq!(client.join(0), Ok(ClientAction::CloseActive));
    assert_eq!(client.get_state(), ClientState::Switching(0));
    let (event, action) = client.on_disconnected();
    assert_eq!(event, ClientEvent::Disconnected);
    assert_eq!(action, ClientAction::Connect("127.0.0.1".to_string(), 7000));
    assert_eq!(client.on_connected(), ClientEvent::Connected);
    assert_eq!(client.get_state(), ClientState::ClusterConnected);
    assert_eq!(client.connection_type(), ConnectionType::ClusterServer);
    let (_, action) = client.on_disconnected();
    assert_eq!(action, ClientAction::Nothing);
    assert_eq!(client.connection_type(), ConnectionType::NotConnected);
}

#[test]
fn join_needs_the_master_and_a_known_cluster() {
    let mut client = Client::new();
    assert_eq!(client.join(0), Err(ClientError::NotOnMaster));
    client.on_connected();
    assert_eq!(client.join(0), Err(ClientError::NoSuchCluster));
    assert_eq!(client.get_state(), ClientState::MasterConnected);
}

#[test]
fn cluster_cache_operations() {
    let mut client = Client::new();
    client.add_cluster_server(info("a", 1));
    client.add_cluster_servers(vec![info("b", 2), info("a", 1), info("c", 3)]);
    assert_eq!(client.get_cluster_servers().len(), 4);
    client.remove_cluster_server(&info("a", 1));
    let names: Vec<&str> = client.get_cluster_servers().iter().map(|c| c.name.as_str()).collect();
    assert_eq!(names, vec!["b", "c"]);
    client.clear_cluster_servers();
    assert!(client.get_cluster_servers().is_empty());
    let events = client.handle_command(decode_frame(&[17], 0));
    assert!(matches!(events[0], ClientEvent::Error(_)));
}
