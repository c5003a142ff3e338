use sustenet::cluster::{answer_challenge, become_cluster_frame, retry_delay_secs, ClusterServer};
use sustenet::codec::{decode_frame, encode_frame, Answer, Decoded, Frame};
use sustenet::master::{AnswerOutcome, MasterEvent, MasterServer, MasterServerError, Role};
use sustenet::security::{decrypt, KeyStore};

fn keys_with(name: &str, key: [u8; 32]) -> KeyStore {
    let mut keys = KeyStore::new();
    keys.insert(name.to_string(), key);
    keys
}

fn frame_of(bytes: &[u8]) -> Decoded {
    decode_frame(bytes, 0)
}

/// Runs the handshake of a cluster holding `cluster_key` against a Master
/// holding 0xAA under "cluster_key"; returns the Master's reply and events.
fn register(master: &mut MasterServer, id: u64, cluster_key: [u8; 32]) -> (Option<Vec<u8>>, Vec<MasterEvent>) {
    let keys = keys_with("cluster_key", [0xAA; 32]);
    let request = become_cluster_frame(&"cluster_key".to_string()).unwrap();
    let mut expected = vec![232u8, 11];
    expected.extend_from_slice(b"cluster_key");
    assert_eq!(request, expected);
    let reply = master.handle_command(&keys, id, frame_of(&request), 0);
    assert!(reply.events.is_empty());
    let verify = reply.reply.unwrap();
    let cipher = match frame_of(&verify) {
        Decoded::Frame(Frame::VerifyCluster(c), n) => {
            assert_eq!(n, verify.len());
            c
        }
        other => panic!("expected VerifyCluster, got {other:?}"),
    };
    let answer = answer_challenge(&cipher, &cluster_key, &"srv-main".to_string(), &"127.0.0.1".to_string(), 6257, 100).unwrap();
    let reply = master.handle_command(&keys, id, frame_of(&answer), 0);
    (reply.reply, reply.events)
}

#[test]
fn cluster_list_to_fresh_client() {
    let mut master = MasterServer::new(0, 6256);
    let keys = KeyStore::new();
    let id = master.accept().unwrap();
    let reply = master.handle_command(&keys, id, frame_of(&[230]), 0);
    assert_eq!(reply.reply, Some(vec![231, 0]));
    assert!(reply.events.is_empty());
}

#[test]
fn successful_cluster_registration() {
    let mut master = MasterServer::new(0, 6256);
    let id = master.accept().unwrap();
    assert_eq!(id, 0);
    let (reply, events) = register(&mut master, id, [0xAA; 32]);
    assert_eq!(reply, Some(vec![235]));
    assert_eq!(events, vec![MasterEvent::ClusterRegistered(0, "srv-main".to_string())]);
    assert_eq!(master.cluster_count(), 1);
    assert_eq!(master.role(0), Some(Role::Registered));
    let list = master.cluster_list();
    assert_eq!(list.len(), 1);
    assert_eq!(list[0].name, "srv-main");
    assert_eq!(list[0].ip, "127.0.0.1");
    assert_eq!(list[0].port, 6257);
    assert_eq!(list[0].max_connections, 100);
    assert_eq!(master.send_to_clusters(), vec![0]);
}

#[test]
fn wrong_key_registration() {
    let mut master = MasterServer::new(0, 6256);
    let id = master.accept().unwrap();
    let (reply, events) = register(&mut master, id, [0xBB; 32]);
    assert_eq!(reply, None);
    assert_eq!(events, vec![MasterEvent::ClusterRegistrationFailed(id)]);
    assert_eq!(master.cluster_count(), 0);
    assert!(master.is_connected(id));
    assert_eq!(master.role(id), Some(Role::New));
}

#[test]
fn unknown_key_name() {
    let mut master = MasterServer::new(0, 6256);
    let keys = keys_with("cluster_key", [0xAA; 32]);
    let id = master.accept().unwrap();
    let request = become_cluster_frame(&"absent".to_string()).unwrap();
    let reply = master.handle_command(&keys, id, frame_of(&request), 0);
    assert_eq!(reply.reply, None);
    assert!(reply.events.is_empty());
    assert_eq!(master.role(id), Some(Role::New));
    assert_eq!(master.cluster_count(), 0);
}

#[test]
fn challenge_holds_the_encrypted_passphrase() {
    let mut master = MasterServer::new(0, 6256);
    let keys = keys_with("k", [3; 32]);
    let id = master.accept().unwrap();
    let verify = master.handle_become_cluster(&keys, id, "k").unwrap().unwrap();
    let cipher = match frame_of(&verify) {
        Decoded::Frame(Frame::VerifyCluster(c), _) => c,
        other => panic!("unexpected {other:?}"),
    };
    let plain = decrypt(&cipher, &[3; 32]).unwrap();
    assert_eq!(plain.len(), 20);
    assert_eq!(master.role(id), Some(Role::Challenging(plain)));
    assert_eq!(master.handle_become_cluster(&keys, 99, "k"), Err(MasterServerError::ClientMissing));
}

#[test]
fn answer_without_challenge_is_ignored() {
    let mut master = MasterServer::new(0, 6256);
    let id = master.accept().unwrap();
    let answer = Answer {
        passphrase: vec![1; 20],
        name: "x".to_string(),
        ip: "1.2.3.4".to_string(),
        port: 1,
        max_connections: 1,
    };
    assert_eq!(master.handle_answer_cluster(id, answer.clone(), 0), AnswerOutcome::Ignored);
    master.begin_challenge(id, vec![1; 20]).unwrap();
    assert_eq!(master.handle_answer_cluster(id, answer, 5), AnswerOutcome::Registered);
    assert_eq!(master.cluster_count(), 1);
}

#[test]
fn registry_stays_ordered_by_id() {
    let mut master = MasterServer::new(0, 6256);
    for _ in 0..4 {
        master.accept().unwrap();
    }
    for id in [3u64, 1, 2] {
        master.begin_challenge(id, vec![id as u8; 20]).unwrap();
        let answer = Answer {
            passphrase: vec![id as u8; 20],
            name: format!("c{id}"),
            ip: "10.0.0.1".to_string(),
            port: 7000,
            max_connections: 10,
        };
        assert_eq!(master.handle_answer_cluster(id, answer, 0), AnswerOutcome::Registered);
    }
    assert_eq!(master.send_to_clusters(), vec![1, 2, 3]);
    let names: Vec<String> = master.cluster_list().into_iter().map(|c| c.name).collect();
    assert_eq!(names, vec!["c1", "c2", "c3"]);
    assert!(master.handle_events(&MasterEvent::Disconnected(2)));
    assert_eq!(master.send_to_clusters(), vec![1, 3]);
    assert_eq!(master.send_to_all(), vec![0, 1, 3]);
    assert_eq!(master.send_to(2), Err(MasterServerError::ClientMissing));
    assert_eq!(master.send_to(3), Ok(()));
}

#[test]
fn id_monotonicity_under_churn() {
    let mut master = MasterServer::new(0, 6256);
    let mut first = Vec::new();
    for _ in 0..1000 {
        first.push(master.accept().unwrap());
    }
    for id in first {
        assert!(master.disconnect(id));
    }
    assert_eq!(master.connection_count(), 0);
    let mut last = 0;
    for _ in 0..1000 {
        last = master.accept().unwrap();
    }
    assert_eq!(last, 1999);
    assert_eq!(master.next_id(), 2000);
    let ids = master.send_to_all();
    assert_eq!(ids.len(), 1000);
    assert!(ids.windows(2).all(|w| w[0] < w[1]));
}

#[test]
fn accepting_reports_connected() {
    let mut master = MasterServer::new(1, 6256);
    assert_eq!(master.handle_listener(), Ok(MasterEvent::Connected(0)));
    assert_eq!(master.handle_listener(), Err(MasterServerError::MaxConnectionsReached));
    assert_eq!(master.next_id(), 1);
}

#[test]
fn max_connections_refuses_without_using_an_id() {
    let mut master = MasterServer::new(2, 6256);
    assert_eq!(master.accept(), Ok(0));
    assert_eq!(master.accept(), Ok(1));
    assert_eq!(master.accept(), Err(MasterServerError::MaxConnectionsReached));
    assert!(master.disconnect(0));
    assert!(!master.disconnect(0));
    assert_eq!(master.accept(), Ok(2));
    assert_eq!(MasterServerError::MaxConnectionsReached.message(), "Max connections reached");
}

#[test]
fn cleanup_closes_everything() {
    let mut master = MasterServer::new(0, 6256);
    for _ in 0..3 {
        master.accept().unwrap();
    }
    register(&mut master, 1, [0xAA; 32]);
    assert_eq!(master.cluster_count(), 1);
    assert!(!master.handle_events(&MasterEvent::Shutdown));
    assert_eq!(master.cleanup(), vec![0, 1, 2]);
    assert_eq!(master.connection_count(), 0);
    assert_eq!(master.cluster_count(), 0);
    assert_eq!(master.next_id(), 3);
}

#[test]
fn diagnostics_and_unknown_commands() {
    let mut master = MasterServer::new(0, 6256);
    let keys = KeyStore::new();
    let id = master.accept().unwrap();
    let reply = master.handle_command(&keys, id, frame_of(&[251]), 0);
    assert_eq!(reply.reply, None);
    assert_eq!(reply.events.len(), 1);
    assert!(matches!(reply.events[0], MasterEvent::DiagnosticsReceived(_, _)));
    let reply = master.handle_command(&keys, id, frame_of(&[9]), 0);
    assert_eq!(reply.events.len(), 1);
    assert!(matches!(reply.events[0], MasterEvent::Error(_)));
    assert!(master.is_connected(id));
}

#[test]
fn cluster_server_tracks_its_clients_and_registration() {
    let mut cluster = ClusterServer::new(1, 6257);
    assert_eq!(cluster.accept(), Some(0));
    assert_eq!(cluster.accept(), None);
    assert!(cluster.disconnect(0));
    assert_eq!(cluster.accept(), Some(1));
    assert_eq!(cluster.handle_client_command(frame_of(&[230])), Ok(Some(vec![231, 0])));
    let key = [0xAA; 32];
    let r = cluster.handle_master_command(frame_of(&[235]), &key, &"n".to_string(), &"1.1.1.1".to_string());
    assert_eq!(r, Ok(None));
    assert!(cluster.is_registered());
    let cipher = encode_frame(&Frame::VerifyCluster(vec![0; 40])).unwrap();
    let r = cluster.handle_master_command(frame_of(&cipher), &key, &"n".to_string(), &"1.1.1.1".to_string());
    let bytes = r.unwrap().unwrap();
    // A challenge that does not decrypt is answered with an empty passphrase.
    assert_eq!(&bytes[..3], &[234, 0, 1]);
}

#[test]
fn registration_retry_backs_off() {
    let delays: Vec<u64> = (0..8).map(retry_delay_secs).collect();
    assert_eq!(delays, vec![1, 2, 4, 8, 16, 30, 30, 30]);
    assert_eq!(retry_delay_secs(u32::MAX), 30);
}
