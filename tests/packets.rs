use std::collections::HashSet;

use sustenet::events::{ClientPackets, ClusterServerPackets, MasterServerPackets, Protocols};
use sustenet::packets::{ClusterSetup, Command, Connection, Diagnostics, Discovery, Messaging};

#[test]
fn test_enum_size() {
    assert_eq!(std::mem::size_of::<Messaging>(), 1);
    assert_eq!(std::mem::size_of::<Connection>(), 1);
    assert_eq!(std::mem::size_of::<ClusterSetup>(), 1);
    assert_eq!(std::mem::size_of::<Diagnostics>(), 1);
}

#[test]
fn test_enum_unique_values() {
    let all_enums = [
        vec![
            Messaging::SendGlobalMessage.id(),
            Messaging::SendPrivateMessage.id(),
            Messaging::SendPartyMessage.id(),
            Messaging::SendLocalMessage.id(),
        ],
        vec![Connection::Connect.id(), Connection::Disconnect.id(), Connection::Authenticate.id()],
        vec![ClusterSetup::Init.id(), ClusterSetup::AnswerSecret.id()],
        vec![
            Diagnostics::CheckServerType.id(),
            Diagnostics::CheckServerUptime.id(),
            Diagnostics::CheckServerPlayerCount.id(),
        ],
    ]
    .concat();

    let mut set = HashSet::new();
    for val in all_enums {
        assert!(set.insert(val), "Duplicate value found: {val}");
    }
}

#[test]
fn command_ids_match_the_reserved_ranges() {
    assert_eq!(Messaging::SendGlobalMessage.id(), 200);
    assert_eq!(Messaging::SendLocalMessage.id(), 203);
    assert_eq!(Connection::Connect.id(), 240);
    assert_eq!(Connection::Authenticate.id(), 242);
    assert_eq!(ClusterSetup::Init.id(), 245);
    assert_eq!(ClusterSetup::AnswerSecret.id(), 246);
    assert_eq!(Diagnostics::CheckServerType.id(), 250);
    assert_eq!(Diagnostics::CheckServerPlayerCount.id(), 252);
}

#[test]
fn discovery_ids_are_distinct_from_the_rest() {
    let discovery = [
        Discovery::RequestClusters,
        Discovery::SendClusters,
        Discovery::BecomeCluster,
        Discovery::VerifyCluster,
        Discovery::AnswerCluster,
        Discovery::CreateCluster,
    ];
    let mut set = HashSet::new();
    for d in discovery {
        let b = d.id();
        assert!(set.insert(b));
        assert_eq!(Command::from_u8(b), Some(Command::Discovery(d)));
    }
    for b in [200u8, 201, 202, 203, 240, 241, 242, 245, 246, 250, 251, 252] {
        assert!(!set.contains(&b));
        assert_eq!(Command::from_u8(b).map(|c| c.id()), Some(b));
    }
}

#[test]
fn unknown_bytes_name_no_command() {
    for b in [0u8, 1, 127, 199, 204, 229, 236, 243, 244, 247, 249, 253, 255] {
        assert_eq!(Command::from_u8(b), None);
    }
}

#[test]
fn client_packets_from_u8() {
    assert_eq!(ClientPackets::from_u8(2), ClientPackets::RequestClusterServers);
    assert_eq!(ClientPackets::from_u8(7), ClientPackets::LeaveCluster);
    assert_eq!(ClientPackets::from_u8(100), ClientPackets::MoveTo);
    assert_eq!(ClientPackets::from_u8(8), ClientPackets::Error);
    assert_eq!(ClientPackets::from_u8(0), ClientPackets::Error);
    assert_eq!(ClientPackets::JoinCluster.id(), 6);
    assert_eq!(ClientPackets::from_u8(ClientPackets::Login.id()), ClientPackets::Login);
}

#[test]
fn server_packet_numbers() {
    assert_eq!(MasterServerPackets::PassphraseRequest.id(), 0);
    assert_eq!(MasterServerPackets::UDPReady.id(), 5);
    assert_eq!(ClusterServerPackets::PassphraseResponse.id(), 1);
    assert_eq!(ClusterServerPackets::ClusterServerList.id(), 2);
    assert_eq!(Protocols::TCP.name(), "TCP");
    assert_eq!(Protocols::UDP.name(), "UDP");
}
