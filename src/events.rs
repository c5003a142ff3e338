//! Connection events of a server's event loop, and the packet numbering of
//! the first protocol generation (kept for peers that still speak it).

use vstd::prelude::*;

verus! {

/// Events that a server's event loop receives about its clients.
#[derive(Debug, Clone, PartialEq, Eq)]
pub enum Event {
    Connection(u32),
    Disconnection(u32),
    ReceivedData(u32, Vec<u8>),
}

/// The transport protocols.
#[derive(Debug, Clone, Copy, PartialEq, Eq, Structural)]
pub enum Protocols {
    TCP,
    UDP,
}

impl Protocols {
    /// The protocol's name.
    pub fn name(&self) -> (r: String)
        ensures
            *self == Protocols::TCP ==> r@ == "TCP"@,
            *self == Protocols::UDP ==> r@ == "UDP"@,
    {
        proof {
            reveal_strlit("TCP");
            reveal_strlit("UDP");
        }
        match self {
            Protocols::TCP => String::from_str("TCP"),
            Protocols::UDP => String::from_str("UDP"),
        }
    }
}

/// What a Master Server sends; what a client may receive.
#[derive(Debug, Clone, Copy, PartialEq, Eq, Structural)]
pub enum MasterServerPackets {
    /// A passphrase that a cluster should decrypt and answer.
    PassphraseRequest,
    /// Turns a client into a cluster and gives it a new ID.
    InitializeCluster,
    /// The list of cluster servers: name, address and port.
    ClusterServerList,
    /// A standard message.
    Message,
    /// Gives the client an ID.
    InitializeLogin,
    /// The UDP connection is ready.
    UDPReady,
}

impl MasterServerPackets {
    /// The packet's number.
    pub fn id(&self) -> (r: u8)
        ensures
            r < 6,
    {
        match self {
            MasterServerPackets::PassphraseRequest => 0,
            MasterServerPackets::InitializeCluster => 1,
            MasterServerPackets::ClusterServerList => 2,
            MasterServerPackets::Message => 3,
            MasterServerPackets::InitializeLogin => 4,
            MasterServerPackets::UDPReady => 5,
        }
    }
}

/// What a Cluster Server sends; what a client may receive.
#[derive(Debug, Clone, Copy, PartialEq, Eq, Structural)]
pub enum ClusterServerPackets {
    /// The name of the cluster's key, sent to the Master.
    RequestClusterAuth,
    /// The decrypted passphrase, sent to the Master.
    PassphraseResponse,
    /// The list of cluster servers: name, address and port.
    ClusterServerList,
    /// A standard message.
    Message,
    /// Asks the Master whether a user is valid.
    InitializeLogin,
    /// The UDP connection is ready.
    UDPReady,
}

impl ClusterServerPackets {
    /// The packet's number.
    pub fn id(&self) -> (r: u8)
        ensures
            r < 6,
    {
        match self {
            ClusterServerPackets::RequestClusterAuth => 0,
            ClusterServerPackets::PassphraseResponse => 1,
            ClusterServerPackets::ClusterServerList => 2,
            ClusterServerPackets::Message => 3,
            ClusterServerPackets::InitializeLogin => 4,
            ClusterServerPackets::UDPReady => 5,
        }
    }
}

/// What a Client sends; what a server may receive.
#[derive(Debug, Clone, Copy, PartialEq, Eq, Structural)]
pub enum ClientPackets {
    /// Requests the list of cluster servers.
    RequestClusterServers,
    /// A message to the server.
    Message,
    /// A username and password.
    Login,
    /// An ID, to start a UDP connection.
    StartUDP,
    /// Asks to join a cluster.
    JoinCluster,
    /// Asks to leave a cluster.
    LeaveCluster,
    MoveTo,
    Error,
}

impl ClientPackets {
    pub open spec fn spec_id(self) -> u8 {
        match self {
            ClientPackets::RequestClusterServers => 2,
            ClientPackets::Message => 3,
            ClientPackets::Login => 4,
            ClientPackets::StartUDP => 5,
            ClientPackets::JoinCluster => 6,
            ClientPackets::LeaveCluster => 7,
            ClientPackets::MoveTo => 100,
            ClientPackets::Error => 200,
        }
    }

    /// The packet's number.
    pub fn id(&self) -> (r: u8)
        ensures
            r == self.spec_id(),
    {
        match self {
            ClientPackets::RequestClusterServers => 2,
            ClientPackets::Message => 3,
            ClientPackets::Login => 4,
            ClientPackets::StartUDP => 5,
            ClientPackets::JoinCluster => 6,
            ClientPackets::LeaveCluster => 7,
            ClientPackets::MoveTo => 100,
            ClientPackets::Error => 200,
        }
    }

    pub open spec fn spec_from_u8(value: u8) -> ClientPackets {
        if value == 2 { ClientPackets::RequestClusterServers }
        else if value == 3 { ClientPackets::Message }
        else if value == 4 { ClientPackets::Login }
        else if value == 5 { ClientPackets::StartUDP }
        else if value == 6 { ClientPackets::JoinCluster }
        else if value == 7 { ClientPackets::LeaveCluster }
        else if value == 100 { ClientPackets::MoveTo }
        else { ClientPackets::Error }
    }

    /// The packet a byte names; `Error` for any byte no other packet uses.
    pub fn from_u8(value: u8) -> (r: ClientPackets)
        ensures
            r == ClientPackets::spec_from_u8(value),
    {
        match value {
            2 => ClientPackets::RequestClusterServers,
            3 => ClientPackets::Message,
            4 => ClientPackets::Login,
            5 => ClientPackets::StartUDP,
            6 => ClientPackets::JoinCluster,
            7 => ClientPackets::LeaveCluster,
            100 => ClientPackets::MoveTo,
            _ => ClientPackets::Error,
        }
    }
}

/// Reading back the number of a client packet gives that packet.
pub proof fn lemma_client_packet_round_trip(p: ClientPackets)
    ensures
        ClientPackets::spec_from_u8(p.spec_id()) == p,
{
}

} // verus!
