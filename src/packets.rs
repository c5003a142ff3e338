//! Command identifiers of the wire protocol. Every command starts with one
//! byte that names it; the families below share a single byte space.

use vstd::prelude::*;

verus! {

/// Chat and messaging commands (payloads are not handled by the core).
#[derive(Debug, Clone, Copy, PartialEq, Eq, Structural)]
pub enum Messaging {
    SendGlobalMessage,
    SendPrivateMessage,
    SendPartyMessage,
    SendLocalMessage,
}

/// Connection lifecycle commands.
#[derive(Debug, Clone, Copy, PartialEq, Eq, Structural)]
pub enum Connection {
    Connect,
    Disconnect,
    Authenticate,
}

/// The two steps of setting up a cluster.
#[derive(Debug, Clone, Copy, PartialEq, Eq, Structural)]
pub enum ClusterSetup {
    Init,
    AnswerSecret,
}

/// Requests for information about a server.
#[derive(Debug, Clone, Copy, PartialEq, Eq, Structural)]
pub enum Diagnostics {
    CheckServerType,
    CheckServerUptime,
    CheckServerPlayerCount,
}

/// Discovery and cluster registration commands between Master, Cluster and
/// Client.
#[derive(Debug, Clone, Copy, PartialEq, Eq, Structural)]
pub enum Discovery {
    /// Client to Master or Cluster: no payload.
    RequestClusters,
    /// Master or Cluster to Client: the list of registered clusters.
    SendClusters,
    /// Cluster to Master: the name of the key it holds.
    BecomeCluster,
    /// Master to Cluster: the encrypted passphrase.
    VerifyCluster,
    /// Cluster to Master: the decrypted passphrase and the cluster's details.
    AnswerCluster,
    /// Master to Cluster: registration succeeded, no payload.
    CreateCluster,
}

/// Any command that the core knows by its identifier.
#[derive(Debug, Clone, Copy, PartialEq, Eq, Structural)]
pub enum Command {
    Messaging(Messaging),
    Connection(Connection),
    ClusterSetup(ClusterSetup),
    Diagnostics(Diagnostics),
    Discovery(Discovery),
}

impl Messaging {
    pub open spec fn spec_id(self) -> u8 {
        match self {
            Messaging::SendGlobalMessage => 200,
            Messaging::SendPrivateMessage => 201,
            Messaging::SendPartyMessage => 202,
            Messaging::SendLocalMessage => 203,
        }
    }

    /// The byte that identifies this command on the wire.
    pub fn id(&self) -> (r: u8)
        ensures
            r == self.spec_id(),
    {
        match self {
            Messaging::SendGlobalMessage => 200,
            Messaging::SendPrivateMessage => 201,
            Messaging::SendPartyMessage => 202,
            Messaging::SendLocalMessage => 203,
        }
    }
}

impl Connection {
    pub open spec fn spec_id(self) -> u8 {
        match self {
            Connection::Connect => 240,
            Connection::Disconnect => 241,
            Connection::Authenticate => 242,
        }
    }

    /// The byte that identifies this command on the wire.
    pub fn id(&self) -> (r: u8)
        ensures
            r == self.spec_id(),
    {
        match self {
            Connection::Connect => 240,
            Connection::Disconnect => 241,
            Connection::Authenticate => 242,
        }
    }
}

impl ClusterSetup {
    pub open spec fn spec_id(self) -> u8 {
        match self {
            ClusterSetup::Init => 245,
            ClusterSetup::AnswerSecret => 246,
        }
    }

    /// The byte that identifies this command on the wire.
    pub fn id(&self) -> (r: u8)
        ensures
            r == self.spec_id(),
    {
        match self {
            ClusterSetup::Init => 245,
            ClusterSetup::AnswerSecret => 246,
        }
    }
}

impl Diagnostics {
    pub open spec fn spec_id(self) -> u8 {
        match self {
            Diagnostics::CheckServerType => 250,
            Diagnostics::CheckServerUptime => 251,
            Diagnostics::CheckServerPlayerCount => 252,
        }
    }

    /// The byte that identifies this command on the wire.
    pub fn id(&self) -> (r: u8)
        ensures
            r == self.spec_id(),
    {
        match self {
            Diagnostics::CheckServerType => 250,
            Diagnostics::CheckServerUptime => 251,
            Diagnostics::CheckServerPlayerCount => 252,
        }
    }
}

impl Discovery {
    pub open spec fn spec_id(self) -> u8 {
        match self {
            Discovery::RequestClusters => 230,
            Discovery::SendClusters => 231,
            Discovery::BecomeCluster => 232,
            Discovery::VerifyCluster => 233,
            Discovery::AnswerCluster => 234,
            Discovery::CreateCluster => 235,
        }
    }

    /// The byte that identifies this command on the wire.
    pub fn id(&self) -> (r: u8)
        ensures
            r == self.spec_id(),
    {
        match self {
            Discovery::RequestClusters => 230,
            Discovery::SendClusters => 231,
            Discovery::BecomeCluster => 232,
            Discovery::VerifyCluster => 233,
            Discovery::AnswerCluster => 234,
            Discovery::CreateCluster => 235,
        }
    }
}

impl Command {
    pub open spec fn spec_id(self) -> u8 {
        match self {
            Command::Messaging(m) => m.spec_id(),
            Command::Connection(c) => c.spec_id(),
            Command::ClusterSetup(c) => c.spec_id(),
            Command::Diagnostics(d) => d.spec_id(),
            Command::Discovery(d) => d.spec_id(),
        }
    }

    /// The command that a byte names, if any.
    pub open spec fn spec_from_u8(b: u8) -> Option<Command> {
        if 200 <= b <= 203 {
            Some(Command::Messaging(
                if b == 200 { Messaging::SendGlobalMessage }
                else if b == 201 { Messaging::SendPrivateMessage }
                else if b == 202 { Messaging::SendPartyMessage }
                else { Messaging::SendLocalMessage }
            ))
        } else if 230 <= b <= 235 {
            Some(Command::Discovery(
                if b == 230 { Discovery::RequestClusters }
                else if b == 231 { Discovery::SendClusters }
                else if b == 232 { Discovery::BecomeCluster }
                else if b == 233 { Discovery::VerifyCluster }
                else if b == 234 { Discovery::AnswerCluster }
                else { Discovery::CreateCluster }
            ))
        } else if 240 <= b <= 242 {
            Some(Command::Connection(
                if b == 240 { Connection::Connect }
                else if b == 241 { Connection::Disconnect }
                else { Connection::Authenticate }
            ))
        } else if 245 <= b <= 246 {
            Some(Command::ClusterSetup(
                if b == 245 { ClusterSetup::Init } else { ClusterSetup::AnswerSecret }
            ))
        } else if 250 <= b <= 252 {
            Some(Command::Diagnostics(
                if b == 250 { Diagnostics::CheckServerType }
                else if b == 251 { Diagnostics::CheckServerUptime }
                else { Diagnostics::CheckServerPlayerCount }
            ))
        } else {
            None
        }
    }

    /// The byte that identifies this command on the wire.
    pub fn id(&self) -> (r: u8)
        ensures
            r == self.spec_id(),
    {
        match self {
            Command::Messaging(m) => m.id(),
            Command::Connection(c) => c.id(),
            Command::ClusterSetup(c) => c.id(),
            Command::Diagnostics(d) => d.id(),
            Command::Discovery(d) => d.id(),
        }
    }

    /// Looks up the command that a byte names; `None` for a byte that no
    /// command uses.
    pub fn from_u8(b: u8) -> (r: Option<Command>)
        ensures
            r == Command::spec_from_u8(b),
    {
        if 200 <= b && b <= 203 {
            Some(Command::Messaging(
                if b == 200 { Messaging::SendGlobalMessage }
                else if b == 201 { Messaging::SendPrivateMessage }
                else if b == 202 { Messaging::SendPartyMessage }
                else { Messaging::SendLocalMessage }
            ))
        } else if 230 <= b && b <= 235 {
            Some(Command::Discovery(
                if b == 230 { Discovery::RequestClusters }
                else if b == 231 { Discovery::SendClusters }
                else if b == 232 { Discovery::BecomeCluster }
                else if b == 233 { Discovery::VerifyCluster }
                else if b == 234 { Discovery::AnswerCluster }
                else { Discovery::CreateCluster }
            ))
        } else if 240 <= b && b <= 242 {
            Some(Command::Connection(
                if b == 240 { Connection::Connect }
                else if b == 241 { Connection::Disconnect }
                else { Connection::Authenticate }
            ))
        } else if 245 <= b && b <= 246 {
            Some(Command::ClusterSetup(
                if b == 245 { ClusterSetup::Init } else { ClusterSetup::AnswerSecret }
            ))
        } else if 250 <= b && b <= 252 {
            Some(Command::Diagnostics(
                if b == 250 { Diagnostics::CheckServerType }
                else if b == 251 { Diagnostics::CheckServerUptime }
                else { Diagnostics::CheckServerPlayerCount }
            ))
        } else {
            None
        }
    }
}

/// Every command has its own identifier: reading back the byte of a command
/// gives that command, so no two commands share a byte.
pub proof fn lemma_command_ids_unique(c: Command, d: Command)
    ensures
        Command::spec_from_u8(c.spec_id()) == Some(c),
        c.spec_id() == d.spec_id() ==> c == d,
{
}

/// Every identifier lies in the range reserved for the core, 200 to 255.
pub proof fn lemma_command_ids_reserved(c: Command)
    ensures
        200 <= c.spec_id(),
{
}

} // verus!
