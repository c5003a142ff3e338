//! The Client's side: which server its one active connection points to,
//! the clusters it knows of, and the move from the Master to a cluster.
//! Connecting and the socket itself run around these decisions.

use vstd::prelude::*;
use crate::codec::{ClusterInfo, ClusterInfoView, Decoded, Frame, FrameView, Parsed, clusters_view, REQUEST_CLUSTERS};
use crate::security::str_eq;

verus! {

/// Which kind of server the active connection points to.
#[derive(Debug, Clone, Copy, PartialEq, Eq, Structural)]
pub enum ConnectionType {
    MasterServer,
    ClusterServer,
    NotConnected,
}

/// Where the Client stands.
#[derive(Debug, Clone, Copy, PartialEq, Eq, Structural)]
pub enum ClientState {
    /// No connection (also: connecting to the Master).
    Disconnected,
    MasterConnected,
    /// Closing the Master link in order to join the cluster at this index
    /// of the cache, then connecting to it.
    Switching(usize),
    ClusterConnected,
}

/// Events surfaced to the host application.
#[derive(Debug, Clone, PartialEq, Eq)]
pub enum ClientEvent {
    Connected,
    Disconnected,
    CommandSent(u8),
    MessageSent(Vec<u8>),
    CommandReceived(u8),
    MessageReceived(Vec<u8>),
    Error(String),
}

/// What the Client asks the code around it to do next.
#[derive(Debug, Clone, PartialEq, Eq)]
pub enum ClientAction {
    /// Nothing.
    Nothing,
    /// Send the shutdown sentinel on the active connection.
    CloseActive,
    /// Open a connection to this address.
    Connect(String, u16),
}

/// Why a Client request is refused.
#[derive(Debug, Clone, Copy, PartialEq, Eq, Structural)]
pub enum ClientError {
    /// Joining needs a live link to the Master.
    NotOnMaster,
    /// The cache has no cluster at that index.
    NoSuchCluster,
}

/// Handles the connection to a Master or Cluster Server.
pub struct Client {
    state: ClientState,
    /// Cluster servers this client knows about.
    cluster_servers: Vec<ClusterInfo>,
}

/// The cache without every entry equal to `c`, in order.
pub open spec fn without_info(s: Seq<ClusterInfoView>, c: ClusterInfoView) -> Seq<ClusterInfoView>
    decreases s.len(),
{
    if s.len() == 0 {
        s
    } else {
        let rest = without_info(s.drop_last(), c);
        if s.last() != c {
            rest.push(s.last())
        } else {
            rest
        }
    }
}

/// The kind of server the active connection points to, by state.
pub open spec fn spec_connection_type(s: ClientState) -> ConnectionType {
    match s {
        ClientState::MasterConnected => ConnectionType::MasterServer,
        ClientState::ClusterConnected => ConnectionType::ClusterServer,
        _ => ConnectionType::NotConnected,
    }
}

fn info_equal(a: &ClusterInfo, b: &ClusterInfo) -> (r: bool)
    ensures
        r == (a@ == b@),
{
    str_eq(a.name.as_str(), b.name.as_str()) && str_eq(a.ip.as_str(), b.ip.as_str()) && a.port
        == b.port && a.max_connections == b.max_connections
}

fn clone_info(c: &ClusterInfo) -> (r: ClusterInfo)
    ensures
        r@ == c@,
{
    ClusterInfo {
        name: c.name.clone(),
        ip: c.ip.clone(),
        port: c.port,
        max_connections: c.max_connections,
    }
}

impl Client {
    pub closed spec fn state(&self) -> ClientState {
        self.state
    }

    /// The cached clusters, in the order received or added.
    pub closed spec fn clusters(&self) -> Seq<ClusterInfoView> {
        clusters_view(self.cluster_servers@)
    }

    /// A client with no connection and no known clusters.
    pub fn new() -> (r: Client)
        ensures
            r.state() == ClientState::Disconnected,
            r.clusters() == Seq::<ClusterInfoView>::empty(),
    {
        let r = Client { state: ClientState::Disconnected, cluster_servers: Vec::new() };
        assert(r.clusters() =~= Seq::<ClusterInfoView>::empty());
        r
    }

    pub fn get_state(&self) -> (r: ClientState)
        ensures
            r == self.state(),
    {
        self.state
    }

    /// The kind of server the active connection points to.
    pub fn connection_type(&self) -> (r: ConnectionType)
        ensures
            r == spec_connection_type(self.state()),
    {
        match self.state {
            ClientState::MasterConnected => ConnectionType::MasterServer,
            ClientState::ClusterConnected => ConnectionType::ClusterServer,
            _ => ConnectionType::NotConnected,
        }
    }

    /// A connection was established: with the Master from `Disconnected`,
    /// with the chosen cluster from `Switching`.
    pub fn on_connected(&mut self) -> (r: ClientEvent)
        ensures
            r == ClientEvent::Connected,
            final(self).clusters() == old(self).clusters(),
            final(self).state() == match old(self).state() {
                ClientState::Disconnected => ClientState::MasterConnected,
                ClientState::Switching(_) => ClientState::ClusterConnected,
                s => s,
            },
    {
        self.state = match self.state {
            ClientState::Disconnected => ClientState::MasterConnected,
            ClientState::Switching(_) => ClientState::ClusterConnected,
            s => s,
        };
        ClientEvent::Connected
    }

    /// The active connection closed. While switching, the next step is to
    /// connect to the chosen cluster; otherwise the client is disconnected.
    pub fn on_disconnected(&mut self) -> (r: (ClientEvent, ClientAction))
        ensures
            r.0 == ClientEvent::Disconnected,
            final(self).clusters() == old(self).clusters(),
            match old(self).state() {
                ClientState::Switching(i) => final(self).state() == old(self).state() && (i
                    < old(self).clusters().len() ==> match r.1 {
                    ClientAction::Connect(ip, port) => ip@ == old(self).clusters()[i as int].ip
                        && port == old(self).clusters()[i as int].port,
                    _ => false,
                }) && (i >= old(self).clusters().len() ==> r.1 == ClientAction::Nothing),
                _ => final(self).state() == ClientState::Disconnected && r.1 == ClientAction::Nothing,
            },
    {
        match self.state {
            ClientState::Switching(i) => {
                if i < self.cluster_servers.len() {
                    let c = &self.cluster_servers[i];
                    (ClientEvent::Disconnected, ClientAction::Connect(c.ip.clone(), c.port))
                } else {
                    (ClientEvent::Disconnected, ClientAction::Nothing)
                }
            },
            _ => {
                self.state = ClientState::Disconnected;
                (ClientEvent::Disconnected, ClientAction::Nothing)
            },
        }
    }

    /// A connection attempt failed: the client is disconnected.
    pub fn on_connect_failed(&mut self)
        ensures
            final(self).state() == ClientState::Disconnected,
            final(self).clusters() == old(self).clusters(),
    {
        self.state = ClientState::Disconnected;
    }

    /// The bytes of a `RequestClusters` command.
    pub fn request_clusters(&self) -> (r: Vec<u8>)
        ensures
            r@ == seq![REQUEST_CLUSTERS],
    {
        let mut v: Vec<u8> = Vec::new();
        v.push(REQUEST_CLUSTERS);
        assert(v@ =~= seq![REQUEST_CLUSTERS]);
        v
    }

    /// Starts joining the cached cluster at index `i`: the Master link is to
    /// be closed first.
    pub fn join(&mut self, i: usize) -> (r: Result<ClientAction, ClientError>)
        ensures
            final(self).clusters() == old(self).clusters(),
            old(self).state() != ClientState::MasterConnected ==> r == Err::<ClientAction, ClientError>(
                ClientError::NotOnMaster,
            ) && final(self).state() == old(self).state(),
            old(self).state() == ClientState::MasterConnected && i >= old(self).clusters().len() ==> r
                == Err::<ClientAction, ClientError>(ClientError::NoSuchCluster) && final(self).state()
                == old(self).state(),
            old(self).state() == ClientState::MasterConnected && i < old(self).clusters().len() ==> r
                == Ok::<ClientAction, ClientError>(ClientAction::CloseActive) && final(self).state()
                == ClientState::Switching(i),
    {
        match self.state {
            ClientState::MasterConnected => {},
            _ => {
                return Err(ClientError::NotOnMaster);
            },
        }
        if i >= self.cluster_servers.len() {
            return Err(ClientError::NoSuchCluster);
        }
        self.state = ClientState::Switching(i);
        Ok(ClientAction::CloseActive)
    }

    /// Handles what was read from the active connection. A cluster list
    /// replaces the cache; every known command is surfaced as received; an
    /// unknown one as an error.
    pub fn handle_command(&mut self, input: Decoded) -> (r: Vec<ClientEvent>)
        ensures
            final(self).state() == old(self).state(),
            match input@ {
                Parsed::Frame(FrameView::SendClusters(cs), _) => final(self).clusters() == cs
                    && r@ == seq![ClientEvent::CommandReceived(crate::codec::SEND_CLUSTERS)],
                Parsed::Frame(f, _) => final(self).clusters() == old(self).clusters() && r@.len() == 1
                    && r@[0] == ClientEvent::CommandReceived(crate::codec::enc_frame(f)[0]),
                Parsed::Unknown(_) => final(self).clusters() == old(self).clusters() && r@.len() == 1
                    && r@[0] is Error,
                Parsed::Pending => final(self).clusters() == old(self).clusters() && r@.len() == 0,
            },
    {
        let mut events: Vec<ClientEvent> = Vec::new();
        match input {
            Decoded::Frame(Frame::SendClusters(list), _) => {
                self.cluster_servers = list;
                events.push(ClientEvent::CommandReceived(crate::codec::SEND_CLUSTERS));
                assert(events@ =~= seq![ClientEvent::CommandReceived(crate::codec::SEND_CLUSTERS)]);
            },
            Decoded::Frame(f, _) => {
                let b: u8 = match f {
                    Frame::RequestClusters => crate::codec::REQUEST_CLUSTERS,
                    Frame::SendClusters(_) => crate::codec::SEND_CLUSTERS,
                    Frame::BecomeCluster(_) => crate::codec::BECOME_CLUSTER,
                    Frame::VerifyCluster(_) => crate::codec::VERIFY_CLUSTER,
                    Frame::AnswerCluster(_) => crate::codec::ANSWER_CLUSTER,
                    Frame::CreateCluster => crate::codec::CREATE_CLUSTER,
                    Frame::Bare(b) => b,
                };
                events.push(ClientEvent::CommandReceived(b));
            },
            Decoded::Unknown(_) => {
                events.push(ClientEvent::Error(String::from_str("Unknown command received")));
            },
            Decoded::Pending => {},
        }
        events
    }

    /// The clusters this client knows of.
    pub fn get_cluster_servers(&self) -> (r: &[ClusterInfo])
        ensures
            clusters_view(r@) == self.clusters(),
    {
        self.cluster_servers.as_slice()
    }

    pub fn add_cluster_server(&mut self, server: ClusterInfo)
        ensures
            final(self).state() == old(self).state(),
            final(self).clusters() == old(self).clusters().push(server@),
    {
        self.cluster_servers.push(server);
        assert(final(self).clusters() =~= old(self).clusters().push(server@));
    }

    pub fn add_cluster_servers(&mut self, servers: Vec<ClusterInfo>)
        ensures
            final(self).state() == old(self).state(),
            final(self).clusters() == old(self).clusters() + clusters_view(servers@),
    {
        let mut servers = servers;
        let ghost sv = clusters_view(servers@);
        self.cluster_servers.append(&mut servers);
        assert(final(self).clusters() =~= old(self).clusters() + sv);
    }

    /// Forgets every cached cluster equal to `server`.
    pub fn remove_cluster_server(&mut self, server: &ClusterInfo)
        ensures
            final(self).state() == old(self).state(),
            final(self).clusters() == without_info(old(self).clusters(), server@),
    {
        let ghost old_list = self.clusters();
        let mut kept: Vec<ClusterInfo> = Vec::new();
        let mut i: usize = 0;
        while i < self.cluster_servers.len()
            invariant
                i <= self.cluster_servers@.len(),
                old_list == clusters_view(self.cluster_servers@),
                clusters_view(kept@) == without_info(old_list.subrange(0, i as int), server@),
            decreases self.cluster_servers@.len() - i,
        {
            let c = &self.cluster_servers[i];
            let ghost k0 = kept@;
            proof {
                let s = old_list.subrange(0, i + 1);
                assert(old_list.subrange(0, i as int) =~= s.drop_last());
                assert(s.last() == c@);
            }
            if !info_equal(c, server) {
                kept.push(clone_info(c));
                assert(clusters_view(kept@) =~= clusters_view(k0).push(c@));
            }
            i += 1;
        }
        assert(old_list.subrange(0, i as int) =~= old_list);
        self.cluster_servers = kept;
    }

    /// Forgets every cached cluster.
    pub fn clear_cluster_servers(&mut self)
        ensures
            final(self).state() == old(self).state(),
            final(self).clusters() == Seq::<ClusterInfoView>::empty(),
    {
        self.cluster_servers = Vec::new();
        assert(final(self).clusters() =~= Seq::<ClusterInfoView>::empty());
    }
}

} // verus!
