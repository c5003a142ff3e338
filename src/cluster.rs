//! The Cluster's side: registering with the Master (asking with its key's
//! name, then answering the challenge), and serving its own clients from a
//! table of connections and the list of known clusters.

use vstd::prelude::*;
use crate::codec::{Answer, AnswerView, ClusterInfo, ClusterInfoView, CodecError, Decoded, Frame, FrameView, Parsed, clusters_view, enc_frame, encodable, encode_frame, str_fits};
use crate::security::{decrypt, spec_decrypt};

verus! {

/// Events emitted by the cluster server to notify listeners.
#[derive(Debug, Clone, PartialEq, Eq)]
pub enum ClusterEvent {
    MasterConnected,
    MasterDisconnected,
    MasterCommandSent(u8),
    MasterMessageSent(Vec<u8>),
    MasterCommandReceived(u8),
    MasterMessageReceived(Vec<u8>),
    /// A client connection was established.
    Connected(u64),
    /// A client connection was closed.
    Disconnected(u64),
    DiagnosticsReceived(crate::packets::Diagnostics, Vec<u8>),
    Error(String),
}

/// The `BecomeCluster` request for the key named `key_name`.
pub fn become_cluster_frame(key_name: &String) -> (r: Result<Vec<u8>, CodecError>)
    ensures
        r is Ok <==> str_fits(key_name@),
        r is Ok ==> r.unwrap()@ == enc_frame(FrameView::BecomeCluster(key_name@)),
{
    let f = Frame::BecomeCluster(key_name.clone());
    encode_frame(&f)
}

/// The passphrase a cluster echoes for a challenge: the decryption under
/// its key, or nothing when it does not decrypt (the Master then refuses
/// the answer).
pub open spec fn echoed_passphrase(key: Seq<u8>, cipher: Seq<u8>) -> Seq<u8> {
    match spec_decrypt(key, cipher) {
        Some(p) => p,
        None => Seq::empty(),
    }
}

/// Answers the Master's `VerifyCluster` challenge: the `AnswerCluster`
/// frame with the decrypted passphrase and this cluster's name, public
/// address, port and cap.
pub fn answer_challenge(
    cipher: &[u8],
    key: &[u8; 32],
    name: &String,
    ip: &String,
    port: u16,
    max_connections: u32,
) -> (r: Result<Vec<u8>, CodecError>)
    ensures
        ({
            let a = AnswerView {
                passphrase: echoed_passphrase(key@, cipher@),
                name: name@,
                ip: ip@,
                port,
                max_connections,
            };
            &&& r is Ok <==> encodable(FrameView::AnswerCluster(a))
            &&& r is Ok ==> r.unwrap()@ == enc_frame(FrameView::AnswerCluster(a))
        }),
{
    let passphrase = match decrypt(cipher, key) {
        Some(p) => p,
        None => Vec::new(),
    };
    let f = Frame::AnswerCluster(
        Answer { passphrase, name: name.clone(), ip: ip.clone(), port, max_connections },
    );
    encode_frame(&f)
}

/// The IDs of the live client connections that a table holds.
pub uninterp spec fn client_ids(t: ClientTable) -> Set<u64>;

/// The Cluster's table of live client connections, kept in a
/// `dashmap::DashMap` keyed by connection ID. `DashMap` changes through
/// shared references; here every change goes through `&mut self`, so that
/// each one is seen.
#[verifier::external_body]
pub struct ClientTable {
    map: dashmap::DashMap<u64, ()>,
}

impl ClientTable {
    /// Relies on `DashMap::new`: a map with no entries.
    #[verifier::external_body]
    fn new() -> (r: ClientTable)
        ensures
            client_ids(r) == Set::<u64>::empty(),
    {
        ClientTable { map: dashmap::DashMap::new() }
    }

    /// Relies on `DashMap::insert`: afterwards the key is present.
    #[verifier::external_body]
    fn insert(&mut self, id: u64)
        ensures
            client_ids(*final(self)) == client_ids(*old(self)).insert(id),
    {
        self.map.insert(id, ());
    }

    /// Relies on `DashMap::remove`: the key is gone afterwards, and the
    /// entry comes back if it was there.
    #[verifier::external_body]
    fn remove(&mut self, id: u64) -> (r: bool)
        ensures
            r == client_ids(*old(self)).contains(id),
            client_ids(*final(self)) == client_ids(*old(self)).remove(id),
    {
        self.map.remove(&id).is_some()
    }

    /// Relies on `DashMap::len`: the number of entries, one per key.
    #[verifier::external_body]
    fn len(&self) -> (r: usize)
        ensures
            r == client_ids(*self).len(),
    {
        self.map.len()
    }
}

/// The longest wait between two registration attempts, in seconds.
pub const MAX_RETRY_DELAY_SECS: u64 = 30;

/// The wait before registration attempt `attempt + 1`: doubling from one
/// second, capped.
pub open spec fn spec_retry_delay(attempt: nat) -> nat
    decreases attempt,
{
    if attempt == 0 {
        1
    } else {
        let d = 2 * spec_retry_delay((attempt - 1) as nat);
        if d > MAX_RETRY_DELAY_SECS {
            MAX_RETRY_DELAY_SECS as nat
        } else {
            d
        }
    }
}

/// How many seconds to wait after failed attempt number `attempt` (counted
/// from 0) before trying to register again: 1, 2, 4, 8, 16, then 30.
pub fn retry_delay_secs(attempt: u32) -> (r: u64)
    ensures
        r == spec_retry_delay(attempt as nat),
        1 <= r <= MAX_RETRY_DELAY_SECS,
{
    let mut d: u64 = 1;
    let mut i: u32 = 0;
    while i < attempt
        invariant
            i <= attempt,
            d == spec_retry_delay(i as nat),
            1 <= d <= MAX_RETRY_DELAY_SECS,
        decreases attempt - i,
    {
        d = if 2 * d > MAX_RETRY_DELAY_SECS { MAX_RETRY_DELAY_SECS } else { 2 * d };
        i += 1;
    }
    d
}

/// A Cluster as a value.
pub struct ClusterView {
    /// IDs of the live client connections.
    pub conns: Set<u64>,
    /// The ID the next client gets.
    pub next_id: u64,
    /// The client cap; 0 means none.
    pub max_connections: u32,
    /// The clusters this cluster knows of, to hand to its clients.
    pub clusters: Seq<ClusterInfoView>,
    /// Whether the Master has confirmed the registration.
    pub registered: bool,
}

pub open spec fn cluster_wf(v: ClusterView) -> bool {
    forall|id: u64| #[trigger] v.conns.contains(id) ==> id < v.next_id
}

/// Handles the Cluster's own clients and its standing with the Master.
pub struct ClusterServer {
    port: u16,
    max_connections: u32,
    connections: ClientTable,
    cluster_servers: Vec<ClusterInfo>,
    next_id: u64,
    registered: bool,
}

impl View for ClusterServer {
    type V = ClusterView;

    closed spec fn view(&self) -> ClusterView {
        ClusterView {
            conns: client_ids(self.connections),
            next_id: self.next_id,
            max_connections: self.max_connections,
            clusters: clusters_view(self.cluster_servers@),
            registered: self.registered,
        }
    }
}

impl ClusterServer {
    pub closed spec fn port(&self) -> u16 {
        self.port
    }

    /// A cluster with no clients, not yet registered.
    pub fn new(max_connections: u32, port: u16) -> (r: ClusterServer)
        ensures
            cluster_wf(r@),
            r.port() == port,
            r@ == (ClusterView {
                conns: Set::empty(),
                next_id: 0,
                max_connections,
                clusters: Seq::empty(),
                registered: false,
            }),
    {
        let r = ClusterServer {
            port,
            max_connections,
            connections: ClientTable::new(),
            cluster_servers: Vec::new(),
            next_id: 0,
            registered: false,
        };
        assert(r@.clusters =~= Seq::<ClusterInfoView>::empty());
        r
    }

    pub fn get_port(&self) -> (r: u16)
        ensures
            r == self.port(),
    {
        self.port
    }

    /// The ID the next client gets.
    pub fn next_id(&self) -> (r: u64)
        ensures
            r == self@.next_id,
    {
        self.next_id
    }

    pub fn is_registered(&self) -> (r: bool)
        ensures
            r == self@.registered,
    {
        self.registered
    }

    pub fn connection_count(&self) -> (r: usize)
        ensures
            r == self@.conns.len(),
    {
        self.connections.len()
    }

    /// Takes a new client: it gets the next ID, unless the cap is reached.
    pub fn accept(&mut self) -> (r: Option<u64>)
        requires
            cluster_wf(old(self)@),
            old(self)@.next_id < u64::MAX,
        ensures
            cluster_wf(final(self)@),
            old(self)@.max_connections != 0 && old(self)@.conns.len() >= old(self)@.max_connections
                ==> r is None && final(self)@ == old(self)@,
            !(old(self)@.max_connections != 0 && old(self)@.conns.len()
                >= old(self)@.max_connections) ==> r == Some(old(self)@.next_id) && final(self)@
                == (ClusterView {
                conns: old(self)@.conns.insert(old(self)@.next_id),
                next_id: (old(self)@.next_id + 1) as u64,
                ..old(self)@
            }),
    {
        if self.max_connections != 0 && self.connections.len() >= self.max_connections as usize {
            return None;
        }
        let id = self.next_id;
        self.connections.insert(id);
        self.next_id = id + 1;
        Some(id)
    }

    /// A client connection ended. Returns whether it was live.
    pub fn disconnect(&mut self, id: u64) -> (r: bool)
        requires
            cluster_wf(old(self)@),
        ensures
            cluster_wf(final(self)@),
            r == old(self)@.conns.contains(id),
            final(self)@ == (ClusterView { conns: old(self)@.conns.remove(id), ..old(self)@ }),
    {
        let r = self.connections.remove(id);
        assert forall|x: u64| #[trigger] self@.conns.contains(x) implies x < self@.next_id by {
            assert(old(self)@.conns.contains(x));
        }
        r
    }

    /// Replaces the list of known clusters.
    pub fn set_cluster_servers(&mut self, list: Vec<ClusterInfo>)
        ensures
            final(self)@ == (ClusterView { clusters: clusters_view(list@), ..old(self)@ }),
            final(self).port() == old(self).port(),
    {
        self.cluster_servers = list;
    }

    /// Handles what a client sent: `RequestClusters` gets the list of known
    /// clusters; anything else gets no reply.
    pub fn handle_client_command(&self, input: Decoded) -> (r: Result<Option<Vec<u8>>, CodecError>)
        ensures
            match input@ {
                Parsed::Frame(FrameView::RequestClusters, _) => {
                    let f = FrameView::SendClusters(self@.clusters);
                    &&& r is Ok <==> encodable(f)
                    &&& r is Ok ==> r.unwrap() is Some && r.unwrap().unwrap()@ == enc_frame(f)
                },
                _ => r == Ok::<Option<Vec<u8>>, CodecError>(None),
            },
    {
        match input {
            Decoded::Frame(Frame::RequestClusters, _) => {
                let mut list: Vec<ClusterInfo> = Vec::new();
                let mut i: usize = 0;
                while i < self.cluster_servers.len()
                    invariant
                        i <= self.cluster_servers@.len(),
                        list@.len() == i,
                        forall|j: int| 0 <= j < i ==> #[trigger] list@[j]@ == self.cluster_servers@[j]@,
                    decreases self.cluster_servers@.len() - i,
                {
                    let c = &self.cluster_servers[i];
                    list.push(ClusterInfo { name: c.name.clone(), ip: c.ip.clone(), port: c.port, max_connections: c.max_connections });
                    i += 1;
                }
                assert(clusters_view(list@) =~= self@.clusters);
                match encode_frame(&Frame::SendClusters(list)) {
                    Ok(bytes) => Ok(Some(bytes)),
                    Err(e) => Err(e),
                }
            },
            _ => Ok(None),
        }
    }

    /// Handles what the Master sent: `VerifyCluster` gets the answer to the
    /// challenge, `CreateCluster` marks the registration complete.
    pub fn handle_master_command(
        &mut self,
        input: Decoded,
        key: &[u8; 32],
        name: &String,
        ip: &String,
    ) -> (r: Result<Option<Vec<u8>>, CodecError>)
        ensures
            final(self).port() == old(self).port(),
            match input@ {
                Parsed::Frame(FrameView::VerifyCluster(c), _) => {
                    let a = AnswerView {
                        passphrase: echoed_passphrase(key@, c),
                        name: name@,
                        ip: ip@,
                        port: old(self).port(),
                        max_connections: old(self)@.max_connections,
                    };
                    &&& final(self)@ == old(self)@
                    &&& r is Ok <==> encodable(FrameView::AnswerCluster(a))
                    &&& r is Ok ==> r.unwrap() is Some && r.unwrap().unwrap()@ == enc_frame(
                        FrameView::AnswerCluster(a),
                    )
                },
                Parsed::Frame(FrameView::CreateCluster, _) => final(self)@ == (ClusterView {
                    registered: true,
                    ..old(self)@
                }) && r == Ok::<Option<Vec<u8>>, CodecError>(None),
                _ => final(self)@ == old(self)@ && r == Ok::<Option<Vec<u8>>, CodecError>(None),
            },
    {
        match input {
            Decoded::Frame(Frame::VerifyCluster(c), _) => {
                match answer_challenge(c.as_slice(), key, name, ip, self.port, self.max_connections) {
                    Ok(bytes) => Ok(Some(bytes)),
                    Err(e) => Err(e),
                }
            },
            Decoded::Frame(Frame::CreateCluster, _) => {
                self.registered = true;
                Ok(None)
            },
            _ => Ok(None),
        }
    }
}

} // verus!
