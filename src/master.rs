//! The Master's state: the table of live connections with the role each has
//! reached, the ID allocator, and the registry of clusters that completed
//! the registration handshake. The accept loop, the sockets and the timers
//! run around it; every decision about the state is made here.

use vstd::prelude::*;
use crate::codec::{clusters_view, Decoded, Parsed, CREATE_CLUSTER, Answer, AnswerView, Frame, FrameView, enc_frame, encode_frame, ClusterInfo, ClusterInfoView};
use crate::security::{KeyStore, generate_passphrase, encrypt, spec_decrypt, PASSWORD_LEN};

verus! {

/// Where an inbound connection stands in the registration handshake.
#[derive(Debug, Clone, PartialEq, Eq)]
pub enum Role {
    /// Not (yet) a cluster: a client, or a cluster before its request.
    New,
    /// Challenged: holds the passphrase that was sent encrypted.
    Challenging(Vec<u8>),
    /// A registered cluster.
    Registered,
}

pub enum RoleView {
    New,
    Challenging(Seq<u8>),
    Registered,
}

impl View for Role {
    type V = RoleView;

    open spec fn view(&self) -> RoleView {
        match self {
            Role::New => RoleView::New,
            Role::Challenging(p) => RoleView::Challenging(p@),
            Role::Registered => RoleView::Registered,
        }
    }
}

/// A registered cluster, as the Master keeps it.
#[derive(Debug, Clone, PartialEq, Eq)]
pub struct ClusterRecord {
    /// The Master-side ID of the cluster's connection.
    pub id: u64,
    pub name: String,
    pub ip: String,
    pub port: u16,
    pub max_connections: u32,
    /// Seconds since registration.
    pub start_time: u32,
}

pub struct ClusterRecordView {
    pub id: u64,
    pub name: Seq<char>,
    pub ip: Seq<char>,
    pub port: u16,
    pub max_connections: u32,
    pub start_time: u32,
}

impl View for ClusterRecord {
    type V = ClusterRecordView;

    open spec fn view(&self) -> ClusterRecordView {
        ClusterRecordView {
            id: self.id,
            name: self.name@,
            ip: self.ip@,
            port: self.port,
            max_connections: self.max_connections,
            start_time: self.start_time,
        }
    }
}

/// Errors of the Master's operations.
#[derive(Debug, Clone, Copy, PartialEq, Eq, Structural)]
pub enum MasterServerError {
    /// No live connection has the ID.
    ClientMissing,
    ClientMissingID,
    TCPError,
    AddClientError,
    /// The connection cap is reached.
    MaxConnectionsReached,
    /// The random source or the cipher failed while issuing a challenge.
    SecurityFailure,
}

impl MasterServerError {
    /// The message that describes the error.
    pub fn message(&self) -> (r: String)
        ensures
            *self == MasterServerError::ClientMissing ==> r@ == "Client is missing"@,
            *self == MasterServerError::ClientMissingID ==> r@ == "Client is missing an ID"@,
            *self == MasterServerError::TCPError ==> r@ == "Failed to read TCP data"@,
            *self == MasterServerError::AddClientError ==> r@ == "Failed to add client"@,
            *self == MasterServerError::MaxConnectionsReached ==> r@ == "Max connections reached"@,
            *self == MasterServerError::SecurityFailure ==> r@ == "Failed to issue a challenge"@,
    {
        proof {
            reveal_strlit("Client is missing");
            reveal_strlit("Client is missing an ID");
            reveal_strlit("Failed to read TCP data");
            reveal_strlit("Failed to add client");
            reveal_strlit("Max connections reached");
            reveal_strlit("Failed to issue a challenge");
        }
        match self {
            MasterServerError::ClientMissing => String::from_str("Client is missing"),
            MasterServerError::ClientMissingID => String::from_str("Client is missing an ID"),
            MasterServerError::TCPError => String::from_str("Failed to read TCP data"),
            MasterServerError::AddClientError => String::from_str("Failed to add client"),
            MasterServerError::MaxConnectionsReached => String::from_str("Max connections reached"),
            MasterServerError::SecurityFailure => String::from_str("Failed to issue a challenge"),
        }
    }
}

/// One live connection.
pub struct ConnEntry {
    id: u64,
    role: Role,
}

pub struct ConnView {
    pub id: u64,
    pub role: RoleView,
}

/// The Master as a value.
pub struct MasterView {
    /// Live connections, by increasing ID.
    pub conns: Seq<ConnView>,
    /// Registered clusters, by increasing ID.
    pub clusters: Seq<ClusterRecordView>,
    /// The ID the next accepted connection gets.
    pub next_id: u64,
    /// The connection cap; 0 means none.
    pub max_connections: u32,
    pub port: u16,
}

pub open spec fn conn_ids_increasing(s: Seq<ConnView>) -> bool {
    forall|i: int, j: int| 0 <= i < j < s.len() ==> s[i].id < s[j].id
}

pub open spec fn record_ids_increasing(s: Seq<ClusterRecordView>) -> bool {
    forall|i: int, j: int| 0 <= i < j < s.len() ==> s[i].id < s[j].id
}

/// Whether a connection with this ID is live.
pub open spec fn is_live(conns: Seq<ConnView>, id: u64) -> bool {
    exists|i: int| 0 <= i < conns.len() && conns[i].id == id
}

/// Whether the live connection with this ID has registered.
pub open spec fn is_registered(conns: Seq<ConnView>, id: u64) -> bool {
    exists|i: int| 0 <= i < conns.len() && conns[i].id == id && conns[i].role is Registered
}

/// Whether the registry holds a record with this ID.
pub open spec fn has_record(clusters: Seq<ClusterRecordView>, id: u64) -> bool {
    exists|i: int| 0 <= i < clusters.len() && clusters[i].id == id
}

/// The Master's invariants: IDs are unique and ordered in both tables, every
/// ID given out is below the next one, and a record exists exactly for the
/// live connections that completed registration.
pub open spec fn master_wf(v: MasterView) -> bool {
    &&& conn_ids_increasing(v.conns)
    &&& record_ids_increasing(v.clusters)
    &&& forall|i: int| 0 <= i < v.conns.len() ==> #[trigger] v.conns[i].id < v.next_id
    &&& forall|i: int|
        0 <= i < v.clusters.len() ==> is_registered(v.conns, #[trigger] v.clusters[i].id)
    &&& forall|i: int|
        0 <= i < v.conns.len() && #[trigger] v.conns[i].role is Registered ==> has_record(
            v.clusters,
            v.conns[i].id,
        )
}

/// Accepting a connection: it gets the next ID and starts out `New`, unless
/// the cap is reached.
pub open spec fn spec_accept(v: MasterView) -> (Result<u64, MasterServerError>, MasterView) {
    if v.max_connections != 0 && v.conns.len() >= v.max_connections {
        (Err(MasterServerError::MaxConnectionsReached), v)
    } else {
        (
            Ok(v.next_id),
            MasterView {
                conns: v.conns.push(ConnView { id: v.next_id, role: RoleView::New }),
                next_id: (v.next_id + 1) as u64,
                ..v
            },
        )
    }
}

/// The sequence without the element whose ID is `id`, if there is one.
pub open spec fn without_conn(s: Seq<ConnView>, id: u64) -> Seq<ConnView> {
    if exists|i: int| 0 <= i < s.len() && s[i].id == id {
        s.remove(choose|i: int| 0 <= i < s.len() && s[i].id == id)
    } else {
        s
    }
}

pub open spec fn without_record(s: Seq<ClusterRecordView>, id: u64) -> Seq<ClusterRecordView> {
    if exists|i: int| 0 <= i < s.len() && s[i].id == id {
        s.remove(choose|i: int| 0 <= i < s.len() && s[i].id == id)
    } else {
        s
    }
}

/// A connection ended: it leaves the table, and its record the registry.
pub open spec fn spec_disconnect(v: MasterView, id: u64) -> MasterView {
    MasterView { conns: without_conn(v.conns, id), clusters: without_record(v.clusters, id), ..v }
}

/// Events the Master's supervisor handles.
#[derive(Debug, Clone, PartialEq, Eq)]
pub enum MasterEvent {
    /// A connection was established.
    Connected(u64),
    /// A connection was closed.
    Disconnected(u64),
    ClusterRegistered(u64, String),
    ClusterRegistrationFailed(u64),
    DiagnosticsReceived(crate::packets::Diagnostics, Vec<u8>),
    Shutdown,
    Error(String),
}

/// Handles connections and interactions with Cluster Servers and Clients.
pub struct MasterServer {
    max_connections: u32,
    port: u16,
    connections: Vec<ConnEntry>,
    cluster_servers: Vec<ClusterRecord>,
    next_id: u64,
}

pub closed spec fn conns_view(s: Seq<ConnEntry>) -> Seq<ConnView> {
    s.map_values(|c: ConnEntry| ConnView { id: c.id, role: c.role@ })
}

pub open spec fn records_view(s: Seq<ClusterRecord>) -> Seq<ClusterRecordView> {
    s.map_values(|r: ClusterRecord| r@)
}

proof fn lemma_remove_unique_conn(s: Seq<ConnView>, i: int)
    requires
        conn_ids_increasing(s),
        0 <= i < s.len(),
    ensures
        without_conn(s, s[i].id) == s.remove(i),
        conn_ids_increasing(s.remove(i)),
{
    let id = s[i].id;
    assert(exists|k: int| 0 <= k < s.len() && s[k].id == id);
    let k = choose|k: int| 0 <= k < s.len() && s[k].id == id;
    if k != i {
        if k < i {
            assert(s[k].id < s[i].id);
        } else {
            assert(s[i].id < s[k].id);
        }
    }
}

proof fn lemma_remove_unique_record(s: Seq<ClusterRecordView>, i: int)
    requires
        record_ids_increasing(s),
        0 <= i < s.len(),
    ensures
        without_record(s, s[i].id) == s.remove(i),
        record_ids_increasing(s.remove(i)),
{
    let id = s[i].id;
    assert(exists|k: int| 0 <= k < s.len() && s[k].id == id);
    let k = choose|k: int| 0 <= k < s.len() && s[k].id == id;
    if k != i {
        if k < i {
            assert(s[k].id < s[i].id);
        } else {
            assert(s[i].id < s[k].id);
        }
    }
}

impl View for MasterServer {
    type V = MasterView;

    closed spec fn view(&self) -> MasterView {
        MasterView {
            conns: conns_view(self.connections@),
            clusters: records_view(self.cluster_servers@),
            next_id: self.next_id,
            max_connections: self.max_connections,
            port: self.port,
        }
    }
}

impl MasterServer {
    /// A Master with no connections, taking up to `max_connections` at once
    /// (0: no cap), listening on `port`.
    pub fn new(max_connections: u32, port: u16) -> (r: MasterServer)
        ensures
            master_wf(r@),
            r@ == (MasterView {
                conns: Seq::empty(),
                clusters: Seq::empty(),
                next_id: 0,
                max_connections,
                port,
            }),
    {
        let r = MasterServer {
            max_connections,
            port,
            connections: Vec::new(),
            cluster_servers: Vec::new(),
            next_id: 0,
        };
        assert(r@.conns =~= Seq::<ConnView>::empty());
        assert(r@.clusters =~= Seq::<ClusterRecordView>::empty());
        r
    }

    pub fn get_port(&self) -> (r: u16)
        ensures
            r == self@.port,
    {
        self.port
    }

    pub fn get_max_connections(&self) -> (r: u32)
        ensures
            r == self@.max_connections,
    {
        self.max_connections
    }

    /// The ID the next accepted connection gets.
    pub fn next_id(&self) -> (r: u64)
        ensures
            r == self@.next_id,
    {
        self.next_id
    }

    /// Number of live connections.
    pub fn connection_count(&self) -> (r: usize)
        ensures
            r == self@.conns.len(),
    {
        self.connections.len()
    }

    /// Number of registered clusters.
    pub fn cluster_count(&self) -> (r: usize)
        ensures
            r == self@.clusters.len(),
    {
        self.cluster_servers.len()
    }

    fn find_conn(&self, id: u64) -> (r: Option<usize>)
        ensures
            match r {
                Some(i) => i < self@.conns.len() && self@.conns[i as int].id == id,
                None => !is_live(self@.conns, id),
            },
    {
        let mut i: usize = 0;
        while i < self.connections.len()
            invariant
                i <= self.connections@.len(),
                forall|j: int| 0 <= j < i ==> self.connections@[j].id != id,
            decreases self.connections@.len() - i,
        {
            if self.connections[i].id == id {
                return Some(i);
            }
            i += 1;
        }
        None
    }

    fn find_record(&self, id: u64) -> (r: Option<usize>)
        ensures
            match r {
                Some(i) => i < self@.clusters.len() && self@.clusters[i as int].id == id,
                None => !has_record(self@.clusters, id),
            },
    {
        let mut i: usize = 0;
        while i < self.cluster_servers.len()
            invariant
                i <= self.cluster_servers@.len(),
                forall|j: int| 0 <= j < i ==> self.cluster_servers@[j].id != id,
            decreases self.cluster_servers@.len() - i,
        {
            if self.cluster_servers[i].id == id {
                return Some(i);
            }
            i += 1;
        }
        None
    }

    /// Whether a connection with this ID is live.
    pub fn is_connected(&self, id: u64) -> (r: bool)
        requires
            master_wf(self@),
        ensures
            r == is_live(self@.conns, id),
    {
        self.find_conn(id).is_some()
    }

    /// The role of the live connection `id`.
    pub fn role(&self, id: u64) -> (r: Option<Role>)
        requires
            master_wf(self@),
        ensures
            match r {
                Some(role) => exists|i: int|
                    0 <= i < self@.conns.len() && self@.conns[i].id == id && self@.conns[i].role
                        == role@,
                None => !is_live(self@.conns, id),
            },
    {
        match self.find_conn(id) {
            Some(i) => Some(self.connections[i].role.clone_role()),
            None => None,
        }
    }

    /// Takes a new connection: it gets the next ID, unless the cap is
    /// reached. IDs are never reused.
    pub fn accept(&mut self) -> (r: Result<u64, MasterServerError>)
        requires
            master_wf(old(self)@),
            old(self)@.next_id < u64::MAX,
        ensures
            master_wf(final(self)@),
            (r, final(self)@) == spec_accept(old(self)@),
    {
        if self.max_connections != 0 && self.connections.len() >= self.max_connections as usize {
            return Err(MasterServerError::MaxConnectionsReached);
        }
        let id = self.next_id;
        self.connections.push(ConnEntry { id, role: Role::New });
        self.next_id = id + 1;
        proof {
            assert(self@.conns =~= old(self)@.conns.push(ConnView { id, role: RoleView::New }));
            let v = self@;
            let o = old(self)@;
            assert forall|i: int| 0 <= i < v.clusters.len() implies is_registered(
                v.conns,
                #[trigger] v.clusters[i].id,
            ) by {
                let k = choose|k: int|
                    0 <= k < o.conns.len() && o.conns[k].id == o.clusters[i].id
                        && o.conns[k].role is Registered;
                assert(v.conns[k] == o.conns[k]);
            }
        }
        Ok(id)
    }

    /// Handles an accepted socket: the connection gets the next ID and the
    /// `Connected` event to report, unless the cap is reached.
    pub fn handle_listener(&mut self) -> (r: Result<MasterEvent, MasterServerError>)
        requires
            master_wf(old(self)@),
            old(self)@.next_id < u64::MAX,
        ensures
            master_wf(final(self)@),
            final(self)@ == spec_accept(old(self)@).1,
            spec_accept(old(self)@).0 is Ok ==> r == Ok::<MasterEvent, MasterServerError>(
                MasterEvent::Connected(old(self)@.next_id),
            ),
            spec_accept(old(self)@).0 is Err ==> r == Err::<MasterEvent, MasterServerError>(
                MasterServerError::MaxConnectionsReached,
            ),
    {
        match self.accept() {
            Ok(id) => Ok(MasterEvent::Connected(id)),
            Err(e) => Err(e),
        }
    }

    /// A connection ended: it leaves the table and, if it was a registered
    /// cluster, the registry. Returns whether it was live.
    pub fn disconnect(&mut self, id: u64) -> (r: bool)
        requires
            master_wf(old(self)@),
        ensures
            master_wf(final(self)@),
            r == is_live(old(self)@.conns, id),
            final(self)@ == spec_disconnect(old(self)@, id),
    {
        let ghost o = old(self)@;
        match self.find_record(id) {
            Some(k) => {
                proof { lemma_remove_unique_record(o.clusters, k as int); }
                self.cluster_servers.remove(k);
                assert(self@.clusters =~= o.clusters.remove(k as int));
            },
            None => {},
        }
        let found = match self.find_conn(id) {
            Some(i) => {
                proof { lemma_remove_unique_conn(o.conns, i as int); }
                self.connections.remove(i);
                assert(self@.conns =~= o.conns.remove(i as int));
                true
            },
            None => false,
        };
        proof {
            let v = self@;
            assert(v.conns == without_conn(o.conns, id));
            assert(v.clusters == without_record(o.clusters, id));
            assert forall|i: int| 0 <= i < v.conns.len() implies #[trigger] v.conns[i].id < v.next_id by {
                let j = choose|j: int| 0 <= j < o.conns.len() && o.conns[j] == v.conns[i];
                assert(o.conns.contains(v.conns[i])) by {
                    lemma_removed_elem_in(o.conns, id, i);
                }
            }
            assert forall|i: int| 0 <= i < v.clusters.len() implies is_registered(
                v.conns,
                #[trigger] v.clusters[i].id,
            ) by {
                lemma_record_survives(o, id, i);
            }
            assert forall|i: int|
                0 <= i < v.conns.len() && #[trigger] v.conns[i].role is Registered implies has_record(
                v.clusters,
                v.conns[i].id,
            ) by {
                lemma_registered_survives(o, id, i);
            }
        }
        found
    }

    /// Handles one supervisor event; `false` once the Master should stop.
    pub fn handle_events(&mut self, event: &MasterEvent) -> (r: bool)
        requires
            master_wf(old(self)@),
        ensures
            master_wf(final(self)@),
            r == !(*event is Shutdown),
            final(self)@.next_id == old(self)@.next_id,
            match *event {
                MasterEvent::Disconnected(id) => final(self)@ == spec_disconnect(old(self)@, id),
                _ => final(self)@ == old(self)@,
            },
    {
        match event {
            MasterEvent::Disconnected(id) => {
                self.disconnect(*id);
                true
            },
            MasterEvent::Shutdown => false,
            _ => true,
        }
    }

    /// Checks that `id` can be sent to: `Err(ClientMissing)` when no live
    /// connection has it.
    pub fn send_to(&self, id: u64) -> (r: Result<(), MasterServerError>)
        requires
            master_wf(self@),
        ensures
            r is Ok <==> is_live(self@.conns, id),
            r is Err ==> r == Err::<(), MasterServerError>(MasterServerError::ClientMissing),
    {
        if self.find_conn(id).is_some() {
            Ok(())
        } else {
            Err(MasterServerError::ClientMissing)
        }
    }

    /// The IDs of every live connection, in increasing order.
    pub fn send_to_all(&self) -> (r: Vec<u64>)
        ensures
            r@ == self@.conns.map_values(|c: ConnView| c.id),
    {
        let mut out: Vec<u64> = Vec::new();
        let mut i: usize = 0;
        while i < self.connections.len()
            invariant
                i <= self.connections@.len(),
                out@ == self@.conns.subrange(0, i as int).map_values(|c: ConnView| c.id),
            decreases self.connections@.len() - i,
        {
            out.push(self.connections[i].id);
            i += 1;
            assert(out@ =~= self@.conns.subrange(0, i as int).map_values(|c: ConnView| c.id));
        }
        assert(self@.conns.subrange(0, i as int) =~= self@.conns);
        out
    }

    /// The IDs of the registered clusters, in increasing order.
    pub fn send_to_clusters(&self) -> (r: Vec<u64>)
        ensures
            r@ == self@.clusters.map_values(|c: ClusterRecordView| c.id),
    {
        let mut out: Vec<u64> = Vec::new();
        let mut i: usize = 0;
        while i < self.cluster_servers.len()
            invariant
                i <= self.cluster_servers@.len(),
                out@ == self@.clusters.subrange(0, i as int).map_values(|c: ClusterRecordView| c.id),
            decreases self.cluster_servers@.len() - i,
        {
            out.push(self.cluster_servers[i].id);
            i += 1;
            assert(out@ =~= self@.clusters.subrange(0, i as int).map_values(
                |c: ClusterRecordView| c.id,
            ));
        }
        assert(self@.clusters.subrange(0, i as int) =~= self@.clusters);
        out
    }

    /// The registered clusters as clients see them, by increasing ID.
    pub fn cluster_list(&self) -> (r: Vec<ClusterInfo>)
        ensures
            clusters_view(r@) == cluster_infos(self@.clusters),
    {
        let mut out: Vec<ClusterInfo> = Vec::new();
        let mut i: usize = 0;
        while i < self.cluster_servers.len()
            invariant
                i <= self.cluster_servers@.len(),
                out@.len() == i,
                forall|j: int| 0 <= j < i ==> #[trigger] out@[j]@ == cluster_infos(self@.clusters)[j],
            decreases self.cluster_servers@.len() - i,
        {
            let rec = &self.cluster_servers[i];
            assert(self@.clusters[i as int] == rec@);
            out.push(
                ClusterInfo {
                    name: rec.name.clone(),
                    ip: rec.ip.clone(),
                    port: rec.port,
                    max_connections: rec.max_connections,
                },
            );
            i += 1;
        }
        assert(clusters_view(out@) =~= cluster_infos(self@.clusters));
        out
    }

    /// The `SendClusters` frame that answers `RequestClusters`; fails when a
    /// name or address, or the number of clusters, does not fit in a length
    /// byte.
    pub fn send_clusters_frame(&self) -> (r: Result<Vec<u8>, crate::codec::CodecError>)
        ensures
            r is Ok <==> crate::codec::encodable(FrameView::SendClusters(cluster_infos(self@.clusters))),
            r is Ok ==> r.unwrap()@ == enc_frame(FrameView::SendClusters(cluster_infos(self@.clusters))),
    {
        let list = self.cluster_list();
        let f = Frame::SendClusters(list);
        encode_frame(&f)
    }

    /// Issues the registration challenge to connection `id`: its role
    /// becomes `Challenging(passphrase)`. Refused (nothing changes) for a
    /// connection that is not live or has already registered.
    pub fn begin_challenge(&mut self, id: u64, passphrase: Vec<u8>) -> (r: Result<(), MasterServerError>)
        requires
            master_wf(old(self)@),
        ensures
            master_wf(final(self)@),
            !is_live(old(self)@.conns, id) ==> r == Err::<(), MasterServerError>(
                MasterServerError::ClientMissing,
            ) && final(self)@ == old(self)@,
            is_registered(old(self)@.conns, id) ==> r == Err::<(), MasterServerError>(
                MasterServerError::AddClientError,
            ) && final(self)@ == old(self)@,
            is_live(old(self)@.conns, id) && !is_registered(old(self)@.conns, id) ==> r is Ok
                && final(self)@ == spec_set_role(old(self)@, id, RoleView::Challenging(passphrase@)),
    {
        let ghost o = self@;
        match self.find_conn(id) {
            None => Err(MasterServerError::ClientMissing),
            Some(i) => {
                proof { lemma_conn_index(o.conns, i as int); }
                match self.connections[i].role {
                    Role::Registered => {
                        return Err(MasterServerError::AddClientError);
                    },
                    _ => {},
                }
                proof {
                    if is_registered(o.conns, id) {
                        let m = choose|m: int|
                            0 <= m < o.conns.len() && o.conns[m].id == id && o.conns[m].role is Registered;
                        lemma_conn_index(o.conns, m);
                    }
                    lemma_set_role_wf(o, i as int, RoleView::Challenging(passphrase@));
                }
                let ghost p = passphrase@;
                self.connections.set(i, ConnEntry { id, role: Role::Challenging(passphrase) });
                assert(self@.conns =~= o.conns.update(i as int, ConnView { id, role: RoleView::Challenging(p) }));
                Ok(())
            },
        }
    }

    /// Handles `BecomeCluster(key_name)` from connection `id`. An unknown
    /// key name gets no reply (`Ok(None)`), and nothing changes. Otherwise a
    /// fresh passphrase is stored as the challenge and the returned bytes are
    /// the `VerifyCluster` frame carrying it, encrypted under the named key.
    pub fn handle_become_cluster(&mut self, keys: &KeyStore, id: u64, key_name: &str) -> (r: Result<
        Option<Vec<u8>>,
        MasterServerError,
    >)
        requires
            master_wf(old(self)@),
            keys.wf(),
        ensures
            master_wf(final(self)@),
            !keys.view_map().contains_key(key_name@) ==> r == Ok::<
                Option<Vec<u8>>,
                MasterServerError,
            >(None) && final(self)@ == old(self)@,
            keys.view_map().contains_key(key_name@) && !is_live(old(self)@.conns, id) ==> r == Err::<
                Option<Vec<u8>>,
                MasterServerError,
            >(MasterServerError::ClientMissing) && final(self)@ == old(self)@,
            keys.view_map().contains_key(key_name@) && is_registered(old(self)@.conns, id) ==> r
                == Err::<Option<Vec<u8>>, MasterServerError>(MasterServerError::AddClientError)
                && final(self)@ == old(self)@,
            !(r is Ok && r.unwrap() is Some) ==> final(self)@ == old(self)@,
            keys.view_map().contains_key(key_name@) && is_live(old(self)@.conns, id)
                && !is_registered(old(self)@.conns, id) ==> (r is Ok && r.unwrap() is Some) || r
                == Err::<Option<Vec<u8>>, MasterServerError>(MasterServerError::SecurityFailure),
            r is Ok && r.unwrap() is Some ==> keys.view_map().contains_key(key_name@) && exists|
                p: Seq<u8>,
                c: Seq<u8>,
            |
                #![trigger spec_decrypt(keys.view_map()[key_name@], c), spec_set_role(old(self)@, id, RoleView::Challenging(p))]
                p.len() == PASSWORD_LEN && spec_decrypt(keys.view_map()[key_name@], c) == Some(p)
                    && r.unwrap().unwrap()@ == enc_frame(FrameView::VerifyCluster(c))
                    && final(self)@ == spec_set_role(old(self)@, id, RoleView::Challenging(p)),
    {
        let key = match keys.get(key_name) {
            None => return Ok(None),
            Some(k) => k,
        };
        if !self.is_connected(id) {
            return Err(MasterServerError::ClientMissing);
        }
        match self.role(id) {
            Some(Role::Registered) => {
                return Err(MasterServerError::AddClientError);
            },
            _ => {},
        }
        proof {
            if is_registered(self@.conns, id) {
                let m = choose|m: int|
                    0 <= m < self@.conns.len() && self@.conns[m].id == id && self@.conns[m].role is Registered;
                let i = choose|i: int| 0 <= i < self@.conns.len() && self@.conns[i].id == id
                    && !(self@.conns[i].role is Registered);
                if m < i {
                    assert(self@.conns[m].id < self@.conns[i].id);
                } else if i < m {
                    assert(self@.conns[i].id < self@.conns[m].id);
                }
            }
        }
        let passphrase = match generate_passphrase() {
            Ok(p) => p,
            Err(_) => return Err(MasterServerError::SecurityFailure),
        };
        let cipher = match encrypt(passphrase.as_slice(), &key) {
            Ok(c) => c,
            Err(_) => return Err(MasterServerError::SecurityFailure),
        };
        let frame = match encode_frame(&Frame::VerifyCluster(cipher)) {
            Ok(f) => f,
            Err(_) => return Err(MasterServerError::SecurityFailure),
        };
        let _ = self.begin_challenge(id, passphrase);
        Ok(Some(frame))
    }

    /// Handles `AnswerCluster` from connection `id`: registers the cluster
    /// when the echoed passphrase is the one issued, with the declared name,
    /// address, port and cap, and `start_time`.
    pub fn handle_answer_cluster(&mut self, id: u64, answer: Answer, start_time: u32) -> (r: AnswerOutcome)
        requires
            master_wf(old(self)@),
        ensures
            master_wf(final(self)@),
            (r, final(self)@) == spec_answer(old(self)@, id, answer@, start_time),
    {
        let ghost o = self@;
        let i = match self.find_conn(id) {
            None => return AnswerOutcome::Ignored,
            Some(i) => i,
        };
        proof { lemma_conn_index(o.conns, i as int); }
        let matches = match &self.connections[i].role {
            Role::Challenging(p) => bytes_eq(p.as_slice(), answer.passphrase.as_slice()),
            _ => {
                return AnswerOutcome::Ignored;
            },
        };
        if !matches {
            proof { lemma_set_role_wf(o, i as int, RoleView::New); }
            self.connections.set(i, ConnEntry { id, role: Role::New });
            assert(self@.conns =~= o.conns.update(i as int, ConnView { id, role: RoleView::New }));
            return AnswerOutcome::Failed;
        }
        // The connection was not registered, so no record has its ID.
        proof {
            if has_record(o.clusters, id) {
                let j = choose|j: int| 0 <= j < o.clusters.len() && o.clusters[j].id == id;
                assert(is_registered(o.conns, o.clusters[j].id));
                let m = choose|m: int| 0 <= m < o.conns.len() && o.conns[m].id == id && o.conns[m].role is Registered;
                lemma_conn_index(o.conns, m);
            }
        }
        let mut k: usize = 0;
        while k < self.cluster_servers.len() && self.cluster_servers[k].id < id
            invariant
                self@ == o,
                k <= self.cluster_servers@.len(),
                forall|j: int| 0 <= j < k ==> self@.clusters[j].id < id,
            decreases self.cluster_servers@.len() - k,
        {
            k += 1;
        }
        proof {
            assert forall|j: int| k <= j < o.clusters.len() implies o.clusters[j].id > id by {
                assert(o.clusters[j].id != id);
                if j > k {
                    assert(o.clusters[k as int].id < o.clusters[j].id);
                }
                assert(o.clusters[k as int].id >= id);
            }
            lemma_record_slot(o.clusters, id, k as int);
        }
        let rec = ClusterRecord {
            id,
            name: answer.name,
            ip: answer.ip,
            port: answer.port,
            max_connections: answer.max_connections,
            start_time,
        };
        let ghost rv = rec@;
        self.cluster_servers.insert(k, rec);
        self.connections.set(i, ConnEntry { id, role: Role::Registered });
        proof {
            let v = self@;
            assert(v.conns =~= o.conns.update(i as int, ConnView { id, role: RoleView::Registered }));
            assert(v.clusters =~= o.clusters.insert(k as int, rv));
            assert(rv == answer_record(id, answer@, start_time));
            assert(conn_ids_increasing(v.conns));
            assert(record_ids_increasing(v.clusters)) by {
                assert forall|a: int, b: int| 0 <= a < b < v.clusters.len() implies v.clusters[a].id
                    < v.clusters[b].id by {
                    if a < k && b > k {
                        assert(v.clusters[a] == o.clusters[a]);
                        assert(v.clusters[b] == o.clusters[b - 1]);
                    } else if a < k && b == k {
                    } else if a == k {
                        assert(v.clusters[b] == o.clusters[b - 1]);
                    } else if b < k {
                    } else {
                        assert(v.clusters[a] == o.clusters[a - 1]);
                        assert(v.clusters[b] == o.clusters[b - 1]);
                    }
                }
            }
            assert forall|j: int| 0 <= j < v.conns.len() implies #[trigger] v.conns[j].id < v.next_id by {
                assert(o.conns[j].id < o.next_id);
            }
            assert forall|j: int| 0 <= j < v.clusters.len() implies is_registered(
                v.conns,
                #[trigger] v.clusters[j].id,
            ) by {
                if j == k {
                    assert(v.conns[i as int].id == id);
                } else {
                    let oj = if j < k { j } else { j - 1 };
                    assert(v.clusters[j] == o.clusters[oj]);
                    assert(is_registered(o.conns, o.clusters[oj].id));
                    let m = choose|m: int|
                        0 <= m < o.conns.len() && o.conns[m].id == o.clusters[oj].id && o.conns[m].role is Registered;
                    if m == i {
                    } else {
                        assert(v.conns[m] == o.conns[m]);
                    }
                }
            }
            assert forall|j: int|
                0 <= j < v.conns.len() && #[trigger] v.conns[j].role is Registered implies has_record(
                v.clusters,
                v.conns[j].id,
            ) by {
                if j == i {
                    assert(v.clusters[k as int].id == id);
                } else {
                    assert(v.conns[j] == o.conns[j]);
                    let m = choose|m: int| 0 <= m < o.clusters.len() && o.clusters[m].id == o.conns[j].id;
                    if m < k {
                        assert(v.clusters[m] == o.clusters[m]);
                    } else {
                        assert(v.clusters[m + 1] == o.clusters[m]);
                    }
                }
            }
        }
        AnswerOutcome::Registered
    }

    /// Handles what was read from connection `id`: answers `RequestClusters`
    /// with the cluster list, runs the registration handshake, reports
    /// diagnostics requests, and reports an unknown command as an error
    /// without dropping the connection.
    pub fn handle_command(&mut self, keys: &KeyStore, id: u64, input: Decoded, start_time: u32) -> (r: MasterReply)
        requires
            master_wf(old(self)@),
            keys.wf(),
        ensures
            master_wf(final(self)@),
            match input@ {
                Parsed::Frame(FrameView::RequestClusters, _) => final(self)@ == old(self)@ && match r.reply {
                    Some(bytes) => bytes@ == enc_frame(FrameView::SendClusters(cluster_infos(old(self)@.clusters)))
                        && r.events@.len() == 0,
                    None => !crate::codec::encodable(FrameView::SendClusters(cluster_infos(old(self)@.clusters)))
                        && r.events@.len() == 1 && r.events@[0] is Error,
                },
                Parsed::Frame(FrameView::AnswerCluster(a), _) => {
                    let (outcome, w) = spec_answer(old(self)@, id, a, start_time);
                    &&& final(self)@ == w
                    &&& outcome == AnswerOutcome::Registered ==> r.reply is Some && r.reply.unwrap()@ == seq![CREATE_CLUSTER]
                        && r.events@.len() == 1 && match r.events@[0] {
                            MasterEvent::ClusterRegistered(i, n) => i == id && n@ == a.name,
                            _ => false,
                        }
                    &&& outcome == AnswerOutcome::Failed ==> r.reply is None && r.events@ == seq![MasterEvent::ClusterRegistrationFailed(id)]
                    &&& outcome == AnswerOutcome::Ignored ==> r.reply is None && r.events@.len() == 0
                },
                Parsed::Frame(FrameView::BecomeCluster(k), _) => {
                    &&& !keys.view_map().contains_key(k) ==> final(self)@ == old(self)@ && r.reply is None && r.events@.len() == 0
                    &&& r.reply is Some ==> keys.view_map().contains_key(k) && exists|p: Seq<u8>, c: Seq<u8>|
                        #![trigger spec_decrypt(keys.view_map()[k], c), spec_set_role(old(self)@, id, RoleView::Challenging(p))]
                        p.len() == PASSWORD_LEN && spec_decrypt(keys.view_map()[k], c) == Some(p)
                            && r.reply.unwrap()@ == enc_frame(FrameView::VerifyCluster(c))
                            && final(self)@ == spec_set_role(old(self)@, id, RoleView::Challenging(p))
                    &&& r.reply is None ==> final(self)@ == old(self)@
                    &&& keys.view_map().contains_key(k) && is_live(old(self)@.conns, id)
                        && !is_registered(old(self)@.conns, id) ==> (r.reply is Some && r.events@.len() == 0)
                        || (r.reply is None && r.events@.len() == 1 && r.events@[0] is Error)
                },
                Parsed::Frame(FrameView::Bare(b), _) => final(self)@ == old(self)@ && r.reply is None && match diagnostics_of(b) {
                    Some(d) => r.events@.len() == 1 && match r.events@[0] {
                        MasterEvent::DiagnosticsReceived(e, payload) => e == d && payload@.len() == 0,
                        _ => false,
                    },
                    None => r.events@.len() == 0,
                },
                Parsed::Unknown(_) => final(self)@ == old(self)@ && r.reply is None && r.events@.len() == 1 && r.events@[0] is Error,
                _ => final(self)@ == old(self)@ && r.reply is None && r.events@.len() == 0,
            },
    {
        let mut events: Vec<MasterEvent> = Vec::new();
        match input {
            Decoded::Frame(Frame::RequestClusters, _) => {
                match self.send_clusters_frame() {
                    Ok(bytes) => MasterReply { reply: Some(bytes), events },
                    Err(_) => {
                        events.push(MasterEvent::Error(String::from_str("Failed to encode the cluster list")));
                        MasterReply { reply: None, events }
                    },
                }
            },
            Decoded::Frame(Frame::BecomeCluster(k), _) => {
                match self.handle_become_cluster(keys, id, k.as_str()) {
                    Ok(Some(bytes)) => MasterReply { reply: Some(bytes), events },
                    Ok(None) => MasterReply { reply: None, events },
                    Err(_) => {
                        events.push(MasterEvent::Error(String::from_str("Failed to issue the cluster challenge")));
                        MasterReply { reply: None, events }
                    },
                }
            },
            Decoded::Frame(Frame::AnswerCluster(a), _) => {
                let name = a.name.clone();
                match self.handle_answer_cluster(id, a, start_time) {
                    AnswerOutcome::Registered => {
                        events.push(MasterEvent::ClusterRegistered(id, name));
                        let mut reply: Vec<u8> = Vec::new();
                        reply.push(CREATE_CLUSTER);
                        assert(reply@ =~= seq![CREATE_CLUSTER]);
                        MasterReply { reply: Some(reply), events }
                    },
                    AnswerOutcome::Failed => {
                        events.push(MasterEvent::ClusterRegistrationFailed(id));
                        assert(events@ =~= seq![MasterEvent::ClusterRegistrationFailed(id)]);
                        MasterReply { reply: None, events }
                    },
                    AnswerOutcome::Ignored => MasterReply { reply: None, events },
                }
            },
            Decoded::Frame(Frame::Bare(b), _) => {
                match crate::packets::Command::from_u8(b) {
                    Some(crate::packets::Command::Diagnostics(d)) => {
                        events.push(MasterEvent::DiagnosticsReceived(d, Vec::new()));
                    },
                    _ => {},
                }
                MasterReply { reply: None, events }
            },
            Decoded::Unknown(_) => {
                events.push(MasterEvent::Error(String::from_str("Unknown command received")));
                MasterReply { reply: None, events }
            },
            _ => MasterReply { reply: None, events },
        }
    }

    /// Shuts the Master down: every connection is to be closed (the IDs to
    /// send the shutdown sentinel to are returned, in increasing order), and
    /// the table and the registry are left empty.
    pub fn cleanup(&mut self) -> (r: Vec<u64>)
        requires
            master_wf(old(self)@),
        ensures
            master_wf(final(self)@),
            r@ == old(self)@.conns.map_values(|c: ConnView| c.id),
            final(self)@.conns.len() == 0,
            final(self)@.clusters.len() == 0,
            final(self)@.next_id == old(self)@.next_id,
            final(self)@.max_connections == old(self)@.max_connections,
            final(self)@.port == old(self)@.port,
    {
        let ids = self.send_to_all();
        self.connections = Vec::new();
        self.cluster_servers = Vec::new();
        assert(self@.conns =~= Seq::<ConnView>::empty());
        assert(self@.clusters =~= Seq::<ClusterRecordView>::empty());
        ids
    }
}

/// The position of the live connection `id`.
pub open spec fn conn_index(s: Seq<ConnView>, id: u64) -> int {
    choose|i: int| 0 <= i < s.len() && s[i].id == id
}

/// The Master with the role of connection `id` changed (if it is live).
pub open spec fn spec_set_role(v: MasterView, id: u64, role: RoleView) -> MasterView {
    if is_live(v.conns, id) {
        MasterView {
            conns: v.conns.update(conn_index(v.conns, id), ConnView { id, role }),
            ..v
        }
    } else {
        v
    }
}

/// Where a record with a new ID goes to keep the registry ordered.
pub open spec fn record_slot(s: Seq<ClusterRecordView>, id: u64) -> int {
    choose|k: int| #[trigger] is_slot(s, id, k)
}

/// Every record before `k` has a smaller ID, every one from `k` a larger.
pub open spec fn is_slot(s: Seq<ClusterRecordView>, id: u64, k: int) -> bool {
    0 <= k <= s.len() && (forall|j: int| 0 <= j < k ==> s[j].id < id) && (forall|j: int|
        k <= j < s.len() ==> s[j].id > id)
}

/// The registry with a record added at its place by ID.
pub open spec fn insert_record(s: Seq<ClusterRecordView>, r: ClusterRecordView) -> Seq<
    ClusterRecordView,
> {
    s.insert(record_slot(s, r.id), r)
}

/// The result of checking a cluster's answer.
#[derive(Debug, Clone, Copy, PartialEq, Eq, Structural)]
pub enum AnswerOutcome {
    /// The passphrase matched: the cluster is registered; reply
    /// `CreateCluster` and report `ClusterRegistered`.
    Registered,
    /// The passphrase did not match: back to `New`, report
    /// `ClusterRegistrationFailed`, and stay silent to the peer.
    Failed,
    /// The connection was not being challenged: nothing happens.
    Ignored,
}

/// The record that a matching answer puts in the registry.
pub open spec fn answer_record(id: u64, a: AnswerView, start_time: u32) -> ClusterRecordView {
    ClusterRecordView {
        id,
        name: a.name,
        ip: a.ip,
        port: a.port,
        max_connections: a.max_connections,
        start_time,
    }
}

/// Checking an answer: it must echo the passphrase that was issued.
pub open spec fn spec_answer(v: MasterView, id: u64, a: AnswerView, start_time: u32) -> (
    AnswerOutcome,
    MasterView,
) {
    if is_live(v.conns, id) {
        match v.conns[conn_index(v.conns, id)].role {
            RoleView::Challenging(p) => if a.passphrase == p {
                (
                    AnswerOutcome::Registered,
                    MasterView {
                        clusters: insert_record(v.clusters, answer_record(id, a, start_time)),
                        ..spec_set_role(v, id, RoleView::Registered)
                    },
                )
            } else {
                (AnswerOutcome::Failed, spec_set_role(v, id, RoleView::New))
            },
            _ => (AnswerOutcome::Ignored, v),
        }
    } else {
        (AnswerOutcome::Ignored, v)
    }
}

/// The clusters as clients see them, in registry order.
pub open spec fn cluster_infos(s: Seq<ClusterRecordView>) -> Seq<ClusterInfoView> {
    s.map_values(
        |r: ClusterRecordView|
            ClusterInfoView { name: r.name, ip: r.ip, port: r.port, max_connections: r.max_connections },
    )
}

proof fn lemma_conn_index(s: Seq<ConnView>, i: int)
    requires
        conn_ids_increasing(s),
        0 <= i < s.len(),
    ensures
        conn_index(s, s[i].id) == i,
{
    let id = s[i].id;
    assert(exists|k: int| 0 <= k < s.len() && s[k].id == id);
    let k = conn_index(s, id);
    if k < i {
        assert(s[k].id < s[i].id);
    } else if k > i {
        assert(s[i].id < s[k].id);
    }
}

proof fn lemma_record_slot(s: Seq<ClusterRecordView>, id: u64, k: int)
    requires
        record_ids_increasing(s),
        0 <= k <= s.len(),
        forall|j: int| 0 <= j < k ==> s[j].id < id,
        forall|j: int| k <= j < s.len() ==> s[j].id > id,
    ensures
        record_slot(s, id) == k,
{
    assert(is_slot(s, id, k));
    let c = record_slot(s, id);
    if c < k {
        assert(s[c].id > id);
        assert(s[c].id < id);
    } else if c > k {
        assert(s[k].id > id);
        assert(s[k].id < id);
    }
}

proof fn lemma_set_role_wf(v: MasterView, i: int, role: RoleView)
    requires
        master_wf(v),
        0 <= i < v.conns.len(),
        !(v.conns[i].role is Registered),
        !(role is Registered),
    ensures
        master_wf(spec_set_role(v, v.conns[i].id, role)),
        spec_set_role(v, v.conns[i].id, role).conns == v.conns.update(
            i,
            ConnView { id: v.conns[i].id, role },
        ),
{
    lemma_conn_index(v.conns, i);
    let id = v.conns[i].id;
    let w = spec_set_role(v, id, role);
    assert forall|j: int| 0 <= j < w.clusters.len() implies is_registered(
        w.conns,
        #[trigger] w.clusters[j].id,
    ) by {
        let m = choose|m: int|
            0 <= m < v.conns.len() && v.conns[m].id == v.clusters[j].id && v.conns[m].role is Registered;
        assert(m != i);
        assert(w.conns[m] == v.conns[m]);
    }
    assert forall|j: int|
        0 <= j < w.conns.len() && #[trigger] w.conns[j].role is Registered implies has_record(
        w.clusters,
        w.conns[j].id,
    ) by {
        assert(j != i);
        assert(w.conns[j] == v.conns[j]);
    }
}

/// What handling one received command produces: bytes to send back to the
/// same connection, and events for the supervisor.
pub struct MasterReply {
    pub reply: Option<Vec<u8>>,
    pub events: Vec<MasterEvent>,
}

/// The diagnostics request a byte names, if any.
pub open spec fn diagnostics_of(b: u8) -> Option<crate::packets::Diagnostics> {
    match crate::packets::Command::spec_from_u8(b) {
        Some(crate::packets::Command::Diagnostics(d)) => Some(d),
        _ => None,
    }
}

impl Role {
    pub fn clone_role(&self) -> (r: Role)
        ensures
            r@ == self@,
    {
        match self {
            Role::New => Role::New,
            Role::Challenging(p) => Role::Challenging(crate::packet::copy_bytes(p.as_slice())),
            Role::Registered => Role::Registered,
        }
    }
}

proof fn lemma_removed_elem_in(s: Seq<ConnView>, id: u64, i: int)
    requires
        0 <= i < without_conn(s, id).len(),
    ensures
        s.contains(without_conn(s, id)[i]),
{
    if exists|k: int| 0 <= k < s.len() && s[k].id == id {
        let k = choose|k: int| 0 <= k < s.len() && s[k].id == id;
        if i < k {
            assert(without_conn(s, id)[i] == s[i]);
        } else {
            assert(without_conn(s, id)[i] == s[i + 1]);
        }
    } else {
        assert(without_conn(s, id)[i] == s[i]);
    }
}

proof fn lemma_record_survives(o: MasterView, id: u64, i: int)
    requires
        master_wf(o),
        0 <= i < without_record(o.clusters, id).len(),
    ensures
        is_registered(without_conn(o.conns, id), without_record(o.clusters, id)[i].id),
{
    let cs = without_record(o.clusters, id);
    let r = cs[i];
    // The record is one of the old ones, and not the removed one.
    let j: int = if exists|k: int| 0 <= k < o.clusters.len() && o.clusters[k].id == id {
        let k = choose|k: int| 0 <= k < o.clusters.len() && o.clusters[k].id == id;
        if i < k { i } else { i + 1 }
    } else {
        i
    };
    assert(o.clusters[j] == r);
    assert(r.id != id) by {
        if exists|k: int| 0 <= k < o.clusters.len() && o.clusters[k].id == id {
            let k = choose|k: int| 0 <= k < o.clusters.len() && o.clusters[k].id == id;
            assert(j != k);
            if j < k {
                assert(o.clusters[j].id < o.clusters[k].id);
            } else {
                assert(o.clusters[k].id < o.clusters[j].id);
            }
        }
    }
    assert(is_registered(o.conns, o.clusters[j].id));
    let m = choose|m: int|
        0 <= m < o.conns.len() && o.conns[m].id == r.id && o.conns[m].role is Registered;
    let cv = without_conn(o.conns, id);
    if exists|k: int| 0 <= k < o.conns.len() && o.conns[k].id == id {
        let k = choose|k: int| 0 <= k < o.conns.len() && o.conns[k].id == id;
        assert(m != k);
        if m < k {
            assert(cv[m] == o.conns[m]);
        } else {
            assert(cv[m - 1] == o.conns[m]);
        }
    } else {
        assert(cv[m] == o.conns[m]);
    }
}

proof fn lemma_registered_survives(o: MasterView, id: u64, i: int)
    requires
        master_wf(o),
        0 <= i < without_conn(o.conns, id).len(),
        without_conn(o.conns, id)[i].role is Registered,
    ensures
        has_record(without_record(o.clusters, id), without_conn(o.conns, id)[i].id),
{
    let cv = without_conn(o.conns, id);
    let c = cv[i];
    let j: int = if exists|k: int| 0 <= k < o.conns.len() && o.conns[k].id == id {
        let k = choose|k: int| 0 <= k < o.conns.len() && o.conns[k].id == id;
        if i < k { i } else { i + 1 }
    } else {
        i
    };
    assert(o.conns[j] == c);
    assert(c.id != id) by {
        if exists|k: int| 0 <= k < o.conns.len() && o.conns[k].id == id {
            let k = choose|k: int| 0 <= k < o.conns.len() && o.conns[k].id == id;
            assert(j != k);
            if j < k {
                assert(o.conns[j].id < o.conns[k].id);
            } else {
                assert(o.conns[k].id < o.conns[j].id);
            }
        }
    }
    assert(o.conns[j].role is Registered);
    assert(has_record(o.clusters, o.conns[j].id));
    let m = choose|m: int| 0 <= m < o.clusters.len() && o.clusters[m].id == c.id;
    let rv = without_record(o.clusters, id);
    if exists|k: int| 0 <= k < o.clusters.len() && o.clusters[k].id == id {
        let k = choose|k: int| 0 <= k < o.clusters.len() && o.clusters[k].id == id;
        assert(m != k);
        if m < k {
            assert(rv[m] == o.clusters[m]);
        } else {
            assert(rv[m - 1] == o.clusters[m]);
        }
    } else {
        assert(rv[m] == o.clusters[m]);
    }
}

/// Every registered cluster's ID names a live connection that has completed
/// registration, and every such connection has a record.
pub proof fn lemma_registry_matches_connections(v: MasterView)
    requires
        master_wf(v),
    ensures
        forall|i: int| 0 <= i < v.clusters.len() ==> is_registered(v.conns, #[trigger] v.clusters[i].id),
        forall|j: int|
            0 <= j < v.conns.len() && #[trigger] v.conns[j].role is Registered ==> has_record(
                v.clusters,
                v.conns[j].id,
            ),
{
}

/// No two cluster records share an ID, and no two live connections do.
pub proof fn lemma_ids_unique(v: MasterView)
    requires
        master_wf(v),
    ensures
        forall|i: int, j: int|
            0 <= i < v.clusters.len() && 0 <= j < v.clusters.len() && i != j ==> v.clusters[i].id
                != v.clusters[j].id,
        forall|i: int, j: int|
            0 <= i < v.conns.len() && 0 <= j < v.conns.len() && i != j ==> v.conns[i].id
                != v.conns[j].id,
{
    assert forall|i: int, j: int|
        0 <= i < v.clusters.len() && 0 <= j < v.clusters.len() && i != j implies v.clusters[i].id
        != v.clusters[j].id by {
        if i < j {
            assert(v.clusters[i].id < v.clusters[j].id);
        } else {
            assert(v.clusters[j].id < v.clusters[i].id);
        }
    }
    assert forall|i: int, j: int|
        0 <= i < v.conns.len() && 0 <= j < v.conns.len() && i != j implies v.conns[i].id
        != v.conns[j].id by {
        if i < j {
            assert(v.conns[i].id < v.conns[j].id);
        } else {
            assert(v.conns[j].id < v.conns[i].id);
        }
    }
}

/// An operation on the Master's table: an accept, or the disconnect of a
/// connection.
pub enum MasterOp {
    Accept,
    Disconnect(u64),
}

/// Running operations in order: the IDs the accepts handed out, in order,
/// and the Master after them.
pub open spec fn run_ops(v: MasterView, ops: Seq<MasterOp>) -> (Seq<u64>, MasterView)
    decreases ops.len(),
{
    if ops.len() == 0 {
        (Seq::empty(), v)
    } else {
        let (ids, w) = run_ops(v, ops.drop_last());
        match ops.last() {
            MasterOp::Accept => match spec_accept(w) {
                (Ok(id), w2) => (ids.push(id), w2),
                (Err(_), w2) => (ids, w2),
            },
            MasterOp::Disconnect(id) => (ids, spec_disconnect(w, id)),
        }
    }
}

/// With no cap, whatever disconnects come in between, the accepts hand out
/// consecutive IDs from the next one, in order and never again, and the
/// next ID afterwards is the number of accepts past it: on a fresh Master,
/// after `N` accepts the IDs given were 0 to N-1 and the next is N.
pub proof fn lemma_ids_under_churn(v: MasterView, ops: Seq<MasterOp>)
    requires
        v.max_connections == 0,
        v.next_id + ops.len() <= u64::MAX,
    ensures
        run_ops(v, ops).1.next_id == v.next_id + run_ops(v, ops).0.len(),
        run_ops(v, ops).1.max_connections == 0,
        run_ops(v, ops).0.len() <= ops.len(),
        forall|i: int| 0 <= i < run_ops(v, ops).0.len() ==> #[trigger] run_ops(v, ops).0[i]
            == v.next_id + i,
    decreases ops.len(),
{
    if ops.len() > 0 {
        lemma_ids_under_churn(v, ops.drop_last());
        let (ids, w) = run_ops(v, ops.drop_last());
        match ops.last() {
            MasterOp::Accept => {
                let r = run_ops(v, ops).0;
                assert forall|i: int| 0 <= i < r.len() implies #[trigger] r[i] == v.next_id + i by {
                    if i < ids.len() {
                        assert(r[i] == ids[i]);
                    }
                }
            },
            MasterOp::Disconnect(id) => {},
        }
    }
}

/// The handshake succeeds with the right key: once connection `id` has been
/// challenged with passphrase `p` encrypted as `c` under `key`, an answer
/// that echoes what `c` decrypts to under `key` registers the cluster with
/// the details it declared.
pub proof fn lemma_same_key_registers(
    v: MasterView,
    id: u64,
    key: Seq<u8>,
    c: Seq<u8>,
    p: Seq<u8>,
    name: Seq<char>,
    ip: Seq<char>,
    port: u16,
    max_connections: u32,
    start_time: u32,
)
    requires
        master_wf(v),
        is_live(v.conns, id),
        !is_registered(v.conns, id),
        spec_decrypt(key, c) == Some(p),
    ensures
        ({
            let challenged = spec_set_role(v, id, RoleView::Challenging(p));
            let a = AnswerView {
                passphrase: crate::cluster::echoed_passphrase(key, c),
                name,
                ip,
                port,
                max_connections,
            };
            let (outcome, w) = spec_answer(challenged, id, a, start_time);
            &&& outcome == AnswerOutcome::Registered
            &&& has_record(w.clusters, id)
            &&& w.clusters.contains(answer_record(id, a, start_time))
        }),
{
    let i = conn_index(v.conns, id);
    let challenged = spec_set_role(v, id, RoleView::Challenging(p));
    assert(challenged.conns[i].id == id);
    assert(conn_ids_increasing(challenged.conns));
    lemma_conn_index(challenged.conns, i);
    let a = AnswerView {
        passphrase: crate::cluster::echoed_passphrase(key, c),
        name,
        ip,
        port,
        max_connections,
    };
    let r = answer_record(id, a, start_time);
    let k = record_slot(challenged.clusters, id);
    let w = spec_answer(challenged, id, a, start_time).1;
    assert(w.clusters == challenged.clusters.insert(k, r));
    // The slot exists: the registry is ordered and has no record for `id`.
    assert(!has_record(v.clusters, id)) by {
        if has_record(v.clusters, id) {
            let m = choose|m: int| 0 <= m < v.clusters.len() && v.clusters[m].id == id;
            assert(is_registered(v.conns, v.clusters[m].id));
        }
    }
    let cl = v.clusters;
    let slot = lemma_slot_exists(cl, id);
    lemma_record_slot(cl, id, slot);
    assert(0 <= k <= cl.len());
    assert(w.clusters[k] == r);
}

/// The handshake fails without the key: once connection `id` has been
/// challenged with passphrase `p`, an answer with any other passphrase
/// leaves the registry as it was, sends the connection back to `New`, and
/// keeps it open.
pub proof fn lemma_wrong_answer_refused(v: MasterView, id: u64, p: Seq<u8>, a: AnswerView, start_time: u32)
    requires
        master_wf(v),
        is_live(v.conns, id),
        !is_registered(v.conns, id),
        a.passphrase != p,
    ensures
        ({
            let challenged = spec_set_role(v, id, RoleView::Challenging(p));
            let (outcome, w) = spec_answer(challenged, id, a, start_time);
            &&& outcome == AnswerOutcome::Failed
            &&& w.clusters == v.clusters
            &&& is_live(w.conns, id)
            &&& w == spec_set_role(challenged, id, RoleView::New)
        }),
{
    let i = conn_index(v.conns, id);
    let challenged = spec_set_role(v, id, RoleView::Challenging(p));
    assert(challenged.conns[i].id == id);
    assert(conn_ids_increasing(challenged.conns));
    lemma_conn_index(challenged.conns, i);
    let w = spec_set_role(challenged, id, RoleView::New);
    assert(w.conns[i].id == id);
}

proof fn lemma_slot_exists(s: Seq<ClusterRecordView>, id: u64) -> (k: int)
    requires
        record_ids_increasing(s),
        !has_record(s, id),
    ensures
        0 <= k <= s.len(),
        forall|j: int| 0 <= j < k ==> s[j].id < id,
        forall|j: int| k <= j < s.len() ==> s[j].id > id,
    decreases s.len(),
{
    if s.len() == 0 {
        0
    } else if s.last().id < id {
        assert forall|j: int| 0 <= j < s.len() implies s[j].id < id by {
            if j < s.len() - 1 {
                assert(s[j].id < s[s.len() - 1].id);
            }
        }
        s.len() as int
    } else {
        let t = s.drop_last();
        assert(record_ids_increasing(t)) by {
            assert forall|a: int, b: int| 0 <= a < b < t.len() implies t[a].id < t[b].id by {
                assert(s[a].id < s[b].id);
            }
        }
        assert(!has_record(t, id)) by {
            if has_record(t, id) {
                let m = choose|m: int| 0 <= m < t.len() && t[m].id == id;
                assert(s[m].id == id);
            }
        }
        let k = lemma_slot_exists(t, id);
        assert(s.last().id > id) by {
            assert(s[s.len() - 1].id != id);
        }
        assert forall|j: int| k <= j < s.len() implies s[j].id > id by {
            if j < s.len() - 1 {
                assert(s[j] == t[j]);
            }
        }
        assert forall|j: int| 0 <= j < k implies s[j].id < id by {
            assert(s[j] == t[j]);
        }
        k
    }
}

/// Whether two byte strings are equal.
fn bytes_eq(a: &[u8], b: &[u8]) -> (r: bool)
    ensures
        r == (a@ == b@),
{
    if a.len() != b.len() {
        return false;
    }
    let mut i: usize = 0;
    while i < a.len()
        invariant
            a@.len() == b@.len(),
            i <= a@.len(),
            forall|j: int| 0 <= j < i ==> a@[j] == b@[j],
        decreases a@.len() - i,
    {
        if a[i] != b[i] {
            return false;
        }
        i += 1;
    }
    assert(a@ =~= b@);
    true
}

} // verus!
