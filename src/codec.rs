//! The wire format of the discovery and registration commands. A command is
//! its identifier byte followed by a payload whose shape the identifier
//! fixes; integers are big-endian and a string is one length byte followed by
//! that many bytes of UTF-8.

use vstd::prelude::*;
use vstd::utf8::{encode_utf8, valid_utf8, decode_utf8, encode_utf8_decode_utf8, encode_utf8_valid_utf8, decode_utf8_encode_utf8};
use crate::bytes_be::{be16, be32, from_be16, from_be32, push_u16, push_u32, get_u16, get_u32, lemma_be16_round_trip, lemma_be32_round_trip};
use crate::packet::string_from_utf8;
use crate::packets::Command;

verus! {

/// A cluster as clients see it: where to reach it and how many it takes.
#[derive(Debug, Clone, PartialEq, Eq)]
pub struct ClusterInfo {
    pub name: String,
    pub ip: String,
    pub port: u16,
    pub max_connections: u32,
}

pub struct ClusterInfoView {
    pub name: Seq<char>,
    pub ip: Seq<char>,
    pub port: u16,
    pub max_connections: u32,
}

impl View for ClusterInfo {
    type V = ClusterInfoView;

    open spec fn view(&self) -> ClusterInfoView {
        ClusterInfoView {
            name: self.name@,
            ip: self.ip@,
            port: self.port,
            max_connections: self.max_connections,
        }
    }
}

/// What a cluster answers to the Master's challenge.
#[derive(Debug, Clone, PartialEq, Eq)]
pub struct Answer {
    /// The passphrase as the cluster decrypted it.
    pub passphrase: Vec<u8>,
    pub name: String,
    pub ip: String,
    pub port: u16,
    pub max_connections: u32,
}

pub struct AnswerView {
    pub passphrase: Seq<u8>,
    pub name: Seq<char>,
    pub ip: Seq<char>,
    pub port: u16,
    pub max_connections: u32,
}

impl View for Answer {
    type V = AnswerView;

    open spec fn view(&self) -> AnswerView {
        AnswerView {
            passphrase: self.passphrase@,
            name: self.name@,
            ip: self.ip@,
            port: self.port,
            max_connections: self.max_connections,
        }
    }
}

/// One command with its payload.
#[derive(Debug, Clone, PartialEq, Eq)]
pub enum Frame {
    RequestClusters,
    SendClusters(Vec<ClusterInfo>),
    BecomeCluster(String),
    VerifyCluster(Vec<u8>),
    AnswerCluster(Answer),
    CreateCluster,
    /// A known command whose payload the core does not define.
    Bare(u8),
}

pub enum FrameView {
    RequestClusters,
    SendClusters(Seq<ClusterInfoView>),
    BecomeCluster(Seq<char>),
    VerifyCluster(Seq<u8>),
    AnswerCluster(AnswerView),
    CreateCluster,
    Bare(u8),
}

pub open spec fn clusters_view(v: Seq<ClusterInfo>) -> Seq<ClusterInfoView> {
    v.map_values(|c: ClusterInfo| c@)
}

impl View for Frame {
    type V = FrameView;

    open spec fn view(&self) -> FrameView {
        match self {
            Frame::RequestClusters => FrameView::RequestClusters,
            Frame::SendClusters(v) => FrameView::SendClusters(clusters_view(v@)),
            Frame::BecomeCluster(k) => FrameView::BecomeCluster(k@),
            Frame::VerifyCluster(c) => FrameView::VerifyCluster(c@),
            Frame::AnswerCluster(a) => FrameView::AnswerCluster(a@),
            Frame::CreateCluster => FrameView::CreateCluster,
            Frame::Bare(b) => FrameView::Bare(*b),
        }
    }
}

/// Why a frame cannot be written.
#[derive(Debug, Clone, Copy, PartialEq, Eq, Structural)]
pub enum CodecError {
    /// A string or byte field, or the number of clusters, does not fit in
    /// one length byte.
    TooLong,
    /// A bare frame whose byte names no command without payload.
    UnknownCommand,
}

pub const REQUEST_CLUSTERS: u8 = 230;
pub const SEND_CLUSTERS: u8 = 231;
pub const BECOME_CLUSTER: u8 = 232;
pub const VERIFY_CLUSTER: u8 = 233;
pub const ANSWER_CLUSTER: u8 = 234;
pub const CREATE_CLUSTER: u8 = 235;

/// A known command byte that has no payload in the core.
pub open spec fn is_bare(b: u8) -> bool {
    Command::spec_from_u8(b) is Some && !(230 <= b <= 235)
}

// ---- encoding ----

pub open spec fn enc_bytes(b: Seq<u8>) -> Seq<u8> {
    seq![b.len() as u8] + b
}

pub open spec fn enc_str(s: Seq<char>) -> Seq<u8> {
    enc_bytes(encode_utf8(s))
}

pub open spec fn str_fits(s: Seq<char>) -> bool {
    encode_utf8(s).len() <= 255
}

pub open spec fn enc_cluster(c: ClusterInfoView) -> Seq<u8> {
    enc_str(c.name) + enc_str(c.ip) + be16(c.port) + be32(c.max_connections)
}

pub open spec fn cluster_fits(c: ClusterInfoView) -> bool {
    str_fits(c.name) && str_fits(c.ip)
}

pub open spec fn enc_clusters(cs: Seq<ClusterInfoView>) -> Seq<u8>
    decreases cs.len(),
{
    if cs.len() == 0 {
        Seq::empty()
    } else {
        enc_cluster(cs[0]) + enc_clusters(cs.drop_first())
    }
}

pub open spec fn enc_answer(a: AnswerView) -> Seq<u8> {
    enc_bytes(a.passphrase) + enc_str(a.name) + enc_str(a.ip) + be16(a.port) + be32(
        a.max_connections,
    )
}

/// The bytes of a frame on the wire.
pub open spec fn enc_frame(f: FrameView) -> Seq<u8> {
    match f {
        FrameView::RequestClusters => seq![REQUEST_CLUSTERS],
        FrameView::SendClusters(cs) => seq![SEND_CLUSTERS, cs.len() as u8] + enc_clusters(cs),
        FrameView::BecomeCluster(k) => seq![BECOME_CLUSTER] + enc_str(k),
        FrameView::VerifyCluster(c) => seq![VERIFY_CLUSTER] + enc_bytes(c),
        FrameView::AnswerCluster(a) => seq![ANSWER_CLUSTER] + enc_answer(a),
        FrameView::CreateCluster => seq![CREATE_CLUSTER],
        FrameView::Bare(b) => seq![b],
    }
}

/// A frame that can be written: every length fits in its length byte, and a
/// bare byte names a known command.
pub open spec fn encodable(f: FrameView) -> bool {
    match f {
        FrameView::SendClusters(cs) => cs.len() <= 255 && forall|i: int|
            0 <= i < cs.len() ==> cluster_fits(#[trigger] cs[i]),
        FrameView::BecomeCluster(k) => str_fits(k),
        FrameView::VerifyCluster(c) => c.len() <= 255,
        FrameView::AnswerCluster(a) => a.passphrase.len() <= 255 && str_fits(a.name) && str_fits(
            a.ip,
        ),
        FrameView::Bare(b) => is_bare(b),
        _ => true,
    }
}

fn push_bytes(out: &mut Vec<u8>, b: &[u8])
    requires
        b@.len() <= 255,
    ensures
        final(out)@ == old(out)@ + enc_bytes(b@),
{
    out.push(b.len() as u8);
    let mut i: usize = 0;
    while i < b.len()
        invariant
            i <= b@.len(),
            out@ == old(out)@ + seq![b@.len() as u8] + b@.subrange(0, i as int),
        decreases b@.len() - i,
    {
        out.push(b[i]);
        i += 1;
        assert(out@ =~= old(out)@ + seq![b@.len() as u8] + b@.subrange(0, i as int));
    }
    assert(b@.subrange(0, b@.len() as int) =~= b@);
    assert(final(out)@ =~= old(out)@ + enc_bytes(b@));
}

fn push_str(out: &mut Vec<u8>, s: &String) -> (ok: bool)
    ensures
        ok == str_fits(s@),
        ok ==> final(out)@ == old(out)@ + enc_str(s@),
        !ok ==> final(out)@ == old(out)@,
{
    let b = s.as_str().as_bytes();
    if b.len() > 255 {
        return false;
    }
    push_bytes(out, b);
    true
}

fn push_cluster(out: &mut Vec<u8>, c: &ClusterInfo) -> (ok: bool)
    ensures
        ok == cluster_fits(c@),
        ok ==> final(out)@ == old(out)@ + enc_cluster(c@),
{
    if !push_str(out, &c.name) {
        return false;
    }
    if !push_str(out, &c.ip) {
        return false;
    }
    push_u16(out, c.port);
    push_u32(out, c.max_connections);
    assert(final(out)@ =~= old(out)@ + enc_cluster(c@));
    true
}

proof fn lemma_enc_clusters_push(cs: Seq<ClusterInfoView>, c: ClusterInfoView)
    ensures
        enc_clusters(cs.push(c)) == enc_clusters(cs) + enc_cluster(c),
    decreases cs.len(),
{
    if cs.len() == 0 {
        assert(cs.push(c).drop_first() =~= Seq::<ClusterInfoView>::empty());
        assert(cs.push(c)[0] == c);
        assert(enc_clusters(cs) == Seq::<u8>::empty());
        assert(enc_clusters(cs.push(c).drop_first()) == Seq::<u8>::empty());
        assert(enc_clusters(cs.push(c)) =~= enc_clusters(cs) + enc_cluster(c));
    } else {
        lemma_enc_clusters_push(cs.drop_first(), c);
        assert(cs.push(c).drop_first() =~= cs.drop_first().push(c));
        assert(cs.push(c)[0] == cs[0]);
        assert(enc_clusters(cs) == enc_cluster(cs[0]) + enc_clusters(cs.drop_first()));
        assert(enc_clusters(cs.push(c)) == enc_cluster(cs[0]) + enc_clusters(cs.drop_first().push(c)));
        assert(enc_clusters(cs.push(c)) =~= enc_clusters(cs) + enc_cluster(c));
    }
}

/// Writes a frame; fails exactly when a length does not fit in its byte.
pub fn encode_frame(f: &Frame) -> (r: Result<Vec<u8>, CodecError>)
    ensures
        r is Ok <==> encodable(f@),
        r is Ok ==> r.unwrap()@ == enc_frame(f@),
{
    let mut out: Vec<u8> = Vec::new();
    match f {
        Frame::RequestClusters => {
            out.push(REQUEST_CLUSTERS);
        },
        Frame::SendClusters(v) => {
            if v.len() > 255 {
                return Err(CodecError::TooLong);
            }
            out.push(SEND_CLUSTERS);
            out.push(v.len() as u8);
            let mut i: usize = 0;
            while i < v.len()
                invariant
                    f@ == FrameView::SendClusters(clusters_view(v@)),
                    v@.len() <= 255,
                    i <= v@.len(),
                    forall|j: int| 0 <= j < i ==> cluster_fits(#[trigger] v@[j]@),
                    out@ == seq![SEND_CLUSTERS, v@.len() as u8] + enc_clusters(
                        clusters_view(v@.subrange(0, i as int)),
                    ),
                decreases v@.len() - i,
            {
                let ghost before = out@;
                if !push_cluster(&mut out, &v[i]) {
                    assert(clusters_view(v@)[i as int] == v@[i as int]@);
                    assert(!cluster_fits(clusters_view(v@)[i as int]));
                    assert(f@ == FrameView::SendClusters(clusters_view(v@)));
                    assert(!encodable(f@));
                    return Err(CodecError::TooLong);
                }
                proof {
                    lemma_enc_clusters_push(clusters_view(v@.subrange(0, i as int)), v@[i as int]@);
                    assert(clusters_view(v@.subrange(0, i + 1)) =~= clusters_view(
                        v@.subrange(0, i as int),
                    ).push(v@[i as int]@));
                }
                i += 1;
            }
            assert(v@.subrange(0, v@.len() as int) =~= v@);
            assert(forall|j: int| 0 <= j < v@.len() ==> #[trigger] clusters_view(v@)[j] == v@[j]@);
        },
        Frame::BecomeCluster(k) => {
            out.push(BECOME_CLUSTER);
            if !push_str(&mut out, k) {
                return Err(CodecError::TooLong);
            }
        },
        Frame::VerifyCluster(c) => {
            if c.len() > 255 {
                return Err(CodecError::TooLong);
            }
            out.push(VERIFY_CLUSTER);
            push_bytes(&mut out, c.as_slice());
        },
        Frame::AnswerCluster(a) => {
            if a.passphrase.len() > 255 {
                return Err(CodecError::TooLong);
            }
            out.push(ANSWER_CLUSTER);
            push_bytes(&mut out, a.passphrase.as_slice());
            if !push_str(&mut out, &a.name) {
                return Err(CodecError::TooLong);
            }
            if !push_str(&mut out, &a.ip) {
                return Err(CodecError::TooLong);
            }
            push_u16(&mut out, a.port);
            push_u32(&mut out, a.max_connections);
        },
        Frame::CreateCluster => {
            out.push(CREATE_CLUSTER);
        },
        Frame::Bare(b) => {
            let known = Command::from_u8(*b);
            if known.is_none() || (230 <= *b && *b <= 235) {
                return Err(CodecError::UnknownCommand);
            }
            out.push(*b);
        },
    }
    assert(out@ =~= enc_frame(f@));
    Ok(out)
}

// ---- decoding ----

/// Length-prefixed bytes at `pos`, and where they end.
pub open spec fn parse_bytes(buf: Seq<u8>, pos: int) -> Option<(Seq<u8>, int)> {
    if 0 <= pos < buf.len() && pos + 1 + buf[pos] <= buf.len() {
        Some((buf.subrange(pos + 1, pos + 1 + buf[pos]), pos + 1 + buf[pos]))
    } else {
        None
    }
}

/// A length-prefixed UTF-8 string at `pos`, and where it ends.
pub open spec fn parse_str(buf: Seq<u8>, pos: int) -> Option<(Seq<char>, int)> {
    match parse_bytes(buf, pos) {
        Some((b, n)) => if valid_utf8(b) {
            Some((decode_utf8(b), n))
        } else {
            None
        },
        None => None,
    }
}

/// A port and a connection cap at `pos`.
pub open spec fn parse_port_max(buf: Seq<u8>, pos: int) -> Option<(u16, u32)> {
    if 0 <= pos && pos + 6 <= buf.len() {
        Some((from_be16(buf.subrange(pos, pos + 2)), from_be32(buf.subrange(pos + 2, pos + 6))))
    } else {
        None
    }
}

pub open spec fn parse_cluster(buf: Seq<u8>, pos: int) -> Option<(ClusterInfoView, int)> {
    match parse_str(buf, pos) {
        None => None,
        Some((name, end_name)) => match parse_str(buf, end_name) {
            None => None,
            Some((ip, end_ip)) => match parse_port_max(buf, end_ip) {
                None => None,
                Some((port, max)) => Some(
                    (ClusterInfoView { name, ip, port, max_connections: max }, end_ip + 6),
                ),
            },
        },
    }
}

/// `n` clusters in a row from `pos`.
pub open spec fn parse_clusters(buf: Seq<u8>, pos: int, n: nat) -> Option<(Seq<ClusterInfoView>, int)>
    decreases n,
{
    if n == 0 {
        Some((Seq::empty(), pos))
    } else {
        match parse_cluster(buf, pos) {
            None => None,
            Some((c, p)) => match parse_clusters(buf, p, (n - 1) as nat) {
                None => None,
                Some((cs, q)) => Some((seq![c] + cs, q)),
            },
        }
    }
}

pub open spec fn parse_answer(buf: Seq<u8>, pos: int) -> Option<(AnswerView, int)> {
    match parse_bytes(buf, pos) {
        None => None,
        Some((pass, end_pass)) => match parse_str(buf, end_pass) {
            None => None,
            Some((name, end_name)) => match parse_str(buf, end_name) {
                None => None,
                Some((ip, end_ip)) => match parse_port_max(buf, end_ip) {
                    None => None,
                    Some((port, max)) => Some(
                        (
                            AnswerView { passphrase: pass, name, ip, port, max_connections: max },
                            end_ip + 6,
                        ),
                    ),
                },
            },
        },
    }
}

/// What stands at a position of the received bytes.
pub enum Parsed {
    /// A whole frame, and where the next one starts.
    Frame(FrameView, int),
    /// A byte that names no command: a protocol error, one byte long.
    Unknown(u8),
    /// Not a whole frame yet: more bytes are needed, or the frame's text is
    /// not UTF-8.
    Pending,
}

pub open spec fn opt_frame<A>(r: Option<(A, int)>, f: spec_fn(A) -> FrameView) -> Parsed {
    match r {
        Some((a, q)) => Parsed::Frame(f(a), q),
        None => Parsed::Pending,
    }
}

/// The frame at `pos`, read by the shape that its first byte fixes.
pub open spec fn parse_frame(buf: Seq<u8>, pos: int) -> Parsed {
    if !(0 <= pos < buf.len()) {
        Parsed::Pending
    } else {
        let b = buf[pos];
        if b == REQUEST_CLUSTERS {
            Parsed::Frame(FrameView::RequestClusters, pos + 1)
        } else if b == SEND_CLUSTERS {
            if pos + 2 <= buf.len() {
                opt_frame(
                    parse_clusters(buf, pos + 2, buf[pos + 1] as nat),
                    |cs| FrameView::SendClusters(cs),
                )
            } else {
                Parsed::Pending
            }
        } else if b == BECOME_CLUSTER {
            opt_frame(parse_str(buf, pos + 1), |k| FrameView::BecomeCluster(k))
        } else if b == VERIFY_CLUSTER {
            opt_frame(parse_bytes(buf, pos + 1), |c| FrameView::VerifyCluster(c))
        } else if b == ANSWER_CLUSTER {
            opt_frame(parse_answer(buf, pos + 1), |a| FrameView::AnswerCluster(a))
        } else if b == CREATE_CLUSTER {
            Parsed::Frame(FrameView::CreateCluster, pos + 1)
        } else if is_bare(b) {
            Parsed::Frame(FrameView::Bare(b), pos + 1)
        } else {
            Parsed::Unknown(b)
        }
    }
}

/// The frames read one after another from `pos`, up to the first position
/// that does not hold a whole known frame.
pub open spec fn parse_stream(buf: Seq<u8>, pos: int) -> Seq<FrameView>
    decreases buf.len() - pos,
{
    if 0 <= pos < buf.len() {
        match parse_frame(buf, pos) {
            Parsed::Frame(f, q) => if pos < q <= buf.len() {
                seq![f] + parse_stream(buf, q)
            } else {
                Seq::empty()
            },
            _ => Seq::empty(),
        }
    } else {
        Seq::empty()
    }
}

/// The bytes of frames sent one after another.
pub open spec fn enc_stream(fs: Seq<FrameView>) -> Seq<u8>
    decreases fs.len(),
{
    if fs.len() == 0 {
        Seq::empty()
    } else {
        enc_frame(fs[0]) + enc_stream(fs.drop_first())
    }
}

// ---- round trip ----

proof fn lemma_window(buf: Seq<u8>, pos: int, a: Seq<u8>, b: Seq<u8>)
    requires
        0 <= pos,
        pos + a.len() + b.len() <= buf.len(),
        buf.subrange(pos, pos + a.len() + b.len()) == a + b,
    ensures
        buf.subrange(pos, pos + a.len()) == a,
        buf.subrange(pos + a.len(), pos + a.len() + b.len()) == b,
{
    assert forall|i: int| 0 <= i < a.len() implies buf.subrange(pos, pos + a.len())[i] == a[i] by {
        assert(buf.subrange(pos, pos + a.len() + b.len())[i] == (a + b)[i]);
    }
    assert forall|i: int| 0 <= i < b.len() implies buf.subrange(
        pos + a.len(),
        pos + a.len() + b.len(),
    )[i] == b[i] by {
        let w = buf.subrange(pos, pos + a.len() + b.len());
        assert(w[a.len() + i] == (a + b)[a.len() + i]);
        assert((a + b)[a.len() + i] == b[i]);
        assert(w[a.len() + i] == buf[pos + a.len() + i]);
        assert(buf.subrange(pos + a.len(), pos + a.len() + b.len())[i] == buf[pos + a.len() + i]);
    }
    assert(buf.subrange(pos, pos + a.len()) =~= a);
    assert(buf.subrange(pos + a.len(), pos + a.len() + b.len()) =~= b);
}

proof fn lemma_parse_bytes_enc(buf: Seq<u8>, pos: int, b: Seq<u8>)
    requires
        b.len() <= 255,
        0 <= pos,
        pos + enc_bytes(b).len() <= buf.len(),
        buf.subrange(pos, pos + enc_bytes(b).len()) == enc_bytes(b),
    ensures
        parse_bytes(buf, pos) == Some((b, pos + enc_bytes(b).len())),
{
    lemma_window(buf, pos, seq![b.len() as u8], b);
    assert(buf[pos] == buf.subrange(pos, pos + 1)[0]);
}

proof fn lemma_parse_str_enc(buf: Seq<u8>, pos: int, s: Seq<char>)
    requires
        str_fits(s),
        0 <= pos,
        pos + enc_str(s).len() <= buf.len(),
        buf.subrange(pos, pos + enc_str(s).len()) == enc_str(s),
    ensures
        parse_str(buf, pos) == Some((s, pos + enc_str(s).len())),
{
    lemma_parse_bytes_enc(buf, pos, encode_utf8(s));
    encode_utf8_valid_utf8(s);
    encode_utf8_decode_utf8(s);
}

proof fn lemma_parse_port_max_enc(buf: Seq<u8>, pos: int, port: u16, max: u32)
    requires
        0 <= pos,
        pos + 6 <= buf.len(),
        buf.subrange(pos, pos + 6) == be16(port) + be32(max),
    ensures
        parse_port_max(buf, pos) == Some((port, max)),
{
    lemma_be16_round_trip(port);
    lemma_be32_round_trip(max);
    lemma_window(buf, pos, be16(port), be32(max));
}

proof fn lemma_parse_cluster_enc(buf: Seq<u8>, pos: int, c: ClusterInfoView)
    requires
        cluster_fits(c),
        0 <= pos,
        pos + enc_cluster(c).len() <= buf.len(),
        buf.subrange(pos, pos + enc_cluster(c).len()) == enc_cluster(c),
    ensures
        parse_cluster(buf, pos) == Some((c, pos + enc_cluster(c).len())),
{
    let a = enc_str(c.name);
    let b = enc_str(c.ip);
    let t = be16(c.port) + be32(c.max_connections);
    lemma_be16_round_trip(c.port);
    lemma_be32_round_trip(c.max_connections);
    assert(enc_cluster(c) =~= a + (b + t));
    lemma_window(buf, pos, a, b + t);
    lemma_window(buf, pos + a.len(), b, t);
    lemma_parse_str_enc(buf, pos, c.name);
    lemma_parse_str_enc(buf, pos + a.len(), c.ip);
    lemma_parse_port_max_enc(buf, pos + a.len() + b.len(), c.port, c.max_connections);
}

proof fn lemma_parse_clusters_enc(buf: Seq<u8>, pos: int, cs: Seq<ClusterInfoView>)
    requires
        forall|i: int| 0 <= i < cs.len() ==> cluster_fits(#[trigger] cs[i]),
        0 <= pos,
        pos + enc_clusters(cs).len() <= buf.len(),
        buf.subrange(pos, pos + enc_clusters(cs).len()) == enc_clusters(cs),
    ensures
        parse_clusters(buf, pos, cs.len()) == Some((cs, pos + enc_clusters(cs).len())),
    decreases cs.len(),
{
    if cs.len() > 0 {
        let a = enc_cluster(cs[0]);
        let rest = cs.drop_first();
        assert(cluster_fits(cs[0]));
        lemma_window(buf, pos, a, enc_clusters(rest));
        lemma_parse_cluster_enc(buf, pos, cs[0]);
        assert forall|i: int| 0 <= i < rest.len() implies cluster_fits(#[trigger] rest[i]) by {
            assert(rest[i] == cs[i + 1]);
        }
        lemma_parse_clusters_enc(buf, pos + a.len(), rest);
        assert(seq![cs[0]] + rest =~= cs);
    } else {
        assert(cs =~= Seq::<ClusterInfoView>::empty());
    }
}

proof fn lemma_parse_answer_enc(buf: Seq<u8>, pos: int, a: AnswerView)
    requires
        a.passphrase.len() <= 255,
        str_fits(a.name),
        str_fits(a.ip),
        0 <= pos,
        pos + enc_answer(a).len() <= buf.len(),
        buf.subrange(pos, pos + enc_answer(a).len()) == enc_answer(a),
    ensures
        parse_answer(buf, pos) == Some((a, pos + enc_answer(a).len())),
{
    let e1 = enc_bytes(a.passphrase);
    let e2 = enc_str(a.name);
    let e3 = enc_str(a.ip);
    let t = be16(a.port) + be32(a.max_connections);
    assert(enc_answer(a) =~= e1 + (e2 + (e3 + t)));
    lemma_window(buf, pos, e1, e2 + (e3 + t));
    lemma_window(buf, pos + e1.len(), e2, e3 + t);
    lemma_window(buf, pos + e1.len() + e2.len(), e3, t);
    lemma_parse_bytes_enc(buf, pos, a.passphrase);
    lemma_parse_str_enc(buf, pos + e1.len(), a.name);
    lemma_parse_str_enc(buf, pos + e1.len() + e2.len(), a.ip);
    lemma_parse_port_max_enc(buf, pos + e1.len() + e2.len() + e3.len(), a.port, a.max_connections);
}

/// Reading back the bytes of a writable frame, wherever they stand in the
/// received bytes, gives that frame and the position right after it.
pub proof fn lemma_parse_enc_frame(buf: Seq<u8>, pos: int, f: FrameView)
    requires
        encodable(f),
        0 <= pos,
        pos + enc_frame(f).len() <= buf.len(),
        buf.subrange(pos, pos + enc_frame(f).len()) == enc_frame(f),
    ensures
        parse_frame(buf, pos) == Parsed::Frame(f, pos + enc_frame(f).len()),
{
    let e = enc_frame(f);
    assert(buf[pos] == buf.subrange(pos, pos + e.len())[0]);
    match f {
        FrameView::SendClusters(cs) => {
            lemma_window(buf, pos, seq![SEND_CLUSTERS, cs.len() as u8], enc_clusters(cs));
            assert(buf[pos + 1] == buf.subrange(pos, pos + e.len())[1]);
            lemma_parse_clusters_enc(buf, pos + 2, cs);
        },
        FrameView::BecomeCluster(k) => {
            lemma_window(buf, pos, seq![BECOME_CLUSTER], enc_str(k));
            lemma_parse_str_enc(buf, pos + 1, k);
        },
        FrameView::VerifyCluster(c) => {
            lemma_window(buf, pos, seq![VERIFY_CLUSTER], enc_bytes(c));
            lemma_parse_bytes_enc(buf, pos + 1, c);
        },
        FrameView::AnswerCluster(a) => {
            lemma_window(buf, pos, seq![ANSWER_CLUSTER], enc_answer(a));
            lemma_parse_answer_enc(buf, pos + 1, a);
        },
        _ => {},
    }
}

/// Frames sent one after another are read back one by one, in the order
/// they were sent, each from its own bytes: no frame's payload is taken for
/// part of another.
pub proof fn lemma_stream_in_order(fs: Seq<FrameView>)
    requires
        forall|i: int| 0 <= i < fs.len() ==> encodable(#[trigger] fs[i]),
    ensures
        parse_stream(enc_stream(fs), 0) == fs,
{
    assert(enc_stream(fs).subrange(0, enc_stream(fs).len() as int) =~= enc_stream(fs));
    lemma_stream_in_order_at(enc_stream(fs), 0, fs);
}

proof fn lemma_stream_in_order_at(buf: Seq<u8>, pos: int, fs: Seq<FrameView>)
    requires
        forall|i: int| 0 <= i < fs.len() ==> encodable(#[trigger] fs[i]),
        0 <= pos,
        pos + enc_stream(fs).len() == buf.len(),
        buf.subrange(pos, buf.len() as int) == enc_stream(fs),
    ensures
        parse_stream(buf, pos) == fs,
    decreases fs.len(),
{
    if fs.len() == 0 {
        assert(fs =~= Seq::<FrameView>::empty());
    } else {
        let e = enc_frame(fs[0]);
        let rest = fs.drop_first();
        assert(encodable(fs[0]));
        assert(e.len() >= 1);
        lemma_window(buf, pos, e, enc_stream(rest));
        lemma_parse_enc_frame(buf, pos, fs[0]);
        assert forall|i: int| 0 <= i < rest.len() implies encodable(#[trigger] rest[i]) by {
            assert(rest[i] == fs[i + 1]);
        }
        lemma_stream_in_order_at(buf, pos + e.len(), rest);
        assert(seq![fs[0]] + rest =~= fs);
    }
}

// ---- executable decoding ----

/// What stands at a position of the received bytes (see `Parsed`).
#[derive(Debug, Clone, PartialEq, Eq)]
pub enum Decoded {
    Frame(Frame, usize),
    Unknown(u8),
    Pending,
}

impl View for Decoded {
    type V = Parsed;

    open spec fn view(&self) -> Parsed {
        match self {
            Decoded::Frame(f, n) => Parsed::Frame(f@, *n as int),
            Decoded::Unknown(b) => Parsed::Unknown(*b),
            Decoded::Pending => Parsed::Pending,
        }
    }
}

fn read_bytes_at(buf: &[u8], pos: usize) -> (r: Option<(Vec<u8>, usize)>)
    ensures
        match r {
            Some((v, n)) => parse_bytes(buf@, pos as int) == Some((v@, n as int)),
            None => parse_bytes(buf@, pos as int) is None,
        },
{
    if pos >= buf.len() {
        return None;
    }
    let len = buf[pos] as usize;
    if len > buf.len() - pos - 1 {
        return None;
    }
    let start = pos + 1;
    let blen = buf.len();
    let mut v: Vec<u8> = Vec::with_capacity(len);
    let mut i: usize = 0;
    while i < len
        invariant
            blen == buf@.len(),
            start + len <= blen,
            i <= len,
            v@ == buf@.subrange(start as int, start + i),
        decreases len - i,
    {
        v.push(buf[start + i]);
        i += 1;
        assert(v@ =~= buf@.subrange(start as int, start + i));
    }
    Some((v, start + len))
}

fn read_str_at(buf: &[u8], pos: usize) -> (r: Option<(String, usize)>)
    ensures
        match r {
            Some((s, n)) => parse_str(buf@, pos as int) == Some((s@, n as int)),
            None => parse_str(buf@, pos as int) is None,
        },
{
    match read_bytes_at(buf, pos) {
        None => None,
        Some((v, n)) => {
            let ghost b = v@;
            proof {
                if valid_utf8(b) {
                    decode_utf8_encode_utf8(b);
                }
            }
            match string_from_utf8(v) {
                Some(s) => {
                    proof { encode_utf8_decode_utf8(s@); }
                    Some((s, n))
                },
                None => None,
            }
        },
    }
}

fn read_port_max_at(buf: &[u8], pos: usize) -> (r: Option<(u16, u32)>)
    ensures
        r == parse_port_max(buf@, pos as int),
{
    if pos > buf.len() || buf.len() - pos < 6 {
        return None;
    }
    let port = get_u16(buf, pos);
    let max = get_u32(buf, pos + 2);
    Some((port, max))
}

fn read_cluster_at(buf: &[u8], pos: usize) -> (r: Option<(ClusterInfo, usize)>)
    ensures
        match r {
            Some((c, n)) => parse_cluster(buf@, pos as int) == Some((c@, n as int)),
            None => parse_cluster(buf@, pos as int) is None,
        },
{
    let (name, end_name) = match read_str_at(buf, pos) {
        Some(x) => x,
        None => return None,
    };
    let (ip, end_ip) = match read_str_at(buf, end_name) {
        Some(x) => x,
        None => return None,
    };
    let (port, max) = match read_port_max_at(buf, end_ip) {
        Some(x) => x,
        None => return None,
    };
    let blen = buf.len();
    Some((ClusterInfo { name, ip, port, max_connections: max }, end_ip + 6))
}

fn read_clusters_at(buf: &[u8], pos: usize, n: u8) -> (r: Option<(Vec<ClusterInfo>, usize)>)
    ensures
        match r {
            Some((v, q)) => parse_clusters(buf@, pos as int, n as nat) == Some(
                (clusters_view(v@), q as int),
            ),
            None => parse_clusters(buf@, pos as int, n as nat) is None,
        },
{
    let mut acc: Vec<ClusterInfo> = Vec::new();
    let mut p = pos;
    let mut k: u8 = 0;
    while k < n
        invariant
            k <= n,
            parse_clusters(buf@, pos as int, n as nat) == match parse_clusters(
                buf@,
                p as int,
                (n - k) as nat,
            ) {
                None => None,
                Some((cs, q)) => Some((clusters_view(acc@) + cs, q)),
            },
        decreases n - k,
    {
        let ghost acc0 = acc@;
        match read_cluster_at(buf, p) {
            None => {
                return None;
            },
            Some((c, next)) => {
                acc.push(c);
                proof {
                    assert(clusters_view(acc@) =~= clusters_view(acc0) + seq![c@]);
                    let m = (n - k - 1) as nat;
                    match parse_clusters(buf@, next as int, m) {
                        None => {},
                        Some((cs, q)) => {
                            assert(clusters_view(acc0) + (seq![c@] + cs) =~= clusters_view(acc@)
                                + cs);
                        },
                    }
                }
                p = next;
                k = k + 1;
            },
        }
    }
    assert(clusters_view(acc@) + Seq::<ClusterInfoView>::empty() =~= clusters_view(acc@));
    Some((acc, p))
}

fn read_answer_at(buf: &[u8], pos: usize) -> (r: Option<(Answer, usize)>)
    ensures
        match r {
            Some((a, n)) => parse_answer(buf@, pos as int) == Some((a@, n as int)),
            None => parse_answer(buf@, pos as int) is None,
        },
{
    let (passphrase, end_pass) = match read_bytes_at(buf, pos) {
        Some(x) => x,
        None => return None,
    };
    let (name, end_name) = match read_str_at(buf, end_pass) {
        Some(x) => x,
        None => return None,
    };
    let (ip, end_ip) = match read_str_at(buf, end_name) {
        Some(x) => x,
        None => return None,
    };
    let (port, max) = match read_port_max_at(buf, end_ip) {
        Some(x) => x,
        None => return None,
    };
    let blen = buf.len();
    Some((Answer { passphrase, name, ip, port, max_connections: max }, end_ip + 6))
}

/// Reads the frame at `pos` of the received bytes.
pub fn decode_frame(buf: &[u8], pos: usize) -> (r: Decoded)
    ensures
        r@ == parse_frame(buf@, pos as int),
{
    if pos >= buf.len() {
        return Decoded::Pending;
    }
    let b = buf[pos];
    if b == REQUEST_CLUSTERS {
        Decoded::Frame(Frame::RequestClusters, pos + 1)
    } else if b == SEND_CLUSTERS {
        if buf.len() - pos < 2 {
            return Decoded::Pending;
        }
        match read_clusters_at(buf, pos + 2, buf[pos + 1]) {
            Some((v, q)) => Decoded::Frame(Frame::SendClusters(v), q),
            None => Decoded::Pending,
        }
    } else if b == BECOME_CLUSTER {
        match read_str_at(buf, pos + 1) {
            Some((k, q)) => Decoded::Frame(Frame::BecomeCluster(k), q),
            None => Decoded::Pending,
        }
    } else if b == VERIFY_CLUSTER {
        match read_bytes_at(buf, pos + 1) {
            Some((c, q)) => Decoded::Frame(Frame::VerifyCluster(c), q),
            None => Decoded::Pending,
        }
    } else if b == ANSWER_CLUSTER {
        match read_answer_at(buf, pos + 1) {
            Some((a, q)) => Decoded::Frame(Frame::AnswerCluster(a), q),
            None => Decoded::Pending,
        }
    } else if b == CREATE_CLUSTER {
        Decoded::Frame(Frame::CreateCluster, pos + 1)
    } else if Command::from_u8(b).is_some() {
        Decoded::Frame(Frame::Bare(b), pos + 1)
    } else {
        Decoded::Unknown(b)
    }
}

} // verus!
