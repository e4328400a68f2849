//! The state of one node: its two logs and its peers.

use vstd::prelude::*;
use vstd::seq_lib::*;
use crate::canonical::{canonical_order, lemma_canonical_order_keeps, texts};
use crate::cluster::{is_member, lemma_peers_of, peer_ports, peers_of, validate_port, ConfigError};
use crate::digest::{
    digest_of, lemma_digest_ignores_origin, lemma_digest_origin_independent, sha256, DigestView,
};
use crate::handlers::{
    client_submit, digest_read, peer_relay_receive, DigestResponse, DigestResponseView, Submission,
};
use crate::log::MessageLog;
use crate::relay::BroadcastView;
use crate::render::hex_upper;

verus! {

/// What a node holds.
pub struct NodeView {
    /// The port that identifies the node.
    pub port: u16,
    /// The messages that clients submitted to this node, oldest first.
    pub client_messages: Seq<Seq<char>>,
    /// The messages that peers relayed to this node, oldest first.
    pub peer_messages: Seq<Seq<char>>,
    /// The other members of the cluster.
    pub peers: Seq<u16>,
}

impl NodeView {
    /// The node is a member of the cluster and its peers are all the others.
    pub open spec fn wf(self) -> bool {
        &&& is_member(self.port)
        &&& self.peers == peers_of(self.port)
    }

    /// The node at `port` as it starts: with both logs empty.
    pub open spec fn started(port: u16) -> NodeView {
        NodeView {
            port,
            client_messages: Seq::<Seq<char>>::empty(),
            peer_messages: Seq::<Seq<char>>::empty(),
            peers: peers_of(port),
        }
    }

    /// The node after a client submitted `text`.
    pub open spec fn submitted(self, text: Seq<char>) -> NodeView {
        NodeView { client_messages: self.client_messages.push(text), ..self }
    }

    /// The node after a peer relayed `text`.
    pub open spec fn relayed(self, text: Seq<char>) -> NodeView {
        NodeView { peer_messages: self.peer_messages.push(text), ..self }
    }

    /// All messages of the node, whatever their origin.
    pub open spec fn messages(self) -> Seq<Seq<char>> {
        self.client_messages + self.peer_messages
    }

    /// The digest that the node reports.
    pub open spec fn digest(self) -> DigestView {
        digest_of(self.client_messages, self.peer_messages)
    }

    /// Whether `later` can be reached from this state: the node and its peers
    /// are the same, and each log has only grown at its end.
    pub open spec fn grows_to(self, later: NodeView) -> bool {
        &&& later.port == self.port
        &&& later.peers == self.peers
        &&& self.client_messages.is_prefix_of(later.client_messages)
        &&& self.peer_messages.is_prefix_of(later.peer_messages)
    }
}

/// The state of one node.
#[derive(Debug)]
pub struct NodeState {
    port: u16,
    client_messages: MessageLog,
    peer_messages: MessageLog,
    peers: Vec<u16>,
}

impl View for NodeState {
    type V = NodeView;

    closed spec fn view(&self) -> NodeView {
        NodeView {
            port: self.port,
            client_messages: self.client_messages@,
            peer_messages: self.peer_messages@,
            peers: self.peers@,
        }
    }
}

impl NodeState {
    /// The state with which the node at `port` starts: both logs empty, every
    /// other member a peer. A port outside the cluster is refused.
    pub fn new(port: u16) -> (started: Result<NodeState, ConfigError>)
        ensures
            is_member(port) ==> started.is_ok() && started.unwrap()@ == NodeView::started(port)
                && started.unwrap()@.wf(),
            !is_member(port) ==> started.is_err() && started.unwrap_err()
                == (ConfigError::UnknownPort { port }),
    {
        match validate_port(port) {
            Ok(port) => Ok(
                NodeState {
                    port,
                    client_messages: MessageLog::new(),
                    peer_messages: MessageLog::new(),
                    peers: peer_ports(port),
                },
            ),
            Err(error) => Err(error),
        }
    }

    /// The port that identifies the node.
    pub fn port(&self) -> (port: u16)
        ensures
            port == self@.port,
    {
        self.port
    }

    /// The other members of the cluster.
    pub fn peers(&self) -> (peers: &Vec<u16>)
        ensures
            peers@ == self@.peers,
    {
        &self.peers
    }

    /// Appends `text` to the log of client messages.
    pub fn append_client_message(&mut self, text: String)
        ensures
            final(self)@ == old(self)@.submitted(text@),
    {
        self.client_messages.append(text);
    }

    /// Appends `text` to the log of peer messages.
    pub fn append_peer_message(&mut self, text: String)
        ensures
            final(self)@ == old(self)@.relayed(text@),
    {
        self.peer_messages.append(text);
    }

    /// A copy of both logs as they stand now: the client messages, then the
    /// peer messages.
    pub fn snapshot(&self) -> (copy: (Vec<String>, Vec<String>))
        ensures
            texts(copy.0@) == self@.client_messages,
            texts(copy.1@) == self@.peer_messages,
    {
        (self.client_messages.snapshot(), self.peer_messages.snapshot())
    }

    /// Takes a message from a client: appends it to the client log, starts a
    /// broadcast to every peer, and answers with the submitted text.
    pub fn client_submit(&mut self, text: &str) -> (submission: Submission)
        ensures
            final(self)@ == old(self)@.submitted(text@),
            submission.response@ == text@,
            submission.broadcast.is_some(),
            submission.broadcast.unwrap()@ == BroadcastView::fresh(text@, old(self)@.peers),
            final(self)@.digest().count == old(self)@.digest().count + 1,
    {
        client_submit(Some(&mut self.client_messages), &self.peers, text)
    }

    /// Takes a message that a peer relayed: appends it to the peer log and
    /// answers with the text. Nothing is sent on.
    pub fn peer_relay_receive(&mut self, text: &str) -> (response: String)
        ensures
            final(self)@ == old(self)@.relayed(text@),
            response@ == text@,
            final(self)@.digest().count == old(self)@.digest().count + 1,
    {
        peer_relay_receive(Some(&mut self.peer_messages), text)
    }

    /// Reads the digest of both logs.
    pub fn digest_read(&self) -> (response: DigestResponse)
        ensures
            response@ == DigestResponseView::Summary(self@.digest()),
    {
        digest_read(Some(&self.client_messages), Some(&self.peer_messages))
    }
}

/// A node that has just started reports no messages and the hash of the
/// empty byte string.
pub proof fn lemma_fresh_node_digest(port: u16)
    ensures
        NodeView::started(port).digest() == (DigestView {
            hash_hex: hex_upper(sha256(Seq::<u8>::empty())),
            count: 0,
        }),
{
    let none = Seq::<Seq<char>>::empty();
    lemma_canonical_order_keeps(none + none);
    assert(canonical_order(none + none) =~= none);
}

/// A submission raises the count of the node's digest by exactly one, and so
/// does a relayed message.
pub proof fn lemma_message_counts_once(node: NodeView, text: Seq<char>)
    ensures
        node.submitted(text).digest().count == node.digest().count + 1,
        node.relayed(text).digest().count == node.digest().count + 1,
{
}

/// No operation removes or changes a message, and none touches the peers:
/// the state after a submission or a relay extends the state before it, and
/// a valid node stays valid.
pub proof fn lemma_logs_only_grow(node: NodeView, text: Seq<char>)
    ensures
        node.grows_to(node.submitted(text)),
        node.grows_to(node.relayed(text)),
        node.wf() ==> node.submitted(text).wf() && node.relayed(text).wf(),
{
}

/// A node is never its own peer.
pub proof fn lemma_node_is_no_peer_of_itself(node: NodeView)
    requires
        node.wf(),
    ensures
        !node.peers.contains(node.port),
        forall|peer: u16| node.peers.contains(peer) ==> is_member(peer),
{
    lemma_peers_of(node.port);
}

/// The order in which a node took two submissions does not show in its
/// digest.
pub proof fn lemma_submission_order_is_immaterial(node: NodeView, a: Seq<char>, b: Seq<char>)
    ensures
        node.submitted(a).submitted(b).digest() == node.submitted(b).submitted(a).digest(),
{
    let ab = node.submitted(a).submitted(b);
    let ba = node.submitted(b).submitted(a);
    let c = node.client_messages;
    lemma_multiset_commutative(ab.client_messages, ab.peer_messages);
    lemma_multiset_commutative(ba.client_messages, ba.peer_messages);
    to_multiset_build(c, a);
    to_multiset_build(c, b);
    to_multiset_build(c.push(a), b);
    to_multiset_build(c.push(b), a);
    assert(c.to_multiset().insert(a).insert(b) =~= c.to_multiset().insert(b).insert(a));
    lemma_same_messages_same_digest(ab, ba);
}

/// Whether a client submitted a message or a peer relayed it does not show
/// in the digest.
pub proof fn lemma_origin_is_immaterial(node: NodeView, text: Seq<char>)
    ensures
        node.submitted(text).digest() == node.relayed(text).digest(),
{
    lemma_digest_ignores_origin(node.client_messages, node.peer_messages, text);
}

/// Two nodes that hold the same messages, each as often, report the same
/// digest, whatever the order and the origin of the messages at either.
pub proof fn lemma_same_messages_same_digest(a: NodeView, b: NodeView)
    requires
        a.messages().to_multiset() == b.messages().to_multiset(),
    ensures
        a.digest() == b.digest(),
{
    lemma_digest_origin_independent(
        a.client_messages,
        a.peer_messages,
        b.client_messages,
        b.peer_messages,
    );
}

/// Where two nodes hold the same messages and one takes a submission that is
/// relayed to the other, they hold the same messages again and their digests
/// agree.
pub proof fn lemma_relay_keeps_agreement(origin: NodeView, peer: NodeView, text: Seq<char>)
    requires
        origin.messages().to_multiset() == peer.messages().to_multiset(),
    ensures
        origin.submitted(text).messages().to_multiset() == peer.relayed(
            text,
        ).messages().to_multiset(),
        origin.submitted(text).digest() == peer.relayed(text).digest(),
{
    let a = origin.submitted(text);
    let b = peer.relayed(text);
    lemma_multiset_commutative(origin.client_messages, origin.peer_messages);
    lemma_multiset_commutative(peer.client_messages, peer.peer_messages);
    lemma_multiset_commutative(a.client_messages, a.peer_messages);
    lemma_multiset_commutative(b.client_messages, b.peer_messages);
    to_multiset_build(origin.client_messages, text);
    to_multiset_build(peer.peer_messages, text);
    assert(a.messages().to_multiset() =~= origin.messages().to_multiset().insert(text));
    assert(b.messages().to_multiset() =~= peer.messages().to_multiset().insert(text));
    lemma_same_messages_same_digest(a, b);
}

} // verus!
