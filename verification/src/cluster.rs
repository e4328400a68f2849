//! The cluster: a fixed set of nodes, each known by the port it listens on.

use vstd::prelude::*;
use vstd::string::*;
use crate::render::{decimal, push_decimal};

verus! {

/// The ports of the cluster's nodes.
pub const FIRST_PORT: u16 = 9001;

pub const SECOND_PORT: u16 = 9002;

pub const THIRD_PORT: u16 = 9003;

/// The members of the cluster, in their fixed order.
pub open spec fn cluster() -> Seq<u16> {
    seq![FIRST_PORT, SECOND_PORT, THIRD_PORT]
}

/// Whether a node with this port belongs to the cluster.
pub open spec fn is_member(port: u16) -> bool {
    cluster().contains(port)
}

/// The test that tells the node at `port` from every other.
pub open spec fn other_than(port: u16) -> spec_fn(u16) -> bool {
    |member: u16| member != port
}

/// The peers of the node at `port`: every member but the node itself, in the
/// cluster's order.
pub open spec fn peers_of(port: u16) -> Seq<u16> {
    cluster().filter(other_than(port))
}

/// What the configuration error says of the port that was asked for.
pub open spec fn unknown_port_text(port: u16) -> Seq<char> {
    "Only ports 9001, 9002, and 9003 are expected.  Port requested: "@ + decimal(port as nat)
}

/// Why a node cannot start.
#[derive(Debug, Clone, Copy, PartialEq, Eq, Structural)]
pub enum ConfigError {
    /// The port asked for is not a member of the cluster.
    UnknownPort { port: u16 },
}

impl ConfigError {
    /// The error in words.
    pub fn message(&self) -> (text: String)
        ensures
            text@ == unknown_port_text(self->port),
    {
        match self {
            ConfigError::UnknownPort { port } => {
                let mut text = String::from_str(
                    "Only ports 9001, 9002, and 9003 are expected.  Port requested: ",
                );
                push_decimal(&mut text, *port as u64);
                text
            },
        }
    }
}

/// The members of the cluster, in their fixed order.
pub fn cluster_ports() -> (ports: Vec<u16>)
    ensures
        ports@ == cluster(),
{
    let mut ports: Vec<u16> = Vec::new();
    ports.push(FIRST_PORT);
    ports.push(SECOND_PORT);
    ports.push(THIRD_PORT);
    proof {
        assert(ports@ =~= cluster());
    }
    ports
}

/// Whether a node with this port belongs to the cluster.
pub fn is_cluster_port(port: u16) -> (member: bool)
    ensures
        member == is_member(port),
{
    proof {
        assert(cluster()[0] == FIRST_PORT);
        assert(cluster()[1] == SECOND_PORT);
        assert(cluster()[2] == THIRD_PORT);
    }
    port == FIRST_PORT || port == SECOND_PORT || port == THIRD_PORT
}

/// Accepts the port of a cluster member and refuses every other.
pub fn validate_port(port: u16) -> (checked: Result<u16, ConfigError>)
    ensures
        is_member(port) ==> checked == Ok::<u16, ConfigError>(port),
        !is_member(port) ==> checked == Err::<u16, ConfigError>(
            (ConfigError::UnknownPort { port }),
        ),
{
    if is_cluster_port(port) {
        Ok(port)
    } else {
        Err(ConfigError::UnknownPort { port })
    }
}

/// A node is never among its own peers, every peer is a member, and a member
/// has all the others as peers.
pub proof fn lemma_peers_of(port: u16)
    ensures
        !peers_of(port).contains(port),
        forall|peer: u16| peers_of(port).contains(peer) <==> is_member(peer) && peer != port,
        is_member(port) ==> peers_of(port).len() == 2,
        !is_member(port) ==> peers_of(port) == cluster(),
{
    let keep = other_than(port);
    let c = cluster();
    reveal_with_fuel(Seq::filter, 4);
    let c2 = c.drop_last();
    let c1 = c2.drop_last();
    let c0 = c1.drop_last();
    assert(c0.len() == 0);
    assert(c1.last() == FIRST_PORT);
    assert(c2.last() == SECOND_PORT);
    assert(c.last() == THIRD_PORT);
    assert(c0.filter(keep) =~= Seq::<u16>::empty());
    let f = peers_of(port);
    if port == FIRST_PORT {
        assert(f =~= seq![SECOND_PORT, THIRD_PORT]);
    } else if port == SECOND_PORT {
        assert(f =~= seq![FIRST_PORT, THIRD_PORT]);
    } else if port == THIRD_PORT {
        assert(f =~= seq![FIRST_PORT, SECOND_PORT]);
    } else {
        assert(f =~= c);
    }
    assert(c[0] == FIRST_PORT && c[1] == SECOND_PORT && c[2] == THIRD_PORT);
    assert forall|peer: u16| f.contains(peer) <==> is_member(peer) && peer != port by {
        if f.contains(peer) {
            let i = choose|i: int| 0 <= i < f.len() && f[i] == peer;
            assert(f[i] == peer);
        }
        if is_member(peer) && peer != port {
            let i = choose|i: int| 0 <= i < c.len() && c[i] == peer;
            if port == FIRST_PORT {
                assert(f[i - 1] == peer);
            } else if port == SECOND_PORT {
                assert(f[if i == 0 { 0 } else { 1 }] == peer);
            } else {
                assert(f[i] == peer);
            }
        }
    }
}

/// The peers of the node at `port`: every member but the node itself.
pub fn peer_ports(port: u16) -> (peers: Vec<u16>)
    ensures
        peers@ == peers_of(port),
        !peers@.contains(port),
{
    let members = cluster_ports();
    let mut peers: Vec<u16> = Vec::new();
    let mut i: usize = 0;
    while i < members.len()
        invariant
            i <= members@.len(),
            members@ == cluster(),
            peers@ == members@.subrange(0, i as int).filter(other_than(port)),
        decreases members@.len() - i,
    {
        let member: u16 = members[i];
        proof {
            reveal(Seq::filter);
            let next = members@.subrange(0, i + 1);
            assert(next.drop_last() =~= members@.subrange(0, i as int));
            assert(next.last() == member);
        }
        if member != port {
            peers.push(member);
        }
        i = i + 1;
    }
    proof {
        assert(members@.subrange(0, i as int) =~= members@);
        lemma_peers_of(port);
    }
    peers
}

} // verus!
