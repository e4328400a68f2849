//! The relay broadcaster: one attempt to hand a message to every peer, where
//! no peer's failure keeps the message from the peers that follow.
//!
//! The broadcaster decides and records; whoever drives it does the sending.
//! It asks for the next request, makes the attempt, and reports the outcome.

use vstd::prelude::*;
use vstd::string::*;
use crate::render::{decimal, push_decimal};

verus! {

/// How one attempt to relay a message ended.
#[derive(Debug, Clone, Copy, PartialEq, Eq, Structural)]
pub enum RelayOutcome {
    /// The peer answered the request with success.
    Delivered,
    /// The peer could not be reached or answered with a failure.
    Failed,
}

/// The address at which the node at `port` takes relayed messages.
pub open spec fn relay_url_text(port: u16) -> Seq<char> {
    "http://localhost:"@ + decimal(port as nat) + "/app/relay"@
}

/// The address at which the node at `port` takes relayed messages.
pub fn relay_url(port: u16) -> (url: String)
    ensures
        url@ == relay_url_text(port),
{
    let mut url = String::from_str("http://localhost:");
    push_decimal(&mut url, port as u64);
    url.append("/app/relay");
    url
}

/// What a relay request says.
pub struct RelayRequestView {
    pub port: u16,
    pub url: Seq<char>,
    pub message: Seq<char>,
}

/// One message on its way to one peer.
#[derive(Debug)]
pub struct RelayRequest {
    /// The peer's port.
    pub port: u16,
    /// Where to post the message.
    pub url: String,
    /// The message, as the client handed it in.
    pub message: String,
}

impl View for RelayRequest {
    type V = RelayRequestView;

    open spec fn view(&self) -> RelayRequestView {
        RelayRequestView { port: self.port, url: self.url@, message: self.message@ }
    }
}

/// The request that carries `message` to the peer at `port`.
pub open spec fn request_for(port: u16, message: Seq<char>) -> RelayRequestView {
    RelayRequestView { port, url: relay_url_text(port), message }
}

/// The state of a broadcast: the message, the peers in the order in which
/// they are tried, and the outcomes of the attempts made so far.
pub struct BroadcastView {
    pub message: Seq<char>,
    pub peers: Seq<u16>,
    pub outcomes: Seq<RelayOutcome>,
}

impl BroadcastView {
    /// A broadcast of which nothing has been attempted yet.
    pub open spec fn fresh(message: Seq<char>, peers: Seq<u16>) -> BroadcastView {
        BroadcastView { message, peers, outcomes: Seq::<RelayOutcome>::empty() }
    }

    /// No more attempts are recorded than there are peers.
    pub open spec fn wf(self) -> bool {
        self.outcomes.len() <= self.peers.len()
    }

    /// Every peer has had its attempt.
    pub open spec fn is_complete(self) -> bool {
        self.outcomes.len() >= self.peers.len()
    }

    /// The request to make next, if a peer is left.
    pub open spec fn pending(self) -> Option<RelayRequestView> {
        if self.is_complete() {
            None
        } else {
            Some(request_for(self.peers[self.outcomes.len() as int], self.message))
        }
    }

    /// The state after the pending attempt ended in `outcome`. Whatever the
    /// outcome, the broadcast moves on to the next peer.
    pub open spec fn settle(self, outcome: RelayOutcome) -> BroadcastView {
        if self.is_complete() {
            self
        } else {
            BroadcastView { outcomes: self.outcomes.push(outcome), ..self }
        }
    }

    /// The state after the attempts ended in `outcomes`, one after the other.
    pub open spec fn settle_all(self, outcomes: Seq<RelayOutcome>) -> BroadcastView
        decreases outcomes.len(),
    {
        if outcomes.len() == 0 {
            self
        } else {
            self.settle_all(outcomes.drop_last()).settle(outcomes.last())
        }
    }

    /// The peers whose attempt failed among the first `n` attempts, in the
    /// order in which they were tried.
    pub open spec fn failed_among(self, n: nat) -> Seq<u16>
        decreases n,
    {
        if n == 0 || n > self.outcomes.len() || n > self.peers.len() {
            Seq::<u16>::empty()
        } else if self.outcomes[n - 1] == RelayOutcome::Failed {
            self.failed_among((n - 1) as nat).push(self.peers[n - 1])
        } else {
            self.failed_among((n - 1) as nat)
        }
    }

    /// The peers whose attempt failed, in the order in which they were tried.
    pub open spec fn failed(self) -> Seq<u16> {
        self.failed_among(self.outcomes.len())
    }
}

/// A broadcast in progress.
#[derive(Debug)]
pub struct Broadcast {
    message: String,
    peers: Vec<u16>,
    outcomes: Vec<RelayOutcome>,
}

impl View for Broadcast {
    type V = BroadcastView;

    closed spec fn view(&self) -> BroadcastView {
        BroadcastView { message: self.message@, peers: self.peers@, outcomes: self.outcomes@ }
    }
}

impl Broadcast {
    #[verifier::type_invariant]
    spec fn inv(self) -> bool {
        self.outcomes@.len() <= self.peers@.len()
    }

    /// Starts a broadcast of `message` to `peers`.
    pub fn new(message: &str, peers: &Vec<u16>) -> (broadcast: Broadcast)
        ensures
            broadcast@ == BroadcastView::fresh(message@, peers@),
    {
        Broadcast { message: String::from_str(message), peers: peers.clone(), outcomes: Vec::new() }
    }

    /// Whether every peer has had its attempt.
    pub fn is_complete(&self) -> (complete: bool)
        ensures
            self@.wf(),
            complete == self@.is_complete(),
    {
        proof {
            use_type_invariant(self);
        }
        self.outcomes.len() >= self.peers.len()
    }

    /// The number of attempts made so far.
    pub fn attempts(&self) -> (n: usize)
        ensures
            n == self@.outcomes.len(),
            n <= self@.peers.len(),
    {
        proof {
            use_type_invariant(self);
        }
        self.outcomes.len()
    }

    /// The request to make next: to the first peer that has not had its
    /// attempt, or none when all have.
    pub fn next_request(&self) -> (request: Option<RelayRequest>)
        ensures
            request.is_some() == self@.pending().is_some(),
            request.is_some() ==> request.unwrap()@ == self@.pending().unwrap(),
    {
        proof {
            use_type_invariant(self);
        }
        let at = self.outcomes.len();
        if at >= self.peers.len() {
            None
        } else {
            let port: u16 = self.peers[at];
            Some(RelayRequest { port, url: relay_url(port), message: self.message.clone() })
        }
    }

    /// The broadcast after the pending attempt ended in `outcome`: it moves on
    /// to the next peer whether the attempt succeeded or not. With no attempt
    /// pending nothing changes.
    pub fn settle(self, outcome: RelayOutcome) -> (next: Broadcast)
        ensures
            next@ == self@.settle(outcome),
            next@.wf(),
    {
        proof {
            use_type_invariant(&self);
        }
        let Broadcast { message, peers, mut outcomes } = self;
        if outcomes.len() < peers.len() {
            outcomes.push(outcome);
        }
        Broadcast { message, peers, outcomes }
    }

    /// The peers whose attempt failed, in the order in which they were tried.
    pub fn failed_peers(&self) -> (failed: Vec<u16>)
        ensures
            failed@ == self@.failed(),
    {
        proof {
            use_type_invariant(self);
        }
        let mut failed: Vec<u16> = Vec::new();
        let mut i: usize = 0;
        while i < self.outcomes.len()
            invariant
                i <= self.outcomes@.len(),
                self.outcomes@.len() <= self.peers@.len(),
                failed@ == self@.failed_among(i as nat),
            decreases self.outcomes@.len() - i,
        {
            if self.outcomes[i] == RelayOutcome::Failed {
                failed.push(self.peers[i]);
            }
            i = i + 1;
        }
        failed
    }
}

/// A broadcast tries every peer once, in order, whatever the outcomes: after
/// any outcomes of the first attempts, the next request goes to the next
/// peer, and after as many outcomes as there are peers none is left.
pub proof fn lemma_every_peer_is_tried(
    message: Seq<char>,
    peers: Seq<u16>,
    outcomes: Seq<RelayOutcome>,
)
    requires
        outcomes.len() <= peers.len(),
    ensures
        BroadcastView::fresh(message, peers).settle_all(outcomes) == (BroadcastView {
            message,
            peers,
            outcomes,
        }),
        outcomes.len() < peers.len() ==> BroadcastView::fresh(message, peers).settle_all(
            outcomes,
        ).pending() == Some(request_for(peers[outcomes.len() as int], message)),
        outcomes.len() == peers.len() ==> BroadcastView::fresh(message, peers).settle_all(
            outcomes,
        ).pending().is_none(),
    decreases outcomes.len(),
{
    let start = BroadcastView::fresh(message, peers);
    if outcomes.len() == 0 {
        assert(outcomes =~= Seq::<RelayOutcome>::empty());
    } else {
        lemma_every_peer_is_tried(message, peers, outcomes.drop_last());
        assert(outcomes.drop_last().push(outcomes.last()) =~= outcomes);
    }
}

} // verus!
