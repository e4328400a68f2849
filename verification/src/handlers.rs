//! The three operations that a node offers: a client submits a message, a
//! peer relays one, and anyone reads the digest.
//!
//! Each operation is handed the logs it works on as far as access to them
//! could be had. A log that could not be had is `None`: the operation then
//! leaves it alone and answers as far as it can.

use vstd::prelude::*;
use vstd::string::*;
use crate::digest::{compute_digest, digest_of, Digest, DigestView};
use crate::log::MessageLog;
use crate::relay::{Broadcast, BroadcastView};
use crate::render::{decimal, push_decimal};

verus! {

/// What a client's submission leads to.
#[derive(Debug)]
pub struct Submission {
    /// The answer to the client: the submitted text.
    pub response: String,
    /// The broadcast to the peers, where the message was stored.
    pub broadcast: Option<Broadcast>,
}

/// Takes a message from a client. Where the client log can be had, the
/// message is appended to it and a broadcast to all `peers` is started; where
/// it cannot, nothing is stored and nothing is sent. Either way the client is
/// answered with the text it submitted.
pub fn client_submit(log: Option<&mut MessageLog>, peers: &Vec<u16>, text: &str) -> (submission:
    Submission)
    ensures
        submission.response@ == text@,
        match log {
            Some(held) => {
                &&& final(held)@ == held@.push(text@)
                &&& submission.broadcast.is_some()
                &&& submission.broadcast.unwrap()@ == BroadcastView::fresh(text@, peers@)
            },
            None => submission.broadcast.is_none(),
        },
{
    match log {
        Some(held) => {
            held.append(String::from_str(text));
            Submission {
                response: String::from_str(text),
                broadcast: Some(Broadcast::new(text, peers)),
            }
        },
        None => Submission { response: String::from_str(text), broadcast: None },
    }
}

/// Takes a message that a peer relayed. Where the peer log can be had, the
/// message is appended to it. It is never sent on. Either way the peer is
/// answered with the text it sent.
pub fn peer_relay_receive(log: Option<&mut MessageLog>, text: &str) -> (response: String)
    ensures
        response@ == text@,
        match log {
            Some(held) => final(held)@ == held@.push(text@),
            None => true,
        },
{
    match log {
        Some(held) => {
            held.append(String::from_str(text));
        },
        None => {},
    }
    String::from_str(text)
}

/// What a digest response says.
pub enum DigestResponseView {
    Summary(DigestView),
    Unavailable,
}

/// The answer to a digest read.
#[derive(Debug)]
pub enum DigestResponse {
    /// The digest of both logs.
    Summary(Digest),
    /// A log could not be had, so there is no digest.
    Unavailable,
}

impl View for DigestResponse {
    type V = DigestResponseView;

    open spec fn view(&self) -> DigestResponseView {
        match self {
            DigestResponse::Summary(digest) => DigestResponseView::Summary(digest@),
            DigestResponse::Unavailable => DigestResponseView::Unavailable,
        }
    }
}

/// The body that reports a digest.
pub open spec fn summary_json(digest: DigestView) -> Seq<char> {
    "{ \"digest\": \""@ + digest.hash_hex + "\", \"count\": "@ + decimal(digest.count) + " }"@
}

/// The body that reports that no digest could be had.
pub open spec fn unavailable_json() -> Seq<char> {
    "{ \"error\": \"Error retrieving digest\" }"@
}

impl DigestResponseView {
    /// The response as the body of an answer.
    pub open spec fn json(self) -> Seq<char> {
        match self {
            DigestResponseView::Summary(digest) => summary_json(digest),
            DigestResponseView::Unavailable => unavailable_json(),
        }
    }
}

impl DigestResponse {
    /// The response as the body of an answer: an object with the digest and
    /// the count, or one with an error text.
    pub fn to_json(&self) -> (body: String)
        ensures
            body@ == self@.json(),
    {
        match self {
            DigestResponse::Summary(digest) => {
                let mut body = String::from_str("{ \"digest\": \"");
                body.append(digest.hash_hex.as_str());
                body.append("\", \"count\": ");
                push_decimal(&mut body, digest.count as u64);
                body.append(" }");
                body
            },
            DigestResponse::Unavailable => String::from_str(
                "{ \"error\": \"Error retrieving digest\" }",
            ),
        }
    }
}

/// Reads the digest. Where both logs can be had, the answer is the digest of
/// what they hold; where either cannot, it is the error.
pub fn digest_read(client: Option<&MessageLog>, peer: Option<&MessageLog>) -> (response:
    DigestResponse)
    ensures
        client.is_some() && peer.is_some() ==> response@ == DigestResponseView::Summary(
            digest_of(client.unwrap()@, peer.unwrap()@),
        ),
        client.is_none() || peer.is_none() ==> response@ == DigestResponseView::Unavailable,
{
    match (client, peer) {
        (Some(client_log), Some(peer_log)) => DigestResponse::Summary(
            compute_digest(client_log.entries(), peer_log.entries()),
        ),
        _ => DigestResponse::Unavailable,
    }
}

} // verus!
