//! The digest of a node's logs: one hash and one count, which two nodes
//! share whenever they hold the same messages, however those arrived.

use vstd::prelude::*;
use vstd::seq_lib::*;
use crate::canonical::{
    arrange, canonical_bytes, flatten, lemma_canonical_order_by_multiset,
    lemma_canonical_order_keeps, texts,
};
use crate::render::{hex_upper, to_hex_upper};

verus! {

/// The SHA-256 hash of a byte string.
pub uninterp spec fn sha256(data: Seq<u8>) -> Seq<u8>;

/// What a digest says: the hash as text and the number of messages.
pub struct DigestView {
    pub hash_hex: Seq<char>,
    pub count: nat,
}

/// A summary of a node's two logs.
#[derive(Debug)]
pub struct Digest {
    /// The hash of the canonical bytes, in uppercase hexadecimal.
    pub hash_hex: String,
    /// The number of messages in both logs, duplicates included.
    pub count: usize,
}

impl View for Digest {
    type V = DigestView;

    open spec fn view(&self) -> DigestView {
        DigestView { hash_hex: self.hash_hex@, count: self.count as nat }
    }
}

/// The digest of a node whose logs hold `client` and `peer`.
pub open spec fn digest_of(client: Seq<Seq<char>>, peer: Seq<Seq<char>>) -> DigestView {
    DigestView {
        hash_hex: hex_upper(sha256(canonical_bytes(client + peer))),
        count: client.len() + peer.len(),
    }
}

/// Calls `sha2::Sha256::digest`, which hashes the whole input in one step.
/// Trusted: the result is the SHA-256 hash of `data`, a function of the bytes
/// alone, and it is 32 bytes long, the output size that the crate fixes for
/// this hash.
#[verifier::external_body]
fn sha256_of(data: &[u8]) -> (hash: Vec<u8>)
    ensures
        hash@ == sha256(data@),
        hash@.len() == 32,
{
    <sha2::Sha256 as sha2::Digest>::digest(data).to_vec()
}

/// The digest that a finished hash and a count of messages make.
pub fn digest_from_hash(hash: &[u8], count: usize) -> (digest: Digest)
    ensures
        digest@.hash_hex == hex_upper(hash@),
        digest@.count == count,
{
    Digest { hash_hex: to_hex_upper(hash), count }
}

/// Computes the digest of two logs: counts their messages, arranges them in
/// canonical order, lays them end to end, hashes the bytes and renders the
/// hash in uppercase hexadecimal.
pub fn compute_digest(client: &Vec<String>, peer: &Vec<String>) -> (digest: Digest)
    ensures
        digest@ == digest_of(texts(client@), texts(peer@)),
        digest@.hash_hex.len() == 64,
{
    let arranged = arrange(client, peer);
    let bytes = flatten(&arranged);
    let hash = sha256_of(bytes.as_slice());
    proof {
        lemma_canonical_order_keeps(texts(client@) + texts(peer@));
    }
    digest_from_hash(hash.as_slice(), arranged.len())
}

/// The digest does not depend on the order in which a log received its
/// messages: two logs that hold the same messages, each as often, give the
/// same digest beside the same other log.
pub proof fn lemma_digest_order_independent(
    first: Seq<Seq<char>>,
    second: Seq<Seq<char>>,
    other: Seq<Seq<char>>,
)
    requires
        first.to_multiset() == second.to_multiset(),
    ensures
        digest_of(first, other) == digest_of(second, other),
        digest_of(other, first) == digest_of(other, second),
{
    first.to_multiset_ensures();
    second.to_multiset_ensures();
    lemma_multiset_commutative(first, other);
    lemma_multiset_commutative(second, other);
    lemma_multiset_commutative(other, first);
    lemma_multiset_commutative(other, second);
    lemma_canonical_order_by_multiset(first + other, second + other);
    lemma_canonical_order_by_multiset(other + first, other + second);
}

/// The digest does not depend on which log a message stands in: two nodes
/// whose logs together hold the same messages, each as often, give the same
/// digest, however the messages are split between client and peer log.
pub proof fn lemma_digest_origin_independent(
    client_a: Seq<Seq<char>>,
    peer_a: Seq<Seq<char>>,
    client_b: Seq<Seq<char>>,
    peer_b: Seq<Seq<char>>,
)
    requires
        (client_a + peer_a).to_multiset() == (client_b + peer_b).to_multiset(),
    ensures
        digest_of(client_a, peer_a) == digest_of(client_b, peer_b),
{
    (client_a + peer_a).to_multiset_ensures();
    (client_b + peer_b).to_multiset_ensures();
    lemma_canonical_order_by_multiset(client_a + peer_a, client_b + peer_b);
}

/// A message counts the same and hashes the same whether a client handed it
/// in or a peer relayed it.
pub proof fn lemma_digest_ignores_origin(
    client: Seq<Seq<char>>,
    peer: Seq<Seq<char>>,
    message: Seq<char>,
)
    ensures
        digest_of(client.push(message), peer) == digest_of(client, peer.push(message)),
        digest_of(client, peer) == digest_of(peer, client),
{
    lemma_multiset_commutative(client.push(message), peer);
    lemma_multiset_commutative(client, peer.push(message));
    lemma_multiset_commutative(client, peer);
    lemma_multiset_commutative(peer, client);
    to_multiset_build(client, message);
    to_multiset_build(peer, message);
    assert(client.to_multiset().insert(message).add(peer.to_multiset()) =~= client.to_multiset().add(
        peer.to_multiset().insert(message),
    ));
    assert(client.to_multiset().add(peer.to_multiset()) =~= peer.to_multiset().add(
        client.to_multiset(),
    ));
    lemma_digest_origin_independent(client.push(message), peer, client, peer.push(message));
    lemma_digest_origin_independent(client, peer, peer, client);
}

} // verus!
