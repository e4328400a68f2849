//! The canonical arrangement of a collection of messages: sorted by the
//! message order, then laid end to end as bytes with nothing in between.

use vstd::prelude::*;
use vstd::multiset::Multiset;
use vstd::relations::*;
use vstd::seq_lib::*;
use vstd::utf8::*;
use vstd::string::*;
use crate::order::{message_le, message_order, message_at_most, lemma_message_order_total};

verus! {

/// The texts that a vector of strings holds, in the vector's order.
pub open spec fn texts(v: Seq<String>) -> Seq<Seq<char>> {
    Seq::new(v.len(), |i: int| v[i]@)
}

/// The only arrangement of `msgs` that ascends in the message order.
pub open spec fn canonical_order(msgs: Seq<Seq<char>>) -> Seq<Seq<char>> {
    msgs.sort_by(message_order())
}

/// The encodings of `msgs`, one after the other, without a separator.
pub open spec fn concat_bytes(msgs: Seq<Seq<char>>) -> Seq<u8>
    decreases msgs.len(),
{
    if msgs.len() == 0 {
        Seq::<u8>::empty()
    } else {
        concat_bytes(msgs.drop_last()) + encode_utf8(msgs.last())
    }
}

/// The byte string that stands for a collection of messages whatever the
/// order in which they arrived.
pub open spec fn canonical_bytes(msgs: Seq<Seq<char>>) -> Seq<u8> {
    concat_bytes(canonical_order(msgs))
}

/// A sequence is in canonical order exactly when it ascends and holds the
/// same messages, each as often.
pub proof fn lemma_canonical_order_is(msgs: Seq<Seq<char>>, arranged: Seq<Seq<char>>)
    requires
        sorted_by(arranged, message_order()),
        arranged.to_multiset() == msgs.to_multiset(),
    ensures
        arranged == canonical_order(msgs),
{
    lemma_message_order_total();
    msgs.lemma_sort_by_ensures(message_order());
    lemma_sorted_unique(arranged, canonical_order(msgs), message_order());
}

/// Arranging a collection neither adds nor loses a message.
pub proof fn lemma_canonical_order_keeps(msgs: Seq<Seq<char>>)
    ensures
        canonical_order(msgs).to_multiset() == msgs.to_multiset(),
        canonical_order(msgs).len() == msgs.len(),
        sorted_by(canonical_order(msgs), message_order()),
{
    lemma_message_order_total();
    msgs.lemma_sort_by_ensures(message_order());
    msgs.to_multiset_ensures();
    canonical_order(msgs).to_multiset_ensures();
}

/// The canonical order of a collection depends on nothing but which messages
/// it holds and how often.
pub proof fn lemma_canonical_order_by_multiset(a: Seq<Seq<char>>, b: Seq<Seq<char>>)
    requires
        a.to_multiset() == b.to_multiset(),
    ensures
        canonical_order(a) == canonical_order(b),
        canonical_bytes(a) == canonical_bytes(b),
{
    lemma_message_order_total();
    a.lemma_sort_by_ensures(message_order());
    lemma_canonical_order_is(b, canonical_order(a));
}

/// Puts `message` into an ascending vector at the place that keeps it
/// ascending, behind the messages equal to it.
fn insert_ascending(sorted: &mut Vec<String>, message: String)
    requires
        sorted_by(texts(old(sorted)@), message_order()),
    ensures
        sorted_by(texts(final(sorted)@), message_order()),
        texts(final(sorted)@).to_multiset() == texts(old(sorted)@).to_multiset().insert(message@),
{
    let mut lo: usize = 0;
    let mut hi: usize = sorted.len();
    proof {
        lemma_message_order_total();
    }
    while lo < hi
        invariant
            lo <= hi <= sorted@.len(),
            sorted@ == old(sorted)@,
            sorted_by(texts(sorted@), message_order()),
            total_ordering(message_order()),
            forall|i: int| 0 <= i < lo ==> message_le(#[trigger] sorted@[i]@, message@),
            forall|i: int| hi <= i < sorted@.len() ==> !message_le(#[trigger] sorted@[i]@, message@),
        decreases hi - lo,
    {
        let mid: usize = lo + (hi - lo) / 2;
        let ghost t = texts(sorted@);
        let ghost r = message_order();
        if message_at_most(sorted[mid].as_str(), message.as_str()) {
            proof {
                assert forall|i: int| 0 <= i < mid + 1 implies message_le(
                    #[trigger] sorted@[i]@,
                    message@,
                ) by {
                    if i < mid {
                        assert(r(t[i], t[mid as int]));
                        assert(r(t[mid as int], message@));
                        assert(r(t[i], message@));
                    }
                }
            }
            lo = mid + 1;
        } else {
            proof {
                assert forall|i: int| mid <= i < sorted@.len() implies !message_le(
                    #[trigger] sorted@[i]@,
                    message@,
                ) by {
                    if mid < i && message_le(sorted@[i]@, message@) {
                        assert(r(t[mid as int], t[i]));
                        assert(r(t[i], message@));
                        assert(r(t[mid as int], message@));
                    }
                }
            }
            hi = mid;
        }
    }
    proof {
        let r = message_order();
        let before = texts(sorted@);
        let after = before.insert(lo as int, message@);
        assert(texts(sorted@.insert(lo as int, message)) =~= after);
        to_multiset_insert(before, lo as int, message@);
        assert forall|i: int, j: int| 0 <= i < j < after.len() implies #[trigger] r(
            after[i],
            after[j],
        ) by {
            if j < lo {
                assert(r(before[i], before[j]));
            } else if j == lo {
                assert(message_le(sorted@[i]@, message@));
            } else if i < lo {
                assert(r(before[i], before[j - 1]));
            } else if i == lo {
                assert(!message_le(sorted@[j - 1]@, message@));
                assert(r(before[j - 1], message@) || r(message@, before[j - 1]));
            } else {
                assert(r(before[i - 1], before[j - 1]));
            }
        }
    }
    sorted.insert(lo, message);
}

/// A collection without messages has the empty multiset.
proof fn lemma_no_texts(msgs: Seq<Seq<char>>)
    requires
        msgs.len() == 0,
    ensures
        msgs.to_multiset() == Multiset::<Seq<char>>::empty(),
{
    msgs.to_multiset_ensures();
    assert(msgs.to_multiset() =~= Multiset::<Seq<char>>::empty());
}

/// Puts a copy of every message of `from` into the ascending vector `sorted`.
fn absorb(sorted: &mut Vec<String>, from: &Vec<String>)
    requires
        sorted_by(texts(old(sorted)@), message_order()),
    ensures
        sorted_by(texts(final(sorted)@), message_order()),
        texts(final(sorted)@).to_multiset() == texts(old(sorted)@).to_multiset().add(
            texts(from@).to_multiset(),
        ),
{
    let mut i: usize = 0;
    proof {
        lemma_no_texts(texts(from@.subrange(0, 0)));
        assert(texts(sorted@).to_multiset().add(Multiset::<Seq<char>>::empty()) =~= texts(
            sorted@,
        ).to_multiset());
    }
    while i < from.len()
        invariant
            i <= from@.len(),
            sorted_by(texts(sorted@), message_order()),
            texts(sorted@).to_multiset() == texts(old(sorted)@).to_multiset().add(
                texts(from@.subrange(0, i as int)).to_multiset(),
            ),
        decreases from@.len() - i,
    {
        let message = from[i].clone();
        proof {
            let taken = texts(from@.subrange(0, i as int));
            assert(texts(from@.subrange(0, i + 1)) =~= taken.push(message@));
            to_multiset_build(taken, message@);
            assert(texts(old(sorted)@).to_multiset().add(taken.to_multiset()).insert(message@)
                =~= texts(old(sorted)@).to_multiset().add(taken.to_multiset().insert(message@)));
        }
        insert_ascending(sorted, message);
        i = i + 1;
    }
    proof {
        assert(from@.subrange(0, i as int) =~= from@);
    }
}

/// The messages of both logs together, in canonical order.
pub fn arrange(client: &Vec<String>, peer: &Vec<String>) -> (arranged: Vec<String>)
    ensures
        texts(arranged@) == canonical_order(texts(client@) + texts(peer@)),
{
    let mut arranged: Vec<String> = Vec::new();
    absorb(&mut arranged, client);
    absorb(&mut arranged, peer);
    proof {
        let c = texts(client@);
        let p = texts(peer@);
        lemma_no_texts(texts(Seq::<String>::empty()));
        lemma_multiset_commutative(c, p);
        assert(texts(arranged@).to_multiset() =~= (c + p).to_multiset());
        lemma_canonical_order_is(c + p, texts(arranged@));
    }
    arranged
}

/// The encodings of `messages`, one after the other, without a separator.
pub fn flatten(messages: &Vec<String>) -> (bytes: Vec<u8>)
    ensures
        bytes@ == concat_bytes(texts(messages@)),
{
    let mut bytes: Vec<u8> = Vec::new();
    let mut i: usize = 0;
    while i < messages.len()
        invariant
            i <= messages@.len(),
            bytes@ == concat_bytes(texts(messages@.subrange(0, i as int))),
        decreases messages@.len() - i,
    {
        let mut piece = messages[i].as_str().as_bytes_vec();
        proof {
            let next = texts(messages@.subrange(0, i + 1));
            assert(next.drop_last() =~= texts(messages@.subrange(0, i as int)));
            assert(next.last() == messages@[i as int]@);
        }
        bytes.append(&mut piece);
        i = i + 1;
    }
    proof {
        assert(messages@.subrange(0, i as int) =~= messages@);
    }
    bytes
}

} // verus!
