//! An append-only log of messages.

use vstd::prelude::*;
use crate::canonical::texts;

verus! {

/// A sequence of messages that only grows: a message, once appended, is
/// never changed or removed, and duplicates are kept.
#[derive(Debug)]
pub struct MessageLog {
    entries: Vec<String>,
}

impl View for MessageLog {
    type V = Seq<Seq<char>>;

    closed spec fn view(&self) -> Seq<Seq<char>> {
        texts(self.entries@)
    }
}

impl MessageLog {
    /// A log without messages.
    pub fn new() -> (log: MessageLog)
        ensures
            log@ == Seq::<Seq<char>>::empty(),
    {
        let log = MessageLog { entries: Vec::new() };
        proof {
            assert(log@ =~= Seq::<Seq<char>>::empty());
        }
        log
    }

    /// Appends `text` behind the messages that the log holds.
    pub fn append(&mut self, text: String)
        ensures
            final(self)@ == old(self)@.push(text@),
            old(self)@.is_prefix_of(final(self)@),
    {
        self.entries.push(text);
        proof {
            assert(self@ =~= old(self)@.push(text@));
        }
    }

    /// The number of messages in the log.
    pub fn len(&self) -> (n: usize)
        ensures
            n == self@.len(),
    {
        self.entries.len()
    }

    /// The messages of the log, oldest first.
    pub fn entries(&self) -> (entries: &Vec<String>)
        ensures
            texts(entries@) == self@,
    {
        &self.entries
    }

    /// A copy of the messages as they stand now, oldest first.
    pub fn snapshot(&self) -> (copy: Vec<String>)
        ensures
            texts(copy@) == self@,
    {
        let mut copy: Vec<String> = Vec::new();
        let mut i: usize = 0;
        while i < self.entries.len()
            invariant
                i <= self.entries@.len(),
                copy@.len() == i,
                texts(copy@) == texts(self.entries@.subrange(0, i as int)),
            decreases self.entries@.len() - i,
        {
            let text = self.entries[i].clone();
            proof {
                let done = self.entries@.subrange(0, i as int);
                let next = self.entries@.subrange(0, i + 1);
                assert forall|k: int| 0 <= k < i + 1 implies texts(copy@.push(text))[k] == texts(
                    next,
                )[k] by {
                    if k < i {
                        assert(texts(copy@)[k] == texts(done)[k]);
                    }
                }
                assert(texts(copy@.push(text)) =~= texts(next));
            }
            copy.push(text);
            i = i + 1;
        }
        proof {
            assert(self.entries@.subrange(0, i as int) =~= self.entries@);
        }
        copy
    }
}

} // verus!
