//! The transcript: an append-only log of entries.

use crate::text::texts_view;
use vstd::prelude::*;

verus! {

/// The transcript. Entries are added at its end and never changed or removed.
pub struct History {
    entries: Vec<String>,
}

impl View for History {
    type V = Seq<Seq<char>>;

    /// The entries as texts, oldest first.
    closed spec fn view(&self) -> Seq<Seq<char>> {
        texts_view(self.entries@)
    }
}

/// `start` after each of `entries` was appended to it in turn.
pub open spec fn appended(start: Seq<Seq<char>>, entries: Seq<Seq<char>>) -> Seq<Seq<char>>
    decreases entries.len(),
{
    if entries.len() == 0 {
        start
    } else {
        appended(start, entries.drop_last()).push(entries.last())
    }
}

impl History {
    /// A transcript without entries.
    pub fn new() -> (history: History)
        ensures
            history@ == Seq::<Seq<char>>::empty(),
    {
        let history = History { entries: Vec::new() };
        assert(history@ =~= Seq::<Seq<char>>::empty());
        history
    }

    /// Adds `entry` at the end.
    pub fn append(&mut self, entry: String)
        ensures
            final(self)@ == old(self)@.push(entry@),
    {
        self.entries.push(entry);
        assert(self@ =~= old(self)@.push(entry@));
    }

    /// The number of entries.
    pub fn len(&self) -> (n: usize)
        ensures
            n == self@.len(),
    {
        self.entries.len()
    }

    /// The entries, oldest first.
    pub fn entries(&self) -> (entries: &[String])
        ensures
            texts_view(entries@) == self@,
    {
        self.entries.as_slice()
    }

    /// A copy of the entries, oldest first.
    pub fn snapshot(&self) -> (entries: Vec<String>)
        ensures
            texts_view(entries@) == self@,
    {
        let mut entries: Vec<String> = Vec::new();
        let mut i: usize = 0;
        while i < self.entries.len()
            invariant
                i <= self.entries@.len(),
                texts_view(entries@) == self@.take(i as int),
            decreases self.entries@.len() - i,
        {
            let ghost before = entries@;
            let entry = self.entries[i].clone();
            entries.push(entry);
            proof {
                assert(texts_view(entries@) =~= texts_view(before).push(entry@));
                assert(self@[i as int] == self.entries@[i as int]@);
                assert(self@.take(i + 1) =~= self@.take(i as int).push(self@[i as int]));
            }
            i += 1;
        }
        assert(self@.take(self.entries@.len() as int) =~= self@);
        entries
    }
}

/// Whoever reads the transcript while `entries` are appended to it, after any
/// number `seen` of the appends, finds what was there before and the first
/// `seen` of the entries, each as it was appended.
pub proof fn law_append_only(start: Seq<Seq<char>>, entries: Seq<Seq<char>>, seen: int)
    requires
        0 <= seen <= entries.len(),
    ensures
        appended(start, entries.take(seen)) == start + entries.take(seen),
        appended(start, entries.take(seen)).len() == start.len() + seen,
        forall|i: int|
            0 <= i < seen ==> appended(start, entries.take(seen))[start.len() + i] == entries[i],
        forall|i: int|
            0 <= i < start.len() ==> appended(start, entries.take(seen))[i] == start[i],
    decreases seen,
{
    let read = entries.take(seen);
    if seen == 0 {
        assert(appended(start, read) =~= start + read);
    } else {
        law_append_only(start, entries, seen - 1);
        assert(read.drop_last() =~= entries.take(seen - 1));
        assert(appended(start, read) =~= start + read);
    }
}

} // verus!
