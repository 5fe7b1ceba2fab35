//! When something last happened, by name. Times are nanoseconds on a clock that
//! never runs backwards.

use crate::text::same;
use vstd::prelude::*;

verus! {

/// How long ago an instant was; nothing where it lies ahead.
pub open spec fn age(now: u64, then: u64) -> int {
    if now > then {
        now - then
    } else {
        0
    }
}

pub fn elapsed(now: u64, then: u64) -> (r: u64)
    ensures
        r == age(now, then),
{
    if now > then {
        now - then
    } else {
        0
    }
}

/// The last instants of a set of names.
#[derive(Debug)]
pub struct Recency {
    entries: Vec<(String, u64)>,
}

impl View for Recency {
    type V = Map<Seq<char>, u64>;

    closed spec fn view(&self) -> Map<Seq<char>, u64> {
        last_instants(self.entries@)
    }
}

/// The instants of a list of entries by name; a later entry hides an earlier
/// one.
pub open spec fn last_instants(entries: Seq<(String, u64)>) -> Map<Seq<char>, u64>
    decreases entries.len(),
{
    if entries.len() == 0 {
        Map::empty()
    } else {
        last_instants(entries.drop_last()).insert(entries.last().0@, entries.last().1)
    }
}

/// The entries that are younger than a span of time.
pub open spec fn younger_than(m: Map<Seq<char>, u64>, now: u64, span: u64) -> Map<Seq<char>, u64> {
    m.restrict(Set::new(|name: Seq<char>| m.dom().contains(name) && age(now, m[name]) < span))
}

proof fn lemma_last_instants(entries: Seq<(String, u64)>, i: int)
    requires
        0 <= i < entries.len(),
        forall|j: int| i < j < entries.len() ==> (#[trigger] entries[j]).0@ != entries[i].0@,
    ensures
        last_instants(entries).dom().contains(entries[i].0@),
        last_instants(entries)[entries[i].0@] == entries[i].1,
    decreases entries.len(),
{
    if i < entries.len() - 1 {
        let front = entries.drop_last();
        assert(front[i] == entries[i]);
        assert forall|j: int| i < j < front.len() implies (#[trigger] front[j]).0@ != front[i].0@ by {
            assert(front[j] == entries[j]);
        }
        lemma_last_instants(front, i);
        assert(entries[entries.len() - 1].0@ != entries[i].0@);
    }
}

proof fn lemma_named_entry(entries: Seq<(String, u64)>, name: Seq<char>)
    ensures
        last_instants(entries).dom().contains(name) <==> exists|i: int|
            0 <= i < entries.len() && (#[trigger] entries[i]).0@ == name,
    decreases entries.len(),
{
    if entries.len() > 0 {
        let front = entries.drop_last();
        lemma_named_entry(front, name);
        if exists|i: int| 0 <= i < front.len() && (#[trigger] front[i]).0@ == name {
            let i = choose|i: int| 0 <= i < front.len() && (#[trigger] front[i]).0@ == name;
            assert(entries[i].0@ == name);
        }
        if exists|i: int| 0 <= i < entries.len() && (#[trigger] entries[i]).0@ == name {
            let i = choose|i: int| 0 <= i < entries.len() && (#[trigger] entries[i]).0@ == name;
            if i < entries.len() - 1 {
                assert(front[i].0@ == name);
            }
        }
        assert(entries[entries.len() - 1] == entries.last());
    }
}

impl Recency {
    /// Nothing happened yet.
    pub fn new() -> (r: Recency)
        ensures
            r@ == Map::<Seq<char>, u64>::empty(),
    {
        Recency { entries: Vec::new() }
    }

    /// When the named thing last happened.
    pub fn last(&self, name: &str) -> (r: Option<u64>)
        ensures
            match r {
                Some(at) => self@.dom().contains(name@) && self@[name@] == at,
                None => !self@.dom().contains(name@),
            },
    {
        let mut i: usize = self.entries.len();
        while i > 0
            invariant
                i <= self.entries.len(),
                forall|j: int|
                    i <= j < self.entries.len() ==> (#[trigger] self.entries@[j]).0@ != name@,
            decreases i,
        {
            if same(self.entries[i - 1].0.as_str(), name) {
                proof {
                    lemma_last_instants(self.entries@, i - 1);
                }
                return Some(self.entries[i - 1].1);
            }
            i = i - 1;
        }
        proof {
            lemma_named_entry(self.entries@, name@);
        }
        None
    }

    /// Notes that the named thing happens now, and forgets what is older than
    /// `span`.
    pub fn record(&mut self, name: &str, now: u64, span: u64)
        ensures
            final(self)@ == younger_than(old(self)@, now, span).insert(name@, now),
    {
        let mut kept: Vec<(String, u64)> = Vec::new();
        let mut i: usize = 0;
        while i < self.entries.len()
            invariant
                i <= self.entries.len(),
                *self == *old(self),
                last_instants(kept@) == younger_than(
                    last_instants(self.entries@.take(i as int)),
                    now,
                    span,
                ),
            decreases self.entries.len() - i,
        {
            let ghost front = self.entries@.take(i as int);
            let ghost next = self.entries@.take(i + 1);
            assert(next.drop_last() =~= front);
            let ghost before = kept@;
            let ghost entry = self.entries@[i as int];
            if elapsed(now, self.entries[i].1) < span {
                kept.push((self.entries[i].0.clone(), self.entries[i].1));
                proof {
                    assert(kept@.drop_last() =~= before);
                    assert(last_instants(kept@) =~= younger_than(last_instants(next), now, span));
                }
            } else {
                kept = Recency::without(kept, self.entries[i].0.as_str());
                assert(last_instants(kept@) =~= younger_than(last_instants(next), now, span));
            }
            i = i + 1;
        }
        assert(self.entries@.take(self.entries.len() as int) =~= self.entries@);
        let ghost before = kept@;
        kept.push((String::from_str(name), now));
        assert(kept@.drop_last() =~= before);
        self.entries = kept;
    }

    /// A list of entries without those of one name.
    fn without(entries: Vec<(String, u64)>, name: &str) -> (r: Vec<(String, u64)>)
        ensures
            last_instants(r@) == last_instants(entries@).remove(name@),
    {
        let mut kept: Vec<(String, u64)> = Vec::new();
        let mut i: usize = 0;
        assert(last_instants(kept@) =~= last_instants(entries@.take(0)).remove(name@));
        while i < entries.len()
            invariant
                i <= entries.len(),
                last_instants(kept@) == last_instants(entries@.take(i as int)).remove(name@),
            decreases entries.len() - i,
        {
            let ghost before = kept@;
            assert(entries@.take(i + 1).drop_last() =~= entries@.take(i as int));
            if !same(entries[i].0.as_str(), name) {
                kept.push((entries[i].0.clone(), entries[i].1));
                assert(kept@.drop_last() =~= before);
            }
            assert(last_instants(kept@) =~= last_instants(entries@.take(i + 1)).remove(name@));
            i = i + 1;
        }
        assert(entries@.take(entries.len() as int) =~= entries@);
        kept
    }
}

} // verus!
