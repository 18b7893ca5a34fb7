//! The score ledger: a persistent mapping from identity to final score. An
//! entry is written exactly once per identity; its presence is the sole
//! "already settled" flag.
use vstd::prelude::*;

verus! {

/// The mathematical content of a list of ledger entries, later entries
/// winning (the well-formedness below rules repetition out anyway).
pub open spec fn entries_map(entries: Seq<(String, usize)>) -> Map<Seq<char>, usize>
    decreases entries.len(),
{
    if entries.len() == 0 {
        Map::empty()
    } else {
        entries_map(entries.drop_last()).insert(entries.last().0@, entries.last().1)
    }
}

/// No identity appears twice among the entries.
pub open spec fn distinct_keys(entries: Seq<(String, usize)>) -> bool {
    forall|i: int, j: int|
        0 <= i < entries.len() && 0 <= j < entries.len() && i != j ==> entries[i].0@
            != entries[j].0@
}

/// Persistent identity -> score store with distinct keys.
pub struct ScoreLedger {
    entries: Vec<(String, usize)>,
}

impl ScoreLedger {
    pub closed spec fn wf(&self) -> bool {
        distinct_keys(self.entries@)
    }

    /// The ledger as a map from identity characters to the recorded score.
    pub closed spec fn view_map(&self) -> Map<Seq<char>, usize> {
        entries_map(self.entries@)
    }

    pub fn new() -> (l: ScoreLedger)
        ensures
            l.wf(),
            l.view_map() == Map::<Seq<char>, usize>::empty(),
    {
        ScoreLedger { entries: Vec::new() }
    }

    pub fn contains(&self, identity: &String) -> (r: bool)
        ensures
            r == self.view_map().contains_key(identity@),
    {
        proof {
            lemma_entries_map_domain(self.entries@, identity@);
        }
        let mut i: usize = 0;
        while i < self.entries.len()
            invariant
                i <= self.entries@.len(),
                forall|j: int| 0 <= j < i ==> #[trigger] self.entries@[j].0@ != identity@,
            decreases self.entries@.len() - i,
        {
            if self.entries[i].0 == *identity {
                proof {
                    assert(self.entries@[i as int].0@ == identity@);
                    lemma_entries_map_domain(self.entries@, identity@);
                }
                return true;
            }
            i += 1;
        }
        false
    }

    pub fn get(&self, identity: &String) -> (r: Option<usize>)
        requires
            self.wf(),
        ensures
            match r {
                Some(s) => self.view_map().contains_key(identity@) && self.view_map()[identity@]
                    == s,
                None => !self.view_map().contains_key(identity@),
            },
    {
        proof {
            lemma_entries_map_domain(self.entries@, identity@);
        }
        let mut i: usize = 0;
        while i < self.entries.len()
            invariant
                self.wf(),
                i <= self.entries@.len(),
                forall|j: int| 0 <= j < i ==> #[trigger] self.entries@[j].0@ != identity@,
            decreases self.entries@.len() - i,
        {
            if self.entries[i].0 == *identity {
                proof {
                    assert(self.entries@[i as int].0@ == identity@);
                    lemma_entries_map_at(self.entries@, i as int);
                }
                return Some(self.entries[i].1);
            }
            i += 1;
        }
        None
    }

    /// Records a score for an identity that has never been settled; the
    /// caller's precondition check is the only idempotency gate.
    pub fn record(&mut self, identity: String, score: usize)
        requires
            old(self).wf(),
            !old(self).view_map().contains_key(identity@),
        ensures
            final(self).wf(),
            final(self).view_map() == old(self).view_map().insert(identity@, score),
    {
        proof {
            lemma_entries_map_domain(self.entries@, identity@);
        }
        self.entries.push((identity, score));
        proof {
            assert(self.entries@.drop_last() =~= old(self).entries@);
        }
    }
}

/// An identity is in the entries map exactly when some entry carries it.
pub proof fn lemma_entries_map_domain(entries: Seq<(String, usize)>, id: Seq<char>)
    ensures
        entries_map(entries).contains_key(id) <==> exists|j: int|
            0 <= j < entries.len() && #[trigger] entries[j].0@ == id,
    decreases entries.len(),
{
    if entries.len() > 0 {
        lemma_entries_map_domain(entries.drop_last(), id);
        if entries.last().0@ == id {
            assert(entries[entries.len() - 1].0@ == id);
        } else if entries_map(entries).contains_key(id) {
            let j = choose|j: int|
                0 <= j < entries.drop_last().len() && #[trigger] entries.drop_last()[j].0@ == id;
            assert(entries[j].0@ == id);
        } else {
            assert forall|j: int| 0 <= j < entries.len() implies #[trigger] entries[j].0@
                != id by {
                if j < entries.len() - 1 {
                    assert(entries.drop_last()[j].0@ != id);
                }
            }
        }
    }
}

/// With distinct keys, the map holds each entry's own score.
pub proof fn lemma_entries_map_at(entries: Seq<(String, usize)>, i: int)
    requires
        0 <= i < entries.len(),
        distinct_keys(entries),
    ensures
        entries_map(entries).contains_key(entries[i].0@),
        entries_map(entries)[entries[i].0@] == entries[i].1,
    decreases entries.len(),
{
    if i == entries.len() - 1 {
    } else {
        assert(distinct_keys(entries.drop_last())) by {
            assert forall|p: int, q: int|
                0 <= p < entries.drop_last().len() && 0 <= q < entries.drop_last().len() && p
                    != q implies entries.drop_last()[p].0@ != entries.drop_last()[q].0@ by {
                assert(entries[p].0@ != entries[q].0@);
            }
        }
        lemma_entries_map_at(entries.drop_last(), i);
        assert(entries.last().0@ != entries[i].0@);
        assert(entries.drop_last()[i] == entries[i]);
    }
}

} // verus!
