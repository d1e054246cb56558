//! The saved state of each level the player has left, keyed by level id:
//! leaving a level stores its state, and entering a level restores the
//! stored state if there is one (otherwise the level starts fresh).

use vstd::prelude::*;
use crate::strings::same_text;

verus! {

/// The state stored for `id`: the entry with that id nearest the end.
pub open spec fn lookup<S>(entries: Seq<(Seq<char>, S)>, id: Seq<char>) -> Option<S>
    decreases entries.len(),
{
    if entries.len() == 0 {
        None
    } else if entries.last().0 == id {
        Some(entries.last().1)
    } else {
        lookup(entries.drop_last(), id)
    }
}

pub open spec fn ids_unique<S>(entries: Seq<(Seq<char>, S)>) -> bool {
    forall|i: int, j: int| 0 <= i < j < entries.len() ==> entries[i].0 != entries[j].0
}

pub open spec fn entry_texts<S>(entries: Seq<(String, S)>) -> Seq<(Seq<char>, S)> {
    entries.map_values(|entry: (String, S)| (entry.0@, entry.1))
}

/// With distinct ids, the stored state of an id is that of the entry
/// holding it, and an id no entry holds has none.
proof fn lemma_lookup_unique<S>(entries: Seq<(Seq<char>, S)>, id: Seq<char>)
    requires
        ids_unique(entries),
    ensures
        forall|i: int| 0 <= i < entries.len() && entries[i].0 == id ==> lookup(entries, id) == Some(entries[i].1),
        (forall|i: int| 0 <= i < entries.len() ==> entries[i].0 != id) ==> lookup(entries, id) is None,
    decreases entries.len(),
{
    if entries.len() > 0 {
        let rest = entries.drop_last();
        assert(ids_unique(rest));
        lemma_lookup_unique(rest, id);
        assert forall|i: int| 0 <= i < entries.len() && entries[i].0 == id implies lookup(entries, id) == Some(
            entries[i].1,
        ) by {
            if i < entries.len() - 1 {
                assert(rest[i] == entries[i]);
                assert(entries.last().0 != id);
            }
        }
        assert((forall|i: int| 0 <= i < entries.len() ==> entries[i].0 != id) ==> lookup(entries, id) is None) by {
            if forall|i: int| 0 <= i < entries.len() ==> entries[i].0 != id {
                assert forall|i: int| 0 <= i < rest.len() implies rest[i].0 != id by {
                    assert(rest[i] == entries[i]);
                }
                assert(entries[entries.len() - 1].0 != id);
            }
        }
    }
}

/// Overwriting the state of entry `i` changes the stored state of its id
/// only.
proof fn lemma_lookup_update<S>(entries: Seq<(Seq<char>, S)>, i: int, state: S, id: Seq<char>)
    requires
        ids_unique(entries),
        0 <= i < entries.len(),
    ensures
        lookup(entries.update(i, (entries[i].0, state)), id) == if id == entries[i].0 {
            Some(state)
        } else {
            lookup(entries, id)
        },
    decreases entries.len(),
{
    let updated = entries.update(i, (entries[i].0, state));
    if i < entries.len() - 1 {
        let rest = entries.drop_last();
        assert(ids_unique(rest));
        assert(updated.drop_last() =~= rest.update(i, (rest[i].0, state)));
        lemma_lookup_update(rest, i, state, id);
        if id == entries[i].0 {
            assert(entries.last().0 != id);
        }
    } else {
        assert(updated.drop_last() =~= entries.drop_last());
    }
}

/// Saved level states, one per level id.
pub struct LevelSnapshots<S> {
    entries: Vec<(String, S)>,
}

impl<S> LevelSnapshots<S> {
    pub closed spec fn spec_entries(&self) -> Seq<(Seq<char>, S)> {
        entry_texts(self.entries@)
    }

    /// The state saved for level `id`, if any.
    pub open spec fn spec_get(&self, id: Seq<char>) -> Option<S> {
        lookup(self.spec_entries(), id)
    }

    /// Each level id is stored at most once.
    pub open spec fn wf(&self) -> bool {
        ids_unique(self.spec_entries())
    }

    pub fn new() -> (snapshots: Self)
        ensures
            snapshots.wf(),
            forall|id: Seq<char>| snapshots.spec_get(id) is None,
    {
        let snapshots = LevelSnapshots { entries: Vec::new() };
        proof {
            assert(snapshots.spec_entries() =~= Seq::<(Seq<char>, S)>::empty());
        }
        snapshots
    }

    /// Index of the entry for `id`.
    fn position(&self, id: &str) -> (found: Option<usize>)
        ensures
            match found {
                Some(i) => i < self.spec_entries().len() && self.spec_entries()[i as int].0 == id@,
                None => forall|i: int| 0 <= i < self.spec_entries().len() ==> self.spec_entries()[i].0 != id@,
            },
    {
        let mut i: usize = 0;
        while i < self.entries.len()
            invariant
                i <= self.entries@.len(),
                forall|j: int| 0 <= j < i ==> self.spec_entries()[j].0 != id@,
            decreases self.entries.len() - i,
        {
            if same_text(self.entries[i].0.as_str(), id) {
                return Some(i);
            }
            i = i + 1;
        }
        None
    }

    /// Stores `state` as level `id`'s saved state, replacing what was
    /// stored for it before.
    pub fn save(&mut self, id: String, state: S)
        requires
            old(self).wf(),
        ensures
            final(self).wf(),
            forall|other: Seq<char>| #[trigger] final(self).spec_get(other) == if other == id@ {
                Some(state)
            } else {
                old(self).spec_get(other)
            },
    {
        let ghost before = self.spec_entries();
        match self.position(id.as_str()) {
            Some(i) => {
                let ghost key = id@;
                self.entries.set(i, (id, state));
                proof {
                    assert(self.spec_entries() =~= before.update(i as int, (before[i as int].0, state)));
                    assert forall|other: Seq<char>| #[trigger] self.spec_get(other) == if other == key {
                        Some(state)
                    } else {
                        lookup(before, other)
                    } by {
                        lemma_lookup_update(before, i as int, state, other);
                    }
                }
            },
            None => {
                let ghost key = id@;
                self.entries.push((id, state));
                proof {
                    assert(self.spec_entries() =~= before.push((key, state)));
                    assert(self.spec_entries().drop_last() =~= before);
                }
            },
        }
    }

    /// The state saved for level `id`, if any.
    pub fn get(&self, id: &str) -> (state: Option<&S>)
        requires
            self.wf(),
        ensures
            match state {
                Some(s) => self.spec_get(id@) == Some(*s),
                None => self.spec_get(id@) is None,
            },
    {
        proof {
            lemma_lookup_unique(self.spec_entries(), id@);
        }
        match self.position(id) {
            Some(i) => Some(&self.entries[i].1),
            None => None,
        }
    }

    /// Forgets every saved state (a restart or a loaded game begins anew).
    pub fn clear(&mut self)
        ensures
            final(self).wf(),
            forall|id: Seq<char>| final(self).spec_get(id) is None,
    {
        self.entries.clear();
        proof {
            assert(self.spec_entries() =~= Seq::<(Seq<char>, S)>::empty());
        }
    }
}

} // verus!
