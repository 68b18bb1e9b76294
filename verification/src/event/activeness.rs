use crate::variable::stack::{
    entry_place, lemma_entry_place, lemma_entry_place_push, lemma_same_places,
};
use vstd::prelude::*;

verus! {

/// Which of the named actions are active.
#[derive(Debug)]
pub struct Activeness {
    entries: Vec<(String, bool)>,
}

/// The map that a list of flags stands for: of two entries of one name the
/// first counts.
pub open spec fn flags_view(entries: Seq<(String, bool)>) -> Map<Seq<char>, bool> {
    Map::new(
        |k: Seq<char>| entry_place(entries, k, 0) is Some,
        |k: Seq<char>| entries[entry_place(entries, k, 0)->Some_0 as int].1,
    )
}

impl View for Activeness {
    type V = Map<Seq<char>, bool>;

    closed spec fn view(&self) -> Map<Seq<char>, bool> {
        flags_view(self.entries@)
    }
}

impl Activeness {
    pub fn new() -> (r: Self)
        ensures
            r@ == Map::<Seq<char>, bool>::empty(),
    {
        let r = Self { entries: Vec::new() };
        assert(r@ =~= Map::<Seq<char>, bool>::empty());
        r
    }

    /// The place of the entry of the name `name`.
    fn place(&self, name: &String) -> (r: Option<usize>)
        ensures
            match r {
                Some(i) => entry_place(self.entries@, name@, 0) == Some(i as nat) && i
                    < self.entries@.len(),
                None => entry_place(self.entries@, name@, 0) is None,
            },
    {
        let mut i: usize = 0;
        while i < self.entries.len()
            invariant
                i <= self.entries.len(),
                entry_place(self.entries@, name@, 0) == entry_place(
                    self.entries@,
                    name@,
                    i as nat,
                ),
            decreases self.entries.len() - i,
        {
            if self.entries[i].0 == *name {
                return Some(i);
            }
            i += 1;
        }
        None
    }

    /// Whether the action `name` is active, if there is such an action.
    pub fn get(&self, name: &str) -> (r: Option<bool>)
        ensures
            match r {
                Some(b) => self@.contains_key(name@) && b == self@[name@],
                None => !self@.contains_key(name@),
            },
    {
        let key = name.to_owned();
        match self.place(&key) {
            Some(i) => Some(self.entries[i].1),
            None => None,
        }
    }

    /// Sets whether the action `name` is active, and returns what it was
    /// before, if the action was known.
    pub fn insert(&mut self, name: String, active: bool) -> (r: Option<bool>)
        ensures
            final(self)@ == old(self)@.insert(name@, active),
            match r {
                Some(b) => old(self)@.contains_key(name@) && b == old(self)@[name@],
                None => !old(self)@.contains_key(name@),
            },
    {
        let ghost before = self.entries@;
        let ghost goal = flags_view(before).insert(name@, active);
        match self.place(&name) {
            Some(i) => {
                let previous = self.entries[i].1;
                proof {
                    lemma_entry_place(before, name@, 0);
                }
                self.entries[i] = (name, active);
                proof {
                    let after = self.entries@;
                    assert forall|k: Seq<char>|
                        (#[trigger] flags_view(after).dom().contains(k)) == goal.dom().contains(k)
                            && (flags_view(after).dom().contains(k) ==> flags_view(after)[k]
                            == goal[k]) by {
                        assert forall|j: int| 0 <= j < after.len() implies (#[trigger] after[j]).0@
                            == before[j].0@ by {}
                        lemma_same_places(after, before, k, 0);
                        lemma_entry_place(before, k, 0);
                    }
                    assert(flags_view(after) =~= goal);
                }
                Some(previous)
            },
            None => {
                self.entries.push((name, active));
                proof {
                    let after = self.entries@;
                    assert forall|k: Seq<char>|
                        (#[trigger] flags_view(after).dom().contains(k)) == goal.dom().contains(k)
                            && (flags_view(after).dom().contains(k) ==> flags_view(after)[k]
                            == goal[k]) by {
                        lemma_entry_place_push(before, (name, active), k, 0);
                        lemma_entry_place(before, k, 0);
                    }
                    assert(flags_view(after) =~= goal);
                }
                None
            },
        }
    }
}

impl Clone for Activeness {
    fn clone(&self) -> (r: Self)
        ensures
            r@ == self@,
    {
        let mut entries: Vec<(String, bool)> = Vec::new();
        let mut i: usize = 0;
        while i < self.entries.len()
            invariant
                i <= self.entries.len(),
                entries@.len() == i,
                forall|k: int|
                    0 <= k < i ==> (#[trigger] entries@[k]).0@ == self.entries@[k].0@
                        && entries@[k].1 == self.entries@[k].1,
            decreases self.entries.len() - i,
        {
            entries.push((self.entries[i].0.clone(), self.entries[i].1));
            i += 1;
        }
        let r = Self { entries };
        proof {
            let a = r.entries@;
            let b = self.entries@;
            assert forall|k: Seq<char>|
                (#[trigger] flags_view(a).dom().contains(k)) == flags_view(b).dom().contains(k) && (
                flags_view(a).dom().contains(k) ==> flags_view(a)[k] == flags_view(b)[k]) by {
                lemma_same_places(a, b, k, 0);
                lemma_entry_place(b, k, 0);
                if entry_place(b, k, 0) is Some {
                    let at = entry_place(b, k, 0)->Some_0 as int;
                    assert(a[at].1 == b[at].1);
                }
            }
            assert(flags_view(a) =~= flags_view(b));
        }
        r
    }
}

} // verus!
