use vstd::prelude::*;

verus! {

/// A mapping from card name to affinity score, kept as a list of entries whose
/// names are pairwise distinct.
pub struct AffinityTable {
    entries: Vec<(String, i32)>,
}

impl View for AffinityTable {
    type V = Map<Seq<char>, i32>;

    closed spec fn view(&self) -> Map<Seq<char>, i32> {
        Map::new(
            |k: Seq<char>| exists|i: int| 0 <= i < self.entries@.len() && self.entries@[i].0@ == k,
            |k: Seq<char>| self.entries@[self.index_of(k)].1,
        )
    }
}

impl AffinityTable {
    /// Position of the entry named `k` (meaningful only when there is one).
    pub closed spec fn index_of(&self, k: Seq<char>) -> int {
        choose|i: int| 0 <= i < self.entries@.len() && self.entries@[i].0@ == k
    }

    /// Entry names are pairwise distinct.
    #[verifier::type_invariant]
    closed spec fn wf(&self) -> bool {
        forall|i: int, j: int|
            0 <= i < self.entries@.len() && 0 <= j < self.entries@.len() && i != j
                ==> self.entries@[i].0@ != self.entries@[j].0@
    }

    proof fn lemma_index_of(&self, i: int)
        requires
            self.wf(),
            0 <= i < self.entries@.len(),
        ensures
            self@.contains_key(self.entries@[i].0@),
            self@[self.entries@[i].0@] == self.entries@[i].1,
    {
        let k = self.entries@[i].0@;
        assert(self@.dom().contains(k));
        let j = self.index_of(k);
        assert(0 <= j < self.entries@.len() && self.entries@[j].0@ == k);
    }

    /// An empty table.
    pub fn new() -> (t: AffinityTable)
        ensures
            t@ == Map::<Seq<char>, i32>::empty(),
    {
        let t = AffinityTable { entries: Vec::new() };
        assert(t@ =~= Map::<Seq<char>, i32>::empty());
        t
    }

    /// Position of the entry named `name`, if any.
    fn find(&self, name: &str) -> (r: Option<usize>)
        ensures
            r matches Some(i) ==> i < self.entries@.len() && self.entries@[i as int].0@ == name@,
            r is None ==> !self@.contains_key(name@),
    {
        proof {
            use_type_invariant(self);
        }
        let key = String::from_str(name);
        let mut i: usize = 0;
        while i < self.entries.len()
            invariant
                i <= self.entries@.len(),
                key@ == name@,
                forall|j: int| 0 <= j < i ==> self.entries@[j].0@ != name@,
            decreases self.entries@.len() - i,
        {
            if self.entries[i].0 == key {
                return Some(i);
            }
            i = i + 1;
        }
        None
    }

    /// The score stored for `name`, if the table holds one.
    pub fn get(&self, name: &str) -> (r: Option<i32>)
        ensures
            r == (if self@.contains_key(name@) { Some(self@[name@]) } else { None::<i32> }),
    {
        proof {
            use_type_invariant(self);
        }
        match self.find(name) {
            Some(i) => {
                proof {
                    self.lemma_index_of(i as int);
                }
                Some(self.entries[i].1)
            },
            None => None,
        }
    }

    /// This table with the score of `name` set to `score`, replacing any
    /// earlier one.
    pub fn with(self, name: String, score: i32) -> (t: AffinityTable)
        ensures
            t@ == self@.insert(name@, score),
    {
        proof {
            use_type_invariant(&self);
        }
        let pre = self;
        let found = pre.find(name.as_str());
        let AffinityTable { mut entries } = pre;
        let ghost key = name@;
        match found {
            Some(i) => {
                entries.set(i, (name, score));
            },
            None => {
                entries.push((name, score));
            },
        }
        let t = AffinityTable { entries };
        proof {
            let n = pre.entries@.len();
            assert forall|k: Seq<char>| #[trigger] t@.contains_key(k) <==> pre@.insert(key, score).contains_key(k) by {
                if pre@.contains_key(k) && k != key {
                    let j = pre.index_of(k);
                    assert(t.entries@[j].0@ == k);
                }
                if t@.contains_key(k) && k != key {
                    let j = t.index_of(k);
                    assert(pre.entries@[j].0@ == k);
                }
                if k == key {
                    match found {
                        Some(i) => assert(t.entries@[i as int].0@ == k),
                        None => assert(t.entries@[n as int].0@ == k),
                    }
                }
            }
            assert forall|k: Seq<char>| #[trigger] t@.contains_key(k) implies t@[k] == pre@.insert(key, score)[k] by {
                let j = t.index_of(k);
                t.lemma_index_of(j);
                if k != key {
                    pre.lemma_index_of(j);
                } else {
                    match found {
                        Some(i) => assert(j == i),
                        None => assert(j == n),
                    }
                }
            }
            assert(t@ =~= pre@.insert(key, score));
        }
        t
    }
}

} // verus!
