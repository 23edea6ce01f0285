use vstd::prelude::*;

verus! {

/// The keys of `entries` are pairwise distinct.
pub open spec fn keys_distinct(entries: Seq<(String, String)>) -> bool {
    forall|i: int, j: int|
        0 <= i < j < entries.len() ==> #[trigger] entries[i].0@ != #[trigger] entries[j].0@
}

/// The index of the entry whose key is `k`.
pub open spec fn index_of(entries: Seq<(String, String)>, k: Seq<char>) -> int {
    choose|i: int| 0 <= i < entries.len() && entries[i].0@ == k
}

/// The path-to-value mapping that `entries` describe.
pub open spec fn entries_map(entries: Seq<(String, String)>) -> Map<Seq<char>, Seq<char>> {
    Map::new(
        |k: Seq<char>| exists|i: int| 0 <= i < entries.len() && entries[i].0@ == k,
        |k: Seq<char>| entries[index_of(entries, k)].1@,
    )
}

/// A flat record: values keyed by dotted leaf path, each path at most once.
pub struct Record {
    entries: Vec<(String, String)>,
}

impl View for Record {
    type V = Map<Seq<char>, Seq<char>>;

    closed spec fn view(&self) -> Map<Seq<char>, Seq<char>> {
        entries_map(self.entries@)
    }
}

proof fn lemma_lookup(entries: Seq<(String, String)>, i: int)
    requires
        keys_distinct(entries),
        0 <= i < entries.len(),
    ensures
        entries_map(entries).contains_key(entries[i].0@),
        entries_map(entries)[entries[i].0@] == entries[i].1@,
{
    let k = entries[i].0@;
    let j = index_of(entries, k);
    assert(0 <= j < entries.len() && entries[j].0@ == k);
    if j < i {
        assert(entries[j].0@ != entries[i].0@);
    } else if i < j {
        assert(entries[i].0@ != entries[j].0@);
    }
}

impl Record {
    /// The record's entries are keyed by distinct paths.
    pub closed spec fn wf(&self) -> bool {
        keys_distinct(self.entries@)
    }

    /// A record with no entries.
    pub fn new() -> (r: Record)
        ensures
            r.wf(),
            r@ == Map::<Seq<char>, Seq<char>>::empty(),
    {
        let r = Record { entries: Vec::new() };
        assert(r@ =~= Map::<Seq<char>, Seq<char>>::empty());
        r
    }

    /// The value stored under `path`, if any.
    pub fn get(&self, path: &String) -> (r: Option<&String>)
        requires
            self.wf(),
        ensures
            r matches Some(v) ==> self@.contains_key(path@) && self@[path@] == v@,
            r is None ==> !self@.contains_key(path@),
    {
        let mut i: usize = 0;
        while i < self.entries.len()
            invariant
                i <= self.entries.len(),
                self.wf(),
                forall|j: int| 0 <= j < i ==> self.entries@[j].0@ != path@,
            decreases self.entries.len() - i,
        {
            if self.entries[i].0 == *path {
                proof {
                    lemma_lookup(self.entries@, i as int);
                }
                return Some(&self.entries[i].1);
            }
            i = i + 1;
        }
        None
    }

    /// Stores `value` under `path`, replacing what was there.
    pub fn insert(&mut self, path: String, value: String)
        requires
            old(self).wf(),
        ensures
            final(self).wf(),
            final(self)@ == old(self)@.insert(path@, value@),
    {
        let ghost s0 = self.entries@;
        let mut i: usize = 0;
        while i < self.entries.len()
            invariant
                i <= self.entries.len(),
                self.entries@ == s0,
                keys_distinct(s0),
                s0 == old(self).entries@,
                forall|j: int| 0 <= j < i ==> s0[j].0@ != path@,
            decreases self.entries.len() - i,
        {
            if self.entries[i].0 == path {
                let ghost pv = path@;
                let ghost vv = value@;
                self.entries.set(i, (path, value));
                proof {
                    let s1 = self.entries@;
                    assert(keys_distinct(s1)) by {
                        assert(forall|j: int| 0 <= j < s1.len() ==> s1[j].0@ == s0[j].0@);
                    }
                    assert forall|j: int| 0 <= j < s1.len() implies s1[j].0@ == s0[j].0@ by {}
                    assert forall|k: Seq<char>| k != pv && entries_map(s0).contains_key(k)
                        implies entries_map(s1)[k] == entries_map(s0)[k] by {
                        let j = index_of(s0, k);
                        lemma_lookup(s0, j);
                        lemma_lookup(s1, j);
                    }
                    lemma_lookup(s1, i as int);
                    assert forall|k: Seq<char>|
                        entries_map(s1).contains_key(k) == entries_map(s0).insert(
                            pv,
                            vv,
                        ).contains_key(k) by {
                        if entries_map(s1).contains_key(k) {
                            let j = index_of(s1, k);
                            assert(s0[j].0@ == k);
                        }
                        if entries_map(s0).contains_key(k) {
                            let j = index_of(s0, k);
                            assert(s1[j].0@ == k);
                        }
                    }
                    assert(entries_map(s1) =~= entries_map(s0).insert(pv, vv));
                }
                return;
            }
            i = i + 1;
        }
        let ghost pv = path@;
        let ghost vv = value@;
        self.entries.push((path, value));
        proof {
            let s1 = self.entries@;
            assert(keys_distinct(s1));
            assert forall|k: Seq<char>| k != pv && entries_map(s0).contains_key(k)
                implies entries_map(s1)[k] == entries_map(s0)[k] by {
                let j = index_of(s0, k);
                lemma_lookup(s0, j);
                lemma_lookup(s1, j);
            }
            lemma_lookup(s1, s0.len() as int);
            assert forall|k: Seq<char>|
                entries_map(s1).contains_key(k) == entries_map(s0).insert(pv, vv).contains_key(
                    k,
                ) by {
                if entries_map(s1).contains_key(k) {
                    let j = index_of(s1, k);
                    if j < s0.len() {
                        assert(s0[j].0@ == k);
                    }
                }
                if entries_map(s0).contains_key(k) {
                    let j = index_of(s0, k);
                    assert(s1[j].0@ == k);
                }
            }
            assert(entries_map(s1) =~= entries_map(s0).insert(pv, vv));
        }
    }
}

} // verus!
