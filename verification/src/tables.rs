//! Association tables: vectors of key/value entries with unique keys, viewed
//! as maps. The cluster document stores all of its mappings this way, so that
//! every mutation is a plain structural step with a map-level meaning.

use vstd::prelude::*;

verus! {

/// The map that a sequence of entries denotes; later entries win, though with
/// unique keys there is nothing to win over.
pub open spec fn assoc_map<K, V>(s: Seq<(K, V)>) -> Map<K, V>
    decreases s.len(),
{
    if s.len() == 0 {
        Map::empty()
    } else {
        assoc_map(s.drop_last()).insert(s.last().0, s.last().1)
    }
}

/// No key occurs twice.
pub open spec fn assoc_unique<K, V>(s: Seq<(K, V)>) -> bool {
    forall|i: int, j: int| 0 <= i < j < s.len() ==> (#[trigger] s[i]).0 != (#[trigger] s[j]).0
}

/// A key is in the map exactly when some entry holds it.
pub proof fn lemma_assoc_contains<K, V>(s: Seq<(K, V)>, k: K)
    ensures
        assoc_map(s).contains_key(k) <==> exists|i: int|
            0 <= i < s.len() && (#[trigger] s[i]).0 == k,
    decreases s.len(),
{
    if s.len() > 0 {
        lemma_assoc_contains(s.drop_last(), k);
        if s.last().0 == k {
            assert(s[s.len() - 1].0 == k);
        } else {
            if exists|i: int| 0 <= i < s.len() && (#[trigger] s[i]).0 == k {
                let i = choose|i: int| 0 <= i < s.len() && (#[trigger] s[i]).0 == k;
                assert(s.drop_last()[i].0 == k);
            }
        }
    }
}

/// With unique keys, the entry at `i` gives the map's value at its key.
pub proof fn lemma_assoc_get<K, V>(s: Seq<(K, V)>, i: int)
    requires
        assoc_unique(s),
        0 <= i < s.len(),
    ensures
        assoc_map(s).contains_key(s[i].0),
        assoc_map(s)[s[i].0] == s[i].1,
    decreases s.len(),
{
    if i < s.len() - 1 {
        lemma_assoc_get(s.drop_last(), i);
        assert(s.drop_last()[i] == s[i]);
        assert(s[i].0 != s.last().0);
    }
}

/// A key held by no entry is not in the map.
pub proof fn lemma_assoc_absent<K, V>(s: Seq<(K, V)>, k: K)
    requires
        forall|i: int| 0 <= i < s.len() ==> (#[trigger] s[i]).0 != k,
    ensures
        !assoc_map(s).contains_key(k),
    decreases s.len(),
{
    if s.len() > 0 {
        assert(forall|i: int|
            0 <= i < s.drop_last().len() ==> (#[trigger] s.drop_last()[i]).0 != k);
        lemma_assoc_absent(s.drop_last(), k);
        assert(s.last().0 != k);
    }
}

/// Appending a fresh entry inserts its pair into the map.
pub proof fn lemma_assoc_push<K, V>(s: Seq<(K, V)>, k: K, v: V)
    ensures
        assoc_map(s.push((k, v))) == assoc_map(s).insert(k, v),
{
    assert(s.push((k, v)).drop_last() =~= s);
    assert(s.push((k, v)).last() == (k, v));
}

/// Overwriting the value at entry `i` updates the map at that entry's key.
pub proof fn lemma_assoc_update<K, V>(s: Seq<(K, V)>, i: int, v: V)
    requires
        assoc_unique(s),
        0 <= i < s.len(),
    ensures
        assoc_map(s.update(i, (s[i].0, v))) == assoc_map(s).insert(s[i].0, v),
        assoc_unique(s.update(i, (s[i].0, v))),
    decreases s.len(),
{
    let t = s.update(i, (s[i].0, v));
    assert(forall|a: int, b: int|
        0 <= a < b < t.len() ==> (#[trigger] t[a]).0 != (#[trigger] t[b]).0);
    if i == s.len() - 1 {
        assert(t.drop_last() =~= s.drop_last());
        assert(t.last() == (s[i].0, v));
        assert(assoc_map(t) =~= assoc_map(s).insert(s[i].0, v));
    } else {
        lemma_assoc_update(s.drop_last(), i, v);
        assert(s.drop_last()[i] == s[i]);
        assert(t.drop_last() =~= s.drop_last().update(i, (s[i].0, v)));
        assert(t.last() == s.last());
        assert(assoc_map(t) == assoc_map(s.drop_last()).insert(s[i].0, v).insert(
            s.last().0,
            s.last().1,
        ));
        assert(s[i].0 != s.last().0);
        assert(assoc_map(t) =~= assoc_map(s).insert(s[i].0, v));
    }
}

/// Removing entry `i` removes that entry's key from the map.
pub proof fn lemma_assoc_remove<K, V>(s: Seq<(K, V)>, i: int)
    requires
        assoc_unique(s),
        0 <= i < s.len(),
    ensures
        assoc_map(s.remove(i)) == assoc_map(s).remove(s[i].0),
        assoc_unique(s.remove(i)),
    decreases s.len(),
{
    let t = s.remove(i);
    assert(forall|a: int, b: int|
        0 <= a < b < t.len() ==> (#[trigger] t[a]).0 != (#[trigger] t[b]).0) by {
        assert(forall|a: int| 0 <= a < t.len() ==> t[a] == (if a < i {
            s[a]
        } else {
            s[a + 1]
        }));
    }
    if i == s.len() - 1 {
        assert(t =~= s.drop_last());
        assert(forall|j: int| 0 <= j < t.len() ==> (#[trigger] t[j]).0 != s[i].0);
        lemma_assoc_absent(t, s[i].0);
        assert(assoc_map(s.remove(i)) =~= assoc_map(s).remove(s[i].0));
    } else {
        lemma_assoc_remove(s.drop_last(), i);
        assert(s.drop_last()[i] == s[i]);
        assert(t.drop_last() =~= s.drop_last().remove(i));
        assert(t.last() == s.last());
        assert(assoc_map(t) == assoc_map(s.drop_last()).remove(s[i].0).insert(
            s.last().0,
            s.last().1,
        ));
        assert(s[i].0 != s.last().0);
        assert(assoc_map(t) =~= assoc_map(s).remove(s[i].0));
    }
}

/// A table from segment ids to a per-segment number: entry counts, leaders,
/// or creation times.
#[derive(Debug)]
pub struct SegMap {
    pub entries: Vec<(u64, u64)>,
}

impl View for SegMap {
    type V = Map<u64, u64>;

    open spec fn view(&self) -> Map<u64, u64> {
        assoc_map(self.entries@)
    }
}

impl SegMap {
    /// Unique keys: the table denotes its map faithfully.
    pub open spec fn wf(&self) -> bool {
        assoc_unique(self.entries@)
    }

    pub fn new() -> (r: Self)
        ensures
            r@ == Map::<u64, u64>::empty(),
            r.wf(),
            r.entries@ == Seq::<(u64, u64)>::empty(),
    {
        SegMap { entries: Vec::new() }
    }

    pub fn len(&self) -> (r: usize)
        ensures
            r == self.entries@.len(),
    {
        self.entries.len()
    }

    /// The index of the entry holding `k`, if any.
    fn find(&self, k: u64) -> (r: Option<usize>)
        ensures
            match r {
                Some(i) => i < self.entries@.len() && self.entries@[i as int].0 == k,
                None => forall|i: int|
                    0 <= i < self.entries@.len() ==> (#[trigger] self.entries@[i]).0 != k,
            },
    {
        let mut i: usize = 0;
        while i < self.entries.len()
            invariant
                i <= self.entries@.len(),
                forall|j: int| 0 <= j < i ==> (#[trigger] self.entries@[j]).0 != k,
            decreases self.entries@.len() - i,
        {
            if self.entries[i].0 == k {
                return Some(i);
            }
            i = i + 1;
        }
        None
    }

    pub fn contains_key(&self, k: u64) -> (r: bool)
        ensures
            r == self@.contains_key(k),
    {
        proof {
            lemma_assoc_contains(self.entries@, k);
        }
        self.find(k).is_some()
    }

    pub fn get(&self, k: u64) -> (r: Option<u64>)
        requires
            self.wf(),
        ensures
            r == if self@.contains_key(k) {
                Some(self@[k])
            } else {
                None::<u64>
            },
    {
        proof {
            lemma_assoc_contains(self.entries@, k);
        }
        match self.find(k) {
            Some(i) => {
                proof {
                    lemma_assoc_get(self.entries@, i as int);
                }
                Some(self.entries[i].1)
            },
            None => {
                proof {
                    lemma_assoc_absent(self.entries@, k);
                }
                None
            },
        }
    }

    /// Inserts or overwrites.
    pub fn insert(&mut self, k: u64, v: u64)
        requires
            old(self).wf(),
        ensures
            final(self).wf(),
            final(self)@ == old(self)@.insert(k, v),
    {
        match self.find(k) {
            Some(i) => {
                proof {
                    lemma_assoc_update(self.entries@, i as int, v);
                }
                self.entries.set(i, (k, v));
            },
            None => {
                proof {
                    lemma_assoc_push(self.entries@, k, v);
                    assert(forall|a: int, b: int|
                        0 <= a < b < self.entries@.push((k, v)).len() ==> (#[trigger] self.entries@.push(
                            (k, v),
                        )[a]).0 != (#[trigger] self.entries@.push((k, v))[b]).0);
                }
                self.entries.push((k, v));
            },
        }
    }

    /// Removes the key if present.
    pub fn remove(&mut self, k: u64)
        requires
            old(self).wf(),
        ensures
            final(self).wf(),
            final(self)@ == old(self)@.remove(k),
    {
        match self.find(k) {
            Some(i) => {
                proof {
                    lemma_assoc_remove(self.entries@, i as int);
                }
                self.entries.remove(i);
            },
            None => {
                proof {
                    lemma_assoc_absent(self.entries@, k);
                    assert(self@ =~= self@.remove(k));
                }
            },
        }
    }

    /// A structural copy.
    pub fn duplicate(&self) -> (r: Self)
        ensures
            r.entries@ == self.entries@,
            r@ == self@,
            r.wf() == self.wf(),
    {
        let mut v: Vec<(u64, u64)> = Vec::new();
        let mut i: usize = 0;
        while i < self.entries.len()
            invariant
                i <= self.entries@.len(),
                v@ =~= self.entries@.take(i as int),
            decreases self.entries@.len() - i,
        {
            v.push(self.entries[i]);
            i = i + 1;
        }
        proof {
            assert(v@ =~= self.entries@);
        }
        SegMap { entries: v }
    }
}

/// The node directory: node id to advertised address. Entries are upserted
/// and never removed.
#[derive(Debug)]
pub struct NodeTable {
    pub entries: Vec<(u64, String)>,
}

impl View for NodeTable {
    type V = Map<u64, Seq<char>>;

    open spec fn view(&self) -> Map<u64, Seq<char>> {
        assoc_map(self.repr())
    }
}

impl NodeTable {
    /// The entries with their strings taken as character sequences.
    pub open spec fn repr(&self) -> Seq<(u64, Seq<char>)> {
        self.entries@.map(|i: int, e: (u64, String)| (e.0, e.1@))
    }

    /// Unique keys: the table denotes its map faithfully.
    pub open spec fn wf(&self) -> bool {
        assoc_unique(self.repr())
    }

    pub fn new() -> (r: Self)
        ensures
            r@ == Map::<u64, Seq<char>>::empty(),
            r.wf(),
            r.repr() == Seq::<(u64, Seq<char>)>::empty(),
    {
        let r = NodeTable { entries: Vec::new() };
        proof {
            assert(r.repr() =~= Seq::<(u64, Seq<char>)>::empty());
        }
        r
    }

    /// The index of the entry holding `k`, if any.
    fn find(&self, k: u64) -> (r: Option<usize>)
        ensures
            match r {
                Some(i) => i < self.repr().len() && self.repr()[i as int].0 == k,
                None => forall|i: int|
                    0 <= i < self.repr().len() ==> (#[trigger] self.repr()[i]).0 != k,
            },
    {
        let mut i: usize = 0;
        while i < self.entries.len()
            invariant
                i <= self.repr().len(),
                self.repr().len() == self.entries@.len(),
                forall|j: int| 0 <= j < i ==> (#[trigger] self.repr()[j]).0 != k,
            decreases self.entries@.len() - i,
        {
            if self.entries[i].0 == k {
                return Some(i);
            }
            i = i + 1;
        }
        None
    }

    /// The address recorded for node `k`, if any.
    pub fn get(&self, k: u64) -> (r: Option<String>)
        requires
            self.wf(),
        ensures
            match r {
                Some(a) => self@.contains_key(k) && a@ == self@[k],
                None => !self@.contains_key(k),
            },
    {
        proof {
            lemma_assoc_contains(self.repr(), k);
        }
        match self.find(k) {
            Some(i) => {
                proof {
                    lemma_assoc_get(self.repr(), i as int);
                }
                Some(self.entries[i].1.clone())
            },
            None => {
                proof {
                    lemma_assoc_absent(self.repr(), k);
                }
                None
            },
        }
    }

    /// Inserts or overwrites the address for node `k`.
    pub fn insert(&mut self, k: u64, addr: String)
        requires
            old(self).wf(),
        ensures
            final(self).wf(),
            final(self)@ == old(self)@.insert(k, addr@),
    {
        match self.find(k) {
            Some(i) => {
                proof {
                    lemma_assoc_update(self.repr(), i as int, addr@);
                    assert(self.repr().update(i as int, (self.repr()[i as int].0, addr@))
                        =~= self.entries@.update(i as int, (self.entries@[i as int].0, addr))
                        .map(|n: int, e: (u64, String)| (e.0, e.1@)));
                }
                let key: u64 = self.entries[i].0;
                self.entries.set(i, (key, addr));
            },
            None => {
                proof {
                    lemma_assoc_push(self.repr(), k, addr@);
                    let pushed = self.entries@.push((k, addr)).map(
                        |n: int, e: (u64, String)| (e.0, e.1@),
                    );
                    assert(pushed =~= self.repr().push((k, addr@)));
                    assert(forall|a: int, b: int|
                        0 <= a < b < pushed.len() ==> (#[trigger] pushed[a]).0
                            != (#[trigger] pushed[b]).0);
                }
                self.entries.push((k, addr));
            },
        }
    }

    /// All entries, copied out in table order.
    pub fn all(&self) -> (r: Vec<(u64, String)>)
        ensures
            r@.map(|i: int, e: (u64, String)| (e.0, e.1@)) == self.repr(),
    {
        let mut v: Vec<(u64, String)> = Vec::new();
        let mut i: usize = 0;
        while i < self.entries.len()
            invariant
                i <= self.entries@.len(),
                v@.len() == i,
                forall|j: int|
                    0 <= j < i ==> (#[trigger] v@[j]).0 == self.entries@[j].0 && v@[j].1@
                        == self.entries@[j].1@,
            decreases self.entries@.len() - i,
        {
            let key: u64 = self.entries[i].0;
            let addr: String = self.entries[i].1.clone();
            v.push((key, addr));
            i = i + 1;
        }
        proof {
            assert(v@.map(|n: int, e: (u64, String)| (e.0, e.1@)) =~= self.repr());
        }
        v
    }

    /// A structural copy.
    pub fn duplicate(&self) -> (r: Self)
        ensures
            r.repr() == self.repr(),
            r@ == self@,
            r.wf() == self.wf(),
    {
        let all: Vec<(u64, String)> = self.all();
        let r = NodeTable { entries: all };
        proof {
            assert(r.repr() =~= self.repr());
        }
        r
    }
}

} // verus!
