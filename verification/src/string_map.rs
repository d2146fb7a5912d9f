//! A map from strings to values that keeps its entries in the order their
//! keys were first inserted, no key twice.
use vstd::prelude::*;

verus! {

/// No two entries of `p` share a key.
pub open spec fn keys_unique<V>(p: Seq<(Seq<char>, V)>) -> bool {
    forall|i: int, j: int|
        0 <= i < p.len() && 0 <= j < p.len() && i != j ==> #[trigger] p[i].0 != #[trigger] p[j].0
}

/// Whether `key` is the key of some entry of `p`.
pub open spec fn has_key<V>(p: Seq<(Seq<char>, V)>, key: Seq<char>) -> bool {
    exists|i: int| 0 <= i < p.len() && #[trigger] p[i].0 == key
}

/// The position of the entry of `p` with `key`, where there is one.
pub open spec fn key_position<V>(p: Seq<(Seq<char>, V)>, key: Seq<char>) -> int {
    choose|i: int| 0 <= i < p.len() && #[trigger] p[i].0 == key
}

/// The map that the entries `p` make.
pub open spec fn map_of<V>(p: Seq<(Seq<char>, V)>) -> Map<Seq<char>, V> {
    Map::new(|k: Seq<char>| has_key(p, k), |k: Seq<char>| p[key_position(p, k)].1)
}

/// With distinct keys, the entry at position `i` is the one found for its
/// key, and its value is the map's.
pub proof fn lemma_position<V>(p: Seq<(Seq<char>, V)>, i: int)
    requires
        keys_unique(p),
        0 <= i < p.len(),
    ensures
        has_key(p, p[i].0),
        key_position(p, p[i].0) == i,
        map_of(p).contains_key(p[i].0),
        map_of(p)[p[i].0] == p[i].1,
{
    assert(has_key(p, p[i].0));
}

proof fn lemma_update<V>(p: Seq<(Seq<char>, V)>, i: int, k: Seq<char>, v: V)
    requires
        keys_unique(p),
        0 <= i < p.len(),
        p[i].0 == k,
    ensures
        keys_unique(p.update(i, (k, v))),
        map_of(p.update(i, (k, v))) == map_of(p).insert(k, v),
{
    let q = p.update(i, (k, v));
    assert forall|j: int| 0 <= j < q.len() implies #[trigger] q[j].0 == p[j].0 by {}
    assert forall|a: Seq<char>| has_key(q, a) == has_key(p, a) by {
        if has_key(q, a) {
            let j = key_position(q, a);
            assert(p[j].0 == a);
        }
        if has_key(p, a) {
            let j = key_position(p, a);
            assert(q[j].0 == a);
        }
    }
    assert forall|a: Seq<char>| #[trigger] has_key(q, a) && a != k implies q[key_position(q, a)].1
        == p[key_position(p, a)].1 by {
        let j = key_position(p, a);
        lemma_position(p, j);
        assert(q[j].0 == a);
        lemma_position(q, j);
    }
    lemma_position(q, i);
    assert(map_of(q) =~= map_of(p).insert(k, v));
}

proof fn lemma_push<V>(p: Seq<(Seq<char>, V)>, k: Seq<char>, v: V)
    requires
        keys_unique(p),
        !has_key(p, k),
    ensures
        keys_unique(p.push((k, v))),
        map_of(p.push((k, v))) == map_of(p).insert(k, v),
{
    let q = p.push((k, v));
    assert forall|j: int| 0 <= j < p.len() implies #[trigger] q[j] == p[j] by {}
    assert forall|x: int, y: int|
        0 <= x < q.len() && 0 <= y < q.len() && x != y implies #[trigger] q[x].0 != #[trigger] q[y].0 by {
        if x == p.len() {
            assert(p[y].0 != k);
        } else if y == p.len() {
            assert(p[x].0 != k);
        }
    }
    assert forall|a: Seq<char>| has_key(q, a) == (has_key(p, a) || a == k) by {
        if has_key(q, a) && a != k {
            let j = key_position(q, a);
            assert(p[j].0 == a);
        }
        if has_key(p, a) {
            let j = key_position(p, a);
            assert(q[j].0 == a);
        }
        if a == k {
            assert(q[p.len() as int].0 == a);
        }
    }
    assert forall|a: Seq<char>| #[trigger] has_key(q, a) && a != k implies q[key_position(q, a)].1
        == p[key_position(p, a)].1 by {
        let j = key_position(p, a);
        lemma_position(p, j);
        assert(q[j].0 == a);
        lemma_position(q, j);
    }
    lemma_position(q, p.len() as int);
    assert(map_of(q) =~= map_of(p).insert(k, v));
}

#[derive(Debug)]
pub struct StringMap<V> {
    entries: Vec<(String, V)>,
}

impl<V> StringMap<V> {
    /// The entries, each key taken as its characters, in order.
    pub closed spec fn pairs(&self) -> Seq<(Seq<char>, V)> {
        self.entries@.map_values(|e: (String, V)| (e.0@, e.1))
    }

    #[verifier::type_invariant]
    closed spec fn unique(&self) -> bool {
        keys_unique(self.pairs())
    }

    /// What the map holds.
    pub open spec fn as_map(&self) -> Map<Seq<char>, V> {
        map_of(self.pairs())
    }

    /// The empty map.
    pub fn new() -> (m: Self)
        ensures
            m.pairs() == Seq::<(Seq<char>, V)>::empty(),
            m.as_map() == Map::<Seq<char>, V>::empty(),
    {
        let m = StringMap { entries: Vec::new() };
        assert(m.pairs() =~= Seq::<(Seq<char>, V)>::empty());
        assert(m.as_map() =~= Map::<Seq<char>, V>::empty());
        m
    }

    /// The number of entries.
    pub fn len(&self) -> (n: usize)
        ensures
            n == self.pairs().len(),
            keys_unique(self.pairs()),
    {
        proof {
            use_type_invariant(self);
        }
        self.entries.len()
    }

    /// The key and value of the entry at position `i`.
    pub fn entry(&self, i: usize) -> (e: (&String, &V))
        requires
            i < self.pairs().len(),
        ensures
            e.0@ == self.pairs()[i as int].0,
            *e.1 == self.pairs()[i as int].1,
    {
        let e = &self.entries[i];
        (&e.0, &e.1)
    }

    /// The position of the entry whose key is `key`.
    pub fn find(&self, key: &String) -> (r: Option<usize>)
        ensures
            match r {
                Some(i) => i < self.pairs().len() && self.pairs()[i as int].0 == key@ && key_position(
                    self.pairs(),
                    key@,
                ) == i,
                None => !has_key(self.pairs(), key@),
            },
    {
        proof {
            use_type_invariant(self);
        }
        let mut i: usize = 0;
        while i < self.entries.len()
            invariant
                i <= self.entries@.len(),
                keys_unique(self.pairs()),
                forall|j: int| 0 <= j < i ==> #[trigger] self.pairs()[j].0 != key@,
            decreases self.entries@.len() - i,
        {
            if self.entries[i].0 == *key {
                proof {
                    lemma_position(self.pairs(), i as int);
                }
                return Some(i);
            }
            i = i + 1;
        }
        None
    }

    /// The value stored under `key`, if any.
    pub fn get(&self, key: &String) -> (r: Option<&V>)
        ensures
            match r {
                Some(v) => self.as_map().contains_key(key@) && *v == self.as_map()[key@],
                None => !self.as_map().contains_key(key@),
            },
    {
        proof {
            use_type_invariant(self);
        }
        match self.find(key) {
            Some(i) => {
                proof {
                    lemma_position(self.pairs(), i as int);
                }
                Some(&self.entries[i].1)
            },
            None => None,
        }
    }

    /// Stores `value` under `key`: in place where the key is present, else
    /// as a new last entry.
    pub fn insert(&mut self, key: String, value: V)
        ensures
            final(self).as_map() == old(self).as_map().insert(key@, value),
            has_key(old(self).pairs(), key@) ==> final(self).pairs() == old(self).pairs().update(
                key_position(old(self).pairs(), key@),
                (key@, value),
            ),
            !has_key(old(self).pairs(), key@) ==> final(self).pairs() == old(self).pairs().push(
                (key@, value),
            ),
    {
        proof {
            use_type_invariant(&*self);
        }
        let ghost p = self.pairs();
        let ghost k = key@;
        let ghost val = value;
        let found = self.find(&key);
        let mut entries = Vec::new();
        std::mem::swap(&mut entries, &mut self.entries);
        match found {
            Some(i) => {
                entries.set(i, (key, value));
                proof {
                    lemma_update(p, i as int, k, val);
                    assert(entries@.map_values(|e: (String, V)| (e.0@, e.1)) =~= p.update(
                        i as int,
                        (k, val),
                    ));
                }
            },
            None => {
                entries.push((key, value));
                proof {
                    lemma_push(p, k, val);
                    assert(entries@.map_values(|e: (String, V)| (e.0@, e.1)) =~= p.push((k, val)));
                }
            },
        }
        self.entries = entries;
    }

    /// The values, in the order of their entries.
    pub fn into_values(self) -> (v: Vec<V>)
        ensures
            v@ == self.pairs().map_values(|e: (Seq<char>, V)| e.1),
    {
        let ghost p = self.pairs();
        let StringMap { entries } = self;
        let mut entries = entries;
        let mut out: Vec<V> = Vec::new();
        let ghost total = entries@.len();
        while entries.len() > 0
            invariant
                out@.len() + entries@.len() == total,
                total == p.len(),
                forall|i: int| 0 <= i < out@.len() ==> #[trigger] out@[i] == p[i].1,
                forall|i: int|
                    0 <= i < entries@.len() ==> #[trigger] entries@[i].1 == p[out@.len() + i].1,
            decreases entries@.len(),
        {
            let (_, value) = entries.remove(0);
            out.push(value);
        }
        assert(out@ =~= p.map_values(|e: (Seq<char>, V)| e.1));
        out
    }

    /// Removes every entry.
    pub fn clear(&mut self)
        ensures
            final(self).pairs() == Seq::<(Seq<char>, V)>::empty(),
            final(self).as_map() == Map::<Seq<char>, V>::empty(),
    {
        self.entries = Vec::new();
        assert(self.pairs() =~= Seq::<(Seq<char>, V)>::empty());
        assert(self.as_map() =~= Map::<Seq<char>, V>::empty());
    }
}

} // verus!
