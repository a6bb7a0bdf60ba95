use vstd::prelude::*;

verus! {

/// The views of a sequence of strings.
pub open spec fn views(v: Seq<String>) -> Seq<Seq<char>> {
    v.map_values(|s: String| s@)
}

/// A set of identifiers that remembers the order in which they were added.
#[derive(Clone, Debug)]
pub struct IdSet {
    items: Vec<String>,
}

impl View for IdSet {
    type V = Set<Seq<char>>;

    open spec fn view(&self) -> Set<Seq<char>> {
        self.elems().to_set()
    }
}

impl IdSet {
    /// The members in the order of their first insertion.
    pub closed spec fn elems(&self) -> Seq<Seq<char>> {
        views(self.items@)
    }

    /// An empty set.
    pub fn new() -> (r: Self)
        ensures
            r.elems() == Seq::<Seq<char>>::empty(),
    {
        IdSet { items: Vec::new() }
    }

    /// The set of the strings in `v`, in their first-seen order.
    pub fn from_vec(v: Vec<String>) -> (r: Self)
        ensures
            r@ == views(v@).to_set(),
    {
        let mut r = IdSet::new();
        let mut i: usize = 0;
        while i < v.len()
            invariant
                i <= v.len(),
                r@ == views(v@.take(i as int)).to_set(),
            decreases v.len() - i,
        {
            r.insert(v[i].clone());
            proof {
                assert(views(v@.take(i + 1)) =~= views(v@.take(i as int)).push(v@[i as int]@));
                views(v@.take(i as int)).lemma_push_to_set_commute(v@[i as int]@);
            }
            i = i + 1;
        }
        proof {
            assert(v@.take(v.len() as int) =~= v@);
        }
        r
    }

    /// The number of members.
    pub fn len(&self) -> (r: usize)
        ensures
            r == self.elems().len(),
    {
        self.items.len()
    }

    /// Whether the set has no members.
    pub fn is_empty(&self) -> (r: bool)
        ensures
            r == (self.elems().len() == 0),
            r == (self@ == Set::<Seq<char>>::empty()),
    {
        proof {
            if self.elems().len() > 0 {
                assert(self@.contains(self.elems()[0]));
            } else {
                assert(self@ =~= Set::<Seq<char>>::empty());
            }
        }
        self.items.len() == 0
    }

    /// The member at position `i` in insertion order.
    pub fn get(&self, i: usize) -> (r: &String)
        requires
            i < self.elems().len(),
        ensures
            r@ == self.elems()[i as int],
    {
        &self.items[i]
    }

    /// Whether `k` is a member.
    pub fn contains(&self, k: &str) -> (r: bool)
        ensures
            r == self@.contains(k@),
    {
        let key = k.to_owned();
        let mut i: usize = 0;
        while i < self.items.len()
            invariant
                i <= self.items.len(),
                key@ == k@,
                forall|j: int| 0 <= j < i ==> self.items@[j]@ != k@,
            decreases self.items.len() - i,
        {
            if self.items[i] == key {
                proof {
                    assert(self.elems()[i as int] == k@);
                }
                return true;
            }
            i = i + 1;
        }
        proof {
            if self@.contains(k@) {
                let j = choose|j: int| 0 <= j < self.elems().len() && self.elems()[j] == k@;
                assert(self.items@[j]@ == k@);
            }
        }
        false
    }

    /// Adds `k` unless it is already a member; returns whether it was added.
    pub fn insert(&mut self, k: String) -> (r: bool)
        ensures
            r == !old(self)@.contains(k@),
            final(self).elems() == if r {
                old(self).elems().push(k@)
            } else {
                old(self).elems()
            },
            final(self)@ == old(self)@.insert(k@),
    {
        if self.contains(k.as_str()) {
            proof {
                assert(self@.insert(k@) =~= self@);
            }
            false
        } else {
            let ghost before = self.elems();
            self.items.push(k);
            proof {
                assert(self.elems() =~= before.push(k@));
                before.lemma_push_to_set_commute(k@);
            }
            true
        }
    }

    /// Whether the two sets share a member.
    pub fn intersects(&self, other: &IdSet) -> (r: bool)
        ensures
            r == exists|v: Seq<char>| self@.contains(v) && other@.contains(v),
    {
        let mut i: usize = 0;
        while i < self.items.len()
            invariant
                i <= self.items.len(),
                forall|j: int| 0 <= j < i ==> !other@.contains(#[trigger] self.items@[j]@),
            decreases self.items.len() - i,
        {
            if other.contains(self.items[i].as_str()) {
                proof {
                    assert(self@.contains(self.elems()[i as int]));
                }
                return true;
            }
            i = i + 1;
        }
        proof {
            assert forall|v: Seq<char>| self@.contains(v) implies !other@.contains(v) by {
                let j = choose|j: int| 0 <= j < self.elems().len() && self.elems()[j] == v;
                assert(self.items@[j]@ == v);
            }
        }
        false
    }
}

/// The map that a sequence of entries stands for; the first entry of a key wins.
pub open spec fn map_of<V>(e: Seq<(String, V)>) -> Map<Seq<char>, V>
    decreases e.len(),
{
    if e.len() == 0 {
        Map::empty()
    } else {
        map_of(e.drop_first()).insert(e[0].0@, e[0].1)
    }
}

/// The position of the first entry of `e` whose key is `k`, if any.
pub open spec fn first_index<V>(e: Seq<(String, V)>, k: Seq<char>) -> Option<int>
    decreases e.len(),
{
    if e.len() == 0 {
        None
    } else if e[0].0@ == k {
        Some(0)
    } else {
        match first_index(e.drop_first(), k) {
            Some(i) => Some(i + 1),
            None => None,
        }
    }
}

proof fn lemma_first_index<V>(e: Seq<(String, V)>, k: Seq<char>)
    ensures
        match first_index(e, k) {
            Some(i) => 0 <= i < e.len() && e[i].0@ == k && map_of(e).contains_key(k) && map_of(
                e,
            )[k] == e[i].1 && forall|j: int| 0 <= j < i ==> e[j].0@ != k,
            None => !map_of(e).contains_key(k) && forall|j: int| 0 <= j < e.len() ==> e[j].0@ != k,
        },
    decreases e.len(),
{
    if e.len() > 0 {
        lemma_first_index(e.drop_first(), k);
        if e[0].0@ != k {
            match first_index(e.drop_first(), k) {
                Some(i) => {
                    assert forall|j: int| 0 <= j < i + 1 implies e[j].0@ != k by {
                        if j > 0 {
                            assert(e[j] == e.drop_first()[j - 1]);
                        }
                    }
                },
                None => {
                    assert forall|j: int| 0 <= j < e.len() implies e[j].0@ != k by {
                        if j > 0 {
                            assert(e[j] == e.drop_first()[j - 1]);
                        }
                    }
                },
            }
        }
    }
}

proof fn lemma_map_of_update<V>(e: Seq<(String, V)>, i: int, entry: (String, V))
    requires
        0 <= i < e.len(),
        entry.0@ == e[i].0@,
        first_index(e, e[i].0@) == Some(i),
    ensures
        map_of(e.update(i, entry)) =~= map_of(e).insert(entry.0@, entry.1),
    decreases e.len(),
{
    if i == 0 {
        assert(e.update(i, entry).drop_first() =~= e.drop_first());
    } else {
        let k = e[i].0@;
        assert(e.drop_first()[i - 1] == e[i]);
        assert(first_index(e.drop_first(), k) == Some(i - 1));
        lemma_map_of_update(e.drop_first(), i - 1, entry);
        assert(e.update(i, entry).drop_first() =~= e.drop_first().update(i - 1, entry));
    }
}

proof fn lemma_map_of_push<V>(e: Seq<(String, V)>, entry: (String, V))
    requires
        first_index(e, entry.0@) == None::<int>,
    ensures
        map_of(e.push(entry)) =~= map_of(e).insert(entry.0@, entry.1),
    decreases e.len(),
{
    if e.len() == 0 {
        assert(e.push(entry).drop_first() =~= e);
    } else {
        lemma_map_of_push(e.drop_first(), entry);
        assert(e.push(entry).drop_first() =~= e.drop_first().push(entry));
    }
}

/// A map keyed by strings that keeps its keys in insertion order.
#[derive(Clone, Debug)]
pub struct StrMap<V> {
    entries: Vec<(String, V)>,
}

impl<V> View for StrMap<V> {
    type V = Map<Seq<char>, V>;

    open spec fn view(&self) -> Map<Seq<char>, V> {
        map_of(self.entries())
    }
}

impl<V> StrMap<V> {
    /// The entries in insertion order.
    pub closed spec fn entries(&self) -> Seq<(String, V)> {
        self.entries@
    }

    /// An empty map.
    pub fn new() -> (r: Self)
        ensures
            r.entries() == Seq::<(String, V)>::empty(),
            r@ == Map::<Seq<char>, V>::empty(),
    {
        StrMap { entries: Vec::new() }
    }

    /// The number of entries.
    pub fn len(&self) -> (r: usize)
        ensures
            r == self.entries().len(),
    {
        self.entries.len()
    }

    /// Whether the map has no entries.
    pub fn is_empty(&self) -> (r: bool)
        ensures
            r == (self.entries().len() == 0),
    {
        self.entries.len() == 0
    }

    /// The key of entry `i`.
    pub fn key_at(&self, i: usize) -> (r: &String)
        requires
            i < self.entries().len(),
        ensures
            *r == self.entries()[i as int].0,
    {
        &self.entries[i].0
    }

    /// The value of entry `i`.
    pub fn value_at(&self, i: usize) -> (r: &V)
        requires
            i < self.entries().len(),
        ensures
            *r == self.entries()[i as int].1,
    {
        &self.entries[i].1
    }

    /// The position of the entry with key `k`, if there is one.
    pub fn find(&self, k: &str) -> (r: Option<usize>)
        ensures
            r == match first_index(self.entries(), k@) {
                Some(i) => Some(i as usize),
                None => None::<usize>,
            },
            match r {
                Some(i) => i < self.entries().len() && self.entries()[i as int].0@ == k@
                    && first_index(self.entries(), k@) == Some(i as int)
                    && self@.contains_key(k@) && self@[k@] == self.entries()[i as int].1,
                None => !self@.contains_key(k@),
            },
    {
        let key = k.to_owned();
        let mut i: usize = 0;
        proof {
            lemma_first_index(self.entries(), k@);
        }
        while i < self.entries.len()
            invariant
                i <= self.entries.len(),
                key@ == k@,
                forall|j: int| 0 <= j < i ==> self.entries@[j].0@ != k@,
                match first_index(self.entries(), k@) {
                    Some(f) => 0 <= f < self.entries().len() && self.entries()[f].0@ == k@
                        && map_of(self.entries()).contains_key(k@) && map_of(self.entries())[k@]
                        == self.entries()[f].1 && forall|j: int| 0 <= j < f ==> self.entries()[j].0@ != k@,
                    None => !map_of(self.entries()).contains_key(k@) && forall|j: int|
                        0 <= j < self.entries().len() ==> self.entries()[j].0@ != k@,
                },
            decreases self.entries.len() - i,
        {
            if self.entries[i].0 == key {
                return Some(i);
            }
            i = i + 1;
        }
        None
    }

    /// Whether `k` is a key.
    pub fn contains_key(&self, k: &str) -> (r: bool)
        ensures
            r == self@.contains_key(k@),
    {
        match self.find(k) {
            Some(_) => true,
            None => false,
        }
    }

    /// The value under `k`, if any.
    pub fn get(&self, k: &str) -> (r: Option<&V>)
        ensures
            match r {
                Some(v) => self@.contains_key(k@) && *v == self@[k@],
                None => !self@.contains_key(k@),
            },
    {
        match self.find(k) {
            Some(i) => Some(&self.entries[i].1),
            None => None,
        }
    }

    /// Sets the value under `k` to `v`; a new key goes last.
    pub fn insert(&mut self, k: String, v: V)
        ensures
            final(self)@ == old(self)@.insert(k@, v),
    {
        match self.find(k.as_str()) {
            Some(i) => {
                let ghost e = self.entries@;
                proof {
                    lemma_first_index(e, k@);
                    lemma_map_of_update(e, i as int, (k, v));
                }
                self.entries.set(i, (k, v));
            },
            None => {
                let ghost e = self.entries@;
                proof {
                    lemma_map_of_push(e, (k, v));
                }
                self.entries.push((k, v));
            },
        }
    }

    /// Puts `v` in place of the value of entry `i`, which must be the first entry with
    /// its key, and hands back the value it held.
    pub fn replace_at(&mut self, i: usize, v: V) -> (r: V)
        requires
            i < old(self).entries().len(),
            first_index(old(self).entries(), old(self).entries()[i as int].0@) == Some(i as int),
        ensures
            r == old(self).entries()[i as int].1,
            final(self).entries().len() == old(self).entries().len(),
            forall|j: int|
                0 <= j < final(self).entries().len() ==> (#[trigger] final(self).entries()[j]).0
                    == old(self).entries()[j].0,
            first_index(final(self).entries(), final(self).entries()[i as int].0@) == Some(i as int),
            final(self).entries()[i as int].1 == v,
            final(self)@ == old(self)@.insert(old(self).entries()[i as int].0@, v),
    {
        let ghost e = self.entries@;
        let mut tmp = v;
        let mut key = String::new();
        std::mem::swap(&mut key, &mut self.entries[i].0);
        std::mem::swap(&mut tmp, &mut self.entries[i].1);
        std::mem::swap(&mut key, &mut self.entries[i].0);
        proof {
            assert(self.entries@ =~= e.update(i as int, (e[i as int].0, v)));
            lemma_map_of_update(e, i as int, (e[i as int].0, v));
            lemma_first_index(e, e[i as int].0@);
            lemma_first_index(self.entries@, e[i as int].0@);
            lemma_first_index_unique(self.entries@, i as int);
        }
        tmp
    }
}

proof fn lemma_first_index_unique<V>(e: Seq<(String, V)>, i: int)
    requires
        0 <= i < e.len(),
        forall|j: int| 0 <= j < i ==> e[j].0@ != e[i].0@,
    ensures
        first_index(e, e[i].0@) == Some(i),
    decreases e.len(),
{
    if i > 0 {
        assert forall|j: int| 0 <= j < i - 1 implies (#[trigger] e.drop_first()[j]).0@ != e.drop_first()[i - 1].0@ by {
            assert(e.drop_first()[j] == e[j + 1]);
        }
        lemma_first_index_unique(e.drop_first(), i - 1);
    }
}

} // verus!
