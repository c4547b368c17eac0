use vstd::prelude::*;

verus! {

/// Keys of the library's maps and sets: values that are compared by value.
pub trait MapKey: Copy {
    fn same(&self, other: &Self) -> (r: bool)
        ensures
            r == (*self == *other),
    ;
}

impl MapKey for u8 {
    fn same(&self, other: &Self) -> (r: bool) {
        *self == *other
    }
}

/// No key occurs twice in an association list.
pub open spec fn keys_unique<K, V>(s: Seq<(K, V)>) -> bool {
    forall|i: int, j: int| 0 <= i < s.len() && 0 <= j < s.len() && i != j ==> s[i].0 != s[j].0
}

/// The map that an association list describes, each value taken by its view.
pub open spec fn map_of<K, V: View>(s: Seq<(K, V)>) -> Map<K, V::V>
    decreases s.len(),
{
    if s.len() == 0 {
        Map::empty()
    } else {
        map_of(s.drop_last()).insert(s.last().0, s.last().1@)
    }
}

pub proof fn lemma_map_of_dom<K, V: View>(s: Seq<(K, V)>, k: K)
    ensures
        map_of(s).dom().contains(k) <==> exists|i: int| 0 <= i < s.len() && s[i].0 == k,
        map_of(s).dom().finite(),
    decreases s.len(),
{
    if s.len() > 0 {
        let dl = s.drop_last();
        lemma_map_of_dom(dl, k);
        if map_of(s).dom().contains(k) {
            if s.last().0 == k {
                assert(s[s.len() - 1].0 == k);
            } else {
                let i = choose|i: int| 0 <= i < dl.len() && dl[i].0 == k;
                assert(s[i] == dl[i]);
            }
        }
        if exists|i: int| 0 <= i < s.len() && s[i].0 == k {
            let i = choose|i: int| 0 <= i < s.len() && s[i].0 == k;
            if i < s.len() - 1 {
                assert(dl[i] == s[i]);
            }
        }
    }
}

pub proof fn lemma_map_of_len<K, V: View>(s: Seq<(K, V)>)
    requires
        keys_unique(s),
    ensures
        map_of(s).dom().len() == s.len(),
        map_of(s).dom().finite(),
    decreases s.len(),
{
    if s.len() > 0 {
        let dl = s.drop_last();
        assert(keys_unique(dl)) by {
            assert forall|i: int, j: int| 0 <= i < dl.len() && 0 <= j < dl.len() && i != j implies dl[i].0
                != dl[j].0 by {
                assert(dl[i] == s[i] && dl[j] == s[j]);
            }
        }
        lemma_map_of_len(dl);
        lemma_map_of_dom(dl, s.last().0);
        if map_of(dl).dom().contains(s.last().0) {
            let i = choose|i: int| 0 <= i < dl.len() && dl[i].0 == s.last().0;
            assert(s[i] == dl[i]);
            assert(s[s.len() - 1].0 == s.last().0);
        }
    }
}

pub proof fn lemma_map_of_value<K, V: View>(s: Seq<(K, V)>, i: int)
    requires
        keys_unique(s),
        0 <= i < s.len(),
    ensures
        map_of(s).dom().contains(s[i].0),
        map_of(s)[s[i].0] == s[i].1@,
    decreases s.len(),
{
    if i < s.len() - 1 {
        let dl = s.drop_last();
        assert(keys_unique(dl)) by {
            assert forall|a: int, b: int| 0 <= a < dl.len() && 0 <= b < dl.len() && a != b implies dl[a].0
                != dl[b].0 by {
                assert(dl[a] == s[a] && dl[b] == s[b]);
            }
        }
        lemma_map_of_value(dl, i);
        assert(dl[i] == s[i]);
        assert(s[s.len() - 1].0 != s[i].0);
    }
}

pub proof fn lemma_map_of_push<K, V: View>(s: Seq<(K, V)>, e: (K, V))
    requires
        keys_unique(s),
        !map_of(s).dom().contains(e.0),
    ensures
        map_of(s.push(e)) == map_of(s).insert(e.0, e.1@),
        keys_unique(s.push(e)),
{
    assert(s.push(e).drop_last() =~= s);
    lemma_map_of_dom(s, e.0);
    let t = s.push(e);
    assert forall|i: int, j: int| 0 <= i < t.len() && 0 <= j < t.len() && i != j implies t[i].0 != t[j].0 by {
        if i < s.len() && j < s.len() {
            assert(t[i] == s[i] && t[j] == s[j]);
        } else if i < s.len() {
            assert(t[i] == s[i]);
        } else if j < s.len() {
            assert(t[j] == s[j]);
        }
    }
}

pub proof fn lemma_map_of_remove<K, V: View>(s: Seq<(K, V)>, i: int)
    requires
        keys_unique(s),
        0 <= i < s.len(),
    ensures
        map_of(s.remove(i)) == map_of(s).remove(s[i].0),
        keys_unique(s.remove(i)),
    decreases s.len(),
{
    let k = s[i].0;
    let dl = s.drop_last();
    let r = s.remove(i);
    assert forall|a: int, b: int| 0 <= a < r.len() && 0 <= b < r.len() && a != b implies r[a].0 != r[b].0 by {
        let sa = if a < i { a } else { a + 1 };
        let sb = if b < i { b } else { b + 1 };
        assert(r[a] == s[sa] && r[b] == s[sb]);
    }
    assert(keys_unique(dl)) by {
        assert forall|a: int, b: int| 0 <= a < dl.len() && 0 <= b < dl.len() && a != b implies dl[a].0
            != dl[b].0 by {
            assert(dl[a] == s[a] && dl[b] == s[b]);
        }
    }
    if i == s.len() - 1 {
        assert(r =~= dl);
        lemma_map_of_dom(dl, k);
        if map_of(dl).dom().contains(k) {
            let j = choose|j: int| 0 <= j < dl.len() && dl[j].0 == k;
            assert(dl[j] == s[j]);
        }
        assert(map_of(s).remove(k) =~= map_of(dl));
    } else {
        lemma_map_of_remove(dl, i);
        assert(r.drop_last() =~= dl.remove(i));
        assert(r.last() == s.last());
        assert(s[s.len() - 1].0 != k);
        assert(map_of(r) =~= map_of(s).remove(k));
    }
}

/// A map kept as an association list in which no key occurs twice.
pub struct AssocMap<K, V> {
    entries: Vec<(K, V)>,
}

impl<K, V> AssocMap<K, V> {
    #[verifier::type_invariant]
    spec fn keys_are_unique(self) -> bool {
        keys_unique(self.entries@)
    }
}

impl<K, V: View> View for AssocMap<K, V> {
    type V = Map<K, V::V>;

    closed spec fn view(&self) -> Map<K, V::V> {
        map_of(self.entries@)
    }
}

impl<K: MapKey, V: View> AssocMap<K, V> {
    pub fn new() -> (r: Self)
        ensures
            r@ == Map::<K, V::V>::empty(),
    {
        AssocMap { entries: Vec::new() }
    }

    fn find(&self, k: &K) -> (r: Option<usize>)
        ensures
            match r {
                Some(i) => i < self.entries@.len() && self.entries@[i as int].0 == *k,
                None => forall|i: int| 0 <= i < self.entries@.len() ==> self.entries@[i].0 != *k,
            },
    {
        let mut i: usize = 0;
        while i < self.entries.len()
            invariant
                i <= self.entries@.len(),
                forall|j: int| 0 <= j < i ==> self.entries@[j].0 != *k,
            decreases self.entries@.len() - i,
        {
            if self.entries[i].0.same(k) {
                return Some(i);
            }
            i = i + 1;
        }
        None
    }

    pub fn len(&self) -> (r: usize)
        ensures
            r == self@.len(),
            self@.dom().finite(),
    {
        proof {
            use_type_invariant(self);
            lemma_map_of_len(self.entries@);
        }
        self.entries.len()
    }

    pub fn is_empty(&self) -> (r: bool)
        ensures
            r == (self@.len() == 0),
            self@.dom().finite(),
    {
        self.len() == 0
    }

    pub fn contains_key(&self, k: &K) -> (r: bool)
        ensures
            r == self@.dom().contains(*k),
    {
        proof {
            lemma_map_of_dom(self.entries@, *k);
        }
        self.find(k).is_some()
    }

    pub fn get(&self, k: &K) -> (r: Option<&V>)
        ensures
            match r {
                Some(v) => self@.dom().contains(*k) && v@ == self@[*k],
                None => !self@.dom().contains(*k),
            },
    {
        proof {
            use_type_invariant(self);
            lemma_map_of_dom(self.entries@, *k);
        }
        match self.find(k) {
            Some(i) => {
                proof {
                    lemma_map_of_value(self.entries@, i as int);
                }
                Some(&self.entries[i].1)
            },
            None => None,
        }
    }

    /// Removes the entry of `k`, if there is one, and hands its value back.
    pub fn remove(&mut self, k: &K) -> (r: Option<V>)
        ensures
            final(self)@ == old(self)@.remove(*k),
            match r {
                Some(v) => old(self)@.dom().contains(*k) && v@ == old(self)@[*k],
                None => !old(self)@.dom().contains(*k),
            },
    {
        proof {
            use_type_invariant(&*self);
            lemma_map_of_dom(self.entries@, *k);
        }
        match self.find(k) {
            Some(i) => {
                let mut entries = Vec::new();
                std::mem::swap(&mut entries, &mut self.entries);
                proof {
                    lemma_map_of_value(entries@, i as int);
                    lemma_map_of_remove(entries@, i as int);
                }
                let (_, v) = entries.remove(i);
                self.entries = entries;
                Some(v)
            },
            None => {
                assert(old(self)@.remove(*k) =~= old(self)@);
                None
            },
        }
    }

    /// Maps `k` to `v`, handing back the value it replaced.
    pub fn insert(&mut self, k: K, v: V) -> (r: Option<V>)
        ensures
            final(self)@ == old(self)@.insert(k, v@),
            match r {
                Some(o) => old(self)@.dom().contains(k) && o@ == old(self)@[k],
                None => !old(self)@.dom().contains(k),
            },
    {
        let r = self.remove(&k);
        proof {
            use_type_invariant(&*self);
        }
        let mut entries = Vec::new();
        std::mem::swap(&mut entries, &mut self.entries);
        proof {
            lemma_map_of_push(entries@, (k, v));
        }
        entries.push((k, v));
        self.entries = entries;
        assert(old(self)@.remove(k).insert(k, v@) =~= old(self)@.insert(k, v@));
        r
    }

    /// The keys of the map, each once.
    pub fn keys(&self) -> (r: Vec<K>)
        ensures
            r@.no_duplicates(),
            r@.len() == self@.len(),
            forall|k: K| r@.contains(k) <==> self@.dom().contains(k),
    {
        proof {
            use_type_invariant(self);
            lemma_map_of_len(self.entries@);
        }
        let mut r: Vec<K> = Vec::new();
        let mut i: usize = 0;
        while i < self.entries.len()
            invariant
                i <= self.entries@.len(),
                keys_unique(self.entries@),
                r@.len() == i,
                forall|j: int| 0 <= j < i ==> r@[j] == self.entries@[j].0,
            decreases self.entries@.len() - i,
        {
            r.push(self.entries[i].0);
            i = i + 1;
        }
        assert forall|k: K| r@.contains(k) <==> self@.dom().contains(k) by {
            lemma_map_of_dom(self.entries@, k);
            if r@.contains(k) {
                let j = choose|j: int| 0 <= j < r@.len() && r@[j] == k;
                assert(self.entries@[j].0 == k);
            }
            if self@.dom().contains(k) {
                let j = choose|j: int| 0 <= j < self.entries@.len() && self.entries@[j].0 == k;
                assert(r@[j] == k);
            }
        }
        r
    }
}


/// std's `Hash::hash` for `u64`, which feeds the number to the hasher. Claimed:
/// nothing; the call only needs to be known to Verus, so that objects can hash
/// by their ids.
pub assume_specification<H: core::hash::Hasher>[ <u64 as core::hash::Hash>::hash::<H> ](v: &u64, state: &mut H);

/// A set kept as a list in which nothing occurs twice.
pub struct KeySet<K> {
    map: AssocMap<K, ()>,
}

impl<K: MapKey> View for KeySet<K> {
    type V = Set<K>;

    closed spec fn view(&self) -> Set<K> {
        self.map@.dom()
    }
}

impl<K: MapKey> KeySet<K> {
    pub fn new() -> (r: Self)
        ensures
            r@ == Set::<K>::empty(),
    {
        let r = KeySet { map: AssocMap::new() };
        assert(r@ =~= Set::<K>::empty());
        r
    }

    /// The set of the elements of `v`.
    pub fn from_vec(v: Vec<K>) -> (r: Self)
        ensures
            r@ == v@.to_set(),
    {
        let mut r = KeySet::new();
        let mut i: usize = 0;
        while i < v.len()
            invariant
                i <= v@.len(),
                r@ == v@.take(i as int).to_set(),
            decreases v@.len() - i,
        {
            r.insert(v[i]);
            assert(v@.take(i + 1) =~= v@.take(i as int).push(v@[i as int]));
            proof {
                v@.take(i as int).lemma_push_to_set_commute(v@[i as int]);
            }
            i = i + 1;
        }
        assert(v@.take(v@.len() as int) =~= v@);
        r
    }

    pub fn len(&self) -> (r: usize)
        ensures
            r == self@.len(),
            self@.finite(),
    {
        self.map.len()
    }

    pub fn is_empty(&self) -> (r: bool)
        ensures
            r == (self@.len() == 0),
            self@.finite(),
    {
        self.map.is_empty()
    }

    pub fn contains(&self, k: &K) -> (r: bool)
        ensures
            r == self@.contains(*k),
    {
        self.map.contains_key(k)
    }

    /// Adds `k`; true when it was not there before.
    pub fn insert(&mut self, k: K) -> (r: bool)
        ensures
            final(self)@ == old(self)@.insert(k),
            r == !old(self)@.contains(k),
    {
        let had = self.map.insert(k, ());
        assert(final(self)@ =~= old(self)@.insert(k));
        had.is_none()
    }

    /// Removes `k`; true when it was there.
    pub fn remove(&mut self, k: &K) -> (r: bool)
        ensures
            final(self)@ == old(self)@.remove(*k),
            r == old(self)@.contains(*k),
    {
        let had = self.map.remove(k);
        assert(final(self)@ =~= old(self)@.remove(*k));
        had.is_some()
    }

    /// A set equal to this one.
    pub fn duplicate(&self) -> (r: Self)
        ensures
            r@ == self@,
    {
        let r = KeySet::from_vec(self.to_vec());
        assert(r@ =~= self@);
        r
    }

    /// The elements, each once.
    pub fn to_vec(&self) -> (r: Vec<K>)
        ensures
            r@.no_duplicates(),
            r@.len() == self@.len(),
            forall|k: K| r@.contains(k) <==> self@.contains(k),
    {
        self.map.keys()
    }
}

} // verus!
