use vstd::prelude::*;

use crate::collections::{AssocMap, KeySet, MapKey};

verus! {

/// The identity of a game object (a card, a token) shared by server and clients.
#[derive(Copy, Clone, Debug, PartialOrd, Ord, PartialEq, Eq, Structural, Hash)]
pub struct ObjectId(pub u64);

impl Default for ObjectId {
    fn default() -> (r: Self)
        ensures
            r == ObjectId(0),
    {
        ObjectId(0)
    }
}

impl View for ObjectId {
    type V = ObjectId;

    open spec fn view(&self) -> ObjectId {
        *self
    }
}

impl MapKey for ObjectId {
    fn same(&self, other: &Self) -> (r: bool) {
        *self == *other
    }
}

impl ObjectId {
    /// The id that follows this one.
    pub fn next(&self) -> (r: Self)
        requires
            self.0 < u64::MAX,
        ensures
            r.0 == self.0 + 1,
    {
        ObjectId(self.0 + 1)
    }
}

/// A game object: an id together with what the object is.
#[derive(Copy, Clone, Debug)]
pub struct Object<T> {
    pub id: ObjectId,
    pub inner: T,
}

impl<T> PartialEq for Object<T> {
    fn eq(&self, other: &Self) -> (r: bool) {
        self.id == other.id
    }
}

impl<T> vstd::std_specs::cmp::PartialEqSpecImpl for Object<T> {
    open spec fn obeys_eq_spec() -> bool {
        true
    }

    open spec fn eq_spec(&self, other: &Self) -> bool {
        self.id == other.id
    }
}

impl<T> Eq for Object<T> {

}

impl<T> PartialOrd for Object<T> {
    fn partial_cmp(&self, other: &Self) -> (r: Option<core::cmp::Ordering>) {
        if self.id.0 < other.id.0 {
            Some(core::cmp::Ordering::Less)
        } else if self.id.0 == other.id.0 {
            Some(core::cmp::Ordering::Equal)
        } else {
            Some(core::cmp::Ordering::Greater)
        }
    }
}

impl<T> vstd::std_specs::cmp::PartialOrdSpecImpl for Object<T> {
    open spec fn obeys_partial_cmp_spec() -> bool {
        true
    }

    open spec fn partial_cmp_spec(&self, other: &Self) -> Option<core::cmp::Ordering> {
        if self.id.0 < other.id.0 {
            Some(core::cmp::Ordering::Less)
        } else if self.id.0 == other.id.0 {
            Some(core::cmp::Ordering::Equal)
        } else {
            Some(core::cmp::Ordering::Greater)
        }
    }
}

impl<T> core::hash::Hash for Object<T> {
    fn hash<H: core::hash::Hasher>(&self, state: &mut H) {
        self.id.0.hash(state)
    }
}

impl<T> core::borrow::Borrow<ObjectId> for Object<T> {
    fn borrow(&self) -> &ObjectId {
        &self.id
    }
}

/// Any value can be made a game object by attaching an id to it.
pub trait WithObjectId: Sized {
    /// Attaches `id` to the value, making it a game object.
    fn with_id(self, id: ObjectId) -> (r: Object<Self>)
        ensures
            r == (Object { id, inner: self }),
    {
        Object { id, inner: self }
    }
}

impl<T> WithObjectId for T {

}

/// Hands out object ids: ids given back are reused first, else the next one
/// after the last id handed out.
#[derive(Clone, Debug, PartialEq)]
pub struct ObjectIdGenerator {
    pub last: Option<ObjectId>,
    pub free: Vec<ObjectId>,
}

impl Default for ObjectIdGenerator {
    fn default() -> (r: Self)
        ensures
            r.last.is_none(),
            r.free@.len() == 0,
    {
        ObjectIdGenerator { last: None, free: Vec::new() }
    }
}

/// The number of the last id handed out, zero when none was.
pub open spec fn last_number(g: ObjectIdGenerator) -> u64 {
    match g.last {
        Some(id) => id.0,
        None => 0,
    }
}

/// Whether `next_id` can hand out an id without running out of numbers.
pub open spec fn can_issue(g: ObjectIdGenerator) -> bool {
    g.free@.len() > 0 || last_number(g) < u64::MAX
}

/// The generator after it hands out a fresh id: one above the last.
pub open spec fn after_fresh(g: ObjectIdGenerator) -> ObjectIdGenerator {
    ObjectIdGenerator { last: Some(ObjectId((last_number(g) + 1) as u64)), free: g.free }
}

/// The generator after it hands out `n` fresh ids in a row.
pub open spec fn after_fresh_n(g: ObjectIdGenerator, n: nat) -> ObjectIdGenerator
    decreases n,
{
    if n == 0 {
        g
    } else {
        after_fresh(after_fresh_n(g, (n - 1) as nat))
    }
}

/// A generator that has no ids given back, asked for `n` ids in a row, hands
/// out the `n` numbers after the last one in increasing order, each once: the
/// `k`-th call finds the last number at `last_number(g) + k` and hands out
/// the one above it, and the list of ids given back stays empty.
pub proof fn law_fresh_ids_count_up(g: ObjectIdGenerator, n: nat)
    requires
        g.free@.len() == 0,
        last_number(g) + n <= u64::MAX,
    ensures
        forall|k: nat| k <= n ==> last_number(#[trigger] after_fresh_n(g, k)) == last_number(g) + k && after_fresh_n(
            g,
            k,
        ).free == g.free,
    decreases n,
{
    if n > 0 {
        law_fresh_ids_count_up(g, (n - 1) as nat);
        assert forall|k: nat| k <= n implies last_number(#[trigger] after_fresh_n(g, k)) == last_number(g) + k
            && after_fresh_n(g, k).free == g.free by {
            if k == n {
                assert(after_fresh_n(g, k) == after_fresh(after_fresh_n(g, (k - 1) as nat)));
            }
        }
    }
}

impl ObjectIdGenerator {
    /// Whether an id can still be handed out.
    pub fn has_id_left(&self) -> (r: bool)
        ensures
            r == can_issue(*self),
    {
        if self.free.len() > 0 {
            return true;
        }
        match self.last {
            Some(id) => id.0 < u64::MAX,
            None => true,
        }
    }

    pub fn next_id(&mut self) -> (r: ObjectId)
        requires
            can_issue(*old(self)),
        ensures
            old(self).free@.len() == 0 ==> {
                &&& r.0 == last_number(*old(self)) + 1
                &&& final(self).last == Some(r)
                &&& final(self).free@ == old(self).free@
                &&& *final(self) == after_fresh(*old(self))
            },
            old(self).free@.len() > 0 ==> {
                &&& r == old(self).free@.last()
                &&& final(self).free@ == old(self).free@.drop_last()
                &&& final(self).last == old(self).last
            },
    {
        if self.free.len() == 0 {
            let last = match self.last {
                Some(id) => id,
                None => ObjectId::default(),
            };
            let next = last.next();
            self.last = Some(next);
            next
        } else {
            self.free.pop().unwrap()
        }
    }

    /// Makes `t` a game object with a fresh id.
    pub fn spawn<T>(&mut self, t: T) -> (r: Object<T>)
        requires
            can_issue(*old(self)),
        ensures
            r.inner == t,
            old(self).free@.len() == 0 ==> {
                &&& r.id.0 == last_number(*old(self)) + 1
                &&& final(self).last == Some(r.id)
                &&& final(self).free@ == old(self).free@
                &&& *final(self) == after_fresh(*old(self))
            },
            old(self).free@.len() > 0 ==> {
                &&& r.id == old(self).free@.last()
                &&& final(self).free@ == old(self).free@.drop_last()
                &&& final(self).last == old(self).last
            },
    {
        let id = self.next_id();
        t.with_id(id)
    }
}

/// A set of game objects told apart by their ids.
pub struct ObjectSet<T> {
    map: AssocMap<ObjectId, T>,
}

impl<T: Copy + View> View for ObjectSet<T> {
    type V = Map<ObjectId, T::V>;

    closed spec fn view(&self) -> Map<ObjectId, T::V> {
        self.map@
    }
}

impl<T: Copy + View> ObjectSet<T> {
    pub fn new() -> (r: Self)
        ensures
            r@ == Map::<ObjectId, T::V>::empty(),
    {
        ObjectSet { map: AssocMap::new() }
    }

    pub fn len(&self) -> (r: usize)
        ensures
            r == self@.len(),
            self@.dom().finite(),
    {
        self.map.len()
    }

    pub fn is_empty(&self) -> (r: bool)
        ensures
            r == (self@.len() == 0),
            self@.dom().finite(),
    {
        self.map.is_empty()
    }

    pub fn contains(&self, id: &ObjectId) -> (r: bool)
        ensures
            r == self@.dom().contains(*id),
    {
        self.map.contains_key(id)
    }

    /// Adds `o` unless an object with its id is already there, which then stays.
    pub fn insert(&mut self, o: Object<T>) -> (r: bool)
        ensures
            r == !old(self)@.dom().contains(o.id),
            final(self)@ == if r { old(self)@.insert(o.id, o.inner@) } else { old(self)@ },
    {
        if self.map.contains_key(&o.id) {
            false
        } else {
            self.map.insert(o.id, o.inner);
            true
        }
    }

    /// Takes out the object with id `id`, if there is one.
    pub fn take(&mut self, id: &ObjectId) -> (r: Option<Object<T>>)
        ensures
            final(self)@ == old(self)@.remove(*id),
            match r {
                Some(o) => old(self)@.dom().contains(*id) && o.id == *id && o.inner@ == old(self)@[*id],
                None => !old(self)@.dom().contains(*id),
            },
    {
        match self.map.remove(id) {
            Some(t) => Some(Object { id: *id, inner: t }),
            None => None,
        }
    }

    /// Adds every object of `other` whose id is not here yet; objects already
    /// here stay as they are.
    pub fn extend_from(&mut self, other: &ObjectSet<T>)
        ensures
            final(self)@ == other@.union_prefer_right(old(self)@),
    {
        let objs = other.objects();
        let mut i: usize = 0;
        while i < objs.len()
            invariant
                i <= objs@.len(),
                objs@.len() == other@.len(),
                forall|a: int, b: int| 0 <= a < objs@.len() && 0 <= b < objs@.len() && a != b ==> objs@[a].id != objs@[b].id,
                forall|a: int| 0 <= a < objs@.len() ==> other@.dom().contains(#[trigger] objs@[a].id) && other@[objs@[a].id] == objs@[a].inner@,
                forall|id: ObjectId| other@.dom().contains(id) ==> exists|a: int| 0 <= a < objs@.len() && #[trigger] objs@[a].id == id,
                self@ == other@.restrict(Set::new(|id: ObjectId| exists|a: int| 0 <= a < i && objs@[a].id == id)).union_prefer_right(old(self)@),
            decreases objs@.len() - i,
        {
            let o = objs[i];
            let ghost done = Set::new(|id: ObjectId| exists|a: int| 0 <= a < i && objs@[a].id == id);
            let ghost done2 = Set::new(|id: ObjectId| exists|a: int| 0 <= a < i + 1 && objs@[a].id == id);
            assert(done2 =~= done.insert(o.id)) by {
                assert forall|id: ObjectId| done2.contains(id) implies done.insert(o.id).contains(id) by {
                    let a = choose|a: int| 0 <= a < i + 1 && objs@[a].id == id;
                    if a < i {
                        assert(done.contains(id));
                    }
                }
                assert forall|id: ObjectId| done.insert(o.id).contains(id) implies done2.contains(id) by {
                    if id == o.id {
                        assert(objs@[i as int].id == id);
                    } else {
                        let a = choose|a: int| 0 <= a < i && objs@[a].id == id;
                        assert(0 <= a < i + 1 && objs@[a].id == id);
                    }
                }
            }
            assert(!done.contains(o.id));
            self.insert(o);
            assert(self@ =~= other@.restrict(done2).union_prefer_right(old(self)@));
            i = i + 1;
        }
        let ghost all = Set::new(|id: ObjectId| exists|a: int| 0 <= a < objs@.len() && objs@[a].id == id);
        assert(other@.restrict(all) =~= other@);
    }

    /// Takes out the objects whose ids are in `ids`.
    pub fn take_ids(&mut self, ids: &KeySet<ObjectId>) -> (r: ObjectSet<T>)
        ensures
            final(self)@ == old(self)@.remove_keys(ids@),
            r@ == old(self)@.restrict(ids@),
    {
        let v = ids.to_vec();
        let mut r = ObjectSet::new();
        let mut i: usize = 0;
        while i < v.len()
            invariant
                i <= v@.len(),
                v@.no_duplicates(),
                forall|k: ObjectId| v@.contains(k) <==> ids@.contains(k),
                self@ == old(self)@.remove_keys(v@.take(i as int).to_set()),
                r@ == old(self)@.restrict(v@.take(i as int).to_set()),
            decreases v@.len() - i,
        {
            let id = v[i];
            proof {
                v@.take(i as int).lemma_push_to_set_commute(id);
                assert(v@.take(i + 1) =~= v@.take(i as int).push(id));
                assert(!v@.take(i as int).contains(id)) by {
                    if v@.take(i as int).contains(id) {
                        let j = choose|j: int| 0 <= j < i && v@.take(i as int)[j] == id;
                        assert(v@[j] == v@[i as int]);
                    }
                }
            }
            let taken = self.take(&id);
            if let Some(o) = taken {
                r.insert(o);
            }
            assert(self@ =~= old(self)@.remove_keys(v@.take(i + 1).to_set()));
            assert(r@ =~= old(self)@.restrict(v@.take(i + 1).to_set()));
            i = i + 1;
        }
        assert(v@.take(v@.len() as int) =~= v@);
        assert(v@.to_set() =~= ids@);
        r
    }

    /// The objects, each once.
    pub fn objects(&self) -> (r: Vec<Object<T>>)
        ensures
            r@.len() == self@.len(),
            forall|i: int, j: int| 0 <= i < r@.len() && 0 <= j < r@.len() && i != j ==> r@[i].id != r@[j].id,
            forall|i: int| 0 <= i < r@.len() ==> self@.dom().contains(#[trigger] r@[i].id) && self@[r@[i].id] == r@[i].inner@,
            forall|id: ObjectId| self@.dom().contains(id) ==> exists|i: int| 0 <= i < r@.len() && #[trigger] r@[i].id == id,
    {
        let keys = self.map.keys();
        let mut r: Vec<Object<T>> = Vec::new();
        let mut i: usize = 0;
        while i < keys.len()
            invariant
                i <= keys@.len(),
                keys@.no_duplicates(),
                keys@.len() == self@.len(),
                forall|k: ObjectId| keys@.contains(k) <==> self@.dom().contains(k),
                r@.len() == i,
                forall|j: int| 0 <= j < i ==> (#[trigger] r@[j]).id == keys@[j] && self@[keys@[j]] == r@[j].inner@,
            decreases keys@.len() - i,
        {
            let k = keys[i];
            assert(keys@.contains(k));
            let t = *self.map.get(&k).unwrap();
            assert(self@.dom().contains(k));
            r.push(Object { id: k, inner: t });
            i = i + 1;
        }
        assert forall|a: int| 0 <= a < r@.len() implies self@.dom().contains(#[trigger] r@[a].id) by {
            assert(keys@.contains(keys@[a]));
        }
        assert forall|id: ObjectId| self@.dom().contains(id) implies exists|a: int| 0 <= a < r@.len() && #[trigger] r@[a].id == id by {
            assert(keys@.contains(id));
            let a = choose|a: int| 0 <= a < keys@.len() && keys@[a] == id;
            assert(r@[a].id == id);
        }
        r
    }
}

} // verus!
