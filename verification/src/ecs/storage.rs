use std::collections::HashMap;
use vstd::prelude::*;
use crate::ecs::assoc::{
    assoc_map, lemma_assoc_push, lemma_assoc_swap_remove, lemma_assoc_update,
    lemma_index_of_unique, swap_removed,
};
use crate::ecs::entity::Entity;
use crate::ecs::query::QueryIter;

verus! {

broadcast use vstd::std_specs::hash::group_hash_axioms;

/// Whether `entries` lists the pairs of `m`: each entity of `m` once, with its
/// value, and nothing else. The order is left open.
pub open spec fn is_listing<C>(entries: Seq<(Entity, C)>, m: Map<Entity, C>) -> bool {
    &&& forall|i: int, j: int|
        0 <= i < entries.len() && 0 <= j < entries.len() && i != j ==> entries[i].0 != entries[j].0
    &&& forall|i: int|
        0 <= i < entries.len() ==> m.dom().contains((#[trigger] entries[i]).0) && m[entries[i].0]
            == entries[i].1
    &&& forall|e: Entity|
        m.dom().contains(e) ==> exists|i: int|
            0 <= i < entries.len() && (#[trigger] entries[i]).0 == e
}

/// The components of one type: at most one value for each entity.
///
/// The keys and the values lie in two dense arrays of equal length; a removal
/// moves the last pair into the hole, so the order of the pairs is not stable.
/// A hash map from identifier to position finds an entity's pair in one step.
pub struct Storage<C> {
    keys: Vec<Entity>,
    values: Vec<C>,
    index: HashMap<u32, usize>,
}

impl<C> Storage<C> {
    /// The entities that carry a component, in storage order.
    pub closed spec fn keys(&self) -> Seq<Entity> {
        self.keys@
    }

    /// The components, in storage order: `values()[i]` belongs to `keys()[i]`.
    pub closed spec fn values(&self) -> Seq<C> {
        self.values@
    }

    /// The position index holds exactly the positions of the keys.
    pub closed spec fn indexed(&self) -> bool {
        &&& forall|i: int|
            0 <= i < self.keys@.len() ==> self.index@.contains_key((#[trigger] self.keys@[i]).0)
                && self.index@[self.keys@[i].0] == i
        &&& forall|id: u32| #[trigger]
            self.index@.contains_key(id) ==> self.index@[id] < self.keys@.len()
                && self.keys@[self.index@[id] as int] == Entity(id)
    }

    /// Each entity occurs at most once, each has its value, and the position
    /// index agrees with the dense arrays.
    pub open spec fn wf(&self) -> bool {
        &&& self.keys().len() == self.values().len()
        &&& self.keys().no_duplicates()
        &&& self.indexed()
    }

    /// The stored pairs, in storage order.
    pub open spec fn entries(&self) -> Seq<(Entity, C)> {
        Seq::new(self.keys().len(), |i: int| (self.keys()[i], self.values()[i]))
    }

    /// The storage as a map from entity to component.
    pub open spec fn view(&self) -> Map<Entity, C> {
        assoc_map(self.keys(), self.values())
    }

    /// The storage holds finitely many entities: as many as it has keys.
    pub proof fn lemma_finite(&self)
        requires
            self.wf(),
        ensures
            self@.dom().finite(),
            self@.dom().len() == self.keys().len(),
    {
        assert(self@.dom() =~= self.keys().to_set());
        vstd::seq_lib::seq_to_set_is_finite(self.keys());
        self.keys().unique_seq_to_set();
    }

    /// The stored pairs list the storage's map.
    pub proof fn lemma_entries_listing(&self)
        requires
            self.wf(),
        ensures
            is_listing(self.entries(), self@),
    {
        let entries = self.entries();
        let keys = self.keys();
        assert forall|i: int| 0 <= i < entries.len() implies self@.dom().contains(
            (#[trigger] entries[i]).0,
        ) && self@[entries[i].0] == entries[i].1 by {
            lemma_index_of_unique(keys, i);
        }
        assert forall|e: Entity| self@.dom().contains(e) implies exists|i: int|
            0 <= i < entries.len() && (#[trigger] entries[i]).0 == e by {
            let i = keys.index_of(e);
            assert(0 <= i < keys.len() && keys[i] == e);
            assert(entries[i].0 == e);
        }
    }

    /// An empty storage.
    pub fn new() -> (s: Self)
        ensures
            s.wf(),
            s.keys() == Seq::<Entity>::empty(),
            s.values() == Seq::<C>::empty(),
            s@ == Map::<Entity, C>::empty(),
    {
        let s = Storage { keys: Vec::new(), values: Vec::new(), index: HashMap::new() };
        assert(s@ =~= Map::<Entity, C>::empty());
        s
    }

    /// The number of stored components.
    pub fn len(&self) -> (n: usize)
        requires
            self.wf(),
        ensures
            n == self.keys().len(),
    {
        self.keys.len()
    }

    /// The position of `entity` in the dense arrays, if it has a component.
    pub fn position(&self, entity: Entity) -> (pos: Option<usize>)
        requires
            self.wf(),
        ensures
            match pos {
                Some(i) => i < self.keys().len() && self.keys()[i as int] == entity
                    && self.keys().index_of(entity) == i,
                None => !self.keys().contains(entity),
            },
    {
        match self.index.get(&entity.0) {
            Some(i) => {
                proof {
                    lemma_index_of_unique(self.keys@, *i as int);
                }
                Some(*i)
            },
            None => {
                proof {
                    if self.keys@.contains(entity) {
                        let i = self.keys@.index_of(entity);
                        assert(0 <= i < self.keys@.len() && self.keys@[i] == entity);
                        assert(self.index@.contains_key(self.keys@[i].0));
                    }
                }
                None
            },
        }
    }

    /// Inserts the component of `entity`, or overwrites the one it has.
    pub fn insert(&mut self, entity: Entity, component: C)
        requires
            old(self).wf(),
        ensures
            final(self).wf(),
            final(self)@ == old(self)@.insert(entity, component),
            old(self).keys().contains(entity) ==> final(self).keys() == old(self).keys()
                && final(self).values() == old(self).values().update(
                old(self).keys().index_of(entity),
                component,
            ),
            !old(self).keys().contains(entity) ==> final(self).keys() == old(self).keys().push(
                entity,
            ) && final(self).values() == old(self).values().push(component),
    {
        match self.position(entity) {
            Some(i) => {
                proof {
                    lemma_assoc_update(self.keys@, self.values@, i as int, component);
                }
                self.values[i] = component;
            },
            None => {
                proof {
                    lemma_assoc_push(self.keys@, self.values@, entity, component);
                }
                let end = self.keys.len();
                self.keys.push(entity);
                self.values.push(component);
                self.index.insert(entity.0, end);
                proof {
                    assert forall|i: int|
                        0 <= i < self.keys@.len() implies self.index@.contains_key(
                        (#[trigger] self.keys@[i]).0,
                    ) && self.index@[self.keys@[i].0] == i by {
                        if i < end {
                            assert(old(self).keys@[i] == self.keys@[i]);
                            assert(old(self).keys@.contains(old(self).keys@[i]));
                        }
                    }
                    assert forall|id: u32| #[trigger]
                        self.index@.contains_key(id) implies self.index@[id]
                        < self.keys@.len() && self.keys@[self.index@[id] as int] == Entity(id) by {
                        if id != entity.0 {
                            assert(old(self).index@.contains_key(id));
                        }
                    }
                }
            },
        }
    }

    /// The component of `entity`, if it has one.
    pub fn get(&self, entity: Entity) -> (c: Option<&C>)
        requires
            self.wf(),
        ensures
            match c {
                Some(c) => self@.dom().contains(entity) && *c == self@[entity],
                None => !self@.dom().contains(entity),
            },
    {
        match self.position(entity) {
            Some(i) => Some(&self.values[i]),
            None => None,
        }
    }

    /// The component at a position of the dense arrays.
    pub fn value_at(&self, i: usize) -> (c: &C)
        requires
            self.wf(),
            i < self.keys().len(),
        ensures
            *c == self.values()[i as int],
            *c == self@[self.keys()[i as int]],
    {
        proof {
            lemma_index_of_unique(self.keys@, i as int);
        }
        &self.values[i]
    }

    /// The entity at a position of the dense arrays.
    pub fn key_at(&self, i: usize) -> (e: Entity)
        requires
            self.wf(),
            i < self.keys().len(),
        ensures
            e == self.keys()[i as int],
            self@.dom().contains(e),
    {
        proof {
            lemma_index_of_unique(self.keys@, i as int);
        }
        self.keys[i]
    }

    /// A mutable borrow of the component at a position; what the caller
    /// writes through it becomes the component of that position's entity.
    pub fn value_at_mut(&mut self, i: usize) -> (c: &mut C)
        requires
            old(self).wf(),
            i < old(self).keys().len(),
        ensures
            *c == old(self).values()[i as int],
            old(self)@.dom().contains(old(self).keys()[i as int]),
            *c == old(self)@[old(self).keys()[i as int]],
            final(self).wf(),
            final(self).keys() == old(self).keys(),
            final(self).values() == old(self).values().update(i as int, *final(c)),
            final(self).entries() == old(self).entries().update(
                i as int,
                (old(self).keys()[i as int], *final(c)),
            ),
            final(self)@ == old(self)@.insert(old(self).keys()[i as int], *final(c)),
    {
        proof {
            let keys = self.keys@;
            let values = self.values@;
            lemma_index_of_unique(keys, i as int);
            assert forall|v: C|
                Seq::new(keys.len(), |k: int| (keys[k], (#[trigger] values.update(i as int, v))[k]))
                    == Seq::new(keys.len(), |k: int| (keys[k], values[k])).update(
                    i as int,
                    (keys[i as int], v),
                ) by {
                assert(Seq::new(keys.len(), |k: int| (keys[k], values.update(i as int, v)[k]))
                    =~= Seq::new(keys.len(), |k: int| (keys[k], values[k])).update(
                    i as int,
                    (keys[i as int], v),
                ));
            }
            assert forall|v: C|
                assoc_map(keys, #[trigger] values.update(i as int, v)) == assoc_map(
                    keys,
                    values,
                ).insert(keys[i as int], v) by {
                lemma_assoc_update(keys, values, i as int, v);
            }
        }
        &mut self.values[i]
    }

    /// A mutable borrow of the component of `entity`, if it has one; what
    /// the caller writes through it becomes that component.
    pub fn get_mut(&mut self, entity: Entity) -> (c: Option<&mut C>)
        requires
            old(self).wf(),
        ensures
            final(self).wf(),
            match c {
                Some(c) => old(self)@.dom().contains(entity) && *c == old(self)@[entity]
                    && final(self).keys() == old(self).keys() && final(self)@ == old(
                    self,
                )@.insert(entity, *final(c)),
                None => !old(self)@.dom().contains(entity) && *final(self) == *old(self),
            },
    {
        match self.position(entity) {
            Some(i) => Some(self.value_at_mut(i)),
            None => None,
        }
    }

    /// A cursor over the stored pairs, in storage order.
    pub fn iter(&self) -> (it: QueryIter<'_, C>)
        requires
            self.wf(),
        ensures
            it.wf(),
            it@ == self.entries(),
    {
        QueryIter::new(Some(self))
    }

    /// Whether `entity` has a component here.
    pub fn has(&self, entity: Entity) -> (b: bool)
        requires
            self.wf(),
        ensures
            b == self@.dom().contains(entity),
    {
        self.position(entity).is_some()
    }

    /// Removes the component of `entity`; nothing changes if it has none.
    pub fn remove(&mut self, entity: Entity)
        requires
            old(self).wf(),
        ensures
            final(self).wf(),
            final(self)@ == old(self)@.remove(entity),
            !old(self).keys().contains(entity) ==> final(self).keys() == old(self).keys()
                && final(self).values() == old(self).values(),
            old(self).keys().contains(entity) ==> final(self).keys() == swap_removed(
                old(self).keys(),
                old(self).keys().index_of(entity),
            ) && final(self).values() == swap_removed(
                old(self).values(),
                old(self).keys().index_of(entity),
            ),
    {
        match self.position(entity) {
            Some(i) => {
                proof {
                    lemma_assoc_swap_remove(self.keys@, self.values@, i as int);
                }
                let last = self.keys.len() - 1;
                let moved = self.keys[last];
                self.keys.swap_remove(i);
                self.values.swap_remove(i);
                self.index.remove(&entity.0);
                if i != last {
                    self.index.insert(moved.0, i);
                }
                proof {
                    let before = old(self).keys@;
                    assert(before[i as int] == entity);
                    assert(before[last as int] == moved);
                    assert forall|k: int|
                        0 <= k < self.keys@.len() implies self.index@.contains_key(
                        (#[trigger] self.keys@[k]).0,
                    ) && self.index@[self.keys@[k].0] == k by {
                        if k == i {
                            assert(self.keys@[k] == moved);
                        } else {
                            assert(self.keys@[k] == before[k]);
                            assert(before[k] != entity);
                            assert(before[k] != moved);
                            assert(old(self).index@.contains_key(before[k].0));
                        }
                    }
                    assert forall|id: u32| #[trigger]
                        self.index@.contains_key(id) implies self.index@[id]
                        < self.keys@.len() && self.keys@[self.index@[id] as int] == Entity(id) by {
                        if i != last && id == moved.0 {
                        } else {
                            assert(id != entity.0);
                            assert(old(self).index@.contains_key(id));
                            let k = old(self).index@[id] as int;
                            assert(before[k] == Entity(id));
                            assert(k != i);
                            if k == last {
                                assert(Entity(id) == moved);
                            }
                        }
                    }
                }
            },
            None => {
                assert(self@.remove(entity) =~= self@);
            },
        }
    }
}

} // verus!
