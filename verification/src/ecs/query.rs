use vstd::prelude::*;
use crate::ecs::entity::{ComponentType, Entity};
use crate::ecs::storage::Storage;
use crate::ecs::world::World;

verus! {

/// A cursor over the components of one type: hands out each pair of entity
/// and component once.
pub struct QueryIter<'a, C> {
    storage: Option<&'a Storage<C>>,
    pos: usize,
}

impl<'a, C> QueryIter<'a, C> {
    /// The pairs that are still to come, in the order in which they come.
    pub closed spec fn view(&self) -> Seq<(Entity, C)> {
        match self.storage {
            Some(storage) => storage.entries().skip(self.pos as int),
            None => Seq::empty(),
        }
    }

    pub closed spec fn wf(&self) -> bool {
        match self.storage {
            Some(storage) => storage.wf() && self.pos <= storage.keys().len(),
            None => true,
        }
    }

    /// A cursor at the start of `storage`; one over nothing if there is none.
    pub fn new(storage: Option<&'a Storage<C>>) -> (it: Self)
        requires
            storage matches Some(s) ==> s.wf(),
        ensures
            it.wf(),
            it@ == match storage {
                Some(s) => s.entries(),
                None => Seq::empty(),
            },
    {
        let it = QueryIter { storage, pos: 0 };
        proof {
            if let Some(s) = storage {
                assert(s.entries().skip(0) =~= s.entries());
            }
        }
        it
    }

    /// The number of pairs that are still to come.
    pub fn remaining(&self) -> (n: usize)
        requires
            self.wf(),
        ensures
            n == self@.len(),
    {
        match self.storage {
            Some(storage) => storage.len() - self.pos,
            None => 0,
        }
    }

    /// The next pair, or `None` when all were handed out.
    pub fn next(&mut self) -> (item: Option<(Entity, &'a C)>)
        requires
            old(self).wf(),
        ensures
            final(self).wf(),
            match item {
                Some((entity, component)) => old(self)@.len() > 0 && old(self)@.first() == (
                    entity,
                    *component,
                ) && final(self)@ == old(self)@.drop_first(),
                None => old(self)@.len() == 0 && final(self)@ == old(self)@,
            },
    {
        match self.storage {
            Some(storage) => {
                if self.pos < storage.len() {
                    let entity = storage.key_at(self.pos);
                    let component = storage.value_at(self.pos);
                    proof {
                        assert(storage.entries().skip(self.pos as int).drop_first()
                            =~= storage.entries().skip(self.pos as int + 1));
                    }
                    self.pos = self.pos + 1;
                    Some((entity, component))
                } else {
                    None
                }
            },
            None => None,
        }
    }
}

/// A cursor over the components of one type that hands each component out
/// for writing. It holds a position only: each step borrows the world anew.
pub struct QueryIterMut {
    kind: ComponentType,
    pos: usize,
}

impl QueryIterMut {
    /// The component type that the cursor walks.
    pub closed spec fn kind(&self) -> ComponentType {
        self.kind
    }

    /// The number of pairs that were handed out.
    pub closed spec fn position(&self) -> nat {
        self.pos as nat
    }

    /// A cursor at the start of the components of type `kind`.
    pub fn new(kind: ComponentType) -> (it: Self)
        ensures
            it.kind() == kind,
            it.position() == 0,
    {
        QueryIterMut { kind, pos: 0 }
    }

    /// The next pair of `world`, or `None` when all were handed out. What the
    /// caller writes through the borrow becomes the component of that entity;
    /// the order of the pairs stays as it is.
    pub fn next<'w, C>(&mut self, world: &'w mut World<C>) -> (item: Option<(Entity, &'w mut C)>)
        requires
            old(world).wf(),
        ensures
            final(world).wf(),
            final(self).kind() == old(self).kind(),
            match item {
                Some((entity, component)) => {
                    &&& old(self).position() < old(world).query_entries(old(self).kind()).len()
                    &&& old(world).query_entries(old(self).kind())[old(self).position() as int] == (
                        entity,
                        *component,
                    )
                    &&& final(self).position() == old(self).position() + 1
                    &&& final(world)@ == old(world)@.add(
                        old(self).kind(),
                        entity,
                        *final(component),
                    )
                    &&& final(world).query_entries(old(self).kind()) == old(world).query_entries(
                        old(self).kind(),
                    ).update(old(self).position() as int, (entity, *final(component)))
                },
                None => {
                    &&& old(self).position() >= old(world).query_entries(old(self).kind()).len()
                    &&& final(self).position() == old(self).position()
                    &&& *final(world) == *old(world)
                },
            },
    {
        let pos = self.pos;
        let item = world.entry_at_mut(self.kind, pos);
        if item.is_some() {
            self.pos = pos + 1;
        }
        item
    }
}

} // verus!
