use std::collections::HashMap;
use vstd::prelude::*;
use crate::ecs::assoc::{
    assoc_map, lemma_assoc_push, lemma_assoc_swap_remove, lemma_assoc_update,
    lemma_index_of_unique, swap_removed,
};
use crate::ecs::entity::{ComponentType, Entity};
use crate::ecs::query::{QueryIter, QueryIterMut};
use crate::ecs::storage::{is_listing, Storage};

verus! {

broadcast use vstd::std_specs::hash::group_hash_axioms;

/// The mathematical state of a world.
pub struct WorldState<C> {
    /// The next identifier that was never handed out.
    pub next_id: nat,
    /// The live entities.
    pub live: Seq<Entity>,
    /// The despawned entities whose identifiers wait to be handed out again;
    /// the last one is handed out first.
    pub free: Seq<Entity>,
    /// For each component type that was ever used, the components of that
    /// type by entity.
    pub components: Map<ComponentType, Map<Entity, C>>,
}

impl<C> WorldState<C> {
    /// The state of a world in which nothing has happened yet.
    pub open spec fn empty() -> Self {
        WorldState { next_id: 0, live: Seq::empty(), free: Seq::empty(), components: Map::empty() }
    }

    /// No identifier is live twice, none waits twice, none is both live and
    /// waiting, and all of them lie below the next fresh identifier.
    pub open spec fn wf(self) -> bool {
        &&& self.next_id <= u32::MAX
        &&& self.live.no_duplicates()
        &&& self.free.no_duplicates()
        &&& forall|e: Entity| !(#[trigger] self.live.contains(e) && self.free.contains(e))
        &&& forall|e: Entity| #[trigger] self.live.contains(e) ==> e.0 < self.next_id
        &&& forall|e: Entity| #[trigger] self.free.contains(e) ==> e.0 < self.next_id
    }

    /// Whether `entity` is among the live entities.
    pub open spec fn is_alive(self, entity: Entity) -> bool {
        self.live.contains(entity)
    }

    /// Whether a storage for `kind` exists.
    pub open spec fn has_storage(self, kind: ComponentType) -> bool {
        self.components.dom().contains(kind)
    }

    /// The components of type `kind` by entity; empty while the type is unused.
    pub open spec fn storage(self, kind: ComponentType) -> Map<Entity, C> {
        if self.has_storage(kind) {
            self.components[kind]
        } else {
            Map::empty()
        }
    }

    /// Whether `entity` has a component of type `kind`.
    pub open spec fn has(self, kind: ComponentType, entity: Entity) -> bool {
        self.storage(kind).dom().contains(entity)
    }

    /// The component of type `kind` of `entity`, if it has one.
    pub open spec fn component(self, kind: ComponentType, entity: Entity) -> Option<C> {
        if self.has(kind, entity) {
            Some(self.storage(kind)[entity])
        } else {
            None
        }
    }

    /// Whether an identifier is left to hand out.
    pub open spec fn can_spawn(self) -> bool {
        self.free.len() > 0 || self.next_id < u32::MAX
    }

    /// The entity that the next spawn returns: the one despawned last among
    /// those that wait, else the next fresh identifier.
    pub open spec fn next_entity(self) -> Entity {
        if self.free.len() > 0 {
            self.free.last()
        } else {
            Entity(self.next_id as u32)
        }
    }

    /// The state after a spawn: the next entity is live, and its identifier
    /// neither waits nor is fresh any more.
    pub open spec fn spawn(self) -> Self {
        if self.free.len() > 0 {
            WorldState {
                live: self.live.push(self.free.last()),
                free: self.free.drop_last(),
                ..self
            }
        } else {
            WorldState {
                live: self.live.push(Entity(self.next_id as u32)),
                next_id: self.next_id + 1,
                ..self
            }
        }
    }

    /// Every storage without the entry of `entity`.
    pub open spec fn purged(self, entity: Entity) -> Map<ComponentType, Map<Entity, C>> {
        Map::new(
            |kind: ComponentType| self.components.dom().contains(kind),
            |kind: ComponentType| self.components[kind].remove(entity),
        )
    }

    /// The state after a despawn. A live entity leaves the live entities, the
    /// last of which takes its place; its identifier waits to be recycled; and
    /// its entry leaves every storage. For any other entity nothing changes.
    pub open spec fn despawn(self, entity: Entity) -> Self {
        if self.is_alive(entity) {
            WorldState {
                live: swap_removed(self.live, self.live.index_of(entity)),
                free: self.free.push(entity),
                components: self.purged(entity),
                ..self
            }
        } else {
            self
        }
    }

    /// The state after `entity` was given `component` of type `kind`: the
    /// storage of `kind` exists and maps `entity` to `component`.
    pub open spec fn add(self, kind: ComponentType, entity: Entity, component: C) -> Self {
        WorldState {
            components: self.components.insert(kind, self.storage(kind).insert(entity, component)),
            ..self
        }
    }

    /// The state after the component of type `kind` was taken from `entity`;
    /// no storage is made for a type that has none.
    pub open spec fn remove(self, kind: ComponentType, entity: Entity) -> Self {
        if self.has_storage(kind) {
            WorldState {
                components: self.components.insert(kind, self.components[kind].remove(entity)),
                ..self
            }
        } else {
            self
        }
    }
}

/// A spawn keeps the state well-formed, and the entity it returns was not
/// alive before.
pub proof fn lemma_spawn_wf<C>(s: WorldState<C>)
    requires
        s.wf(),
        s.can_spawn(),
    ensures
        s.spawn().wf(),
        !s.is_alive(s.next_entity()),
        s.spawn().is_alive(s.next_entity()),
        s.spawn().live == s.live.push(s.next_entity()),
{
    let e = s.next_entity();
    let t = s.spawn();
    if s.free.len() > 0 {
        assert(s.free.contains(e)) by {
            assert(s.free[s.free.len() - 1] == e);
        }
    } else {
        if s.live.contains(e) {
            assert(e.0 < s.next_id);
        }
    }
    assert(!s.live.contains(e));
    assert(t.live[s.live.len() as int] == e);
    assert(t.live.no_duplicates()) by {
        assert forall|i: int, j: int| 0 <= i < t.live.len() && 0 <= j < t.live.len() && i != j
            implies t.live[i] != t.live[j] by {
            if i < s.live.len() && j < s.live.len() {
            } else if i < s.live.len() {
                assert(s.live.contains(s.live[i]));
            } else if j < s.live.len() {
                assert(s.live.contains(s.live[j]));
            }
        }
    }
    assert forall|x: Entity| t.live.contains(x) implies (s.live.contains(x) || x == e) by {
        let i = choose|i: int| 0 <= i < t.live.len() && t.live[i] == x;
        if i < s.live.len() {
            assert(s.live[i] == x);
        }
    }
    assert forall|x: Entity| t.free.contains(x) implies (s.free.contains(x) && x != e) by {
        let i = choose|i: int| 0 <= i < t.free.len() && t.free[i] == x;
        assert(s.free[i] == x);
        assert(s.free[s.free.len() - 1] == e);
    }
    assert(t.free.no_duplicates());
    assert forall|x: Entity| !(#[trigger] t.live.contains(x) && t.free.contains(x)) by {
        if t.live.contains(x) && t.free.contains(x) {
            assert(s.free.contains(x) && x != e);
            assert(s.live.contains(x));
        }
    }
    assert forall|x: Entity| #[trigger] t.live.contains(x) implies x.0 < t.next_id by {
        if x != e {
            assert(s.live.contains(x));
        }
    }
    assert forall|x: Entity| #[trigger] t.free.contains(x) implies x.0 < t.next_id by {
        assert(s.free.contains(x));
    }
}

/// A despawn keeps the state well-formed; of a live entity it leaves the
/// other live entities alive and that one dead.
pub proof fn lemma_despawn_wf<C>(s: WorldState<C>, entity: Entity)
    requires
        s.wf(),
    ensures
        s.despawn(entity).wf(),
        !s.despawn(entity).is_alive(entity),
        forall|x: Entity| x != entity ==> (s.despawn(entity).is_alive(x) <==> s.is_alive(x)),
        s.is_alive(entity) ==> s.despawn(entity).free.last() == entity,
{
    let t = s.despawn(entity);
    if s.is_alive(entity) {
        let i = s.live.index_of(entity);
        assert(0 <= i < s.live.len() && s.live[i] == entity);
        lemma_assoc_swap_remove::<Entity, int>(s.live, Seq::new(s.live.len(), |k: int| k), i);
        assert(!s.free.contains(entity));
        lemma_assoc_push::<Entity, int>(s.free, Seq::new(s.free.len(), |k: int| k), entity, 0);
        assert forall|x: Entity| t.free.contains(x) implies (s.free.contains(x) || x == entity) by {
            let j = choose|j: int| 0 <= j < t.free.len() && t.free[j] == x;
            if j < s.free.len() {
                assert(s.free[j] == x);
            }
        }
        assert forall|x: Entity| !(#[trigger] t.live.contains(x) && t.free.contains(x)) by {
            if t.live.contains(x) && t.free.contains(x) {
                assert(s.live.contains(x) && x != entity);
                assert(s.free.contains(x));
            }
        }
        assert forall|x: Entity| #[trigger] t.free.contains(x) implies x.0 < t.next_id by {
            if x == entity {
                assert(s.live.contains(x));
            } else {
                assert(s.free.contains(x));
            }
        }
        assert forall|x: Entity| #[trigger] t.live.contains(x) implies x.0 < t.next_id by {
            assert(s.live.contains(x));
        }
    }
}

/// The maps that a sequence of storages stands for, position by position.
pub open spec fn storage_maps<C>(storages: Seq<Storage<C>>) -> Seq<Map<Entity, C>> {
    storages.map_values(|s: Storage<C>| s@)
}

/// The entity-component world: the live entities, the identifiers that wait
/// to be recycled, and one storage for each component type that was ever used.
pub struct World<C> {
    next_entity_id: u32,
    entities: Vec<Entity>,
    dead_entities: Vec<Entity>,
    kinds: Vec<ComponentType>,
    storages: Vec<Storage<C>>,
    slots: HashMap<u32, usize>,
}

impl<C> World<C> {
    /// The mathematical state that this world stands for.
    pub closed spec fn view(&self) -> WorldState<C> {
        WorldState {
            next_id: self.next_entity_id as nat,
            live: self.entities@,
            free: self.dead_entities@,
            components: assoc_map(self.kinds@, storage_maps(self.storages@)),
        }
    }

    /// The representation invariant: the state is well-formed, each component
    /// type has exactly one storage, each storage is well-formed, and the
    /// registry finds each type's storage.
    pub closed spec fn wf(&self) -> bool {
        &&& self@.wf()
        &&& self.kinds@.len() == self.storages@.len()
        &&& self.kinds@.no_duplicates()
        &&& forall|i: int| 0 <= i < self.storages@.len() ==> (#[trigger] self.storages@[i]).wf()
        &&& forall|i: int|
            0 <= i < self.kinds@.len() ==> self.slots@.contains_key((#[trigger] self.kinds@[i]).0)
                && self.slots@[self.kinds@[i].0] == i
        &&& forall|id: u32| #[trigger]
            self.slots@.contains_key(id) ==> self.slots@[id] < self.kinds@.len()
                && self.kinds@[self.slots@[id] as int] == ComponentType(id)
    }

    /// A well-formed world stands for a well-formed state.
    pub proof fn lemma_wf_state(&self)
        requires
            self.wf(),
        ensures
            self@.wf(),
    {
    }

    /// A world without entities and without storages.
    pub fn new() -> (world: Self)
        ensures
            world.wf(),
            world@ == WorldState::<C>::empty(),
    {
        let world = World {
            next_entity_id: 0,
            entities: Vec::new(),
            dead_entities: Vec::new(),
            kinds: Vec::new(),
            storages: Vec::new(),
            slots: HashMap::new(),
        };
        assert(world@.components =~= Map::<ComponentType, Map<Entity, C>>::empty());
        world
    }

    /// Whether `spawn` still has an identifier to hand out.
    pub fn can_spawn(&self) -> (b: bool)
        ensures
            b == self@.can_spawn(),
    {
        self.dead_entities.len() > 0 || self.next_entity_id < u32::MAX
    }

    /// Makes a new entity live and returns it. An identifier that waits to be
    /// recycled is taken before a fresh one, the one despawned last first.
    pub fn spawn(&mut self) -> (entity: Entity)
        requires
            old(self).wf(),
            old(self)@.can_spawn(),
        ensures
            final(self).wf(),
            entity == old(self)@.next_entity(),
            !old(self)@.is_alive(entity),
            final(self)@.is_alive(entity),
            final(self)@ == old(self)@.spawn(),
    {
        proof {
            lemma_spawn_wf(self@);
        }
        let entity = match self.dead_entities.pop() {
            Some(recycled) => recycled,
            None => {
                let id = self.next_entity_id;
                self.next_entity_id = id + 1;
                Entity(id)
            },
        };
        self.entities.push(entity);
        assert(self@ == old(self)@.spawn());
        entity
    }

    /// The position of `entity` among the live entities.
    fn live_position(&self, entity: Entity) -> (pos: Option<usize>)
        requires
            self.wf(),
        ensures
            match pos {
                Some(i) => i < self@.live.len() && self@.live[i as int] == entity
                    && self@.live.index_of(entity) == i,
                None => !self@.live.contains(entity),
            },
    {
        let mut i: usize = 0;
        while i < self.entities.len()
            invariant
                i <= self.entities@.len(),
                self.entities@.no_duplicates(),
                forall|j: int| 0 <= j < i ==> self.entities@[j] != entity,
            decreases self.entities@.len() - i,
        {
            if self.entities[i] == entity {
                proof {
                    lemma_index_of_unique(self.entities@, i as int);
                }
                return Some(i);
            }
            i = i + 1;
        }
        None
    }

    /// The position of the storage of `kind` in the registry.
    fn storage_position(&self, kind: ComponentType) -> (pos: Option<usize>)
        requires
            self.wf(),
        ensures
            match pos {
                Some(i) => i < self.kinds@.len() && self.kinds@[i as int] == kind
                    && self.kinds@.index_of(kind) == i && self@.has_storage(kind)
                    && self@.components[kind] == self.storages@[i as int]@,
                None => !self.kinds@.contains(kind) && !self@.has_storage(kind),
            },
    {
        match self.slots.get(&kind.0) {
            Some(i) => {
                proof {
                    lemma_index_of_unique(self.kinds@, *i as int);
                    assert(storage_maps(self.storages@)[*i as int] == self.storages@[*i as int]@);
                }
                Some(*i)
            },
            None => {
                proof {
                    if self.kinds@.contains(kind) {
                        let i = self.kinds@.index_of(kind);
                        assert(0 <= i < self.kinds@.len() && self.kinds@[i] == kind);
                        assert(self.slots@.contains_key(self.kinds@[i].0));
                    }
                }
                None
            },
        }
    }

    /// Takes a live entity out of the world: its identifier waits to be
    /// recycled, and its entry leaves every storage. Nothing changes if the
    /// entity is not alive.
    pub fn despawn(&mut self, entity: Entity)
        requires
            old(self).wf(),
        ensures
            final(self).wf(),
            !final(self)@.is_alive(entity),
            final(self)@ == old(self)@.despawn(entity),
    {
        proof {
            lemma_despawn_wf(self@, entity);
        }
        match self.live_position(entity) {
            Some(pos) => {
                self.entities.swap_remove(pos);
                self.dead_entities.push(entity);
                let mut i: usize = 0;
                while i < self.storages.len()
                    invariant
                        i <= self.storages@.len(),
                        self.storages@.len() == old(self).storages@.len(),
                        self.kinds@ == old(self).kinds@,
                        self.slots@ == old(self).slots@,
                        self.entities@ == swap_removed(old(self).entities@, pos as int),
                        self.dead_entities@ == old(self).dead_entities@.push(entity),
                        self.next_entity_id == old(self).next_entity_id,
                        forall|j: int|
                            0 <= j < self.storages@.len() ==> (#[trigger] self.storages@[j]).wf(),
                        forall|j: int|
                            0 <= j < i ==> (#[trigger] self.storages@[j])@ == old(
                                self,
                            ).storages@[j]@.remove(entity),
                        forall|j: int|
                            i <= j < self.storages@.len() ==> (#[trigger] self.storages@[j])@
                                == old(self).storages@[j]@,
                    decreases self.storages@.len() - i,
                {
                    self.storages[i].remove(entity);
                    i = i + 1;
                }
                proof {
                    let kinds = self.kinds@;
                    let before = storage_maps(old(self).storages@);
                    let after = storage_maps(self.storages@);
                    assert forall|kind: ComponentType| #[trigger]
                        self@.components.dom().contains(kind) implies self@.components[kind]
                        == old(self)@.purged(entity)[kind] by {
                        let j = kinds.index_of(kind);
                        assert(0 <= j < kinds.len() && kinds[j] == kind);
                        assert(after[j] == self.storages@[j]@);
                        assert(before[j] == old(self).storages@[j]@);
                    }
                    assert(self@.components =~= old(self)@.purged(entity));
                }
            },
            None => {},
        }
    }

    /// Whether `entity` is alive.
    pub fn is_alive(&self, entity: Entity) -> (alive: bool)
        requires
            self.wf(),
        ensures
            alive == self@.is_alive(entity),
    {
        self.live_position(entity).is_some()
    }

    /// The live entities.
    pub fn entities(&self) -> (live: &[Entity])
        ensures
            live@ == self@.live,
    {
        self.entities.as_slice()
    }

    /// Gives `entity` the component `component` of type `kind`, in place of
    /// the one it had, if any. The storage of `kind` is made on first use. The
    /// entity need not be alive.
    pub fn add(&mut self, entity: Entity, kind: ComponentType, component: C)
        requires
            old(self).wf(),
        ensures
            final(self).wf(),
            final(self)@ == old(self)@.add(kind, entity, component),
    {
        match self.storage_position(kind) {
            Some(i) => {
                proof {
                    lemma_assoc_update(
                        self.kinds@,
                        storage_maps(self.storages@),
                        i as int,
                        self.storages@[i as int]@.insert(entity, component),
                    );
                }
                self.storages[i].insert(entity, component);
                assert(storage_maps(self.storages@) =~= storage_maps(old(self).storages@).update(
                    i as int,
                    old(self).storages@[i as int]@.insert(entity, component),
                ));
            },
            None => {
                let mut storage = Storage::new();
                storage.insert(entity, component);
                proof {
                    lemma_assoc_push(
                        self.kinds@,
                        storage_maps(self.storages@),
                        kind,
                        storage@,
                    );
                }
                let end = self.kinds.len();
                self.kinds.push(kind);
                self.storages.push(storage);
                self.slots.insert(kind.0, end);
                proof {
                    assert(storage_maps(self.storages@) =~= storage_maps(
                        old(self).storages@,
                    ).push(storage@));
                    assert forall|i: int|
                        0 <= i < self.kinds@.len() implies self.slots@.contains_key(
                        (#[trigger] self.kinds@[i]).0,
                    ) && self.slots@[self.kinds@[i].0] == i by {
                        if i < end {
                            assert(old(self).kinds@[i] == self.kinds@[i]);
                            assert(old(self).kinds@.contains(old(self).kinds@[i]));
                        }
                    }
                    assert forall|id: u32| #[trigger]
                        self.slots@.contains_key(id) implies self.slots@[id]
                        < self.kinds@.len() && self.kinds@[self.slots@[id] as int]
                        == ComponentType(id) by {
                        if id != kind.0 {
                            assert(old(self).slots@.contains_key(id));
                        }
                    }
                }
            },
        }
    }

    /// The component of type `kind` of `entity`, if it has one.
    pub fn get(&self, entity: Entity, kind: ComponentType) -> (c: Option<&C>)
        requires
            self.wf(),
        ensures
            match c {
                Some(c) => self@.component(kind, entity) == Some(*c),
                None => self@.component(kind, entity).is_none(),
            },
    {
        match self.storage_position(kind) {
            Some(i) => self.storages[i].get(entity),
            None => None,
        }
    }

    /// Whether `entity` has a component of type `kind`.
    pub fn has(&self, entity: Entity, kind: ComponentType) -> (b: bool)
        requires
            self.wf(),
        ensures
            b == self@.has(kind, entity),
    {
        match self.storage_position(kind) {
            Some(i) => self.storages[i].has(entity),
            None => false,
        }
    }

    /// Takes the component of type `kind` from `entity`. Nothing changes if it
    /// has none, or if no storage of `kind` exists.
    pub fn remove(&mut self, entity: Entity, kind: ComponentType)
        requires
            old(self).wf(),
        ensures
            final(self).wf(),
            final(self)@ == old(self)@.remove(kind, entity),
    {
        match self.storage_position(kind) {
            Some(i) => {
                proof {
                    lemma_assoc_update(
                        self.kinds@,
                        storage_maps(self.storages@),
                        i as int,
                        self.storages@[i as int]@.remove(entity),
                    );
                }
                self.storages[i].remove(entity);
                assert(storage_maps(self.storages@) =~= storage_maps(old(self).storages@).update(
                    i as int,
                    old(self).storages@[i as int]@.remove(entity),
                ));
            },
            None => {},
        }
    }

    /// A mutable borrow of the component of type `kind` of `entity`, if it has
    /// one; what the caller writes through it becomes that component.
    pub fn get_mut(&mut self, entity: Entity, kind: ComponentType) -> (c: Option<&mut C>)
        requires
            old(self).wf(),
        ensures
            final(self).wf(),
            match c {
                Some(c) => old(self)@.component(kind, entity) == Some(*c) && final(self)@ == old(
                    self,
                )@.add(kind, entity, *final(c)),
                None => old(self)@.component(kind, entity).is_none() && final(self)@ == old(self)@,
            },
    {
        match self.storage_position(kind) {
            Some(i) => {
                match self.storages[i].position(entity) {
                    Some(j) => {
                        proof {
                            let kinds = self.kinds@;
                            let maps = storage_maps(self.storages@);
                            assert forall|m: Map<Entity, C>|
                                assoc_map(kinds, #[trigger] maps.update(i as int, m)) == assoc_map(
                                    kinds,
                                    maps,
                                ).insert(kinds[i as int], m) by {
                                lemma_assoc_update(kinds, maps, i as int, m);
                            }
                            let storages = self.storages@;
                            assert forall|s: Storage<C>|
                                storage_maps(#[trigger] storages.update(i as int, s))
                                    == maps.update(i as int, s@) by {
                                assert(storage_maps(storages.update(i as int, s)) =~= maps.update(
                                    i as int,
                                    s@,
                                ));
                            }
                        }
                        let c = self.storages[i].value_at_mut(j);
                        Some(c)
                    },
                    None => None,
                }
            },
            None => None,
        }
    }

    /// The pairs of type `kind`, in the order in which a query hands them
    /// out; none while the type is unused.
    pub closed spec fn query_entries(&self, kind: ComponentType) -> Seq<(Entity, C)> {
        if self.kinds@.contains(kind) {
            self.storages@[self.kinds@.index_of(kind)].entries()
        } else {
            Seq::empty()
        }
    }

    /// What a query hands out lists the components of that type: each entity
    /// that has one comes once, with its component, and no other comes.
    pub proof fn lemma_query_entries_listing(&self, kind: ComponentType)
        requires
            self.wf(),
        ensures
            is_listing(self.query_entries(kind), self@.storage(kind)),
    {
        if self.kinds@.contains(kind) {
            let i = self.kinds@.index_of(kind);
            assert(0 <= i < self.kinds@.len() && self.kinds@[i] == kind);
            assert(storage_maps(self.storages@)[i] == self.storages@[i]@);
            self.storages@[i].lemma_entries_listing();
        }
    }

    /// A cursor over the components of type `kind`. The entities it yields
    /// are those with an entry in that storage, alive or not: `despawn` is what
    /// keeps dead entities out.
    pub fn query(&self, kind: ComponentType) -> (it: QueryIter<'_, C>)
        requires
            self.wf(),
        ensures
            it.wf(),
            it@ == self.query_entries(kind),
            is_listing(it@, self@.storage(kind)),
    {
        proof {
            self.lemma_query_entries_listing(kind);
        }
        match self.storage_position(kind) {
            Some(i) => QueryIter::new(Some(&self.storages[i])),
            None => QueryIter::new(None),
        }
    }

    /// A cursor over the components of type `kind` that hands each out for
    /// writing; see [`QueryIterMut::next`].
    pub fn query_mut(&mut self, kind: ComponentType) -> (it: QueryIterMut)
        ensures
            *final(self) == *old(self),
            it.kind() == kind,
            it.position() == 0,
    {
        QueryIterMut::new(kind)
    }

    /// The pair at a position of the storage of `kind`, the component
    /// borrowed for writing; `None` if the storage has no such position.
    pub fn entry_at_mut(&mut self, kind: ComponentType, pos: usize) -> (entry: Option<
        (Entity, &mut C),
    >)
        requires
            old(self).wf(),
        ensures
            final(self).wf(),
            match entry {
                Some((entity, component)) => {
                    &&& pos < old(self).query_entries(kind).len()
                    &&& pos < usize::MAX
                    &&& old(self).query_entries(kind)[pos as int] == (entity, *component)
                    &&& final(self)@ == old(self)@.add(kind, entity, *final(component))
                    &&& final(self).query_entries(kind) == old(self).query_entries(kind).update(
                        pos as int,
                        (entity, *final(component)),
                    )
                },
                None => pos >= old(self).query_entries(kind).len() && *final(self) == *old(self),
            },
    {
        match self.storage_position(kind) {
            Some(i) => {
                if pos < self.storages[i].len() {
                    let entity = self.storages[i].key_at(pos);
                    proof {
                        let kinds = self.kinds@;
                        let maps = storage_maps(self.storages@);
                        assert forall|m: Map<Entity, C>|
                            assoc_map(kinds, #[trigger] maps.update(i as int, m)) == assoc_map(
                                kinds,
                                maps,
                            ).insert(kinds[i as int], m) by {
                            lemma_assoc_update(kinds, maps, i as int, m);
                        }
                        let storages = self.storages@;
                        assert forall|s: Storage<C>|
                            storage_maps(#[trigger] storages.update(i as int, s)) == maps.update(
                                i as int,
                                s@,
                            ) by {
                            assert(storage_maps(storages.update(i as int, s)) =~= maps.update(
                                i as int,
                                s@,
                            ));
                        }
                    }
                    let component = self.storages[i].value_at_mut(pos);
                    Some((entity, component))
                } else {
                    None
                }
            },
            None => None,
        }
    }

    /// The entities that have a component of type `first` and one of type
    /// `second`, each with both components, in the order in which a query of
    /// `first` hands them out: what a pass over all drawable entities walks.
    pub fn query_pairs(&self, first: ComponentType, second: ComponentType) -> (pairs: Vec<
        (Entity, &C, &C),
    >)
        requires
            self.wf(),
        ensures
            pair_values(pairs@) == joined(
                self.query_entries(first),
                self@.storage(second),
                self.query_entries(first).len() as int,
            ),
    {
        let mut pairs: Vec<(Entity, &C, &C)> = Vec::new();
        let mut it = self.query(first);
        let ghost entries = self.query_entries(first);
        assert(entries.skip(0) =~= entries);
        let ghost mut done: int = 0;
        loop
            invariant
                self.wf(),
                it.wf(),
                0 <= done <= entries.len(),
                it@ == entries.skip(done),
                pair_values(pairs@) == joined(entries, self@.storage(second), done),
            ensures
                done == entries.len(),
            decreases entries.len() - done,
        {
            match it.next() {
                Some((entity, a)) => {
                    assert(entries.skip(done).first() == entries[done]);
                    assert(entries.skip(done).drop_first() =~= entries.skip(done + 1));
                    match self.get(entity, second) {
                        Some(b) => {
                            pairs.push((entity, a, b));
                            assert(pair_values(pairs@) =~= joined(
                                entries,
                                self@.storage(second),
                                done,
                            ).push((entity, *a, *b)));
                        },
                        None => {},
                    }
                    proof {
                        done = done + 1;
                    }
                },
                None => {
                    break ;
                },
            }
        }
        pairs
    }
}

/// The values behind the borrows of a sequence of pairs.
pub open spec fn pair_values<C>(pairs: Seq<(Entity, &C, &C)>) -> Seq<(Entity, C, C)> {
    Seq::new(pairs.len(), |i: int| (pairs[i].0, *pairs[i].1, *pairs[i].2))
}

/// The first `upto` of `entries` whose entity has a value in `other`, each
/// with that value beside its own.
pub open spec fn joined<C>(entries: Seq<(Entity, C)>, other: Map<Entity, C>, upto: int) -> Seq<
    (Entity, C, C),
>
    decreases upto,
{
    if upto <= 0 {
        Seq::empty()
    } else if other.dom().contains(entries[upto - 1].0) {
        joined(entries, other, upto - 1).push(
            (entries[upto - 1].0, entries[upto - 1].1, other[entries[upto - 1].0]),
        )
    } else {
        joined(entries, other, upto - 1)
    }
}

} // verus!
