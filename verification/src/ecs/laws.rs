//! What holds of a world over its whole life, stated over the mathematical
//! state and proved from the definitions of the operations.

use vstd::prelude::*;
use crate::ecs::entity::{ComponentType, Entity};
use crate::ecs::storage::is_listing;
use crate::ecs::world::{lemma_despawn_wf, lemma_spawn_wf, WorldState};

verus! {

/// One operation on a world.
pub enum WorldOp<C> {
    Spawn,
    Despawn(Entity),
    Add(Entity, ComponentType, C),
    Remove(Entity, ComponentType),
}

/// The state after one operation. A spawn with no identifier left changes
/// nothing.
pub open spec fn step<C>(s: WorldState<C>, op: WorldOp<C>) -> WorldState<C> {
    match op {
        WorldOp::Spawn => if s.can_spawn() {
            s.spawn()
        } else {
            s
        },
        WorldOp::Despawn(entity) => s.despawn(entity),
        WorldOp::Add(entity, kind, component) => s.add(kind, entity, component),
        WorldOp::Remove(entity, kind) => s.remove(kind, entity),
    }
}

/// The state after a sequence of operations, the first one first.
pub open spec fn run<C>(s: WorldState<C>, ops: Seq<WorldOp<C>>) -> WorldState<C>
    decreases ops.len(),
{
    if ops.len() == 0 {
        s
    } else {
        step(run(s, ops.drop_last()), ops.last())
    }
}

/// Each operation keeps a well-formed state well-formed.
pub proof fn law_step_preserves_wf<C>(s: WorldState<C>, op: WorldOp<C>)
    requires
        s.wf(),
    ensures
        step(s, op).wf(),
{
    match op {
        WorldOp::Spawn => {
            if s.can_spawn() {
                lemma_spawn_wf(s);
            }
        },
        WorldOp::Despawn(entity) => {
            lemma_despawn_wf(s, entity);
        },
        WorldOp::Add(entity, kind, component) => {},
        WorldOp::Remove(entity, kind) => {},
    }
}

/// Whatever sequence of operations a new world has gone through, no entity
/// is live twice, and the entity that the next spawn returns is none of the
/// live ones: two entities that are alive at the same time are never equal.
pub proof fn law_live_entities_distinct<C>(ops: Seq<WorldOp<C>>)
    ensures
        run(WorldState::<C>::empty(), ops).wf(),
        run(WorldState::<C>::empty(), ops).live.no_duplicates(),
        run(WorldState::<C>::empty(), ops).can_spawn() ==> {
            let s = run(WorldState::<C>::empty(), ops);
            &&& !s.is_alive(s.next_entity())
            &&& s.spawn().is_alive(s.next_entity())
            &&& s.spawn().live.no_duplicates()
        },
    decreases ops.len(),
{
    let s = run(WorldState::<C>::empty(), ops);
    if ops.len() > 0 {
        law_live_entities_distinct::<C>(ops.drop_last());
        law_step_preserves_wf(run(WorldState::<C>::empty(), ops.drop_last()), ops.last());
    }
    if s.can_spawn() {
        lemma_spawn_wf(s);
    }
}

/// Two spawns with nothing between them return different entities.
pub proof fn law_consecutive_spawns_differ<C>(s: WorldState<C>)
    requires
        s.wf(),
        s.can_spawn(),
        s.spawn().can_spawn(),
    ensures
        s.next_entity() != s.spawn().next_entity(),
{
    lemma_spawn_wf(s);
    lemma_spawn_wf(s.spawn());
}

/// After the despawn of a live entity, that entity has no component of any
/// type.
pub proof fn law_despawn_clears_components<C>(
    s: WorldState<C>,
    entity: Entity,
    kind: ComponentType,
)
    requires
        s.is_alive(entity),
    ensures
        !s.despawn(entity).has(kind, entity),
        s.despawn(entity).component(kind, entity).is_none(),
{
}

/// After the despawn of a live entity, a query of any component type does
/// not yield that entity, whatever its storage held before.
pub proof fn law_query_skips_despawned<C>(
    s: WorldState<C>,
    entity: Entity,
    kind: ComponentType,
    entries: Seq<(Entity, C)>,
)
    requires
        s.is_alive(entity),
        is_listing(entries, s.despawn(entity).storage(kind)),
    ensures
        forall|i: int| 0 <= i < entries.len() ==> (#[trigger] entries[i]).0 != entity,
{
    law_despawn_clears_components(s, entity, kind);
}

/// The despawn of a live entity makes its identifier the next to be handed
/// out, and the entity that the next spawn then returns, though equal to the
/// old one, has no component of any type.
pub proof fn law_recycled_entity_is_bare<C>(s: WorldState<C>, entity: Entity, kind: ComponentType)
    requires
        s.wf(),
        s.is_alive(entity),
    ensures
        s.despawn(entity).can_spawn(),
        s.despawn(entity).next_entity() == entity,
        s.despawn(entity).spawn().is_alive(entity),
        !s.despawn(entity).spawn().has(kind, entity),
        s.despawn(entity).spawn().component(kind, entity).is_none(),
{
    lemma_despawn_wf(s, entity);
    lemma_spawn_wf(s.despawn(entity));
    law_despawn_clears_components(s, entity, kind);
}

/// A component that was added is what `get` finds, until it is overwritten,
/// removed, or its entity despawned; adding to one entity or type leaves the
/// others as they were.
pub proof fn law_add_then_get<C>(
    s: WorldState<C>,
    entity: Entity,
    kind: ComponentType,
    component: C,
    other: Entity,
    other_kind: ComponentType,
)
    ensures
        s.add(kind, entity, component).component(kind, entity) == Some(component),
        (other != entity || other_kind != kind) ==> s.add(kind, entity, component).component(
            other_kind,
            other,
        ) == s.component(other_kind, other),
        s.add(kind, entity, component).remove(kind, entity).component(kind, entity).is_none(),
{
}

} // verus!
