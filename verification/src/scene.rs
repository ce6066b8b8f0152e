//! Scene hierarchy: which entity is the child of which. A node knows its
//! parent and its children; nodes without a parent are listed as roots.
//!
//! The two directions are kept as they are set, not reconciled: `set_parent`
//! on a parent that has no node still records the parent in the child.

use vstd::prelude::*;
use crate::ecs::entity::Entity;
use crate::ecs::storage::Storage;

verus! {

/// A node in the scene hierarchy.
#[derive(Debug, Clone)]
pub struct SceneNode {
    pub entity: Entity,
    pub parent: Option<Entity>,
    pub children: Vec<Entity>,
}

/// The mathematical value of a node.
pub struct NodeState {
    pub parent: Option<Entity>,
    pub children: Seq<Entity>,
}

impl SceneNode {
    pub open spec fn view(&self) -> NodeState {
        NodeState { parent: self.parent, children: self.children@ }
    }

    /// A node without parent and without children.
    pub fn new(entity: Entity) -> (node: Self)
        ensures
            node.entity == entity,
            node@ == (NodeState { parent: None, children: Seq::empty() }),
    {
        SceneNode { entity, parent: None, children: Vec::new() }
    }
}

/// `s` without every occurrence of `entity`.
pub open spec fn without(s: Seq<Entity>, entity: Entity) -> Seq<Entity>
    decreases s.len(),
{
    if s.len() == 0 {
        Seq::empty()
    } else if s.last() == entity {
        without(s.drop_last(), entity)
    } else {
        without(s.drop_last(), entity).push(s.last())
    }
}

/// The mathematical state of a scene graph.
pub struct GraphState {
    pub nodes: Map<Entity, NodeState>,
    pub roots: Seq<Entity>,
}

impl GraphState {
    pub open spec fn empty() -> Self {
        GraphState { nodes: Map::empty(), roots: Seq::empty() }
    }

    /// The children of `entity`; none if it has no node.
    pub open spec fn children(self, entity: Entity) -> Seq<Entity> {
        if self.nodes.dom().contains(entity) {
            self.nodes[entity].children
        } else {
            Seq::empty()
        }
    }

    /// A fresh node for `entity`, in place of the one it had, and one more
    /// entry in the list of roots.
    pub open spec fn add_root(self, entity: Entity) -> Self {
        GraphState {
            nodes: self.nodes.insert(entity, NodeState { parent: None, children: Seq::empty() }),
            roots: self.roots.push(entity),
        }
    }

    /// `entity` leaves the place where a node with parent `parent` is
    /// listed: the children of that parent, if the parent has a node, or the
    /// roots if there is no parent.
    pub open spec fn unlisted(self, entity: Entity, parent: Option<Entity>) -> Self {
        match parent {
            Some(p) => if self.nodes.dom().contains(p) {
                GraphState {
                    nodes: self.nodes.insert(
                        p,
                        NodeState { children: without(self.nodes[p].children, entity), ..self.nodes[p] },
                    ),
                    ..self
                }
            } else {
                self
            },
            None => GraphState { roots: without(self.roots, entity), ..self },
        }
    }

    /// `child` is appended to the children of `parent`, if `parent` has a
    /// node.
    pub open spec fn listed(self, child: Entity, parent: Entity) -> Self {
        if self.nodes.dom().contains(parent) {
            GraphState {
                nodes: self.nodes.insert(
                    parent,
                    NodeState {
                        children: self.nodes[parent].children.push(child),
                        ..self.nodes[parent]
                    },
                ),
                ..self
            }
        } else {
            self
        }
    }

    /// The node of `child`, if there is one, records `parent`.
    pub open spec fn reparented(self, child: Entity, parent: Entity) -> Self {
        if self.nodes.dom().contains(child) {
            GraphState {
                nodes: self.nodes.insert(
                    child,
                    NodeState { parent: Some(parent), ..self.nodes[child] },
                ),
                ..self
            }
        } else {
            self
        }
    }

    /// `child` leaves its old place, if it has a node, is listed under
    /// `parent`, and records `parent`.
    pub open spec fn set_parent(self, child: Entity, parent: Entity) -> Self {
        let detached = if self.nodes.dom().contains(child) {
            self.unlisted(child, self.nodes[child].parent)
        } else {
            self
        };
        detached.listed(child, parent).reparented(child, parent)
    }

    /// The node of `entity` is taken out and `entity` leaves the place where
    /// it was listed.
    pub open spec fn detached(self, entity: Entity) -> Self
        recommends
            self.nodes.dom().contains(entity),
    {
        GraphState { nodes: self.nodes.remove(entity), ..self }.unlisted(
            entity,
            self.nodes[entity].parent,
        )
    }

    /// The state after the removal of every entity of `pending`, the last
    /// one first, each with its descendants before the next: an entity that
    /// has a node loses it, and its children are removed next, the first
    /// child first.
    pub open spec fn drained(self, pending: Seq<Entity>) -> Self
        decreases self.nodes.dom().len(), pending.len(),
        when self.nodes.dom().finite()
    {
        if pending.len() == 0 {
            self
        } else if self.nodes.dom().contains(pending.last()) {
            self.detached(pending.last()).drained(
                pending.drop_last() + reversed(self.nodes[pending.last()].children),
            )
        } else {
            self.drained(pending.drop_last())
        }
    }

    /// The state after the removal of `entity` and all its descendants.
    pub open spec fn remove(self, entity: Entity) -> Self {
        self.drained(seq![entity])
    }
}

impl GraphState {
    /// Whether `parent` has a node that lists `child` among its children.
    pub open spec fn has_child(self, parent: Entity, child: Entity) -> bool {
        self.nodes.dom().contains(parent) && self.nodes[parent].children.contains(child)
    }

    /// Whether step `i` of `path` goes from a node to one of its children.
    pub open spec fn links(self, path: Seq<Entity>, i: int) -> bool {
        self.has_child(path[i], path[i + 1])
    }

    /// Whether `path` walks down the hierarchy: every entity on it has a
    /// node, and each but the first is listed as a child of the one before.
    pub open spec fn is_path(self, path: Seq<Entity>) -> bool {
        &&& path.len() > 0
        &&& self.nodes.dom().contains(path.last())
        &&& forall|i: int| 0 <= i < path.len() - 1 ==> #[trigger] self.links(path, i)
    }

    /// Whether `entity` is `ancestor` itself or lies below it: a path walks
    /// down from `ancestor` to `entity`.
    pub open spec fn is_descendant(self, ancestor: Entity, entity: Entity) -> bool {
        exists|path: Seq<Entity>|
            #[trigger] self.is_path(path) && path.first() == ancestor && path.last() == entity
    }
}

/// What is left without `entity` holds exactly the other elements.
pub proof fn lemma_without_contains(s: Seq<Entity>, entity: Entity, x: Entity)
    ensures
        without(s, entity).contains(x) <==> (s.contains(x) && x != entity),
    decreases s.len(),
{
    if s.len() > 0 {
        let front = s.drop_last();
        lemma_without_contains(front, entity, x);
        let rest = without(front, entity);
        if s.contains(x) {
            let i = choose|i: int| 0 <= i < s.len() && s[i] == x;
            if i < s.len() - 1 {
                assert(front[i] == x);
                assert(front.contains(x));
            }
        }
        if front.contains(x) {
            let i = choose|i: int| 0 <= i < front.len() && front[i] == x;
            assert(s[i] == x);
        }
        assert(s[s.len() - 1] == s.last());
        if s.last() != entity {
            let out = rest.push(s.last());
            assert(out[rest.len() as int] == s.last());
            if rest.contains(x) {
                let i = choose|i: int| 0 <= i < rest.len() && rest[i] == x;
                assert(out[i] == x);
            }
            if out.contains(x) {
                let i = choose|i: int| 0 <= i < out.len() && out[i] == x;
                if i < rest.len() {
                    assert(rest[i] == x);
                }
            }
        }
    }
}

/// Taking a node out leaves the other nodes in place, and no node gains a
/// child by it.
pub proof fn lemma_detached(s: GraphState, entity: Entity)
    requires
        s.nodes.dom().contains(entity),
    ensures
        s.detached(entity).nodes.dom() == s.nodes.dom().remove(entity),
        forall|a: Entity, b: Entity| #[trigger]
            s.detached(entity).has_child(a, b) ==> s.has_child(a, b) && a != entity,
        forall|a: Entity, b: Entity| #[trigger]
            s.has_child(a, b) && a != entity && b != entity ==> s.detached(entity).has_child(a, b),
{
    let t = s.detached(entity);
    assert(t.nodes.dom() =~= s.nodes.dom().remove(entity));
    assert forall|a: Entity, b: Entity| #[trigger] t.has_child(a, b) implies s.has_child(a, b) && a
        != entity by {
        lemma_without_contains(s.nodes[a].children, entity, b);
    }
    assert forall|a: Entity, b: Entity| #[trigger]
        s.has_child(a, b) && a != entity && b != entity implies t.has_child(a, b) by {
        lemma_without_contains(s.nodes[a].children, entity, b);
    }
}

/// What the removal of the entities of `pending` with their descendants
/// achieves.
///
/// No node is made. None of the entities of `pending` has a node
/// afterwards. A node is lost only if it is one of them or lies below one of
/// them; every other node stays.
pub proof fn lemma_drained(s: GraphState, pending: Seq<Entity>)
    requires
        s.nodes.dom().finite(),
    ensures
        s.drained(pending).nodes.dom().finite(),
        s.drained(pending).nodes.dom().subset_of(s.nodes.dom()),
        forall|i: int|
            0 <= i < pending.len() ==> !s.drained(pending).nodes.dom().contains(
                #[trigger] pending[i],
            ),
        forall|x: Entity|
            s.nodes.dom().contains(x) && !(#[trigger] s.drained(pending).nodes.dom().contains(x))
                ==> exists|i: int|
                0 <= i < pending.len() && s.is_descendant(#[trigger] pending[i], x),
    decreases s.nodes.dom().len(), pending.len(),
{
    let r = s.drained(pending);
    if pending.len() == 0 {
    } else {
        let e0 = pending.last();
        let rest = pending.drop_last();
        if s.nodes.dom().contains(e0) {
            let t = s.detached(e0);
            let kids = s.nodes[e0].children;
            let next = rest + reversed(kids);
            lemma_detached(s, e0);
            lemma_drained(t, next);
            assert(r == t.drained(next));
            assert forall|i: int| 0 <= i < pending.len() implies !r.nodes.dom().contains(
                #[trigger] pending[i],
            ) by {
                if i < rest.len() {
                    assert(next[i] == pending[i]);
                }
            }
            assert forall|x: Entity|
                s.nodes.dom().contains(x) && !(#[trigger] r.nodes.dom().contains(x))
                implies exists|i: int|
                0 <= i < pending.len() && s.is_descendant(#[trigger] pending[i], x) by {
                if x == e0 {
                    let path = seq![e0];
                    assert(s.is_path(path));
                    assert(path.first() == e0 && path.last() == x);
                    assert(s.is_descendant(pending[pending.len() - 1], x));
                } else {
                    assert(t.nodes.dom().contains(x));
                    let j = choose|j: int|
                        0 <= j < next.len() && t.is_descendant(#[trigger] next[j], x);
                    let path = choose|path: Seq<Entity>|
                        #[trigger] t.is_path(path) && path.first() == next[j] && path.last() == x;
                    assert(s.is_path(path)) by {
                        assert forall|i: int| 0 <= i < path.len() - 1 implies #[trigger] s.links(
                            path,
                            i,
                        ) by {
                            assert(t.links(path, i));
                        }
                    }
                    if j < rest.len() {
                        assert(next[j] == pending[j]);
                        assert(s.is_descendant(pending[j], x));
                    } else {
                        let k = j - rest.len();
                        assert(next[j] == reversed(kids)[k]);
                        assert(reversed(kids)[k] == kids[kids.len() - 1 - k]);
                        assert(kids.contains(next[j]));
                        let longer = seq![e0] + path;
                        assert(longer.last() == path.last());
                        assert(longer.first() == e0);
                        assert forall|i: int| 0 <= i < longer.len() - 1 implies #[trigger] s.links(
                            longer,
                            i,
                        ) by {
                            if i == 0 {
                                assert(longer[1] == path[0]);
                                assert(s.has_child(e0, path[0]));
                            } else {
                                assert(longer[i] == path[i - 1]);
                                assert(longer[i + 1] == path[i]);
                                assert(s.links(path, i - 1));
                            }
                        }
                        assert(s.is_path(longer));
                        assert(s.is_descendant(pending[pending.len() - 1], x));
                    }
                }
            }
        } else {
            lemma_drained(s, rest);
            assert(r == s.drained(rest));
            assert forall|i: int| 0 <= i < pending.len() implies !r.nodes.dom().contains(
                #[trigger] pending[i],
            ) by {
                if i < rest.len() {
                    assert(rest[i] == pending[i]);
                } else {
                    assert(pending[i] == e0);
                }
            }
            assert forall|x: Entity|
                s.nodes.dom().contains(x) && !(#[trigger] r.nodes.dom().contains(x))
                implies exists|i: int|
                0 <= i < pending.len() && s.is_descendant(#[trigger] pending[i], x) by {
                let j = choose|j: int|
                    0 <= j < rest.len() && s.is_descendant(#[trigger] rest[j], x);
                assert(rest[j] == pending[j]);
            }
        }
    }
}

/// The last place of `entity` on `path`, or -1 if it is not on it.
pub proof fn lemma_last_occurrence(path: Seq<Entity>, entity: Entity) -> (m: int)
    ensures
        -1 <= m < path.len(),
        m >= 0 ==> path[m] == entity,
        forall|k: int| m < k < path.len() ==> path[k] != entity,
    decreases path.len(),
{
    if path.len() == 0 {
        -1
    } else if path.last() == entity {
        path.len() - 1
    } else {
        let m = lemma_last_occurrence(path.drop_last(), entity);
        assert forall|k: int| m < k < path.len() implies path[k] != entity by {
            if k < path.len() - 1 {
                assert(path.drop_last()[k] == path[k]);
            }
        }
        if m >= 0 {
            assert(path.drop_last()[m] == path[m]);
        }
        m
    }
}

/// The removal of the entities of `pending` takes every node below them:
/// where a path walks down from one of them, its end has no node afterwards.
pub proof fn lemma_drained_takes_descendants(
    s: GraphState,
    pending: Seq<Entity>,
    i: int,
    path: Seq<Entity>,
)
    requires
        s.nodes.dom().finite(),
        0 <= i < pending.len(),
        s.is_path(path),
        path.first() == pending[i],
    ensures
        !s.drained(pending).nodes.dom().contains(path.last()),
    decreases s.nodes.dom().len(), pending.len(),
{
    let r = s.drained(pending);
    let e0 = pending.last();
    let rest = pending.drop_last();
    let x = path.last();
    if path.len() > 1 {
        assert(s.links(path, 0));
    }
    assert(s.nodes.dom().contains(path[0]));
    if s.nodes.dom().contains(e0) {
        let t = s.detached(e0);
        let kids = s.nodes[e0].children;
        let next = rest + reversed(kids);
        lemma_detached(s, e0);
        lemma_drained(t, next);
        assert(r == t.drained(next));
        if x != e0 {
            let m = lemma_last_occurrence(path, e0);
            let suffix = path.skip(m + 1);
            assert(suffix.len() > 0);
            assert(suffix.last() == x);
            assert forall|k: int| 0 <= k < suffix.len() implies suffix[k] != e0 by {
                assert(suffix[k] == path[m + 1 + k]);
            }
            assert forall|k: int| 0 <= k < suffix.len() - 1 implies #[trigger] t.links(
                suffix,
                k,
            ) by {
                assert(suffix[k] == path[m + 1 + k]);
                assert(suffix[k + 1] == path[m + 1 + k + 1]);
                assert(s.links(path, m + 1 + k));
                assert(s.has_child(suffix[k], suffix[k + 1]));
            }
            assert(t.is_path(suffix));
            let j: int = if m >= 0 {
                assert(s.links(path, m));
                assert(kids.contains(path[m + 1]));
                let c = choose|c: int| 0 <= c < kids.len() && kids[c] == path[m + 1];
                let back = kids.len() - 1 - c;
                assert(reversed(kids)[back] == kids[c]);
                assert(next[rest.len() + back] == reversed(kids)[back]);
                rest.len() + back
            } else {
                assert(path[0] != e0);
                assert(i < rest.len());
                assert(next[i] == pending[i]);
                i
            };
            assert(suffix.first() == path[m + 1]);
            assert(next[j] == suffix.first());
            lemma_drained_takes_descendants(t, next, j, suffix);
        }
    } else {
        assert(r == s.drained(rest));
        assert(pending[i] != e0);
        assert(i < rest.len());
        assert(rest[i] == pending[i]);
        lemma_drained_takes_descendants(s, rest, i, path);
    }
}

/// What a removal achieves: afterwards the nodes are exactly those that
/// were there before and are neither `entity` nor below it. No node is made,
/// `entity` and all that a path of children leads to from it are gone, and
/// every other node stays.
pub proof fn law_remove_takes_the_subtree(s: GraphState, entity: Entity, other: Entity)
    requires
        s.nodes.dom().finite(),
    ensures
        !s.remove(entity).nodes.dom().contains(entity),
        s.remove(entity).nodes.dom().contains(other) <==> (s.nodes.dom().contains(other)
            && !s.is_descendant(entity, other)),
{
    let pending = seq![entity];
    lemma_drained(s, pending);
    assert(pending[0] == entity);
    if s.nodes.dom().contains(other) && !s.remove(entity).nodes.dom().contains(other) {
        let i = choose|i: int|
            0 <= i < pending.len() && s.is_descendant(#[trigger] pending[i], other);
        assert(pending[i] == entity);
    }
    if s.is_descendant(entity, other) {
        let path = choose|path: Seq<Entity>|
            #[trigger] s.is_path(path) && path.first() == entity && path.last() == other;
        lemma_drained_takes_descendants(s, pending, 0, path);
    }
}

/// `s` back to front.
pub open spec fn reversed(s: Seq<Entity>) -> Seq<Entity> {
    Seq::new(s.len(), |i: int| s[s.len() - 1 - i])
}

/// The values of the nodes of a map.
pub open spec fn node_states(m: Map<Entity, SceneNode>) -> Map<Entity, NodeState> {
    Map::new(|e: Entity| m.dom().contains(e), |e: Entity| m[e]@)
}

/// Takes every occurrence of `entity` out of `v` and keeps the order of the
/// rest.
pub fn retain_not(v: &mut Vec<Entity>, entity: Entity)
    ensures
        final(v)@ == without(old(v)@, entity),
{
    let mut kept: Vec<Entity> = Vec::new();
    let mut i: usize = 0;
    assert(v@.take(0) =~= Seq::<Entity>::empty());
    while i < v.len()
        invariant
            i <= v@.len(),
            v@ == old(v)@,
            kept@ == without(v@.take(i as int), entity),
        decreases v@.len() - i,
    {
        assert(v@.take(i + 1).drop_last() =~= v@.take(i as int));
        assert(v@.take(i + 1).last() == v@[i as int]);
        if !(v[i] == entity) {
            kept.push(v[i]);
        }
        i = i + 1;
    }
    assert(v@.take(v@.len() as int) =~= v@);
    *v = kept;
}

/// Scene graph for managing entity hierarchies.
pub struct SceneGraph {
    nodes: Storage<SceneNode>,
    roots: Vec<Entity>,
}

impl SceneGraph {
    pub closed spec fn view(&self) -> GraphState {
        GraphState { nodes: node_states(self.nodes@), roots: self.roots@ }
    }

    pub closed spec fn wf(&self) -> bool {
        self.nodes.wf()
    }

    /// The number of nodes.
    pub closed spec fn node_count(&self) -> nat {
        self.nodes.keys().len()
    }

    /// A graph has finitely many nodes.
    pub proof fn lemma_finite(&self)
        requires
            self.wf(),
        ensures
            self@.nodes.dom().finite(),
    {
        self.nodes.lemma_finite();
        assert(self@.nodes.dom() =~= self.nodes@.dom());
    }

    /// A graph without nodes.
    pub fn new() -> (graph: Self)
        ensures
            graph.wf(),
            graph@ == GraphState::empty(),
    {
        let graph = SceneGraph { nodes: Storage::new(), roots: Vec::new() };
        assert(graph@.nodes =~= Map::<Entity, NodeState>::empty());
        graph
    }

    /// Add an entity as a root node.
    pub fn add_root(&mut self, entity: Entity)
        requires
            old(self).wf(),
        ensures
            final(self).wf(),
            final(self)@ == old(self)@.add_root(entity),
    {
        self.nodes.insert(entity, SceneNode::new(entity));
        self.roots.push(entity);
        assert(self@.nodes =~= old(self)@.add_root(entity).nodes);
    }

    /// Takes `entity` out of the list where a node with parent `parent` is
    /// listed.
    fn unlist(&mut self, entity: Entity, parent: Option<Entity>)
        requires
            old(self).wf(),
        ensures
            final(self).wf(),
            final(self).node_count() == old(self).node_count(),
            final(self)@ == old(self)@.unlisted(entity, parent),
    {
        match parent {
            Some(p) => {
                let ghost before = self.nodes@;
                proof {
                    assert forall|n: SceneNode|
                        node_states(#[trigger] before.insert(p, n)) == node_states(before).insert(
                            p,
                            n@,
                        ) by {
                        assert(node_states(before.insert(p, n)) =~= node_states(before).insert(
                            p,
                            n@,
                        ));
                    }
                }
                match self.nodes.get_mut(p) {
                    Some(node) => {
                        retain_not(&mut node.children, entity);
                    },
                    None => {},
                }
            },
            None => {
                retain_not(&mut self.roots, entity);
            },
        }
    }

    /// Set parent-child relationship.
    pub fn set_parent(&mut self, child: Entity, parent: Entity)
        requires
            old(self).wf(),
        ensures
            final(self).wf(),
            final(self)@ == old(self)@.set_parent(child, parent),
    {
        let old_parent = match self.nodes.get(child) {
            Some(node) => Some(node.parent),
            None => None,
        };
        match old_parent {
            Some(listed_under) => {
                self.unlist(child, listed_under);
            },
            None => {},
        }
        let ghost detached = self@;
        let ghost middle = self.nodes@;
        proof {
            assert forall|n: SceneNode|
                node_states(#[trigger] middle.insert(parent, n)) == node_states(middle).insert(
                    parent,
                    n@,
                ) by {
                assert(node_states(middle.insert(parent, n)) =~= node_states(middle).insert(
                    parent,
                    n@,
                ));
            }
        }
        match self.nodes.get_mut(parent) {
            Some(node) => {
                node.children.push(child);
            },
            None => {},
        }
        assert(self@ == detached.listed(child, parent));
        let ghost listed = self@;
        let ghost last = self.nodes@;
        proof {
            assert forall|n: SceneNode|
                node_states(#[trigger] last.insert(child, n)) == node_states(last).insert(
                    child,
                    n@,
                ) by {
                assert(node_states(last.insert(child, n)) =~= node_states(last).insert(child, n@));
            }
        }
        match self.nodes.get_mut(child) {
            Some(node) => {
                node.parent = Some(parent);
            },
            None => {},
        }
        assert(self@ == listed.reparented(child, parent));
    }

    /// Get root entities.
    pub fn roots(&self) -> (roots: &[Entity])
        ensures
            roots@ == self@.roots,
    {
        self.roots.as_slice()
    }

    /// Get children of an entity.
    pub fn children(&self, entity: Entity) -> (children: &[Entity])
        requires
            self.wf(),
        ensures
            children@ == self@.children(entity),
    {
        match self.nodes.get(entity) {
            Some(node) => node.children.as_slice(),
            None => {
                let none: &[Entity] = &[];
                none
            },
        }
    }

    /// Remove an entity and all its children: the entity and every node
    /// that a path of children leads to from it lose their nodes, each leaves
    /// the list where it was listed, and every other node stays.
    pub fn remove(&mut self, entity: Entity)
        requires
            old(self).wf(),
        ensures
            final(self).wf(),
            final(self)@ == old(self)@.remove(entity),
            !final(self)@.nodes.dom().contains(entity),
            forall|other: Entity| #[trigger]
                final(self)@.nodes.dom().contains(other) <==> (old(self)@.nodes.dom().contains(
                    other,
                ) && !old(self)@.is_descendant(entity, other)),
    {
        proof {
            self.lemma_finite();
            law_remove_takes_the_subtree(self@, entity, entity);
            assert forall|other: Entity| #[trigger]
                self@.remove(entity).nodes.dom().contains(other) <==> (self@.nodes.dom().contains(
                    other,
                ) && !self@.is_descendant(entity, other)) by {
                law_remove_takes_the_subtree(self@, entity, other);
            }
        }
        let mut pending: Vec<Entity> = Vec::new();
        pending.push(entity);
        assert(pending@ =~= seq![entity]);
        proof {
            self.lemma_finite();
        }
        while pending.len() > 0
            invariant
                self.wf(),
                self@.nodes.dom().finite(),
                self@.drained(pending@) == old(self)@.remove(entity),
            decreases self.node_count(), pending@.len(),
        {
            let ghost before = self@;
            let ghost stack = pending@;
            let current = pending.pop().unwrap();
            let found = match self.nodes.get(current) {
                Some(node) => {
                    let mut k: usize = node.children.len();
                    while k > 0
                        invariant
                            k <= node.children@.len(),
                            pending@ == stack.drop_last() + reversed(node.children@).take(
                                node.children@.len() - k,
                            ),
                        decreases k,
                    {
                        k = k - 1;
                        pending.push(node.children[k]);
                        assert(pending@ =~= stack.drop_last() + reversed(node.children@).take(
                            node.children@.len() - k,
                        ));
                    }
                    assert(reversed(node.children@).take(node.children@.len() as int)
                        =~= reversed(node.children@));
                    Some(node.parent)
                },
                None => None,
            };
            match found {
                Some(parent) => {
                    self.nodes.remove(current);
                    assert(self@.nodes =~= before.nodes.remove(current));
                    self.unlist(current, parent);
                    proof {
                        self.lemma_finite();
                    }
                    assert(self@ == before.detached(current));
                },
                None => {},
            }
        }
    }
}

} // verus!
