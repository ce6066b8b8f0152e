use grey_engine::ecs::Entity;
use grey_engine::scene::{retain_not, SceneGraph, SceneNode};

const NONE: &[Entity] = &[];

fn e(id: u32) -> Entity {
    Entity(id)
}

#[test]
fn new_node_has_no_parent_and_no_children() {
    let node = SceneNode::new(e(3));
    assert_eq!(node.entity, e(3));
    assert_eq!(node.parent, None);
    assert!(node.children.is_empty());
}

#[test]
fn new_graph_is_empty() {
    let graph = SceneGraph::new();
    assert_eq!(graph.roots(), NONE);
    assert_eq!(graph.children(e(0)), NONE);
}

#[test]
fn add_root_lists_the_entity() {
    let mut graph = SceneGraph::new();
    graph.add_root(e(1));
    graph.add_root(e(2));
    assert_eq!(graph.roots(), &[e(1), e(2)]);
    assert_eq!(graph.children(e(1)), NONE);
}

#[test]
fn add_root_again_resets_the_node_and_lists_it_twice() {
    let mut graph = SceneGraph::new();
    graph.add_root(e(1));
    graph.add_root(e(2));
    graph.set_parent(e(2), e(1));
    graph.add_root(e(1));
    assert_eq!(graph.roots(), &[e(1), e(1)]);
    assert_eq!(graph.children(e(1)), NONE);
}

#[test]
fn set_parent_moves_a_root_under_its_parent() {
    let mut graph = SceneGraph::new();
    graph.add_root(e(1));
    graph.add_root(e(2));
    graph.add_root(e(3));
    graph.set_parent(e(2), e(1));
    graph.set_parent(e(3), e(1));
    assert_eq!(graph.roots(), &[e(1)]);
    assert_eq!(graph.children(e(1)), &[e(2), e(3)]);
    graph.set_parent(e(3), e(2));
    assert_eq!(graph.children(e(1)), &[e(2)]);
    assert_eq!(graph.children(e(2)), &[e(3)]);
}

#[test]
fn set_parent_with_unknown_entities() {
    let mut graph = SceneGraph::new();
    graph.add_root(e(1));
    graph.set_parent(e(9), e(1));
    assert_eq!(graph.children(e(1)), &[e(9)]);
    assert_eq!(graph.roots(), &[e(1)]);
    graph.set_parent(e(1), e(7));
    assert_eq!(graph.roots(), NONE);
    assert_eq!(graph.children(e(7)), NONE);
    graph.set_parent(e(1), e(1));
    assert_eq!(graph.children(e(1)), &[e(9), e(1)]);
}

#[test]
fn remove_takes_the_subtree() {
    let mut graph = SceneGraph::new();
    for id in 1..=6 {
        graph.add_root(e(id));
    }
    graph.set_parent(e(2), e(1));
    graph.set_parent(e(3), e(1));
    graph.set_parent(e(4), e(2));
    graph.set_parent(e(5), e(4));
    assert_eq!(graph.roots(), &[e(1), e(6)]);
    graph.remove(e(2));
    assert_eq!(graph.children(e(1)), &[e(3)]);
    assert_eq!(graph.children(e(2)), NONE);
    assert_eq!(graph.children(e(4)), NONE);
    assert_eq!(graph.roots(), &[e(1), e(6)]);
    graph.set_parent(e(4), e(6));
    assert_eq!(graph.children(e(6)), &[e(4)]);
    graph.remove(e(1));
    assert_eq!(graph.roots(), &[e(6)]);
    assert_eq!(graph.children(e(1)), NONE);
    graph.remove(e(1));
    graph.remove(e(42));
    assert_eq!(graph.roots(), &[e(6)]);
    graph.remove(e(6));
    assert_eq!(graph.roots(), NONE);
}

#[test]
fn remove_ends_on_a_cycle() {
    let mut graph = SceneGraph::new();
    graph.add_root(e(1));
    graph.add_root(e(2));
    graph.set_parent(e(2), e(1));
    graph.set_parent(e(1), e(2));
    assert_eq!(graph.roots(), NONE);
    assert_eq!(graph.children(e(1)), &[e(2)]);
    assert_eq!(graph.children(e(2)), &[e(1)]);
    graph.remove(e(1));
    assert_eq!(graph.children(e(1)), NONE);
    assert_eq!(graph.children(e(2)), NONE);
    graph.add_root(e(3));
    graph.set_parent(e(3), e(3));
    assert_eq!(graph.children(e(3)), &[e(3)]);
    graph.remove(e(3));
    assert_eq!(graph.children(e(3)), NONE);
    assert_eq!(graph.roots(), NONE);
}

#[test]
fn retain_not_drops_every_occurrence() {
    let mut v = vec![e(1), e(2), e(1), e(3), e(1)];
    retain_not(&mut v, e(1));
    assert_eq!(v, vec![e(2), e(3)]);
    retain_not(&mut v, e(9));
    assert_eq!(v, vec![e(2), e(3)]);
    retain_not(&mut v, e(3));
    retain_not(&mut v, e(2));
    assert!(v.is_empty());
}

#[test]
fn remove_keeps_what_is_not_below_the_entity() {
    let mut graph = SceneGraph::new();
    for id in 1..=5 {
        graph.add_root(e(id));
    }
    graph.set_parent(e(2), e(1));
    graph.set_parent(e(4), e(3));
    graph.set_parent(e(5), e(4));
    graph.remove(e(1));
    assert_eq!(graph.roots(), &[e(3)]);
    assert_eq!(graph.children(e(3)), &[e(4)]);
    assert_eq!(graph.children(e(4)), &[e(5)]);
    assert_eq!(graph.children(e(1)), NONE);
    assert_eq!(graph.children(e(2)), NONE);
    graph.set_parent(e(5), e(1));
    assert_eq!(graph.children(e(4)), NONE);
    graph.remove(e(4));
    assert_eq!(graph.children(e(3)), NONE);
    graph.set_parent(e(9), e(5));
    assert_eq!(graph.children(e(5)), &[e(9)]);
}
