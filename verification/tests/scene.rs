use pf_runtime::scene::tree::{Node, Scene};
use pf_runtime::scene::{NodeAction, NodeId, Role, SceneError, StateTransition};

type Geometry = (f32, f32, f32, f32);

fn id(value: &str) -> NodeId {
    NodeId::new(value).unwrap()
}

fn button(name: &str, x: f32, y: f32) -> Node<Geometry> {
    Node::new(id(name), Role::Button, name, (x, y, 8.0, 8.0), "control").with_action(NodeAction::Activate)
}

fn root_with(children: Vec<Node<Geometry>>) -> Node<Geometry> {
    Node::new(id("root"), Role::Group, "root", (0.0, 0.0, 1.0, 1.0), "root").with_children(children)
}

fn row(width: usize) -> Scene<Geometry> {
    let nodes = (0..width)
        .map(|x| button(&format!("n-{x}-0"), x as f32 * 12.0, 0.0))
        .collect();
    Scene::new(root_with(nodes), id("n-0-0")).unwrap()
}

fn focused_ids(scene: &Scene<Geometry>) -> Vec<String> {
    let mut out = Vec::new();
    let mut stack = vec![scene.root()];
    while let Some(node) = stack.pop() {
        if node.state.focused {
            out.push(node.id.as_str().to_string());
        }
        for child in node.children.iter().rev() {
            stack.push(child);
        }
    }
    out
}

#[test]
fn validates_identifiers_and_default_anchor() {
    let duplicate = root_with(vec![button("same", 0.0, 0.0), button("same", 1.0, 0.0)]);
    assert_eq!(
        Scene::new(duplicate, id("same")).unwrap_err(),
        SceneError::DuplicateNodeId(id("same"))
    );

    let non_focusable = Node::new(id("root"), Role::Group, "root", (0.0, 0.0, 1.0, 1.0), "root");
    assert_eq!(
        Scene::new(non_focusable, id("root")).unwrap_err(),
        SceneError::DefaultFocusNotFocusable(id("root"))
    );
}

#[test]
fn empty_identifiers_are_rejected() {
    assert_eq!(NodeId::new("").unwrap_err(), SceneError::EmptyNodeId);
    assert_eq!(id("x").as_str(), "x");
}

#[test]
fn missing_default_anchor_is_reported() {
    let tree = root_with(vec![button("a", 0.0, 0.0)]);
    assert_eq!(
        Scene::new(tree, id("b")).unwrap_err(),
        SceneError::DefaultFocusMissing(id("b"))
    );
}

#[test]
fn the_first_repeated_identifier_in_preorder_is_named() {
    let nested = Node::new(id("group"), Role::Group, "group", (0.0, 0.0, 1.0, 1.0), "group")
        .with_children(vec![button("a", 0.0, 0.0), button("b", 0.0, 0.0)]);
    let tree = root_with(vec![nested, button("b", 1.0, 0.0), button("a", 2.0, 0.0)]);
    assert_eq!(
        Scene::new(tree, id("a")).unwrap_err(),
        SceneError::DuplicateNodeId(id("b"))
    );
}

#[test]
fn construction_focuses_exactly_the_default_anchor() {
    let scene = row(3);
    assert_eq!(scene.focused().as_str(), "n-0-0");
    assert_eq!(scene.default_focus().as_str(), "n-0-0");
    assert!(scene.focused_node().state.focused);
    assert_eq!(focused_ids(&scene), vec!["n-0-0".to_string()]);
}

#[test]
fn semantic_state_transitions_preserve_focus_ownership() {
    let mut scene = row(2);
    let second = id("n-1-0");
    for transition in [
        StateTransition::Selected(true),
        StateTransition::Checked(true),
        StateTransition::Expanded(true),
        StateTransition::Disabled(true),
    ] {
        scene.transition_state(&second, transition).unwrap();
    }
    let candidates: Vec<&str> = scene.focus_candidates().iter().map(|n| n.id.as_str()).collect();
    assert_eq!(candidates, vec!["n-0-0"]);
    assert!(!scene.focus_on(&second));
    assert_eq!(
        scene.transition_state(&id("n-0-0"), StateTransition::Disabled(true)),
        Err(SceneError::CannotDisableFocused(id("n-0-0")))
    );
    assert_eq!(
        scene.transition_state(&id("absent"), StateTransition::Selected(true)),
        Err(SceneError::NodeMissing(id("absent")))
    );
    assert_eq!(scene.focused().as_str(), "n-0-0");
    assert_eq!(focused_ids(&scene), vec!["n-0-0".to_string()]);
    let second_node = &scene.root().children[1];
    assert!(second_node.state.selected && second_node.state.checked && second_node.state.expanded);
    assert!(second_node.state.disabled && !second_node.state.focused);
}

#[test]
fn focus_moves_carry_the_focus_bit_and_reset_restores_the_anchor() {
    let mut scene = row(3);
    assert!(scene.focus_on(&id("n-2-0")));
    assert_eq!(scene.focused().as_str(), "n-2-0");
    assert_eq!(focused_ids(&scene), vec!["n-2-0".to_string()]);
    assert!(!scene.focus_on(&id("root")));
    assert!(!scene.focus_on(&id("absent")));
    assert_eq!(scene.focused().as_str(), "n-2-0");
    scene.reset_focus();
    assert_eq!(scene.focused().as_str(), "n-0-0");
    assert_eq!(focused_ids(&scene), vec!["n-0-0".to_string()]);
}

#[test]
fn candidates_follow_preorder_and_skip_disabled_and_inert_nodes() {
    let group = Node::new(id("group"), Role::Group, "group", (0.0, 0.0, 1.0, 1.0), "group")
        .with_children(vec![button("a", 0.0, 0.0), button("b", 0.0, 0.0)]);
    let tree = root_with(vec![group, button("c", 1.0, 0.0)]);
    let mut scene = Scene::new(tree, id("a")).unwrap();
    scene.transition_state(&id("b"), StateTransition::Disabled(true)).unwrap();
    let candidates: Vec<&str> = scene.focus_candidates().iter().map(|n| n.id.as_str()).collect();
    assert_eq!(candidates, vec!["a", "c"]);
    assert!(button("z", 0.0, 0.0).is_focusable());
    assert!(!root_with(Vec::new()).is_focusable());
}
