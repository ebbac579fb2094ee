use ducka::error::WinError;
use ducka::geometry::Frac;
use ducka::window::{Axis, WinType, WindowSystem};

#[test]
fn new_system_focuses_the_root() {
    let ws = WindowSystem::new((10, 4));
    assert_eq!(ws.focused, ws.root);
}

#[test]
fn parent_of_root_fails_with_no_parent() {
    let ws = WindowSystem::new((10, 4));
    let root = ws.root;
    assert_eq!(ws.get_parent(&root), Err(WinError::NoParent(root)));
}

#[test]
fn split_children_have_the_split_window_as_parent() {
    let mut ws = WindowSystem::new((10, 4));
    let root = ws.root;
    let (a, b) = ws
        .split_at(root, WinType::Text(String::from("A")), WinType::Text(String::from("B")), Axis::Vertical, Frac::half())
        .unwrap();
    assert_ne!(a, b);
    assert_eq!(ws.get_parent(&a), Ok(root));
    assert_eq!(ws.get_parent(&b), Ok(root));
}

#[test]
fn removing_a_leaf_returns_its_former_parent() {
    let mut ws = WindowSystem::new((10, 4));
    let root = ws.root;
    let (a, _b) = ws
        .split_at(root, WinType::Text(String::from("A")), WinType::Text(String::from("B")), Axis::Vertical, Frac::half())
        .unwrap();
    assert_eq!(ws.remove(a), Ok(root));
    // The removed identity is gone for good: looking its parent up now
    // reports a missing window, not a missing parent.
    assert_eq!(ws.get_parent(&a), Err(WinError::NodeNotFound(a)));
}

#[test]
fn stale_identities_are_reported_as_not_found() {
    let mut ws = WindowSystem::new((10, 4));
    let root = ws.root;
    let (a, _b) = ws
        .split_at(root, WinType::Empty, WinType::Empty, Axis::Vertical, Frac::half())
        .unwrap();
    ws.remove(a).unwrap();
    let r = ws.split_at(a, WinType::Empty, WinType::Empty, Axis::Vertical, Frac::half());
    assert_eq!(r, Err(WinError::NodeNotFound(a)));
    assert_eq!(ws.remove(a), Err(WinError::NodeNotFound(a)));
}

#[test]
fn removing_the_root_is_rejected() {
    let mut ws = WindowSystem::new((10, 4));
    let root = ws.root;
    assert_eq!(ws.remove(root), Err(WinError::NoParent(root)));
}

#[test]
fn splitting_at_the_focused_root_is_rejected() {
    let mut ws = WindowSystem::new((10, 4));
    let root = ws.root;
    // The root has no parent to reparent the new container under.
    let r = ws.split_focused(WinType::Text(String::from("C")), Axis::Horizontal, Frac::half());
    assert_eq!(r, Err(WinError::NoParent(root)));
    let r = ws.vertical(WinType::Text(String::from("C")), Frac::half());
    assert_eq!(r, Err(WinError::NoParent(root)));
}

#[test]
fn split_focused_reparents_the_focused_leaf() {
    let mut ws = WindowSystem::new((10, 4));
    let root = ws.root;
    let (a, b) = ws
        .split_at(root, WinType::Text(String::from("A")), WinType::Text(String::from("B")), Axis::Vertical, Frac::half())
        .unwrap();
    ws.focused = a;
    let c = ws.split_focused(WinType::Text(String::from("C")), Axis::Horizontal, Frac::half()).unwrap();
    // The new leaf and the demoted window now share a fresh container,
    // which hangs where the focused window hung; the sibling is untouched.
    let container = ws.get_parent(&c).unwrap();
    assert_eq!(ws.get_parent(&a), Ok(container));
    assert_eq!(ws.get_parent(&container), Ok(root));
    assert_eq!(ws.get_parent(&b), Ok(root));
    // Focus does not move by itself.
    assert_eq!(ws.focused, a);
}

#[test]
fn new_vertical_and_new_horizontal_split_the_focused_window() {
    let mut ws = WindowSystem::new((10, 4));
    let root = ws.root;
    let (a, b) = ws.new_vertical(WinType::Empty, WinType::Empty, Frac::half());
    assert_eq!(ws.get_parent(&a), Ok(root));
    assert_eq!(ws.get_parent(&b), Ok(root));
    ws.focused = a;
    let (c, d) = ws.new_horizontal(WinType::Text(String::from("c")), WinType::Text(String::from("d")), Frac::half());
    assert_eq!(ws.get_parent(&c), Ok(a));
    assert_eq!(ws.get_parent(&d), Ok(a));
}
