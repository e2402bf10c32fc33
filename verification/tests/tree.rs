use silica::gui::Gui;
use silica::geometry::Size;
use silica::store::NodeId;
use silica::style::{Area, Style};

fn kids(gui: &Gui, node: NodeId) -> Vec<NodeId> {
    gui.children(node).cloned().unwrap_or_default()
}

/// Every handle in a child list has that parent, and every parent entry is in that list.
fn assert_linked(gui: &Gui, nodes: &[NodeId]) {
    for id in nodes {
        if let Some(list) = gui.children(*id) {
            for child in list {
                assert_eq!(gui.parent(*child), Some(*id));
            }
        }
        if let Some(parent) = gui.parent(*id) {
            assert!(kids(gui, parent).contains(id));
        }
    }
}

#[test]
fn a_new_tree_has_one_root() {
    let gui = Gui::new();
    assert_eq!(gui.len(), 1);
    assert!(gui.contains(gui.root()));
    assert_eq!(gui.parent(gui.root()), None);
    assert!(gui.children(gui.root()).is_none());
    assert_eq!(*gui.get_style(gui.root()), Style::new());
    assert_eq!(*gui.get_area(gui.root()), Area::new());
    assert!(gui.get(gui.root()).unwrap().widget.is_none());
    assert!(!gui.needs_layout());
    assert!(!gui.exit_requested());
    assert!(!gui.root().is_null());
    assert!(NodeId::null().is_null());
    assert!(!gui.contains(NodeId::null()));
}

#[test]
fn created_nodes_are_distinct_and_unattached() {
    let mut gui = Gui::new();
    let a = gui.create_node(Style::new());
    let b = gui.create_node(Style { gap: 3, ..Style::new() });
    assert_ne!(a, b);
    assert_ne!(a, gui.root());
    assert_eq!(gui.len(), 3);
    assert_eq!(gui.get_style(b).gap, 3);
    assert_eq!(gui.parent(a), None);
    assert!(!gui.needs_layout());
}

#[test]
fn add_child_appends_in_order() {
    let mut gui = Gui::new();
    let root = gui.root();
    let a = gui.create_node(Style::new());
    let b = gui.create_node(Style::new());
    let c = gui.create_node(Style::new());
    gui.add_child(root, a);
    assert!(gui.needs_layout());
    gui.add_child(root, b);
    gui.add_child(root, c);
    assert_eq!(kids(&gui, root), vec![a, b, c]);
    assert_eq!(gui.parent(b), Some(root));
    assert_linked(&gui, &[root, a, b, c]);
}

#[test]
fn add_child_moves_a_node_from_its_previous_parent() {
    let mut gui = Gui::new();
    let root = gui.root();
    let p = gui.create_node(Style::new());
    let q = gui.create_node(Style::new());
    let x = gui.create_node(Style::new());
    let y = gui.create_node(Style::new());
    gui.add_child(root, p);
    gui.add_child(root, q);
    gui.add_child(p, x);
    gui.add_child(p, y);
    gui.add_child(q, x);
    assert_eq!(kids(&gui, p), vec![y]);
    assert_eq!(kids(&gui, q), vec![x]);
    assert_eq!(gui.parent(x), Some(q));
    assert_linked(&gui, &[root, p, q, x, y]);
    // adding a child again moves it to the end of the same list
    gui.add_child(root, p);
    assert_eq!(kids(&gui, root), vec![q, p]);
    assert_eq!(gui.parent(p), Some(root));
    assert_linked(&gui, &[root, p, q, x, y]);
}

#[test]
fn remove_child_detaches_without_deleting() {
    let mut gui = Gui::new();
    let root = gui.root();
    let a = gui.create_node(Style::new());
    let b = gui.create_node(Style::new());
    gui.add_child(root, a);
    gui.add_child(root, b);
    gui.layout();
    gui.remove_child(root, a);
    assert!(gui.needs_layout());
    assert_eq!(kids(&gui, root), vec![b]);
    assert_eq!(gui.parent(a), None);
    assert!(gui.contains(a));
    assert_linked(&gui, &[root, a, b]);
    // removing from a node that is not the parent leaves the parent entry alone
    gui.remove_child(a, b);
    assert_eq!(gui.parent(b), Some(root));
    gui.add_child(a, root);
    gui.layout();
    gui.remove_child(a, b);
    assert_eq!(gui.parent(b), Some(root));
    assert_eq!(kids(&gui, root), vec![b]);
}

#[test]
fn set_node_children_builds_a_subtree() {
    let mut gui = Gui::new();
    let a = gui.create_node(Style::new());
    let b = gui.create_node(Style::new());
    let p = gui.create_node(Style::new());
    gui.set_node_children(p, vec![]);
    assert!(gui.children(p).is_none());
    assert!(!gui.needs_layout());
    gui.set_node_children(p, vec![a, b]);
    assert!(gui.needs_layout());
    assert_eq!(kids(&gui, p), vec![a, b]);
    assert_eq!(gui.parent(a), Some(p));
    assert_eq!(gui.parent(b), Some(p));
    let root = gui.root();
    gui.add_child(root, p);
    assert_linked(&gui, &[root, p, a, b]);
}

#[test]
fn delete_removes_the_whole_subtree() {
    let mut gui = Gui::new();
    let root = gui.root();
    let p = gui.create_node(Style::new());
    let q = gui.create_node(Style::new());
    let x = gui.create_node(Style::new());
    let y = gui.create_node(Style::new());
    let z = gui.create_node(Style::new());
    gui.add_child(root, p);
    gui.add_child(root, q);
    gui.add_child(p, x);
    gui.add_child(p, y);
    gui.add_child(x, z);
    gui.layout();
    gui.delete(p);
    assert!(gui.needs_layout());
    for gone in [p, x, y, z] {
        assert!(!gui.contains(gone));
        assert_eq!(gui.parent(gone), None);
        assert!(gui.children(gone).is_none());
    }
    assert!(gui.contains(q));
    assert_eq!(kids(&gui, root), vec![q]);
    assert_eq!(gui.len(), 2);
    assert_linked(&gui, &[root, q]);
    // a stale handle is nobody: deleting it again does nothing
    gui.layout();
    gui.delete(p);
    assert!(!gui.needs_layout());
    assert_eq!(gui.len(), 2);
}

#[test]
fn delete_children_keeps_the_node_itself() {
    let mut gui = Gui::new();
    let root = gui.root();
    let p = gui.create_node(Style::new());
    let x = gui.create_node(Style::new());
    let z = gui.create_node(Style::new());
    gui.add_child(root, p);
    gui.add_child(p, x);
    gui.add_child(x, z);
    gui.layout();
    gui.delete_children(p);
    assert!(gui.needs_layout());
    assert!(gui.contains(p));
    assert!(!gui.contains(x));
    assert!(!gui.contains(z));
    assert!(gui.children(p).is_none());
    assert_eq!(gui.parent(p), Some(root));
    gui.layout();
    gui.delete_children(p);
    assert!(!gui.needs_layout());
}

#[test]
fn handles_of_deleted_nodes_stay_stale_when_slots_are_reused() {
    let mut gui = Gui::new();
    let a = gui.create_node(Style::new());
    gui.delete(a);
    let b = gui.create_node(Style { gap: 9, ..Style::new() });
    assert_ne!(a, b);
    assert!(!gui.contains(a));
    assert!(gui.get(a).is_none());
    assert!(gui.contains(b));
    assert_eq!(gui.get_style(b).gap, 9);
    let root = gui.root();
    gui.add_child(root, b);
    assert_eq!(gui.parent(b), Some(root));
    assert_eq!(gui.parent(a), None);
}

#[test]
fn clear_starts_over_with_a_new_root() {
    let mut gui = Gui::new();
    let root = gui.root();
    let a = gui.create_node(Style::new());
    gui.add_child(root, a);
    gui.layout();
    gui.clear();
    assert!(gui.needs_layout());
    assert_eq!(gui.len(), 1);
    assert!(gui.contains(gui.root()));
    assert!(!gui.contains(a));
    assert!(gui.children(gui.root()).is_none());
    assert_eq!(*gui.get_style(gui.root()), Style::new());
}

#[test]
fn styles_can_be_read_and_replaced() {
    let mut gui = Gui::new();
    let a = gui.create_node(Style::new());
    assert!(!gui.needs_layout());
    gui.set_style(a, Style { min_size: Size::new(4, 5), ..Style::new() });
    assert!(gui.needs_layout());
    assert_eq!(gui.get_style(a).min_size, Size::new(4, 5));
    gui.layout();
    gui.set_root(a);
    assert!(gui.needs_layout());
    assert_eq!(gui.root(), a);
    gui.request_exit();
    assert!(gui.exit_requested());
}
