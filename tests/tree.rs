use rust_lexer::tree::{Node, AST};

#[test]
fn new_tree_has_one_empty_node() {
    let t = AST::new();
    assert_eq!(t.nodes.len(), 1);
    assert_eq!(t.root, 0);
    assert_eq!(t.current, 0);
    assert_eq!(t.get_root().value, "");
    let n = Node::new();
    assert!(n.children.is_empty());
    assert!(n.parent.is_none());
}

#[test]
fn add_node_keeps_cursor() {
    let mut t = AST::new();
    let a = t.add_node("a".to_string());
    let b = t.add_node("b".to_string());
    assert_eq!((a, b), (1, 2));
    assert_eq!(t.current, 0);
    assert_eq!(t.get_current().children, vec![1, 2]);
    assert_eq!(t.nodes[2].parent, Some(0));
}

#[test]
fn add_child_appends_under_current() {
    let mut t = AST::new();
    let a = t.add_child("x".to_string());
    assert_eq!(t.current, 0);
    assert_eq!(t.root, 0);
    assert_eq!(t.get_current().children, vec![a]);
    assert_eq!(t.nodes[a].value, "x");
    assert!(t.nodes[a].children.is_empty());
}

#[test]
fn add_sibling_appends_under_current() {
    let mut t = AST::new();
    let a = t.add_child("a".to_string());
    let s = t.add_sibling("s".to_string());
    assert_eq!(t.current, 0);
    assert_eq!(t.root, 0);
    assert_eq!(t.get_current().children, vec![a, s]);
    assert_eq!(t.nodes[s].value, "s");
}

#[test]
fn add_parent_appends_under_current() {
    let mut t = AST::new();
    let p = t.add_parent("top".to_string());
    assert_eq!(t.root, 0);
    assert_eq!(t.current, 0);
    assert_eq!(t.get_root().children, vec![p]);
    assert_eq!(t.nodes[p].value, "top");
    assert_eq!(t.nodes[p].parent, Some(0));
}

#[test]
fn set_current_and_root() {
    let mut t = AST::new();
    let a = t.add_node("a".to_string());
    t.set_current(a);
    assert_eq!(t.get_current().value, "a");
    t.set_root(a);
    assert_eq!(t.get_root().value, "a");
}
