use repo_index::tree::{SyntaxNode, SyntaxTree};

fn tree_node(kind: &str, field: Option<&str>, bytes: (usize, usize), span: usize) -> SyntaxNode {
    SyntaxNode {
        kind: kind.to_string(),
        fields: field.map(|f| f.to_string()).into_iter().collect(),
        start_byte: bytes.0,
        end_byte: bytes.1,
        start_row: 0,
        end_row: 0,
        span,
    }
}

fn sample_tree() -> SyntaxTree {
    // root(a(b, c), d, e(f))
    SyntaxTree::new(vec![
        tree_node("root", None, (0, 6), 7),
        tree_node("a", Some("left"), (0, 2), 3),
        tree_node("b", None, (0, 1), 1),
        tree_node("c", Some("name"), (1, 2), 1),
        tree_node("d", Some("name"), (2, 3), 1),
        tree_node("e", Some("name"), (3, 6), 2),
        tree_node("f", None, (4, 5), 1),
    ])
    .unwrap()
}

#[test]
fn tree_lists_children_in_order() {
    let tree = sample_tree();
    assert_eq!(tree.len(), 7);
    assert_eq!(tree.children(0), vec![1, 4, 5]);
    assert_eq!(tree.children(1), vec![2, 3]);
    assert_eq!(tree.children(2), Vec::<usize>::new());
    assert_eq!(tree.children(5), vec![6]);
}

#[test]
fn tree_finds_first_child_by_field() {
    let tree = sample_tree();
    assert_eq!(tree.child_by_field_name(0, "name"), Some(4));
    assert_eq!(tree.child_by_field_name(0, "left"), Some(1));
    assert_eq!(tree.child_by_field_name(1, "name"), Some(3));
    assert_eq!(tree.child_by_field_name(0, "missing"), None);
    assert_eq!(tree.child_by_field_name(2, "name"), None);
    assert_eq!(tree.first_child(0), Some(1));
    assert_eq!(tree.first_child(5), Some(6));
    assert_eq!(tree.first_child(6), None);
}

#[test]
fn tree_finds_previous_siblings() {
    let tree = sample_tree();
    assert_eq!(tree.prev_sibling(0), None);
    assert_eq!(tree.prev_sibling(1), None);
    assert_eq!(tree.prev_sibling(2), None);
    assert_eq!(tree.prev_sibling(3), Some(2));
    assert_eq!(tree.prev_sibling(4), Some(1));
    assert_eq!(tree.prev_sibling(5), Some(4));
    assert_eq!(tree.prev_sibling(6), None);
}

#[test]
fn tree_reads_kind_text_and_lines() {
    let tree = sample_tree();
    assert!(tree.has_kind(5, "e"));
    assert!(!tree.has_kind(5, "f"));
    assert_eq!(tree.node(3).kind, "c");
    assert_eq!(tree.text(5, "abcdef"), "def");
    assert_eq!(tree.text(5, "abc"), "");
    assert_eq!(tree.start_line(0), 1);
    assert_eq!(tree.end_line(0), 1);
}

#[test]
fn tree_rejects_ill_formed_nodes() {
    assert!(SyntaxTree::new(Vec::new()).is_none());
    // the root does not span all nodes
    assert!(SyntaxTree::new(vec![
        tree_node("root", None, (0, 1), 1),
        tree_node("stray", None, (0, 1), 1),
    ])
    .is_none());
    // a subtree of size zero
    assert!(SyntaxTree::new(vec![
        tree_node("root", None, (0, 1), 2),
        tree_node("empty", None, (0, 1), 0),
    ])
    .is_none());
    // a child that reaches beyond its parent
    assert!(SyntaxTree::new(vec![
        tree_node("root", None, (0, 1), 4),
        tree_node("a", None, (0, 1), 2),
        tree_node("b", None, (0, 1), 2),
        tree_node("c", None, (0, 1), 1),
    ])
    .is_none());
    // a subtree that reaches beyond the tree
    assert!(SyntaxTree::new(vec![
        tree_node("root", None, (0, 1), 2),
        tree_node("a", None, (0, 1), 5),
    ])
    .is_none());
}

#[test]
fn tree_rejects_rows_out_of_order() {
    let mut node = tree_node("root", None, (0, 1), 1);
    node.start_row = 3;
    node.end_row = 2;
    assert!(SyntaxTree::new(vec![node]).is_none());
    let mut last = tree_node("root", None, (0, 1), 1);
    last.start_row = usize::MAX;
    last.end_row = usize::MAX;
    assert!(SyntaxTree::new(vec![last]).is_none());
    let mut fine = tree_node("root", None, (0, 1), 1);
    fine.start_row = 2;
    fine.end_row = 2;
    let tree = SyntaxTree::new(vec![fine]).unwrap();
    assert_eq!(tree.start_line(0), 3);
    assert_eq!(tree.end_line(0), 3);
}
