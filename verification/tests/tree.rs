use swaytab::tree::{add_node_to_vec, tree_to_vec_of_names, Node};

fn leaf(id: i64, name: Option<&str>) -> Node {
    Node { id, name: name.map(|n| n.to_string()), nodes: Vec::new(), floating_nodes: Vec::new() }
}

fn pair(id: i64, name: &str) -> (i64, String) {
    (id, name.to_string())
}

#[test]
fn unnamed_node_gets_null() {
    assert_eq!(tree_to_vec_of_names(leaf(5, None)), vec![pair(5, "null")]);
}

#[test]
fn named_node_keeps_its_name() {
    assert_eq!(tree_to_vec_of_names(leaf(9, Some("Terminal"))), vec![pair(9, "Terminal")]);
}

#[test]
fn empty_name_is_not_null() {
    assert_eq!(tree_to_vec_of_names(leaf(9, Some(""))), vec![pair(9, "")]);
}

#[test]
fn children_come_before_their_parent() {
    let b = Node {
        id: 2,
        name: None,
        nodes: vec![leaf(3, Some("Bar"))],
        floating_nodes: Vec::new(),
    };
    let root = Node {
        id: 100,
        name: None,
        nodes: vec![leaf(1, Some("Foo")), b],
        floating_nodes: Vec::new(),
    };
    assert_eq!(
        tree_to_vec_of_names(root),
        vec![pair(1, "Foo"), pair(3, "Bar"), pair(2, "null"), pair(100, "null")]
    );
}

#[test]
fn floating_children_follow_ordinary_ones() {
    let inner = Node {
        id: 4,
        name: Some("float".to_string()),
        nodes: vec![leaf(5, Some("deep"))],
        floating_nodes: vec![leaf(6, None)],
    };
    let root = Node {
        id: 1,
        name: Some("root".to_string()),
        nodes: vec![leaf(2, Some("a")), leaf(3, Some("b"))],
        floating_nodes: vec![inner, leaf(7, Some("last"))],
    };
    assert_eq!(
        tree_to_vec_of_names(root),
        vec![
            pair(2, "a"),
            pair(3, "b"),
            pair(5, "deep"),
            pair(6, "null"),
            pair(4, "float"),
            pair(7, "last"),
            pair(1, "root"),
        ]
    );
}

#[test]
fn one_candidate_for_each_node() {
    let mut level = leaf(0, None);
    for id in 1..50 {
        level = Node {
            id,
            name: None,
            nodes: vec![level, leaf(1000 + id, Some("x"))],
            floating_nodes: vec![leaf(2000 + id, None)],
        };
    }
    let flat = tree_to_vec_of_names(level);
    assert_eq!(flat.len(), 1 + 49 * 3);
    let mut ids: Vec<i64> = flat.iter().map(|c| c.0).collect();
    assert_eq!(*ids.last().unwrap(), 49);
    ids.sort();
    ids.dedup();
    assert_eq!(ids.len(), 1 + 49 * 3);
}

#[test]
fn duplicate_names_are_kept() {
    let root = Node {
        id: 1,
        name: Some("same".to_string()),
        nodes: vec![leaf(2, Some("same")), leaf(3, Some("same"))],
        floating_nodes: Vec::new(),
    };
    assert_eq!(
        tree_to_vec_of_names(root),
        vec![pair(2, "same"), pair(3, "same"), pair(1, "same")]
    );
}

#[test]
fn add_node_appends_to_what_is_there() {
    let mut list = vec![pair(77, "before")];
    let node = Node {
        id: 1,
        name: None,
        nodes: vec![leaf(2, Some("child"))],
        floating_nodes: Vec::new(),
    };
    add_node_to_vec(&mut list, &node);
    assert_eq!(list, vec![pair(77, "before"), pair(2, "child"), pair(1, "null")]);
}
