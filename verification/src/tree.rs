//! The window tree and its flattening into candidates.

use vstd::prelude::*;

verus! {

/// One element of the window tree: a container or a window.
pub struct Node {
    /// Identifier of the element, unique within one snapshot of the tree.
    pub id: i64,
    /// Display name, where the element has one.
    pub name: Option<String>,
    /// Ordinary children, in the window manager's order.
    pub nodes: Vec<Node>,
    /// Floating children, in the window manager's order.
    pub floating_nodes: Vec<Node>,
}

/// The name shown for an element that has none.
pub open spec fn null_name() -> Seq<char> {
    seq!['n', 'u', 'l', 'l']
}

/// The candidate that stands for `node` alone: its id and its display name.
pub open spec fn candidate_of(node: Node) -> (i64, Seq<char>) {
    (
        node.id,
        match node.name {
            Some(name) => name@,
            None => null_name(),
        },
    )
}

/// The candidates of a whole subtree: those of the ordinary children, then
/// those of the floating children, then the element itself.
pub open spec fn flatten(node: Node) -> Seq<(i64, Seq<char>)>
    decreases node, 1int,
{
    flatten_all(node.nodes@) + flatten_all(node.floating_nodes@) + seq![candidate_of(node)]
}

/// The candidates of a list of subtrees, one subtree after the other.
pub open spec fn flatten_all(list: Seq<Node>) -> Seq<(i64, Seq<char>)>
    decreases list, 0int,
{
    if list.len() == 0 {
        Seq::empty()
    } else {
        flatten_all(list.drop_last()) + flatten(list.last())
    }
}

/// What a list of candidates holds, each name taken as its characters.
pub open spec fn candidates_view(list: Seq<(i64, String)>) -> Seq<(i64, Seq<char>)> {
    Seq::new(list.len(), |i: int| (list[i].0, list[i].1@))
}

/// Appends the candidates of the subtree under `node` to `ids_names`.
pub fn add_node_to_vec(ids_names: &mut Vec<(i64, String)>, node: &Node)
    ensures
        candidates_view(final(ids_names)@) == candidates_view(old(ids_names)@) + flatten(*node),
    decreases *node,
{
    let ghost before = candidates_view(ids_names@);
    let mut i: usize = 0;
    while i < node.nodes.len()
        invariant
            i <= node.nodes.len(),
            candidates_view(ids_names@) == before + flatten_all(node.nodes@.take(i as int)),
        decreases node.nodes.len() - i,
    {
        add_node_to_vec(ids_names, &node.nodes[i]);
        proof {
            let head = node.nodes@.take(i as int + 1);
            assert(head.drop_last() == node.nodes@.take(i as int));
            assert(head.last() == node.nodes@[i as int]);
        }
        i += 1;
    }
    assert(node.nodes@.take(i as int) == node.nodes@);
    let ghost middle = candidates_view(ids_names@);
    let mut j: usize = 0;
    while j < node.floating_nodes.len()
        invariant
            j <= node.floating_nodes.len(),
            candidates_view(ids_names@) == middle + flatten_all(
                node.floating_nodes@.take(j as int),
            ),
        decreases node.floating_nodes.len() - j,
    {
        add_node_to_vec(ids_names, &node.floating_nodes[j]);
        proof {
            let head = node.floating_nodes@.take(j as int + 1);
            assert(head.drop_last() == node.floating_nodes@.take(j as int));
            assert(head.last() == node.floating_nodes@[j as int]);
        }
        j += 1;
    }
    assert(node.floating_nodes@.take(j as int) == node.floating_nodes@);
    let name = match &node.name {
        Some(name) => name.clone(),
        None => {
            proof {
                reveal_strlit("null");
            }
            assert("null"@ == null_name());
            "null".to_owned()
        },
    };
    let ghost filled = ids_names@;
    ids_names.push((node.id, name));
    assert(candidates_view(ids_names@) == candidates_view(filled) + seq![candidate_of(*node)]);
}

/// Flattens the tree under `root_node` into its candidates: every element
/// after all of its descendants, the root last.
pub fn tree_to_vec_of_names(root_node: Node) -> (ids_names: Vec<(i64, String)>)
    ensures
        candidates_view(ids_names@) == flatten(root_node),
{
    let mut ids_names: Vec<(i64, String)> = Vec::new();
    add_node_to_vec(&mut ids_names, &root_node);
    assert(candidates_view(Seq::<(i64, String)>::empty()) == Seq::<(i64, Seq<char>)>::empty());
    ids_names
}

} // verus!
