//! What holds of every flattened tree: how many candidates there are, where
//! the candidate of each element stands, and that it stands behind those of
//! all the elements below it.

use crate::tree::{candidate_of, flatten, flatten_all, Node};
use vstd::prelude::*;

verus! {

/// The number of elements in the subtree under `node`, itself included.
pub open spec fn node_count(node: Node) -> nat
    decreases node, 1int,
{
    count_all(node.nodes@) + count_all(node.floating_nodes@) + 1
}

/// The number of elements in a list of subtrees.
pub open spec fn count_all(list: Seq<Node>) -> nat
    decreases list, 0int,
{
    if list.len() == 0 {
        0
    } else {
        count_all(list.drop_last()) + node_count(list.last())
    }
}

/// The number of children of `node`, ordinary and floating.
pub open spec fn child_count(node: Node) -> int {
    (node.nodes@.len() + node.floating_nodes@.len()) as int
}

/// The child of `node` with the number `i`: the ordinary children are
/// numbered first, the floating ones after them.
pub open spec fn child(node: Node, i: int) -> Node
    recommends
        0 <= i < child_count(node),
{
    if i < node.nodes@.len() {
        node.nodes@[i]
    } else {
        node.floating_nodes@[i - node.nodes@.len()]
    }
}

/// The number of elements in the subtrees of the children of `node` that
/// come before the child with the number `i`.
pub open spec fn child_offset(node: Node, i: int) -> int
    recommends
        0 <= i <= child_count(node),
{
    if i <= node.nodes@.len() {
        count_all(node.nodes@.take(i)) as int
    } else {
        (count_all(node.nodes@) + count_all(
            node.floating_nodes@.take(i - node.nodes@.len()),
        )) as int
    }
}

/// Whether `path` leads from `node` to an element of its subtree: each step
/// is the number of a child of the element reached so far.
pub open spec fn is_path(node: Node, path: Seq<int>) -> bool
    decreases path.len(),
{
    path.len() == 0 || (0 <= path[0] < child_count(node) && is_path(
        child(node, path[0]),
        path.drop_first(),
    ))
}

/// The element that `path` leads to from `node`.
pub open spec fn node_at(node: Node, path: Seq<int>) -> Node
    recommends
        is_path(node, path),
    decreases path.len(),
{
    if path.len() == 0 {
        node
    } else {
        node_at(child(node, path[0]), path.drop_first())
    }
}

/// The place, among the candidates of the subtree under `node`, of the
/// candidate of the element that `path` leads to.
pub open spec fn position(node: Node, path: Seq<int>) -> int
    recommends
        is_path(node, path),
    decreases path.len(),
{
    if path.len() == 0 {
        node_count(node) - 1
    } else {
        child_offset(node, path[0]) + position(child(node, path[0]), path.drop_first())
    }
}

/// A subtree has as many candidates as it has elements.
pub proof fn lemma_flatten_len(node: Node)
    ensures
        flatten(node).len() == node_count(node),
    decreases node, 1int,
{
    lemma_flatten_all_len(node.nodes@);
    lemma_flatten_all_len(node.floating_nodes@);
}

/// A list of subtrees has as many candidates as it has elements.
pub proof fn lemma_flatten_all_len(list: Seq<Node>)
    ensures
        flatten_all(list).len() == count_all(list),
    decreases list, 0int,
{
    if list.len() > 0 {
        lemma_flatten_all_len(list.drop_last());
        lemma_flatten_len(list.last());
    }
}

/// The candidate of the root of a subtree is the last of its candidates.
pub proof fn lemma_root_last(node: Node)
    ensures
        flatten(node).len() >= 1,
        flatten(node).last() == candidate_of(node),
{
}

/// The counts of the beginnings of a list grow with their length, by the
/// count of each subtree that is taken in.
proof fn lemma_count_take(list: Seq<Node>, k: int)
    requires
        0 <= k < list.len(),
    ensures
        count_all(list.take(k + 1)) == count_all(list.take(k)) + node_count(list[k]),
        count_all(list.take(k + 1)) <= count_all(list),
    decreases list.len(),
{
    assert(list.take(k + 1).drop_last() == list.take(k));
    assert(list.take(k + 1).last() == list[k]);
    if k + 1 == list.len() {
        assert(list.take(k + 1) == list);
    } else {
        lemma_count_take(list.drop_last(), k);
        assert(list.drop_last().take(k + 1) == list.take(k + 1));
    }
}

/// Of two beginnings of a list the longer one counts no less.
proof fn lemma_count_take_grows(list: Seq<Node>, i: int, j: int)
    requires
        0 <= i <= j <= list.len(),
    ensures
        count_all(list.take(i)) <= count_all(list.take(j)),
    decreases j - i,
{
    if i < j {
        lemma_count_take(list, j - 1);
        lemma_count_take_grows(list, i, j - 1);
    }
}

/// Within the candidates of a list of subtrees, those of the subtree with
/// the number `k` stand together, behind those of the subtrees before it.
proof fn lemma_list_slice(list: Seq<Node>, k: int)
    requires
        0 <= k < list.len(),
    ensures
        count_all(list.take(k)) + node_count(list[k]) <= flatten_all(list).len(),
        flatten_all(list).subrange(
            count_all(list.take(k)) as int,
            (count_all(list.take(k)) + node_count(list[k])) as int,
        ) == flatten(list[k]),
    decreases list.len(),
{
    let front = list.drop_last();
    lemma_flatten_all_len(front);
    lemma_flatten_len(list.last());
    if k + 1 == list.len() {
        assert(list.take(k) == front);
        assert(flatten_all(list).subrange(
            count_all(front) as int,
            (count_all(front) + node_count(list[k])) as int,
        ) == flatten(list[k]));
    } else {
        lemma_list_slice(front, k);
        assert(front.take(k) == list.take(k));
        let from = count_all(list.take(k)) as int;
        let to = from + node_count(list[k]);
        assert(flatten_all(list).subrange(from, to) == flatten_all(front).subrange(from, to));
    }
}

/// The subtrees of the children of `node` lie one behind the other, and all
/// of them before the place of `node` itself.
pub proof fn lemma_child_span(node: Node, i: int)
    requires
        0 <= i < child_count(node),
    ensures
        0 <= child_offset(node, i),
        child_offset(node, i + 1) == child_offset(node, i) + node_count(child(node, i)),
        child_offset(node, i + 1) <= node_count(node) - 1,
{
    let n = node.nodes@.len() as int;
    if i < n {
        lemma_count_take(node.nodes@, i);
        if i + 1 == n {
            assert(node.nodes@.take(n) == node.nodes@);
        }
    } else {
        lemma_count_take(node.floating_nodes@, i - n);
        if i == n {
            assert(node.nodes@.take(n) == node.nodes@);
            assert(node.floating_nodes@.take(0).len() == 0);
        }
    }
}

/// Of two children of `node`, the subtree of the one with the lower number
/// ends before that of the other begins.
pub proof fn lemma_child_spans_apart(node: Node, i: int, j: int)
    requires
        0 <= i < j < child_count(node),
    ensures
        child_offset(node, i) + node_count(child(node, i)) <= child_offset(node, j),
    decreases j - i,
{
    lemma_child_span(node, i);
    if i + 1 < j {
        lemma_child_span(node, j - 1);
        lemma_child_spans_apart(node, i, j - 1);
    }
}

/// The candidates of the subtree of a child of `node` stand together among
/// those of `node`, from the child's offset on.
pub proof fn lemma_child_slice(node: Node, i: int)
    requires
        0 <= i < child_count(node),
    ensures
        0 <= child_offset(node, i),
        child_offset(node, i) + node_count(child(node, i)) <= flatten(node).len() - 1,
        flatten(node).subrange(
            child_offset(node, i),
            child_offset(node, i) + node_count(child(node, i)),
        ) == flatten(child(node, i)),
{
    let n = node.nodes@.len() as int;
    let first = flatten_all(node.nodes@);
    let second = flatten_all(node.floating_nodes@);
    lemma_flatten_all_len(node.nodes@);
    lemma_flatten_all_len(node.floating_nodes@);
    lemma_flatten_len(node);
    lemma_child_span(node, i);
    let from = child_offset(node, i);
    let to = from + node_count(child(node, i));
    if i < n {
        lemma_list_slice(node.nodes@, i);
        assert(flatten(node).subrange(from, to) == first.subrange(from, to));
    } else {
        lemma_list_slice(node.floating_nodes@, i - n);
        if i == n {
            assert(node.nodes@.take(n) == node.nodes@);
            assert(node.floating_nodes@.take(0).len() == 0);
        }
        assert(flatten(node).subrange(from, to) == second.subrange(
            from - first.len(),
            to - first.len(),
        ));
    }
}

/// Every element of the tree has its candidate among those of the tree, at
/// the place that `position` gives.
pub proof fn lemma_candidate_at_position(node: Node, path: Seq<int>)
    requires
        is_path(node, path),
    ensures
        0 <= position(node, path) < flatten(node).len(),
        flatten(node)[position(node, path)] == candidate_of(node_at(node, path)),
    decreases path.len(),
{
    lemma_flatten_len(node);
    if path.len() > 0 {
        let i = path[0];
        let below = child(node, i);
        lemma_candidate_at_position(below, path.drop_first());
        lemma_child_slice(node, i);
        let from = child_offset(node, i);
        let inner = position(below, path.drop_first());
        assert(flatten(node).subrange(from, from + node_count(below))[inner] == flatten(
            node,
        )[from + inner]);
    }
}

/// The candidate of an element stands within the span of the child of
/// `node` through which its path leads.
pub proof fn lemma_position_in_child_span(node: Node, path: Seq<int>)
    requires
        is_path(node, path),
        path.len() > 0,
    ensures
        child_offset(node, path[0]) <= position(node, path) < child_offset(node, path[0])
            + node_count(child(node, path[0])),
{
    let below = child(node, path[0]);
    lemma_candidate_at_position(below, path.drop_first());
    lemma_flatten_len(below);
}

/// Post-order: the candidate of an element stands strictly behind the
/// candidate of every element below it. The element is reached by `upper`,
/// the one below it by `upper` and then `lower`.
pub proof fn lemma_descendants_first(node: Node, upper: Seq<int>, lower: Seq<int>)
    requires
        is_path(node, upper + lower),
        lower.len() > 0,
    ensures
        is_path(node, upper),
        position(node, upper + lower) < position(node, upper),
    decreases upper.len(),
{
    let whole = upper + lower;
    if upper.len() == 0 {
        assert(whole == lower);
        lemma_position_in_child_span(node, whole);
        lemma_child_span(node, whole[0]);
    } else {
        assert(whole[0] == upper[0]);
        assert(whole.drop_first() == upper.drop_first() + lower);
        lemma_descendants_first(child(node, upper[0]), upper.drop_first(), lower);
    }
}

/// Exactly once: the candidates of two different elements stand at
/// different places.
pub proof fn lemma_positions_differ(node: Node, one: Seq<int>, other: Seq<int>)
    requires
        is_path(node, one),
        is_path(node, other),
        one != other,
    ensures
        position(node, one) != position(node, other),
    decreases one.len(),
{
    if one.len() == 0 {
        assert(other.len() > 0) by {
            if other.len() == 0 {
                assert(one =~= other);
            }
        }
        assert(one + other == other);
        lemma_descendants_first(node, one, other);
    } else if other.len() == 0 {
        assert(other + one == one);
        lemma_descendants_first(node, other, one);
    } else {
        lemma_position_in_child_span(node, one);
        lemma_position_in_child_span(node, other);
        if one[0] < other[0] {
            lemma_child_spans_apart(node, one[0], other[0]);
        } else if other[0] < one[0] {
            lemma_child_spans_apart(node, other[0], one[0]);
        } else {
            assert(one.drop_first() != other.drop_first()) by {
                if one.drop_first() == other.drop_first() {
                    assert(one =~= seq![one[0]] + one.drop_first());
                    assert(other =~= seq![other[0]] + other.drop_first());
                }
            }
            lemma_positions_differ(child(node, one[0]), one.drop_first(), other.drop_first());
        }
    }
}

/// The subtrees of all the children of `node` together hold every element
/// under `node` but `node` itself.
pub proof fn lemma_children_span(node: Node)
    ensures
        child_offset(node, 0) == 0,
        child_offset(node, child_count(node)) == node_count(node) - 1,
{
    let n = node.nodes@.len() as int;
    let m = node.floating_nodes@.len() as int;
    assert(node.nodes@.take(0).len() == 0);
    assert(node.nodes@.take(n) == node.nodes@);
    assert(node.floating_nodes@.take(m) == node.floating_nodes@);
}

/// The child of `node`, among the first `upto`, in whose span the place `k`
/// lies.
proof fn lemma_child_around(node: Node, k: int, upto: int) -> (i: int)
    requires
        0 <= upto <= child_count(node),
        0 <= k < child_offset(node, upto),
    ensures
        0 <= i < upto,
        child_offset(node, i) <= k < child_offset(node, i) + node_count(child(node, i)),
    decreases upto,
{
    lemma_children_span(node);
    lemma_child_span(node, upto - 1);
    if k >= child_offset(node, upto - 1) {
        upto - 1
    } else {
        lemma_child_around(node, k, upto - 1)
    }
}

/// No candidate but those of the elements: every place among the candidates
/// of the tree is the place of an element of the tree, to which the path
/// that is returned leads.
pub proof fn lemma_place_has_path(node: Node, k: int) -> (path: Seq<int>)
    requires
        0 <= k < flatten(node).len(),
    ensures
        is_path(node, path),
        position(node, path) == k,
    decreases node_count(node),
{
    lemma_flatten_len(node);
    if k == node_count(node) - 1 {
        Seq::empty()
    } else {
        lemma_children_span(node);
        let i = lemma_child_around(node, k, child_count(node));
        let below = child(node, i);
        lemma_child_span(node, i);
        lemma_flatten_len(below);
        let rest = lemma_place_has_path(below, k - child_offset(node, i));
        let path = seq![i] + rest;
        assert(path[0] == i);
        assert(path.drop_first() == rest);
        path
    }
}

} // verus!
