//! The depth-first walk over a syntax tree that every extraction shares:
//! what it yields, stated by recursion over the tree, and the facts that tie
//! a work stack to that statement.

use crate::tree::{children, lemma_children, total_span, well_formed, NodeView};
use vstd::prelude::*;

verus! {

/// What the visit of one node yields.
pub struct Visit<T> {
    /// What the node itself contributes.
    pub items: Seq<T>,
    /// Whether the walk goes on below the node, and if so, which enclosing
    /// entity its children are told of.
    pub descend: Option<Option<Seq<char>>>,
}

/// What the walk yields from node `i` on, visited with the enclosing entity
/// `parent`: the node's own items, then those of its children's subtrees,
/// last child first.
pub open spec fn walk<T>(
    visit: spec_fn(int, Option<Seq<char>>) -> Visit<T>,
    nodes: Seq<NodeView>,
    i: int,
    parent: Option<Seq<char>>,
) -> Seq<T>
    decreases nodes.len() - i, children(nodes, i).len() + 1,
{
    if 0 <= i < nodes.len() {
        let v = visit(i, parent);
        match v.descend {
            Some(below) => v.items + walk_children(
                visit,
                nodes,
                i,
                children(nodes, i).len() as int,
                below,
            ),
            None => v.items,
        }
    } else {
        Seq::empty()
    }
}

/// What the walk yields from the subtrees of the first `count` children of
/// node `i`, the last of them first.
pub open spec fn walk_children<T>(
    visit: spec_fn(int, Option<Seq<char>>) -> Visit<T>,
    nodes: Seq<NodeView>,
    i: int,
    count: int,
    below: Option<Seq<char>>,
) -> Seq<T>
    decreases nodes.len() - i, count,
{
    if 0 <= i < nodes.len() && 0 < count <= children(nodes, i).len() {
        let child = children(nodes, i)[count - 1];
        let first = if i < child < nodes.len() {
            walk(visit, nodes, child, below)
        } else {
            Seq::empty()
        };
        first + walk_children(visit, nodes, i, count - 1, below)
    } else {
        Seq::empty()
    }
}

/// What the walk yields from a stack of pending nodes, the top of the stack
/// first.
pub open spec fn pending<T>(
    visit: spec_fn(int, Option<Seq<char>>) -> Visit<T>,
    nodes: Seq<NodeView>,
    stack: Seq<(int, Option<Seq<char>>)>,
) -> Seq<T>
    decreases stack.len(),
{
    if stack.len() == 0 {
        Seq::empty()
    } else {
        walk(visit, nodes, stack.last().0, stack.last().1) + pending(
            visit,
            nodes,
            stack.drop_last(),
        )
    }
}

/// The first `count` children of node `i`, each with the enclosing entity
/// `below`.
pub open spec fn child_items(nodes: Seq<NodeView>, i: int, count: int, below: Option<Seq<char>>)
    -> Seq<(int, Option<Seq<char>>)> {
    Seq::new(count as nat, |k: int| (children(nodes, i)[k], below))
}

/// The nodes on a stack.
pub open spec fn stack_roots(stack: Seq<(int, Option<Seq<char>>)>) -> Seq<int> {
    Seq::new(stack.len(), |k: int| stack[k].0)
}

/// Every node on the stack is a node of the tree.
pub open spec fn stack_in_tree(nodes: Seq<NodeView>, stack: Seq<(int, Option<Seq<char>>)>)
    -> bool {
    forall|k: int| 0 <= k < stack.len() ==> 0 <= (#[trigger] stack[k]).0 < nodes.len()
}

/// Pushing the first `count` children of a node makes the walk yield their
/// subtrees, last pushed first, before what was pending.
pub proof fn lemma_push_children<T>(
    visit: spec_fn(int, Option<Seq<char>>) -> Visit<T>,
    nodes: Seq<NodeView>,
    rest: Seq<(int, Option<Seq<char>>)>,
    i: int,
    count: int,
    below: Option<Seq<char>>,
)
    requires
        well_formed(nodes),
        0 <= i < nodes.len(),
        0 <= count <= children(nodes, i).len(),
    ensures
        pending(visit, nodes, rest + child_items(nodes, i, count, below)) == walk_children(
            visit,
            nodes,
            i,
            count,
            below,
        ) + pending(visit, nodes, rest),
    decreases count,
{
    let pushed = rest + child_items(nodes, i, count, below);
    if count == 0 {
    } else {
        lemma_children(nodes, i);
        assert(pushed.drop_last() =~= rest + child_items(nodes, i, count - 1, below));
        lemma_push_children(visit, nodes, rest, i, count - 1, below);
    }
}

/// The sizes of the subtrees of two lists of nodes add up.
pub proof fn lemma_total_span_concat(nodes: Seq<NodeView>, first: Seq<int>, second: Seq<int>)
    ensures
        total_span(nodes, first + second) == total_span(nodes, first) + total_span(nodes, second),
    decreases second.len(),
{
    if second.len() == 0 {
    } else {
        assert((first + second).drop_last() =~= first + second.drop_last());
        lemma_total_span_concat(nodes, first, second.drop_last());
    }
}

/// Replacing a node on the stack by all of its children takes one node off
/// the total of the subtrees on the stack.
pub proof fn lemma_push_all_weight(
    nodes: Seq<NodeView>,
    rest: Seq<(int, Option<Seq<char>>)>,
    i: int,
    below: Option<Seq<char>>,
)
    requires
        well_formed(nodes),
        0 <= i < nodes.len(),
    ensures
        total_span(
            nodes,
            stack_roots(rest + child_items(nodes, i, children(nodes, i).len() as int, below)),
        ) == total_span(nodes, stack_roots(rest)) + nodes[i].span - 1,
        stack_in_tree(nodes, rest) ==> stack_in_tree(
            nodes,
            rest + child_items(nodes, i, children(nodes, i).len() as int, below),
        ),
{
    let kids = children(nodes, i);
    let items = child_items(nodes, i, kids.len() as int, below);
    lemma_children(nodes, i);
    assert(stack_roots(rest + items) =~= stack_roots(rest) + kids);
    lemma_total_span_concat(nodes, stack_roots(rest), kids);
    if stack_in_tree(nodes, rest) {
        assert forall|k: int| 0 <= k < (rest + items).len() implies 0 <= (#[trigger] (rest
            + items)[k]).0 < nodes.len() by {
        }
    }
}

/// The total of the subtrees on a stack is the top's subtree and the total
/// of the rest, and is never negative.
pub proof fn lemma_pop_weight(nodes: Seq<NodeView>, stack: Seq<(int, Option<Seq<char>>)>)
    requires
        stack.len() > 0,
    ensures
        total_span(nodes, stack_roots(stack)) == total_span(nodes, stack_roots(stack.drop_last()))
            + nodes[stack.last().0].span,
        total_span(nodes, stack_roots(stack.drop_last())) >= 0,
{
    assert(stack_roots(stack).drop_last() =~= stack_roots(stack.drop_last()));
    lemma_total_span_nonnegative(nodes, stack_roots(stack.drop_last()));
}

/// A total of subtree sizes is not negative.
proof fn lemma_total_span_nonnegative(nodes: Seq<NodeView>, roots: Seq<int>)
    ensures
        total_span(nodes, roots) >= 0,
    decreases roots.len(),
{
    if roots.len() > 0 {
        lemma_total_span_nonnegative(nodes, roots.drop_last());
    }
}

/// What holds of every item of two sequences holds of every item of the
/// two in a row.
pub proof fn lemma_all_concat<T>(first: Seq<T>, second: Seq<T>, good: spec_fn(T) -> bool)
    requires
        forall|k: int| 0 <= k < first.len() ==> good(#[trigger] first[k]),
        forall|k: int| 0 <= k < second.len() ==> good(#[trigger] second[k]),
    ensures
        forall|k: int| 0 <= k < (first + second).len() ==> good(#[trigger] (first + second)[k]),
{
    assert forall|k: int| 0 <= k < (first + second).len() implies good(
        #[trigger] (first + second)[k],
    ) by {
    }
}

/// What holds of every item of every visit holds of every item that the
/// walk yields.
pub proof fn lemma_walk_items<T>(
    visit: spec_fn(int, Option<Seq<char>>) -> Visit<T>,
    nodes: Seq<NodeView>,
    i: int,
    parent: Option<Seq<char>>,
    good: spec_fn(T) -> bool,
)
    requires
        forall|j: int, p: Option<Seq<char>>, k: int|
            0 <= j < nodes.len() && 0 <= k < visit(j, p).items.len() ==> good(
                #[trigger] visit(j, p).items[k],
            ),
    ensures
        forall|k: int|
            0 <= k < walk(visit, nodes, i, parent).len() ==> good(
                #[trigger] walk(visit, nodes, i, parent)[k],
            ),
    decreases nodes.len() - i, children(nodes, i).len() + 1,
{
    if 0 <= i < nodes.len() {
        let v = visit(i, parent);
        assert forall|k: int| 0 <= k < v.items.len() implies good(#[trigger] v.items[k]) by {
        }
        match v.descend {
            Some(below) => {
                lemma_walk_children_items(
                    visit,
                    nodes,
                    i,
                    children(nodes, i).len() as int,
                    below,
                    good,
                );
                lemma_all_concat(
                    v.items,
                    walk_children(visit, nodes, i, children(nodes, i).len() as int, below),
                    good,
                );
            },
            None => {},
        }
    }
}

/// What holds of every item of every visit holds of every item that the
/// walk yields below a node.
pub proof fn lemma_walk_children_items<T>(
    visit: spec_fn(int, Option<Seq<char>>) -> Visit<T>,
    nodes: Seq<NodeView>,
    i: int,
    count: int,
    below: Option<Seq<char>>,
    good: spec_fn(T) -> bool,
)
    requires
        forall|j: int, p: Option<Seq<char>>, k: int|
            0 <= j < nodes.len() && 0 <= k < visit(j, p).items.len() ==> good(
                #[trigger] visit(j, p).items[k],
            ),
    ensures
        forall|k: int|
            0 <= k < walk_children(visit, nodes, i, count, below).len() ==> good(
                #[trigger] walk_children(visit, nodes, i, count, below)[k],
            ),
    decreases nodes.len() - i, count,
{
    if 0 <= i < nodes.len() && 0 < count <= children(nodes, i).len() {
        let child = children(nodes, i)[count - 1];
        let first = if i < child < nodes.len() {
            walk(visit, nodes, child, below)
        } else {
            Seq::empty()
        };
        if i < child < nodes.len() {
            lemma_walk_items(visit, nodes, child, below, good);
        }
        lemma_walk_children_items(visit, nodes, i, count - 1, below, good);
        lemma_all_concat(first, walk_children(visit, nodes, i, count - 1, below), good);
    }
}

/// What the walk yields from the subtree of one of the first `count`
/// children of a node, it yields from those children together.
pub proof fn lemma_walk_children_holds<T>(
    visit: spec_fn(int, Option<Seq<char>>) -> Visit<T>,
    nodes: Seq<NodeView>,
    i: int,
    count: int,
    below: Option<Seq<char>>,
    k: int,
    item: T,
)
    requires
        well_formed(nodes),
        0 <= i < nodes.len(),
        0 <= k < count <= children(nodes, i).len(),
        walk(visit, nodes, children(nodes, i)[k], below).contains(item),
    ensures
        walk_children(visit, nodes, i, count, below).contains(item),
    decreases count,
{
    lemma_children(nodes, i);
    let last = children(nodes, i)[count - 1];
    let first = walk(visit, nodes, last, below);
    let rest = walk_children(visit, nodes, i, count - 1, below);
    if k == count - 1 {
        let at = choose|at: int| 0 <= at < first.len() && first[at] == item;
        assert((first + rest)[at] == item);
    } else {
        lemma_walk_children_holds(visit, nodes, i, count - 1, below, k, item);
        let at = choose|at: int| 0 <= at < rest.len() && rest[at] == item;
        assert((first + rest)[first.len() + at] == item);
    }
}

/// The visits always let the walk go on below the node.
pub open spec fn always_descends<T>(visit: spec_fn(int, Option<Seq<char>>) -> Visit<T>) -> bool {
    forall|i: int, parent: Option<Seq<char>>| (#[trigger] visit(i, parent)).descend is Some
}

/// Where the walk always goes on below a node, it comes to every node of a
/// subtree: for each node `i` below `top` there is an enclosing entity with
/// which `i` is visited, and what the walk yields from `i` on it yields
/// from `top` on.
pub proof fn lemma_subtree_walked<T>(
    visit: spec_fn(int, Option<Seq<char>>) -> Visit<T>,
    nodes: Seq<NodeView>,
    top: int,
    over: Option<Seq<char>>,
    i: int,
) -> (told: Option<Seq<char>>)
    requires
        well_formed(nodes),
        always_descends(visit),
        0 <= top <= i < top + nodes[top].span,
        top < nodes.len(),
    ensures
        forall|item: T|
            walk(visit, nodes, i, told).contains(item) ==> walk(visit, nodes, top, over).contains(
                item,
            ),
    decreases nodes[top].span,
{
    if i == top {
        over
    } else {
        let k = crate::tree::lemma_child_holding(nodes, top, i);
        let child = children(nodes, top)[k];
        let count = children(nodes, top).len() as int;
        lemma_children(nodes, top);
        let here = visit(top, over);
        let below = here.descend->0;
        let told = lemma_subtree_walked(visit, nodes, child, below, i);
        assert forall|item: T| walk(visit, nodes, i, told).contains(item) implies walk(
            visit,
            nodes,
            top,
            over,
        ).contains(item) by {
            lemma_walk_children_holds(visit, nodes, top, count, below, k, item);
            let rest = walk_children(visit, nodes, top, count, below);
            let at = choose|at: int| 0 <= at < rest.len() && rest[at] == item;
            assert((here.items + rest)[here.items.len() + at] == item);
        }
        told
    }
}

} // verus!
