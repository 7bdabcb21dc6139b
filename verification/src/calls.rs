//! The call-site scan: the names of the callees of every call-like node in
//! a subtree.

use crate::text::texts;
use crate::tree::{
    child_by_field, children, first_child, index_view, indices, lemma_child_holding,
    lemma_children, node_ok, node_text, well_formed, NodeView, SyntaxTree,
};
use crate::walk::{
    child_items, lemma_pop_weight, lemma_push_all_weight, lemma_push_children,
    lemma_walk_children_holds, pending, stack_in_tree, stack_roots, walk, walk_children, Visit,
};
use vstd::prelude::*;

verus! {

/// Whether nodes of this kind are taken for calls.
pub open spec fn is_call_kind(kind: Seq<char>) -> bool {
    kind == "call_expression"@ || kind == "function_call"@ || kind == "invocation_expression"@
}

/// The node that names the callee of node `i`: the first child held as
/// `function`, else as `function_name`, else as `name`, else the first child.
pub open spec fn callee(nodes: Seq<NodeView>, i: int) -> Option<int> {
    if child_by_field(nodes, i, "function"@) is Some {
        child_by_field(nodes, i, "function"@)
    } else if child_by_field(nodes, i, "function_name"@) is Some {
        child_by_field(nodes, i, "function_name"@)
    } else if child_by_field(nodes, i, "name"@) is Some {
        child_by_field(nodes, i, "name"@)
    } else {
        first_child(nodes, i)
    }
}

/// The callee name that node `i` itself contributes: the text of its callee
/// node if `i` is a call and that text is not empty.
pub open spec fn call_names_at(nodes: Seq<NodeView>, source: Seq<char>, i: int) -> Seq<
    Seq<char>,
> {
    if is_call_kind(nodes[i].kind) {
        match callee(nodes, i) {
            Some(c) => if node_text(nodes, source, c).len() > 0 {
                seq![node_text(nodes, source, c)]
            } else {
                Seq::empty()
            },
            None => Seq::empty(),
        }
    } else {
        Seq::empty()
    }
}

/// The visit of the call-site scan: every node is looked at, and the scan
/// always goes on below it.
pub open spec fn call_visitor(nodes: Seq<NodeView>, source: Seq<char>) -> spec_fn(
    int,
    Option<Seq<char>>,
) -> Visit<Seq<char>> {
    |i: int, parent: Option<Seq<char>>|
        Visit { items: call_names_at(nodes, source, i), descend: Some(None) }
}

/// The callee names found in the subtree of node `i`, nested declarations
/// included, in the order of the walk; a name occurs as often as it is
/// called.
pub open spec fn calls_in(nodes: Seq<NodeView>, source: Seq<char>, i: int) -> Seq<Seq<char>> {
    walk(call_visitor(nodes, source), nodes, i, None)
}

/// A stack of nodes as a stack of nodes without enclosing entity.
pub open spec fn plain_stack(stack: Seq<usize>) -> Seq<(int, Option<Seq<char>>)> {
    Seq::new(stack.len(), |k: int| (stack[k] as int, None::<Seq<char>>))
}

/// The child of node `i` that names its callee.
fn callee_node(tree: &SyntaxTree, i: usize) -> (found: Option<usize>)
    requires
        i < tree@.len(),
    ensures
        index_view(found) == callee(tree@, i as int),
        found matches Some(c) ==> c < tree@.len(),
{
    let mut found = tree.child_by_field_name(i, "function");
    if found.is_none() {
        found = tree.child_by_field_name(i, "function_name");
    }
    if found.is_none() {
        found = tree.child_by_field_name(i, "name");
    }
    if found.is_none() {
        found = tree.first_child(i);
    }
    found
}

/// Whether node `i` is taken for a call.
fn is_call(tree: &SyntaxTree, i: usize) -> (yes: bool)
    requires
        i < tree@.len(),
    ensures
        yes == is_call_kind(tree@[i as int].kind),
{
    tree.has_kind(i, "call_expression") || tree.has_kind(i, "function_call") || tree.has_kind(
        i,
        "invocation_expression",
    )
}

/// The names of the callees of all calls in the subtree of `node`.
pub fn extract_function_calls(tree: &SyntaxTree, source: &str, node: usize) -> (calls: Vec<String>)
    requires
        node < tree@.len(),
    ensures
        texts(calls@) == calls_in(tree@, source@, node as int),
{
    let n = tree.len();
    let ghost nodes = tree@;
    let ghost visit = call_visitor(nodes, source@);
    let mut calls: Vec<String> = Vec::new();
    let mut stack: Vec<usize> = Vec::new();
    stack.push(node);
    proof {
        let start = plain_stack(stack@);
        assert(pending(visit, nodes, start.drop_last()) =~= Seq::<Seq<char>>::empty());
    }
    while stack.len() > 0
        invariant
            nodes == tree@,
            n == nodes.len(),
            well_formed(nodes),
            visit == call_visitor(nodes, source@),
            stack_in_tree(nodes, plain_stack(stack@)),
            texts(calls@) + pending(visit, nodes, plain_stack(stack@)) == calls_in(
                nodes,
                source@,
                node as int,
            ),
        decreases total_weight(nodes, stack@),
    {
        let ghost old_stack = plain_stack(stack@);
        let i = stack.pop().unwrap();
        let ghost rest = plain_stack(stack@);
        proof {
            assert(rest =~= old_stack.drop_last());
            lemma_pop_weight(nodes, old_stack);
            lemma_children(nodes, i as int);
        }
        if is_call(tree, i) {
            if let Some(c) = callee_node(tree, i) {
                let text = tree.text(c, source);
                if !text.is_empty() {
                    calls.push(text.to_owned());
                }
            }
        }
        let kids = tree.children(i);
        let mut k: usize = 0;
        while k < kids.len()
            invariant
                k <= kids.len(),
                indices(kids@) == children(nodes, i as int),
                plain_stack(stack@) == rest + child_items(nodes, i as int, k as int, None),
            decreases kids.len() - k,
        {
            let ghost before = plain_stack(stack@);
            stack.push(kids[k]);
            proof {
                assert(plain_stack(stack@) =~= before.push((kids@[k as int] as int, None)));
            }
            k = k + 1;
        }
        proof {
            let count = children(nodes, i as int).len() as int;
            lemma_push_children(visit, nodes, rest, i as int, count, None);
            lemma_push_all_weight(nodes, rest, i as int, None);
        }
    }
    calls
}

/// The total size of the subtrees of the nodes on the stack.
pub open spec fn total_weight(nodes: Seq<NodeView>, stack: Seq<usize>) -> int {
    crate::tree::total_span(nodes, stack_roots(plain_stack(stack)))
}

/// The callee names found in a subtree are found in every subtree that
/// holds it: a call inside a nested declaration counts for each declaration
/// around it.
pub proof fn lemma_calls_of_nested(
    nodes: Seq<NodeView>,
    source: Seq<char>,
    i: int,
    j: int,
    name: Seq<char>,
)
    requires
        well_formed(nodes),
        0 <= i <= j < i + nodes[i].span,
        i < nodes.len(),
        calls_in(nodes, source, j).contains(name),
    ensures
        calls_in(nodes, source, i).contains(name),
    decreases nodes[i].span,
{
    if i < j {
        let visitor = call_visitor(nodes, source);
        let k = lemma_child_holding(nodes, i, j);
        let child = children(nodes, i)[k];
        let count = children(nodes, i).len() as int;
        lemma_children(nodes, i);
        assert(node_ok(nodes, child));
        lemma_calls_of_nested(nodes, source, child, j, name);
        lemma_walk_children_holds(visitor, nodes, i, count, None, k, name);
        let own = call_names_at(nodes, source, i);
        let below = walk_children(visitor, nodes, i, count, None);
        let at = choose|at: int| 0 <= at < below.len() && below[at] == name;
        assert((own + below)[own.len() + at] == name);
    }
}

} // verus!
