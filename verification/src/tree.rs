//! Syntax trees as plain data: the nodes of a tree in pre-order, each with
//! the number of nodes in its subtree.

use crate::text::{slice_text, str_eq, text_between, texts};
use vstd::prelude::*;

verus! {

/// One node of a syntax tree.
pub struct SyntaxNode {
    /// The grammar's tag for the node.
    pub kind: String,
    /// The field names under which the node's parent holds it.
    pub fields: Vec<String>,
    /// Byte offset of the node's first byte in the source.
    pub start_byte: usize,
    /// Byte offset just past the node's last byte in the source.
    pub end_byte: usize,
    /// Zero-based row on which the node starts.
    pub start_row: usize,
    /// Zero-based row on which the node ends.
    pub end_row: usize,
    /// Number of nodes in the node's subtree, the node included.
    pub span: usize,
}

/// What a node holds, as mathematical values.
pub struct NodeView {
    pub kind: Seq<char>,
    pub fields: Set<Seq<char>>,
    pub start_byte: nat,
    pub end_byte: nat,
    pub start_row: nat,
    pub end_row: nat,
    pub span: nat,
}

impl View for SyntaxNode {
    type V = NodeView;

    open spec fn view(&self) -> NodeView {
        NodeView {
            kind: self.kind@,
            fields: texts(self.fields@).to_set(),
            start_byte: self.start_byte as nat,
            end_byte: self.end_byte as nat,
            start_row: self.start_row as nat,
            end_row: self.end_row as nat,
            span: self.span as nat,
        }
    }
}

/// The views of a sequence of nodes.
pub open spec fn node_views(nodes: Seq<SyntaxNode>) -> Seq<NodeView> {
    Seq::new(nodes.len(), |k: int| nodes[k]@)
}

/// The indices of `v` as integers.
pub open spec fn indices(v: Seq<usize>) -> Seq<int> {
    Seq::new(v.len(), |k: int| v[k] as int)
}

/// Node `i` lies inside the tree, with a subtree that ends inside it, and
/// does not end on a row before the one it starts on.
pub open spec fn node_ok(nodes: Seq<NodeView>, i: int) -> bool {
    &&& 1 <= nodes[i].span
    &&& i + nodes[i].span <= nodes.len()
    &&& nodes[i].start_row <= nodes[i].end_row < usize::MAX
}

/// Stepping from `from` over whole subtrees arrives exactly at `end`.
pub open spec fn tiles(nodes: Seq<NodeView>, from: int, end: int) -> bool
    decreases end - from,
{
    if from == end {
        true
    } else if from < 0 || from >= nodes.len() || nodes[from].span == 0 || from
        + nodes[from].span > end {
        false
    } else {
        tiles(nodes, from + nodes[from].span, end)
    }
}

/// The nodes are a tree in pre-order: the first node spans all of them, and
/// the subtrees of each node's children, laid end to end, fill what the node
/// spans beyond itself.
pub open spec fn well_formed(nodes: Seq<NodeView>) -> bool {
    &&& nodes.len() >= 1
    &&& nodes[0].span == nodes.len()
    &&& forall|i: int| 0 <= i < nodes.len() ==> #[trigger] node_ok(nodes, i)
    &&& forall|i: int|
        0 <= i < nodes.len() ==> #[trigger] tiles(nodes, i + 1, i + nodes[i].span)
}

/// The roots of the subtrees that lie end to end between `from` and `end`.
pub open spec fn children_from(nodes: Seq<NodeView>, from: int, end: int) -> Seq<int>
    decreases end - from,
{
    if from < 0 || from >= end || from >= nodes.len() {
        Seq::empty()
    } else if nodes[from].span == 0 || from + nodes[from].span >= end {
        seq![from]
    } else {
        seq![from] + children_from(nodes, from + nodes[from].span, end)
    }
}

/// The children of node `i`, first to last.
pub open spec fn children(nodes: Seq<NodeView>, i: int) -> Seq<int> {
    children_from(nodes, i + 1, i + nodes[i].span)
}

/// The first of the subtree roots between `from` and `end` that its parent
/// holds under the field `name`.
pub open spec fn first_with_field(nodes: Seq<NodeView>, from: int, end: int, name: Seq<char>)
    -> Option<int>
    decreases end - from,
{
    if from < 0 || from >= end || from >= nodes.len() {
        None
    } else if nodes[from].fields.contains(name) {
        Some(from)
    } else if nodes[from].span == 0 || from + nodes[from].span >= end {
        None
    } else {
        first_with_field(nodes, from + nodes[from].span, end, name)
    }
}

/// The first child of node `i` held under the field `name`.
pub open spec fn child_by_field(nodes: Seq<NodeView>, i: int, name: Seq<char>) -> Option<int> {
    first_with_field(nodes, i + 1, i + nodes[i].span, name)
}

/// The first child of node `i`.
pub open spec fn first_child(nodes: Seq<NodeView>, i: int) -> Option<int> {
    if nodes[i].span > 1 && i + 1 < nodes.len() {
        Some(i + 1)
    } else {
        None
    }
}

/// The first node below `bound` whose subtree ends just before node `at`.
pub open spec fn first_ending(nodes: Seq<NodeView>, at: int, bound: int) -> Option<int>
    decreases bound,
{
    if bound <= 0 {
        None
    } else {
        match first_ending(nodes, at, bound - 1) {
            Some(k) => Some(k),
            None => if bound - 1 < nodes.len() && bound - 1 + nodes[bound - 1].span == at {
                Some(bound - 1)
            } else {
                None
            },
        }
    }
}

/// The sibling just before node `i`: in pre-order, the outermost subtree
/// that ends where `i` begins.
pub open spec fn prev_sibling(nodes: Seq<NodeView>, i: int) -> Option<int> {
    first_ending(nodes, i, nodes.len() as int)
}

/// An optional index as an optional integer.
pub open spec fn index_view(at: Option<usize>) -> Option<int> {
    match at {
        Some(k) => Some(k as int),
        None => None,
    }
}

/// The source text that node `i` covers.
pub open spec fn node_text(nodes: Seq<NodeView>, source: Seq<char>, i: int) -> Seq<char> {
    text_between(source, nodes[i].start_byte as int, nodes[i].end_byte as int)
}

/// The total size of the subtrees rooted at `roots`.
pub open spec fn total_span(nodes: Seq<NodeView>, roots: Seq<int>) -> int
    decreases roots.len(),
{
    if roots.len() == 0 {
        0
    } else {
        total_span(nodes, roots.drop_last()) + nodes[roots.last()].span
    }
}

/// A child found by its field is one of the subtree roots searched.
pub proof fn lemma_first_with_field_within(
    nodes: Seq<NodeView>,
    from: int,
    end: int,
    name: Seq<char>,
)
    ensures
        first_with_field(nodes, from, end, name) matches Some(c) ==> from <= c < end && 0 <= c
            < nodes.len(),
    decreases end - from,
{
    if !(from < 0 || from >= end || from >= nodes.len()) && !nodes[from].fields.contains(name) && !(
    nodes[from].span == 0 || from + nodes[from].span >= end) {
        lemma_first_with_field_within(nodes, from + nodes[from].span, end, name);
    }
}

/// A previous sibling, where there is one, comes earlier in pre-order.
pub proof fn lemma_first_ending_below(nodes: Seq<NodeView>, at: int, bound: int)
    ensures
        first_ending(nodes, at, bound) matches Some(k) ==> 0 <= k < bound && k < nodes.len() && k
            + nodes[k].span == at,
    decreases bound,
{
    if bound > 0 {
        lemma_first_ending_below(nodes, at, bound - 1);
    }
}

/// Subtrees that tile a range lie inside it, and their sizes add up to its
/// length.
pub proof fn lemma_tiled_children(nodes: Seq<NodeView>, from: int, end: int)
    requires
        0 <= from <= end <= nodes.len(),
        tiles(nodes, from, end),
    ensures
        total_span(nodes, children_from(nodes, from, end)) == end - from,
        forall|k: int|
            0 <= k < children_from(nodes, from, end).len() ==> {
                let c = #[trigger] children_from(nodes, from, end)[k];
                from <= c < end && c + nodes[c].span <= end && nodes[c].span >= 1
            },
    decreases end - from,
{
    if from != end {
        let next = from + nodes[from].span;
        lemma_tiled_children(nodes, next, end);
        lemma_total_span_front(nodes, from, children_from(nodes, next, end));
    }
}

/// The size of the first subtree adds to the total of the rest.
proof fn lemma_total_span_front(nodes: Seq<NodeView>, first: int, rest: Seq<int>)
    ensures
        total_span(nodes, seq![first] + rest) == nodes[first].span + total_span(nodes, rest),
    decreases rest.len(),
{
    let all = seq![first] + rest;
    if rest.len() == 0 {
        assert(total_span(nodes, all.drop_last()) == 0);
    } else {
        assert(all.drop_last() =~= seq![first] + rest.drop_last());
        lemma_total_span_front(nodes, first, rest.drop_last());
    }
}

/// In a well-formed tree the children of a node come after it, lie inside
/// its subtree, and their subtrees together hold every node of it but the
/// node itself.
pub proof fn lemma_children(nodes: Seq<NodeView>, i: int)
    requires
        well_formed(nodes),
        0 <= i < nodes.len(),
    ensures
        total_span(nodes, children(nodes, i)) == nodes[i].span - 1,
        forall|k: int|
            0 <= k < children(nodes, i).len() ==> {
                let c = #[trigger] children(nodes, i)[k];
                i < c < i + nodes[i].span && c < nodes.len() && c + nodes[c].span <= i
                    + nodes[i].span && nodes[c].span >= 1
            },
{
    assert(node_ok(nodes, i));
    lemma_tiled_children(nodes, i + 1, i + nodes[i].span);
}

/// Among subtrees that tile a range, the place of the one that holds node
/// `j`.
proof fn lemma_tile_index(nodes: Seq<NodeView>, from: int, end: int, j: int) -> (k: int)
    requires
        tiles(nodes, from, end),
        0 <= from <= j < end <= nodes.len(),
    ensures
        0 <= k < children_from(nodes, from, end).len(),
        children_from(nodes, from, end)[k] <= j < children_from(nodes, from, end)[k]
            + nodes[children_from(nodes, from, end)[k]].span,
    decreases end - from,
{
    let next = from + nodes[from].span;
    if j < next {
        0
    } else {
        let k = lemma_tile_index(nodes, next, end, j);
        assert(children_from(nodes, from, end) =~= seq![from] + children_from(nodes, next, end));
        k + 1
    }
}

/// In a well-formed tree every node below a node lies in the subtree of one
/// of its children.
pub proof fn lemma_child_holding(nodes: Seq<NodeView>, i: int, j: int) -> (k: int)
    requires
        well_formed(nodes),
        0 <= i < j < i + nodes[i].span,
        i < nodes.len(),
    ensures
        0 <= k < children(nodes, i).len(),
        children(nodes, i)[k] <= j < children(nodes, i)[k] + nodes[children(nodes, i)[k]].span,
{
    assert(node_ok(nodes, i));
    assert(tiles(nodes, i + 1, i + nodes[i].span));
    lemma_tile_index(nodes, i + 1, i + nodes[i].span, j)
}

/// Stepping over whole subtrees from the start of a tiled range arrives at
/// each of its subtree roots, each of which follows on the one before.
proof fn lemma_root_reached(nodes: Seq<NodeView>, from: int, end: int, k: int)
    requires
        tiles(nodes, from, end),
        0 <= from <= end <= nodes.len(),
        0 <= k < children_from(nodes, from, end).len(),
    ensures
        tiles(nodes, from, children_from(nodes, from, end)[k]),
        from <= children_from(nodes, from, end)[k] < end,
        k == 0 ==> children_from(nodes, from, end)[k] == from,
        k > 0 ==> children_from(nodes, from, end)[k] == children_from(nodes, from, end)[k - 1]
            + nodes[children_from(nodes, from, end)[k - 1]].span,
    decreases k,
{
    let next = from + nodes[from].span;
    if k > 0 {
        lemma_root_reached(nodes, next, end, k - 1);
    }
}

/// Subtrees that tile a range end where the range ends; there are none
/// exactly if the range is empty.
proof fn lemma_tiles_fill(nodes: Seq<NodeView>, from: int, end: int)
    requires
        tiles(nodes, from, end),
        0 <= from <= end <= nodes.len(),
    ensures
        children_from(nodes, from, end).len() == 0 <==> from == end,
        from < end ==> children_from(nodes, from, end).last() + nodes[children_from(
            nodes,
            from,
            end,
        ).last()].span == end,
    decreases end - from,
{
    if from != end {
        let next = from + nodes[from].span;
        if next < end {
            lemma_tiles_fill(nodes, next, end);
            let rest = children_from(nodes, next, end);
            assert(children_from(nodes, from, end) =~= seq![from] + rest);
            assert(children_from(nodes, from, end).last() == rest.last());
        }
    }
}

/// In a well-formed tree the first child of a node comes right after the
/// node, and every other child right after the subtree of the child before
/// it.
pub proof fn lemma_children_in_a_row(nodes: Seq<NodeView>, i: int, k: int)
    requires
        well_formed(nodes),
        0 <= i < nodes.len(),
        0 <= k < children(nodes, i).len(),
    ensures
        children(nodes, i)[k] == if k == 0 {
            i + 1
        } else {
            children(nodes, i)[k - 1] + nodes[children(nodes, i)[k - 1]].span
        },
{
    assert(node_ok(nodes, i));
    assert(tiles(nodes, i + 1, i + nodes[i].span));
    lemma_root_reached(nodes, i + 1, i + nodes[i].span, k);
}

/// In a well-formed tree the subtree of the last child of a node ends where
/// the subtree of the node ends, and a node without children is its whole
/// subtree.
pub proof fn lemma_children_fill(nodes: Seq<NodeView>, i: int)
    requires
        well_formed(nodes),
        0 <= i < nodes.len(),
    ensures
        children(nodes, i).len() == 0 ==> nodes[i].span == 1,
        children(nodes, i).len() > 0 ==> children(nodes, i).last() + nodes[children(
            nodes,
            i,
        ).last()].span == i + nodes[i].span,
{
    assert(node_ok(nodes, i));
    assert(tiles(nodes, i + 1, i + nodes[i].span));
    lemma_tiles_fill(nodes, i + 1, i + nodes[i].span);
}

/// Whether the node's parent holds it under the field `name`.
pub fn holds_field(node: &SyntaxNode, name: &str) -> (held: bool)
    ensures
        held == node@.fields.contains(name@),
{
    let mut k: usize = 0;
    while k < node.fields.len()
        invariant
            k <= node.fields.len(),
            forall|j: int| 0 <= j < k ==> node.fields@[j]@ != name@,
        decreases node.fields.len() - k,
    {
        if str_eq(node.fields[k].as_str(), name) {
            assert(texts(node.fields@)[k as int] == name@);
            return true;
        }
        k = k + 1;
    }
    assert forall|j: int| 0 <= j < texts(node.fields@).len() implies texts(node.fields@)[j]
        != name@ by {
    }
    false
}

/// A syntax tree: well-formed nodes in pre-order.
pub struct SyntaxTree {
    nodes: Vec<SyntaxNode>,
    before: Vec<Option<usize>>,
}

impl View for SyntaxTree {
    type V = Seq<NodeView>;

    closed spec fn view(&self) -> Seq<NodeView> {
        node_views(self.nodes@)
    }
}

impl SyntaxTree {
    #[verifier::type_invariant]
    spec fn inv(self) -> bool {
        &&& well_formed(node_views(self.nodes@))
        &&& self.before@.len() == self.nodes@.len()
        &&& forall|j: int|
            0 <= j < self.nodes@.len() ==> index_view(#[trigger] self.before@[j]) == prev_sibling(
                node_views(self.nodes@),
                j,
            )
    }

    /// Makes a tree of `nodes` if they are well-formed.
    pub fn new(nodes: Vec<SyntaxNode>) -> (tree: Option<SyntaxTree>)
        ensures
            tree is Some <==> well_formed(node_views(nodes@)),
            tree matches Some(t) ==> t@ == node_views(nodes@),
    {
        let ghost views = node_views(nodes@);
        let n = nodes.len();
        if n == 0 || nodes[0].span != n {
            return None;
        }
        let mut i: usize = 0;
        while i < n
            invariant
                i <= n,
                n == nodes.len(),
                views == node_views(nodes@),
                forall|k: int| 0 <= k < i ==> #[trigger] node_ok(views, k),
            decreases n - i,
        {
            let node = &nodes[i];
            if node.span < 1 || node.span > n - i || node.start_row > node.end_row || node.end_row
                == usize::MAX {
                assert(!node_ok(views, i as int));
                return None;
            }
            i = i + 1;
        }
        i = 0;
        while i < n
            invariant
                i <= n,
                n == nodes.len(),
                views == node_views(nodes@),
                forall|k: int| 0 <= k < n ==> #[trigger] node_ok(views, k),
                forall|k: int| 0 <= k < i ==> #[trigger] tiles(views, k + 1, k + views[k].span),
            decreases n - i,
        {
            assert(node_ok(views, i as int));
            let end = i + nodes[i].span;
            let mut j: usize = i + 1;
            while j < end
                invariant
                    i < j <= end <= n,
                    n == nodes.len(),
                    end == i + views[i as int].span,
                    views == node_views(nodes@),
                    forall|k: int| 0 <= k < n ==> #[trigger] node_ok(views, k),
                    tiles(views, j as int, end as int) == tiles(views, i + 1, end as int),
                decreases end - j,
            {
                assert(node_ok(views, j as int));
                let step = nodes[j].span;
                if step > end - j {
                    return None;
                }
                j = j + step;
            }
            i = i + 1;
        }
        let mut before: Vec<Option<usize>> = Vec::new();
        i = 0;
        while i < n
            invariant
                i <= n,
                before.len() == i,
                forall|e: int| 0 <= e < i ==> #[trigger] before@[e] == None::<usize>,
            decreases n - i,
        {
            before.push(None);
            i = i + 1;
        }
        i = 0;
        while i < n
            invariant
                i <= n,
                n == nodes.len(),
                before.len() == n,
                views == node_views(nodes@),
                forall|k: int| 0 <= k < n ==> #[trigger] node_ok(views, k),
                forall|e: int|
                    0 <= e < n ==> index_view(#[trigger] before@[e]) == first_ending(
                        views,
                        e,
                        i as int,
                    ),
            decreases n - i,
        {
            assert(node_ok(views, i as int));
            let end = i + nodes[i].span;
            if end < n && before[end].is_none() {
                before.set(end, Some(i));
            }
            i = i + 1;
        }
        let tree = SyntaxTree { nodes, before };
        Some(tree)
    }

    /// The number of nodes of the tree.
    pub fn len(&self) -> (n: usize)
        ensures
            n == self@.len(),
            well_formed(self@),
    {
        proof {
            use_type_invariant(self);
        }
        self.nodes.len()
    }

    /// Node `i`.
    pub fn node(&self, i: usize) -> (node: &SyntaxNode)
        requires
            i < self@.len(),
        ensures
            node@ == self@[i as int],
    {
        &self.nodes[i]
    }

    /// Whether node `i` has the given kind.
    pub fn has_kind(&self, i: usize, kind: &str) -> (yes: bool)
        requires
            i < self@.len(),
        ensures
            yes == (self@[i as int].kind == kind@),
    {
        str_eq(self.nodes[i].kind.as_str(), kind)
    }

    /// The children of node `i`, first to last.
    pub fn children(&self, i: usize) -> (kids: Vec<usize>)
        requires
            i < self@.len(),
        ensures
            indices(kids@) == children(self@, i as int),
            forall|k: int| 0 <= k < kids.len() ==> i < #[trigger] kids[k] < self@.len(),
    {
        proof {
            use_type_invariant(self);
        }
        let ghost views = self@;
        assert(node_ok(views, i as int));
        let end = i + self.nodes[i].span;
        let mut kids: Vec<usize> = Vec::new();
        let mut j: usize = i + 1;
        while j < end
            invariant
                i < j <= end <= self.nodes.len(),
                views == node_views(self.nodes@),
                well_formed(views),
                tiles(views, j as int, end as int),
                indices(kids@) + children_from(views, j as int, end as int) == children_from(
                    views,
                    i + 1,
                    end as int,
                ),
                forall|k: int| 0 <= k < kids.len() ==> i < #[trigger] kids[k] < views.len(),
            decreases end - j,
        {
            kids.push(j);
            j = j + self.nodes[j].span;
        }
        kids
    }

    /// The first child of node `i` that it holds under the field `name`.
    pub fn child_by_field_name(&self, i: usize, name: &str) -> (found: Option<usize>)
        requires
            i < self@.len(),
        ensures
            index_view(found) == child_by_field(self@, i as int, name@),
            found matches Some(c) ==> i < c < self@.len(),
    {
        proof {
            use_type_invariant(self);
        }
        let ghost views = self@;
        assert(node_ok(views, i as int));
        let end = i + self.nodes[i].span;
        let mut j: usize = i + 1;
        while j < end
            invariant
                i < j <= end <= self.nodes.len(),
                views == node_views(self.nodes@),
                well_formed(views),
                tiles(views, j as int, end as int),
                end == i + views[i as int].span,
                first_with_field(views, j as int, end as int, name@) == first_with_field(
                    views,
                    i + 1,
                    end as int,
                    name@,
                ),
            decreases end - j,
        {
            let held = holds_field(&self.nodes[j], name);
            if held {
                return Some(j);
            }
            j = j + self.nodes[j].span;
        }
        None
    }

    /// The first child of node `i`.
    pub fn first_child(&self, i: usize) -> (found: Option<usize>)
        requires
            i < self@.len(),
        ensures
            index_view(found) == first_child(self@, i as int),
            found matches Some(c) ==> i < c < self@.len(),
    {
        proof {
            use_type_invariant(self);
        }
        assert(node_ok(self@, i as int));
        if self.nodes[i].span > 1 {
            Some(i + 1)
        } else {
            None
        }
    }

    /// The sibling just before node `i`.
    pub fn prev_sibling(&self, i: usize) -> (found: Option<usize>)
        requires
            i < self@.len(),
        ensures
            index_view(found) == prev_sibling(self@, i as int),
            found matches Some(p) ==> p < i,
    {
        proof {
            use_type_invariant(self);
            lemma_first_ending_below(self@, i as int, self@.len() as int);
            if let Some(p) = self.before@[i as int] {
                assert(node_ok(self@, p as int));
            }
        }
        self.before[i]
    }

    /// The source text that node `i` covers.
    pub fn text<'a>(&self, i: usize, source: &'a str) -> (text: &'a str)
        requires
            i < self@.len(),
        ensures
            text@ == node_text(self@, source@, i as int),
    {
        slice_text(source, self.nodes[i].start_byte, self.nodes[i].end_byte)
    }

    /// The one-based line on which node `i` starts.
    pub fn start_line(&self, i: usize) -> (line: usize)
        requires
            i < self@.len(),
        ensures
            line == self@[i as int].start_row + 1,
    {
        proof {
            use_type_invariant(self);
        }
        assert(node_ok(self@, i as int));
        self.nodes[i].start_row + 1
    }

    /// The one-based line on which node `i` ends.
    pub fn end_line(&self, i: usize) -> (line: usize)
        requires
            i < self@.len(),
        ensures
            line == self@[i as int].end_row + 1,
    {
        proof {
            use_type_invariant(self);
        }
        assert(node_ok(self@, i as int));
        self.nodes[i].end_row + 1
    }
}

} // verus!
