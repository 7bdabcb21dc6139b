//! Documentation recovery: doc comments that precede a node, and docstrings
//! at the head of a body.

use crate::text::{
    join_lines, join_reversed, skip_prefix_all, skip_suffix_all, skip_whitespace,
    skip_whitespace_back, starts_with, str_starts_with, string_of, strip_one_each_end,
    strip_one_each_end_of, strip_prefix_all, strip_suffix_all, texts, to_chars, trim, trim_start,
    window_starts_with,
};
use crate::tree::{
    children, first_child, index_view, indices, node_text, prev_sibling, NodeView, SyntaxTree,
};
use vstd::prelude::*;

verus! {

/// The documentation line of a single-line comment: what is left of it
/// without its leading `///` markers and surrounding whitespace, if it is a
/// doc comment.
pub open spec fn line_comment_doc(text: Seq<char>) -> Option<Seq<char>> {
    if starts_with(trim_start(text), "///"@) {
        Some(trim(strip_prefix_all(text, "///"@)))
    } else {
        None
    }
}

/// The documentation of a block comment: what is left of it without its
/// opening `/**` and closing `*/` markers and surrounding whitespace, if it
/// is a doc comment.
pub open spec fn block_comment_doc(text: Seq<char>) -> Option<Seq<char>> {
    if starts_with(trim_start(text), "/**"@) {
        Some(trim(strip_suffix_all(strip_prefix_all(text, "/**"@), "*/"@)))
    } else {
        None
    }
}

/// Zero or one line.
pub open spec fn maybe_line(line: Option<Seq<char>>) -> Seq<Seq<char>> {
    match line {
        Some(l) => seq![l],
        None => Seq::empty(),
    }
}

/// The documentation found in the comments just before node `i`, nearest
/// first: going back over the siblings that precede `i`, doc comments are
/// collected, other comments are passed over, and the first sibling that is
/// no comment ends the search.
pub open spec fn doc_lines_before(nodes: Seq<NodeView>, source: Seq<char>, i: int) -> Seq<
    Seq<char>,
>
    decreases i,
{
    match prev_sibling(nodes, i) {
        Some(p) => if 0 <= p < i {
            let text = node_text(nodes, source, p);
            let kind = nodes[p].kind;
            if kind == "line_comment"@ {
                maybe_line(line_comment_doc(text)) + doc_lines_before(nodes, source, p)
            } else if kind == "block_comment"@ {
                maybe_line(block_comment_doc(text)) + doc_lines_before(nodes, source, p)
            } else if starts_with(kind, "comment"@) {
                doc_lines_before(nodes, source, p)
            } else {
                Seq::empty()
            }
        } else {
            Seq::empty()
        },
        None => Seq::empty(),
    }
}

/// The documentation of node `i` from the doc comments before it, top to
/// bottom, joined by line feeds.
pub open spec fn doc_comment(nodes: Seq<NodeView>, source: Seq<char>, i: int) -> Seq<char> {
    join_lines(doc_lines_before(nodes, source, i).reverse())
}

/// The first of `kids` whose kind is, or is not, `kind`, as `wanted` says.
pub open spec fn first_by_kind(nodes: Seq<NodeView>, kids: Seq<int>, kind: Seq<char>, wanted: bool)
    -> Option<int>
    decreases kids.len(),
{
    if kids.len() == 0 {
        None
    } else if (nodes[kids[0]].kind == kind) == wanted {
        Some(kids[0])
    } else {
        first_by_kind(nodes, kids.drop_first(), kind, wanted)
    }
}

/// The string literal that opens the body of node `i`: the body is the
/// first `block` among the children of `i`, and its first statement, the
/// first child that is no comment, has to be an expression statement made
/// of a string.
pub open spec fn docstring_node(nodes: Seq<NodeView>, i: int) -> Option<int> {
    match first_by_kind(nodes, children(nodes, i), "block"@, true) {
        Some(body) => match first_by_kind(nodes, children(nodes, body), "comment"@, false) {
            Some(statement) => if nodes[statement].kind == "expression_statement"@ {
                match first_child(nodes, statement) {
                    Some(literal) => if nodes[literal].kind == "string"@ {
                        Some(literal)
                    } else {
                        None
                    },
                    None => None,
                }
            } else {
                None
            },
            None => None,
        },
        None => None,
    }
}

/// The documentation of node `i` from the docstring of its body: the text
/// of the string literal less one double quote at each end; empty where
/// the body opens with no string.
pub open spec fn docstring(nodes: Seq<NodeView>, source: Seq<char>, i: int) -> Seq<char> {
    match docstring_node(nodes, i) {
        Some(literal) => strip_one_each_end(node_text(nodes, source, literal), '"'),
        None => Seq::empty(),
    }
}

/// The documentation line of a single-line comment, if it is a doc comment.
fn line_comment_doc_of(text: &str) -> (line: Option<String>)
    ensures
        crate::entity::string_view(line) == line_comment_doc(text@),
{
    let chars = to_chars(text);
    let marker = to_chars("///");
    let n = chars.len();
    assert(chars@.subrange(0, n as int) =~= chars@);
    let lead = skip_whitespace(&chars, 0, n);
    if window_starts_with(&chars, lead, n, &marker) {
        let from = skip_prefix_all(&chars, 0, n, &marker);
        let lo = skip_whitespace(&chars, from, n);
        let hi = skip_whitespace_back(&chars, lo, n);
        Some(string_of(&chars, lo, hi))
    } else {
        None
    }
}

/// The documentation of a block comment, if it is a doc comment.
fn block_comment_doc_of(text: &str) -> (line: Option<String>)
    ensures
        crate::entity::string_view(line) == block_comment_doc(text@),
{
    let chars = to_chars(text);
    let opening = to_chars("/**");
    let closing = to_chars("*/");
    let n = chars.len();
    assert(chars@.subrange(0, n as int) =~= chars@);
    let lead = skip_whitespace(&chars, 0, n);
    if window_starts_with(&chars, lead, n, &opening) {
        let from = skip_prefix_all(&chars, 0, n, &opening);
        let to = skip_suffix_all(&chars, from, n, &closing);
        let lo = skip_whitespace(&chars, from, to);
        let hi = skip_whitespace_back(&chars, lo, to);
        Some(string_of(&chars, lo, hi))
    } else {
        None
    }
}

/// The documentation of `node` from the doc comments before it.
pub fn extract_rust_doc_comment(tree: &SyntaxTree, source: &str, node: usize) -> (doc: String)
    requires
        node < tree@.len(),
    ensures
        doc@ == doc_comment(tree@, source@, node as int),
{
    let ghost nodes = tree@;
    let mut lines: Vec<String> = Vec::new();
    let mut cur: usize = node;
    loop
        invariant_except_break
            cur < nodes.len(),
            texts(lines@) + doc_lines_before(nodes, source@, cur as int) == doc_lines_before(
                nodes,
                source@,
                node as int,
            ),
        invariant
            nodes == tree@,
        ensures
            texts(lines@) == doc_lines_before(nodes, source@, node as int),
        decreases cur,
    {
        match tree.prev_sibling(cur) {
            None => {
                break ;
            },
            Some(prev) => {
                let text = tree.text(prev, source);
                if tree.has_kind(prev, "line_comment") {
                    if let Some(line) = line_comment_doc_of(text) {
                        lines.push(line);
                    }
                } else if tree.has_kind(prev, "block_comment") {
                    if let Some(line) = block_comment_doc_of(text) {
                        lines.push(line);
                    }
                } else if str_starts_with(tree.node(prev).kind.as_str(), "comment") {
                } else {
                    break ;
                }
                cur = prev;
            },
        }
    }
    join_reversed(&lines)
}

/// The first of `kids` whose kind is, or is not, `kind`, as `wanted` says.
fn find_by_kind(tree: &SyntaxTree, kids: &Vec<usize>, kind: &str, wanted: bool) -> (found: Option<
    usize,
>)
    requires
        forall|k: int| 0 <= k < kids.len() ==> #[trigger] kids[k] < tree@.len(),
    ensures
        index_view(found) == first_by_kind(tree@, indices(kids@), kind@, wanted),
        found matches Some(c) ==> c < tree@.len(),
{
    let ghost all = indices(kids@);
    let mut k: usize = 0;
    assert(all.skip(0) =~= all);
    while k < kids.len()
        invariant
            k <= kids.len(),
            all == indices(kids@),
            forall|j: int| 0 <= j < kids.len() ==> #[trigger] kids[j] < tree@.len(),
            first_by_kind(tree@, all.skip(k as int), kind@, wanted) == first_by_kind(
                tree@,
                all,
                kind@,
                wanted,
            ),
        decreases kids.len() - k,
    {
        let ghost rest = all.skip(k as int);
        assert(rest.drop_first() =~= all.skip(k + 1));
        if tree.has_kind(kids[k], kind) == wanted {
            return Some(kids[k]);
        }
        k = k + 1;
    }
    None
}

/// The documentation of `node` from the docstring of its body.
pub fn extract_python_docstring(tree: &SyntaxTree, source: &str, node: usize) -> (doc: String)
    requires
        node < tree@.len(),
    ensures
        doc@ == docstring(tree@, source@, node as int),
{
    let kids = tree.children(node);
    if let Some(body) = find_by_kind(tree, &kids, "block", true) {
        let statements = tree.children(body);
        if let Some(statement) = find_by_kind(tree, &statements, "comment", false) {
            if tree.has_kind(statement, "expression_statement") {
                if let Some(literal) = tree.first_child(statement) {
                    if tree.has_kind(literal, "string") {
                        return strip_one_each_end_of(tree.text(literal, source), '"');
                    }
                }
            }
        }
    }
    String::new()
}

} // verus!
