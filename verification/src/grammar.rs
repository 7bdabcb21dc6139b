//! Parsing with tree-sitter, and the reading of a parsed tree into plain
//! nodes.

use crate::lang::SourceLanguage;
use crate::text::{str_eq, texts};
use crate::tree::{
    child_by_field, first_with_field, node_ok, node_views, tiles, well_formed, NodeView,
    SyntaxNode, SyntaxTree,
};
use vstd::prelude::*;

verus! {

/// `tree_sitter::Tree`, a parsed tree; what it holds is known only by
/// `tree_nodes`.
#[verifier::external_type_specification]
#[verifier::external_body]
pub struct ExTree(tree_sitter::Tree);

/// The nodes that a parsed tree holds, in pre-order, as its cursor reaches
/// them by their index: each with its kind, its bytes and rows, the number
/// of nodes in its subtree, and the set of all field names under which
/// `child_by_field_name` finds the node for its parent.
pub uninterp spec fn tree_nodes(tree: tree_sitter::Tree) -> Seq<NodeView>;

/// The message with which a parser refuses the grammar of a language, if
/// it refuses it.
pub uninterp spec fn parse_refusal(language: SourceLanguage) -> Option<Seq<char>>;

/// The nodes of the tree that a parser with the grammar of a language makes
/// of a source, if it makes one.
pub uninterp spec fn parsed_tree(language: SourceLanguage, source: Seq<char>) -> Option<
    Seq<NodeView>,
>;

/// `tree_sitter::Parser::set_language` with the grammar of the language,
/// then `tree_sitter::Parser::parse` of the source with a new parser and no
/// earlier tree. What the parser answers depends on the grammar and the
/// source alone: a refusal of the grammar comes with its message, by
/// `to_string`; else there is the tree that was made, or none. For the
/// language `Other` there is no grammar, so no parser is asked: there is no
/// refusal and no tree.
#[verifier::external_body]
fn parse_text(language: SourceLanguage, source: &str) -> (gave: Result<
    Option<tree_sitter::Tree>,
    String,
>)
    ensures
        gave matches Err(message) ==> parse_refusal(language) == Some(message@),
        gave is Ok ==> parse_refusal(language) is None,
        gave matches Ok(Some(tree)) ==> parsed_tree(language, source@) == Some(tree_nodes(tree)),
        gave matches Ok(None) ==> parsed_tree(language, source@) is None,
{
    let grammar = match language {
        SourceLanguage::Rust => tree_sitter_rust::LANGUAGE,
        SourceLanguage::Python => tree_sitter_python::LANGUAGE,
        SourceLanguage::JavaScript => tree_sitter_javascript::LANGUAGE,
        SourceLanguage::TypeScript => tree_sitter_typescript::LANGUAGE_TYPESCRIPT,
        SourceLanguage::Cpp => tree_sitter_cpp::LANGUAGE,
        SourceLanguage::Java => tree_sitter_java::LANGUAGE,
        SourceLanguage::CSharp => tree_sitter_c_sharp::LANGUAGE,
        SourceLanguage::Swift => tree_sitter_swift::LANGUAGE,
        SourceLanguage::Go => tree_sitter_go::LANGUAGE,
        SourceLanguage::Other => return Ok(None),
    };
    let mut parser = tree_sitter::Parser::new();
    let taken = parser.set_language(&tree_sitter::Language::new(grammar));
    taken.map(|_| parser.parse(source, None)).map_err(|error| error.to_string())
}

/// `tree_sitter::Node::descendant_count` of the root of the tree: the
/// number of nodes that the tree holds.
#[verifier::external_body]
fn tree_len(tree: &tree_sitter::Tree) -> (count: usize)
    ensures
        count == tree_nodes(*tree).len(),
{
    tree.root_node().descendant_count()
}

/// The node at index `i` of the tree, by `tree_sitter::TreeCursor`'s
/// `goto_descendant` and `node`, with what `tree_sitter::Node`'s `kind`,
/// `start_byte`, `end_byte`, `start_position`, `end_position` and
/// `descendant_count` give of it, and without field names.
#[verifier::external_body]
fn tree_node(tree: &tree_sitter::Tree, i: usize) -> (node: SyntaxNode)
    requires
        i < tree_nodes(*tree).len(),
    ensures
        node@ == (NodeView { fields: Set::empty(), ..tree_nodes(*tree)[i as int] }),
{
    let mut cursor = tree.walk();
    cursor.goto_descendant(i);
    let node = cursor.node();
    SyntaxNode {
        kind: node.kind().to_string(),
        fields: Vec::new(),
        start_byte: node.start_byte(),
        end_byte: node.end_byte(),
        start_row: node.start_position().row,
        end_row: node.end_position().row,
        span: node.descendant_count(),
    }
}

/// Whether `tree_sitter::Node::child_by_field_name` of the parent of the
/// node at index `i`, asked for `field`, finds that node.
#[verifier::external_body]
fn tree_holds(tree: &tree_sitter::Tree, i: usize, field: &str) -> (held: bool)
    requires
        i < tree_nodes(*tree).len(),
    ensures
        held == tree_nodes(*tree)[i as int].fields.contains(field@),
{
    let mut cursor = tree.walk();
    cursor.goto_descendant(i);
    let node = cursor.node();
    node.parent().and_then(|above| above.child_by_field_name(field)) == Some(node)
}

/// The field names that the extraction rules of the languages ask for.
pub open spec fn lookup_fields() -> Seq<Seq<char>> {
    seq![
        "name"@,
        "type"@,
        "path"@,
        "function"@,
        "function_name"@,
        "declarator"@,
        "type_parameters"@,
    ]
}

/// Whether `field` is one of the field names that the extraction rules of
/// the languages ask for.
pub fn is_lookup_field(field: &str) -> (known: bool)
    ensures
        known == lookup_fields().contains(field@),
{
    let names = lookup_names();
    let mut k: usize = 0;
    while k < names.len()
        invariant
            k <= names.len(),
            name_texts(names@) == lookup_fields(),
            forall|j: int| 0 <= j < k ==> lookup_fields()[j] != field@,
        decreases names.len() - k,
    {
        assert(name_texts(names@)[k as int] == names@[k as int]@);
        if str_eq(names[k], field) {
            return true;
        }
        k = k + 1;
    }
    false
}

/// In nodes that were read from a parser, no node holds a child under a
/// field name that the extraction rules do not ask for.
pub proof fn lemma_unknown_field_not_found(nodes: Seq<NodeView>, i: int, field: Seq<char>)
    requires
        !lookup_fields().contains(field),
    ensures
        child_by_field(known(nodes), i, field) is None,
{
    lemma_not_among(known(nodes), i + 1, i + known(nodes)[i].span, field);
}

/// Where no node holds a field name, no subtree root is found under it.
proof fn lemma_not_among(nodes: Seq<NodeView>, from: int, end: int, field: Seq<char>)
    requires
        forall|j: int| 0 <= j < nodes.len() ==> !(#[trigger] nodes[j]).fields.contains(field),
    ensures
        first_with_field(nodes, from, end, field) is None,
    decreases end - from,
{
    if !(from < 0 || from >= end || from >= nodes.len()) && !(nodes[from].span == 0 || from
        + nodes[from].span >= end) {
        lemma_not_among(nodes, from + nodes[from].span, end, field);
    }
}

/// The nodes with no field names but those that the extraction rules ask
/// for.
pub open spec fn known(nodes: Seq<NodeView>) -> Seq<NodeView> {
    Seq::new(
        nodes.len(),
        |i: int| NodeView { fields: nodes[i].fields.intersect(lookup_fields().to_set()), ..nodes[i] },
    )
}

/// What parsing a source comes to.
pub enum Parsed {
    /// A well-formed tree, with these nodes.
    Tree(Seq<NodeView>),
    /// The parser refused the grammar, with this message.
    Refused(Seq<char>),
    /// The parser made no tree, or none that is well-formed.
    NoTree,
}

/// What parsing `source` as a source in `language` comes to: a refusal
/// where the parser refuses the grammar; else the tree that the parser
/// makes, if it makes one and that one is well-formed, with the field names
/// that the extraction rules ask for. There is no tree for a language
/// without grammar.
pub open spec fn parsing(language: SourceLanguage, source: Seq<char>) -> Parsed {
    if language == SourceLanguage::Other {
        Parsed::NoTree
    } else {
        match parse_refusal(language) {
            Some(message) => Parsed::Refused(message),
            None => match parsed_tree(language, source) {
                Some(nodes) => if well_formed(nodes) {
                    Parsed::Tree(known(nodes))
                } else {
                    Parsed::NoTree
                },
                None => Parsed::NoTree,
            },
        }
    }
}

/// Why a source could not be parsed.
#[derive(Debug)]
pub enum ParseFailure {
    /// The parser did not take the grammar; the message says why.
    Grammar(String),
    /// The parser produced no tree, or none that is well-formed.
    NoTree,
}

/// What an attempt to parse came to.
pub open spec fn outcome(parsed: Result<SyntaxTree, ParseFailure>) -> Parsed {
    match parsed {
        Ok(tree) => Parsed::Tree(tree@),
        Err(ParseFailure::Grammar(message)) => Parsed::Refused(message@),
        Err(ParseFailure::NoTree) => Parsed::NoTree,
    }
}

/// The grammar of a language, by the language that names it; there is one
/// for every language but `Other`.
pub fn get_language(language: SourceLanguage) -> (grammar: Option<SourceLanguage>)
    ensures
        grammar == if language == SourceLanguage::Other {
            None
        } else {
            Some(language)
        },
{
    match language {
        SourceLanguage::Other => None,
        _ => Some(language),
    }
}

/// The texts of `names`.
pub open spec fn name_texts(names: Seq<&'static str>) -> Seq<Seq<char>> {
    Seq::new(names.len(), |k: int| names[k]@)
}

/// The field names that the extraction rules ask for.
fn lookup_names() -> (names: Vec<&'static str>)
    ensures
        name_texts(names@) == lookup_fields(),
{
    let mut names: Vec<&'static str> = Vec::new();
    names.push("name");
    names.push("type");
    names.push("path");
    names.push("function");
    names.push("function_name");
    names.push("declarator");
    names.push("type_parameters");
    assert(name_texts(names@) =~= lookup_fields());
    names
}

/// Adds `field` to `labels` if the node that is being labelled is held
/// under that field.
fn add_label(held: bool, field: &str, labels: &mut Vec<String>)
    ensures
        texts(final(labels)@) == if held {
            texts(old(labels)@).push(field@)
        } else {
            texts(old(labels)@)
        },
{
    if held {
        labels.push(field.to_owned());
        assert(texts(labels@) =~= texts(old(labels)@).push(field@));
    }
}

/// Those of the field names that the extraction rules ask for under which
/// the parent of the node at index `i` holds that node.
fn node_labels(tree: &tree_sitter::Tree, i: usize) -> (labels: Vec<String>)
    requires
        i < tree_nodes(*tree).len(),
    ensures
        texts(labels@).to_set() == tree_nodes(*tree)[i as int].fields.intersect(
            lookup_fields().to_set(),
        ),
{
    let names = lookup_names();
    let ghost fields = lookup_fields();
    let ghost held_by = tree_nodes(*tree)[i as int].fields;
    let mut labels: Vec<String> = Vec::new();
    let mut k: usize = 0;
    while k < names.len()
        invariant
            k <= names.len(),
            i < tree_nodes(*tree).len(),
            fields == lookup_fields(),
            name_texts(names@) == fields,
            held_by == tree_nodes(*tree)[i as int].fields,
            forall|name: Seq<char>| #[trigger]
                texts(labels@).contains(name) <==> held_by.contains(name) && fields.take(
                    k as int,
                ).contains(name),
        decreases names.len() - k,
    {
        let held = tree_holds(tree, i, names[k]);
        let ghost before = texts(labels@);
        add_label(held, names[k], &mut labels);
        proof {
            let field = fields[k as int];
            assert(name_texts(names@)[k as int] == names@[k as int]@);
            let now = texts(labels@);
            assert(fields.take(k + 1) =~= fields.take(k as int).push(field));
            assert forall|name: Seq<char>| #[trigger]
                now.contains(name) <==> held_by.contains(name) && fields.take(k + 1).contains(
                    name,
                ) by {
                lemma_push_contains(fields.take(k as int), field, name);
                if held {
                    lemma_push_contains(before, field, name);
                }
            }
        }
        k = k + 1;
    }
    proof {
        assert(fields.take(k as int) =~= fields);
        assert(texts(labels@).to_set() =~= held_by.intersect(fields.to_set()));
    }
    labels
}

/// A sequence with one more item holds what it held and that item.
proof fn lemma_push_contains<T>(items: Seq<T>, last: T, item: T)
    ensures
        items.push(last).contains(item) <==> items.contains(item) || item == last,
{
    let all = items.push(last);
    if items.contains(item) {
        let at = choose|at: int| 0 <= at < items.len() && items[at] == item;
        assert(all[at] == item);
    }
    if item == last {
        assert(all[items.len() as int] == item);
    }
    if all.contains(item) {
        let at = choose|at: int| 0 <= at < all.len() && all[at] == item;
        if at < items.len() {
            assert(items[at] == item);
        }
    }
}

/// Which field names the nodes have does not bear on whether subtrees tile
/// a range.
proof fn lemma_tiles_known(nodes: Seq<NodeView>, from: int, end: int)
    ensures
        tiles(known(nodes), from, end) == tiles(nodes, from, end),
    decreases end - from,
{
    if from != end && !(from < 0 || from >= nodes.len() || nodes[from].span == 0 || from
        + nodes[from].span > end) {
        lemma_tiles_known(nodes, from + nodes[from].span, end);
    }
}

/// Which field names the nodes have does not bear on whether they are
/// well-formed.
pub proof fn lemma_well_formed_known(nodes: Seq<NodeView>)
    ensures
        well_formed(known(nodes)) == well_formed(nodes),
{
    let kept = known(nodes);
    assert forall|i: int| 0 <= i < nodes.len() implies node_ok(kept, i) == node_ok(nodes, i) by {}
    assert forall|i: int| 0 <= i < nodes.len() implies tiles(kept, i + 1, i + kept[i].span)
        == tiles(nodes, i + 1, i + nodes[i].span) by {
        lemma_tiles_known(nodes, i + 1, i + nodes[i].span);
    }
    if well_formed(nodes) {
        assert forall|i: int| 0 <= i < kept.len() implies #[trigger] node_ok(kept, i) by {
            assert(node_ok(nodes, i));
        }
        assert forall|i: int| 0 <= i < kept.len() implies #[trigger] tiles(
            kept,
            i + 1,
            i + kept[i].span,
        ) by {
            assert(tiles(nodes, i + 1, i + nodes[i].span));
        }
    }
    if well_formed(kept) {
        assert forall|i: int| 0 <= i < nodes.len() implies #[trigger] node_ok(nodes, i) by {
            assert(node_ok(kept, i));
        }
        assert forall|i: int| 0 <= i < nodes.len() implies #[trigger] tiles(
            nodes,
            i + 1,
            i + nodes[i].span,
        ) by {
            assert(tiles(kept, i + 1, i + kept[i].span));
        }
    }
}

/// Reads a parsed tree into plain nodes, in pre-order: each node as the
/// tree holds it, with those of its field names that the extraction rules
/// ask for. There is a result exactly if the nodes of the tree are
/// well-formed.
pub fn read_tree(tree: &tree_sitter::Tree) -> (read: Option<SyntaxTree>)
    ensures
        read is Some <==> well_formed(tree_nodes(*tree)),
        read matches Some(t) ==> t@ == known(tree_nodes(*tree)),
{
    let ghost held = tree_nodes(*tree);
    let count = tree_len(tree);
    let mut nodes: Vec<SyntaxNode> = Vec::new();
    let mut i: usize = 0;
    while i < count
        invariant
            i <= count,
            held == tree_nodes(*tree),
            count == held.len(),
            nodes.len() == i,
            forall|j: int| 0 <= j < i ==> (#[trigger] nodes@[j])@ == known(held)[j],
        decreases count - i,
    {
        let bare = tree_node(tree, i);
        let fields = node_labels(tree, i);
        let node = SyntaxNode {
            kind: bare.kind,
            fields,
            start_byte: bare.start_byte,
            end_byte: bare.end_byte,
            start_row: bare.start_row,
            end_row: bare.end_row,
            span: bare.span,
        };
        assert(node@ == known(held)[i as int]);
        nodes.push(node);
        i = i + 1;
    }
    proof {
        assert(node_views(nodes@) =~= known(held));
        lemma_well_formed_known(held);
    }
    SyntaxTree::new(nodes)
}

/// Parses `source` as a source in `language`.
pub fn parse_source(language: SourceLanguage, source: &str) -> (parsed: Result<
    SyntaxTree,
    ParseFailure,
>)
    ensures
        outcome(parsed) == parsing(language, source@),
        parsed matches Ok(tree) ==> well_formed(tree@),
{
    if language == SourceLanguage::Other {
        return Err(ParseFailure::NoTree);
    }
    match parse_text(language, source) {
        Err(message) => Err(ParseFailure::Grammar(message)),
        Ok(None) => Err(ParseFailure::NoTree),
        Ok(Some(tree)) => match read_tree(&tree) {
            None => Err(ParseFailure::NoTree),
            Some(read) => {
                let _ = read.len();
                Ok(read)
            },
        },
    }
}

} // verus!
