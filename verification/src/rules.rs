//! The table-driven extraction: one kind of node that denotes a class-like
//! entity, one that denotes a function-like entity, and the field that
//! holds the name of each.

use crate::calls::{calls_in, extract_function_calls};
use crate::docs::{doc_comment, docstring, extract_python_docstring, extract_rust_doc_comment};
use crate::entity::{
    as_text, copy_text, declared_name, declared_name_of, entity_at, string_view, write_entity,
};
use crate::grammar::{is_lookup_field, lookup_fields};
use crate::lang::{EntityKind, SourceLanguage};
use crate::record::{emits, lemma_emits_nothing, Record};
use crate::tree::{NodeView, SyntaxTree};
use crate::walk::Visit;
use crate::writer::CountingWriter;
use vstd::prelude::*;

verus! {

/// The table of one language. A tree that was read from a parser knows of
/// the field names `name`, `type`, `path`, `function`, `function_name`,
/// `declarator` and `type_parameters` only. Whether the name fields of a
/// table are among these is what `asks_known_fields` says; a table for
/// which it does not hold finds no name field in such a tree.
#[derive(Clone, Copy, Debug)]
pub struct Rules {
    /// The language that the records report.
    pub language: SourceLanguage,
    /// The kind of node that denotes a class-like entity.
    pub class_kind: &'static str,
    /// The kind of entity that such a node is reported as.
    pub class_type: EntityKind,
    /// The field that holds the declared name of a class-like entity.
    pub class_name_field: &'static str,
    /// The kind of node that denotes a function-like entity.
    pub function_kind: &'static str,
    /// The field that holds the declared name of a function-like entity.
    pub function_name_field: &'static str,
    /// The kind of entity that such a node is reported as.
    pub function_type: EntityKind,
}

/// The name fields of the table are field names that a tree read from a
/// parser knows of.
pub open spec fn asks_known_fields(rules: Rules) -> bool {
    lookup_fields().contains(rules.class_name_field@) && lookup_fields().contains(
        rules.function_name_field@,
    )
}

impl Rules {
    /// Whether the name fields of the table are field names that a tree
    /// read from a parser knows of. For a table that asks for another
    /// field, such a tree holds no child under that field, and every entity
    /// of the table is named by its first child.
    pub fn asks_known_fields(&self) -> (known: bool)
        ensures
            known == asks_known_fields(*self),
    {
        is_lookup_field(self.class_name_field) && is_lookup_field(self.function_name_field)
    }
}

/// Where the documentation of an entity is looked for.
#[derive(Clone, Copy, Debug, PartialEq, Eq, Structural)]
pub enum DocStyle {
    /// Nowhere: records have no documentation.
    Absent,
    /// In the doc comments before the entity.
    Comments,
    /// In the string that opens the entity's body.
    Docstring,
}

/// What a walk tells the children of a node.
pub open spec fn descend_view(descend: Option<Option<String>>) -> Option<Option<Seq<char>>> {
    match descend {
        Some(below) => Some(string_view(below)),
        None => None,
    }
}

/// The documentation of node `i` in the given style.
pub open spec fn doc_of(style: DocStyle, nodes: Seq<NodeView>, source: Seq<char>, i: int)
    -> Option<Seq<char>> {
    match style {
        DocStyle::Absent => None,
        DocStyle::Comments => Some(doc_comment(nodes, source, i)),
        DocStyle::Docstring => Some(docstring(nodes, source, i)),
    }
}

/// The table-driven visit of node `i`. A class-like node yields a record
/// without parent and becomes, by its declared name, the enclosing entity of
/// what lies below it. A function-like node yields a record with the
/// enclosing entity as parent and with the calls of its subtree, and
/// becomes, by its declared name, the enclosing entity of what lies below
/// it. Any other node yields nothing and is passed through.
pub open spec fn table_visit(
    rules: Rules,
    style: DocStyle,
    nodes: Seq<NodeView>,
    source: Seq<char>,
    file: Seq<char>,
    i: int,
    parent: Option<Seq<char>>,
) -> Visit<Record> {
    if nodes[i].kind == rules.class_kind@ {
        let name = declared_name(nodes, source, i, rules.class_name_field@);
        Visit {
            items: seq![
                entity_at(
                    nodes,
                    source,
                    file,
                    i,
                    rules.language,
                    rules.class_type,
                    name,
                    None,
                    doc_of(style, nodes, source, i),
                    None,
                    None,
                ),
            ],
            descend: Some(Some(name)),
        }
    } else if nodes[i].kind == rules.function_kind@ {
        let name = declared_name(nodes, source, i, rules.function_name_field@);
        Visit {
            items: seq![
                entity_at(
                    nodes,
                    source,
                    file,
                    i,
                    rules.language,
                    rules.function_type,
                    name,
                    parent,
                    doc_of(style, nodes, source, i),
                    Some(calls_in(nodes, source, i)),
                    None,
                ),
            ],
            descend: Some(Some(name)),
        }
    } else {
        Visit { items: Seq::empty(), descend: Some(parent) }
    }
}

/// The documentation of `node` in the given style.
pub fn extract_doc(style: DocStyle, tree: &SyntaxTree, source: &str, node: usize) -> (doc: Option<
    String,
>)
    requires
        node < tree@.len(),
    ensures
        string_view(doc) == doc_of(style, tree@, source@, node as int),
{
    match style {
        DocStyle::Absent => None,
        DocStyle::Comments => Some(extract_rust_doc_comment(tree, source, node)),
        DocStyle::Docstring => Some(extract_python_docstring(tree, source, node)),
    }
}

/// Visits node `i` by the table.
pub fn visit_by_table(
    rules: &Rules,
    style: DocStyle,
    tree: &SyntaxTree,
    source: &str,
    file: &str,
    i: usize,
    parent: &Option<String>,
    out: &mut CountingWriter,
) -> (descend: Option<Option<String>>)
    requires
        i < tree@.len(),
    ensures
        emits(
            old(out)@,
            final(out)@,
            table_visit(*rules, style, tree@, source@, file@, i as int, string_view(*parent)).items,
        ),
        descend_view(descend) == table_visit(
            *rules,
            style,
            tree@,
            source@,
            file@,
            i as int,
            string_view(*parent),
        ).descend,
{
    if tree.has_kind(i, rules.class_kind) {
        let name = declared_name_of(tree, source, i, rules.class_name_field);
        let doc = extract_doc(style, tree, source, i);
        write_entity(
            tree,
            source,
            file,
            i,
            rules.language,
            rules.class_type,
            name,
            None,
            as_text(&doc),
            None,
            None,
            out,
        );
        Some(Some(name.to_owned()))
    } else if tree.has_kind(i, rules.function_kind) {
        let name = declared_name_of(tree, source, i, rules.function_name_field);
        let doc = extract_doc(style, tree, source, i);
        let calls = extract_function_calls(tree, source, i);
        write_entity(
            tree,
            source,
            file,
            i,
            rules.language,
            rules.function_type,
            name,
            as_text(parent),
            as_text(&doc),
            Some(&calls),
            None,
            out,
        );
        Some(Some(name.to_owned()))
    } else {
        proof {
            out.lemma_count_in_range();
            lemma_emits_nothing(out@);
        }
        Some(copy_text(parent))
    }
}

} // verus!
