//! Extraction rules for Rust: type declarations with their doc comments,
//! functions, and implementation blocks, which attribute the functions
//! inside them to the type that they implement.

use crate::calls::{calls_in, extract_function_calls};
use crate::docs::{doc_comment, extract_rust_doc_comment};
use crate::entity::{
    as_text, copy_text, declared_name, declared_name_of, entity_at, optional_field_text,
    optional_field_text_of, own_text, string_view, write_entity,
};
use crate::lang::{EntityKind, SourceLanguage};
use crate::record::{emits, lemma_emits_nothing, Record};
use crate::rules::descend_view;
use crate::tree::{NodeView, SyntaxTree};
use crate::walk::Visit;
use crate::writer::CountingWriter;
use vstd::prelude::*;

verus! {

/// The kind of entity that a type declaration of this kind of node is
/// reported as, if it is one.
pub open spec fn rust_container(kind: Seq<char>) -> Option<EntityKind> {
    if kind == "struct_item"@ {
        Some(EntityKind::Struct)
    } else if kind == "enum_item"@ {
        Some(EntityKind::Enum)
    } else if kind == "trait_item"@ {
        Some(EntityKind::Class)
    } else {
        None
    }
}

/// The visit of node `i`. A struct, enum or trait yields a record without
/// parent, with its doc comment, and becomes the enclosing entity of what
/// lies below it. An implementation block yields no record; the type that
/// it names becomes the enclosing entity of what lies below it. A function
/// yields one record, with the enclosing entity as parent, with its doc
/// comment and with the calls of its subtree, and becomes the enclosing
/// entity of what lies below it. Any other node is passed through.
pub open spec fn rust_visit(
    nodes: Seq<NodeView>,
    source: Seq<char>,
    file: Seq<char>,
    i: int,
    parent: Option<Seq<char>>,
) -> Visit<Record> {
    let name = declared_name(nodes, source, i, "name"@);
    match rust_container(nodes[i].kind) {
        Some(kind) => Visit {
            items: seq![
                entity_at(
                    nodes,
                    source,
                    file,
                    i,
                    SourceLanguage::Rust,
                    kind,
                    name,
                    None,
                    Some(doc_comment(nodes, source, i)),
                    None,
                    None,
                ),
            ],
            descend: Some(Some(name)),
        },
        None => if nodes[i].kind == "impl_item"@ {
            Visit {
                items: Seq::empty(),
                descend: Some(optional_field_text(nodes, source, i, "type"@)),
            }
        } else if nodes[i].kind == "function_item"@ {
            Visit {
                items: seq![
                    entity_at(
                        nodes,
                        source,
                        file,
                        i,
                        SourceLanguage::Rust,
                        EntityKind::Function,
                        name,
                        parent,
                        Some(doc_comment(nodes, source, i)),
                        Some(calls_in(nodes, source, i)),
                        None,
                    ),
                ],
                descend: Some(Some(name)),
            }
        } else {
            Visit { items: Seq::empty(), descend: Some(parent) }
        },
    }
}

/// The kind of entity that node `i` is reported as, if it declares a type.
fn container_kind(tree: &SyntaxTree, i: usize) -> (kind: Option<EntityKind>)
    requires
        i < tree@.len(),
    ensures
        kind == rust_container(tree@[i as int].kind),
{
    if tree.has_kind(i, "struct_item") {
        Some(EntityKind::Struct)
    } else if tree.has_kind(i, "enum_item") {
        Some(EntityKind::Enum)
    } else if tree.has_kind(i, "trait_item") {
        Some(EntityKind::Class)
    } else {
        None
    }
}

/// Visits node `i`.
pub fn visit_rust(
    tree: &SyntaxTree,
    source: &str,
    file: &str,
    i: usize,
    parent: &Option<String>,
    out: &mut CountingWriter,
) -> (descend: Option<Option<String>>)
    requires
        i < tree@.len(),
    ensures
        emits(
            old(out)@,
            final(out)@,
            rust_visit(tree@, source@, file@, i as int, string_view(*parent)).items,
        ),
        descend_view(descend) == rust_visit(
            tree@,
            source@,
            file@,
            i as int,
            string_view(*parent),
        ).descend,
{
    if let Some(kind) = container_kind(tree, i) {
        let name = declared_name_of(tree, source, i, "name");
        let doc = extract_rust_doc_comment(tree, source, i);
        write_entity(
            tree,
            source,
            file,
            i,
            SourceLanguage::Rust,
            kind,
            name,
            None,
            Some(doc.as_str()),
            None,
            None,
            out,
        );
        Some(Some(name.to_owned()))
    } else if tree.has_kind(i, "impl_item") {
        proof {
            out.lemma_count_in_range();
            lemma_emits_nothing(out@);
        }
        Some(own_text(optional_field_text_of(tree, source, i, "type")))
    } else if tree.has_kind(i, "function_item") {
        let name = declared_name_of(tree, source, i, "name");
        let doc = extract_rust_doc_comment(tree, source, i);
        let calls = extract_function_calls(tree, source, i);
        write_entity(
            tree,
            source,
            file,
            i,
            SourceLanguage::Rust,
            EntityKind::Function,
            name,
            as_text(parent),
            Some(doc.as_str()),
            Some(&calls),
            None,
            out,
        );
        Some(Some(name.to_owned()))
    } else {
        proof {
            out.lemma_count_in_range();
            lemma_emits_nothing(out@);
        }
        Some(copy_text(parent))
    }
}

} // verus!
