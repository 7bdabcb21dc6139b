//! Extraction rules for Swift: classes, structs, enums and protocols, which
//! may nest, and functions.

use crate::calls::{calls_in, extract_function_calls};
use crate::entity::{
    as_text, copy_text, declared_name, declared_name_of, entity_at, string_view, write_entity,
};
use crate::lang::{EntityKind, SourceLanguage};
use crate::record::{emits, lemma_emits_nothing, Record};
use crate::rules::descend_view;
use crate::tree::{NodeView, SyntaxTree};
use crate::walk::Visit;
use crate::writer::CountingWriter;
use vstd::prelude::*;

verus! {

/// The kind of entity that a type declaration of this kind of node is
/// reported as, if it is one.
pub open spec fn swift_container(kind: Seq<char>) -> Option<EntityKind> {
    if kind == "class_declaration"@ {
        Some(EntityKind::Class)
    } else if kind == "struct_declaration"@ {
        Some(EntityKind::Struct)
    } else if kind == "enum_declaration"@ {
        Some(EntityKind::Enum)
    } else if kind == "protocol_declaration"@ {
        Some(EntityKind::Protocol)
    } else {
        None
    }
}

/// The visit of node `i`. A type declaration yields a record without parent
/// and becomes the enclosing entity of what lies below it. A function
/// yields a record with the enclosing entity as parent and with the calls
/// of its subtree, and becomes the enclosing entity of what lies below it.
/// Any other node is passed through.
pub open spec fn swift_visit(
    nodes: Seq<NodeView>,
    source: Seq<char>,
    file: Seq<char>,
    i: int,
    parent: Option<Seq<char>>,
) -> Visit<Record> {
    let name = declared_name(nodes, source, i, "name"@);
    match swift_container(nodes[i].kind) {
        Some(kind) => Visit {
            items: seq![
                entity_at(
                    nodes,
                    source,
                    file,
                    i,
                    SourceLanguage::Swift,
                    kind,
                    name,
                    None,
                    None,
                    None,
                    None,
                ),
            ],
            descend: Some(Some(name)),
        },
        None => if nodes[i].kind == "function_declaration"@ {
            Visit {
                items: seq![
                    entity_at(
                        nodes,
                        source,
                        file,
                        i,
                        SourceLanguage::Swift,
                        EntityKind::Function,
                        name,
                        parent,
                        None,
                        Some(calls_in(nodes, source, i)),
                        None,
                    ),
                ],
                descend: Some(Some(name)),
            }
        } else {
            Visit { items: Seq::empty(), descend: Some(parent) }
        },
    }
}

/// The kind of entity that node `i` is reported as, if it declares a type.
fn container_kind(tree: &SyntaxTree, i: usize) -> (kind: Option<EntityKind>)
    requires
        i < tree@.len(),
    ensures
        kind == swift_container(tree@[i as int].kind),
{
    if tree.has_kind(i, "class_declaration") {
        Some(EntityKind::Class)
    } else if tree.has_kind(i, "struct_declaration") {
        Some(EntityKind::Struct)
    } else if tree.has_kind(i, "enum_declaration") {
        Some(EntityKind::Enum)
    } else if tree.has_kind(i, "protocol_declaration") {
        Some(EntityKind::Protocol)
    } else {
        None
    }
}

/// Visits node `i`.
pub fn visit_swift(
    tree: &SyntaxTree,
    source: &str,
    file: &str,
    i: usize,
    parent: &Option<String>,
    out: &mut CountingWriter,
) -> (descend: Option<Option<String>>)
    requires
        i < tree@.len(),
    ensures
        emits(
            old(out)@,
            final(out)@,
            swift_visit(tree@, source@, file@, i as int, string_view(*parent)).items,
        ),
        descend_view(descend) == swift_visit(
            tree@,
            source@,
            file@,
            i as int,
            string_view(*parent),
        ).descend,
{
    if let Some(kind) = container_kind(tree, i) {
        let name = declared_name_of(tree, source, i, "name");
        write_entity(
            tree,
            source,
            file,
            i,
            SourceLanguage::Swift,
            kind,
            name,
            None,
            None,
            None,
            None,
            out,
        );
        Some(Some(name.to_owned()))
    } else if tree.has_kind(i, "function_declaration") {
        let name = declared_name_of(tree, source, i, "name");
        let calls = extract_function_calls(tree, source, i);
        write_entity(
            tree,
            source,
            file,
            i,
            SourceLanguage::Swift,
            EntityKind::Function,
            name,
            as_text(parent),
            None,
            Some(&calls),
            None,
            out,
        );
        Some(Some(name.to_owned()))
    } else {
        proof {
            out.lemma_count_in_range();
            lemma_emits_nothing(out@);
        }
        Some(copy_text(parent))
    }
}

} // verus!
