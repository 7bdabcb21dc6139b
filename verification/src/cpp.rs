//! Extraction rules for C++: templates, classes, and functions whose name
//! sits inside their declarator.

use crate::calls::{calls_in, extract_function_calls};
use crate::entity::{
    as_text, copy_text, declared_name, declared_name_of, entity_at, field_text, field_text_of,
    string_view, write_entity,
};
use crate::lang::{EntityKind, SourceLanguage};
use crate::record::{emits, lemma_emits_nothing, Record};
use crate::rules::descend_view;
use crate::tree::{child_by_field, NodeView, SyntaxTree};
use crate::walk::Visit;
use crate::writer::CountingWriter;
use vstd::prelude::*;

verus! {

/// The name of the function defined at node `i`: the text of the declarator
/// inside its declarator; empty where either is missing.
pub open spec fn declared_function_name(nodes: Seq<NodeView>, source: Seq<char>, i: int) -> Seq<
    char,
> {
    match child_by_field(nodes, i, "declarator"@) {
        Some(d) => field_text(nodes, source, d, "declarator"@),
        None => Seq::empty(),
    }
}

/// The visit of node `i`. A template yields a record named `template` and
/// is passed through, so that what it declares keeps the enclosing entity.
/// A class yields a record without parent and becomes the enclosing entity
/// of what lies below it. A function definition yields a record with the
/// enclosing entity as parent and with the calls of its subtree, and
/// becomes the enclosing entity of what lies below it. Any other node is
/// passed through.
pub open spec fn cpp_visit(
    nodes: Seq<NodeView>,
    source: Seq<char>,
    file: Seq<char>,
    i: int,
    parent: Option<Seq<char>>,
) -> Visit<Record> {
    if nodes[i].kind == "template_declaration"@ {
        Visit {
            items: seq![
                entity_at(
                    nodes,
                    source,
                    file,
                    i,
                    SourceLanguage::Cpp,
                    EntityKind::Template,
                    "template"@,
                    parent,
                    None,
                    None,
                    None,
                ),
            ],
            descend: Some(parent),
        }
    } else if nodes[i].kind == "class_specifier"@ {
        let name = declared_name(nodes, source, i, "name"@);
        Visit {
            items: seq![
                entity_at(
                    nodes,
                    source,
                    file,
                    i,
                    SourceLanguage::Cpp,
                    EntityKind::Class,
                    name,
                    None,
                    None,
                    None,
                    None,
                ),
            ],
            descend: Some(Some(name)),
        }
    } else if nodes[i].kind == "function_definition"@ {
        Visit {
            items: seq![
                entity_at(
                    nodes,
                    source,
                    file,
                    i,
                    SourceLanguage::Cpp,
                    EntityKind::Function,
                    declared_function_name(nodes, source, i),
                    parent,
                    None,
                    Some(calls_in(nodes, source, i)),
                    None,
                ),
            ],
            descend: Some(Some(declared_function_name(nodes, source, i))),
        }
    } else {
        Visit { items: Seq::empty(), descend: Some(parent) }
    }
}

/// Visits node `i`.
pub fn visit_cpp(
    tree: &SyntaxTree,
    source: &str,
    file: &str,
    i: usize,
    parent: &Option<String>,
    out: &mut CountingWriter,
) -> (descend: Option<Option<String>>)
    requires
        i < tree@.len(),
    ensures
        emits(
            old(out)@,
            final(out)@,
            cpp_visit(tree@, source@, file@, i as int, string_view(*parent)).items,
        ),
        descend_view(descend) == cpp_visit(
            tree@,
            source@,
            file@,
            i as int,
            string_view(*parent),
        ).descend,
{
    if tree.has_kind(i, "template_declaration") {
        write_entity(
            tree,
            source,
            file,
            i,
            SourceLanguage::Cpp,
            EntityKind::Template,
            "template",
            as_text(parent),
            None,
            None,
            None,
            out,
        );
        Some(copy_text(parent))
    } else if tree.has_kind(i, "class_specifier") {
        let name = declared_name_of(tree, source, i, "name");
        write_entity(
            tree,
            source,
            file,
            i,
            SourceLanguage::Cpp,
            EntityKind::Class,
            name,
            None,
            None,
            None,
            None,
            out,
        );
        Some(Some(name.to_owned()))
    } else if tree.has_kind(i, "function_definition") {
        let name = match tree.child_by_field_name(i, "declarator") {
            Some(d) => field_text_of(tree, source, d, "declarator"),
            None => {
                proof {
                    reveal_strlit("");
                    assert(""@ =~= Seq::<char>::empty());
                }
                ""
            },
        };
        let calls = extract_function_calls(tree, source, i);
        write_entity(
            tree,
            source,
            file,
            i,
            SourceLanguage::Cpp,
            EntityKind::Function,
            name,
            as_text(parent),
            None,
            Some(&calls),
            None,
            out,
        );
        Some(Some(name.to_owned()))
    } else {
        proof {
            out.lemma_count_in_range();
            lemma_emits_nothing(out@);
        }
        Some(copy_text(parent))
    }
}

} // verus!
