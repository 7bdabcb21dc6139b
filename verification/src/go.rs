//! Extraction rules for Go: imports, type declarations with their fields,
//! functions and variables, each matched by its own kind of node.

use crate::calls::{calls_in, extract_function_calls};
use crate::entity::{
    as_text, copy_text, declared_name, declared_name_of, entity_at, optional_field_text,
    optional_field_text_of, records_where, string_view, write_entity,
};
use crate::lang::{EntityKind, SourceLanguage};
use crate::entity::lemma_records_where_all;
use crate::record::{emits, lemma_emits_nothing, lemma_emits_then, lines_in_order, Record};
use crate::rules::descend_view;
use crate::tree::{
    child_by_field, children, indices, lemma_children, node_ok, well_formed, NodeView,
    SyntaxTree,
};
use crate::walk::{lemma_all_concat, Visit};
use crate::writer::CountingWriter;
use vstd::prelude::*;

verus! {

/// The kind of entity that a type declaration is reported as, by the kind
/// of node of the type it declares.
pub open spec fn declared_type_kind(nodes: Seq<NodeView>, i: int) -> EntityKind {
    match child_by_field(nodes, i, "type"@) {
        Some(t) => if nodes[t].kind == "struct_type"@ {
            EntityKind::Struct
        } else if nodes[t].kind == "interface_type"@ {
            EntityKind::Interface
        } else if nodes[t].kind == "enum_type"@ {
            EntityKind::Enum
        } else {
            EntityKind::Type
        },
        None => EntityKind::Type,
    }
}

/// The record of the field declared at a node, inside the type `owner`.
pub open spec fn go_field_record(
    nodes: Seq<NodeView>,
    source: Seq<char>,
    file: Seq<char>,
    owner: Seq<char>,
) -> spec_fn(int) -> Record {
    |c: int|
        entity_at(
            nodes,
            source,
            file,
            c,
            SourceLanguage::Go,
            EntityKind::Field,
            declared_name(nodes, source, c, "name"@),
            Some(owner),
            None,
            None,
            None,
        )
}

/// The records of the field declarations among the children of the first
/// `count` of `parts`, part by part, for fields of the type `owner`.
pub open spec fn body_field_records(
    nodes: Seq<NodeView>,
    source: Seq<char>,
    file: Seq<char>,
    parts: Seq<int>,
    count: int,
    owner: Seq<char>,
) -> Seq<Record>
    decreases count,
{
    if 0 < count <= parts.len() {
        body_field_records(nodes, source, file, parts, count - 1, owner) + records_where(
            nodes,
            children(nodes, parts[count - 1]),
            children(nodes, parts[count - 1]).len() as int,
            "field_declaration"@,
            go_field_record(nodes, source, file, owner),
        )
    } else {
        Seq::empty()
    }
}

/// The records of the fields of the type declared at node `i`: one for each
/// field declaration in the body of the declared type, that is, among the
/// children of the children of the declared type.
pub open spec fn go_field_records(
    nodes: Seq<NodeView>,
    source: Seq<char>,
    file: Seq<char>,
    i: int,
) -> Seq<Record> {
    match child_by_field(nodes, i, "type"@) {
        Some(t) => body_field_records(
            nodes,
            source,
            file,
            children(nodes, t),
            children(nodes, t).len() as int,
            declared_name(nodes, source, i, "name"@),
        ),
        None => Seq::empty(),
    }
}

/// The visit of node `i`. An import yields a record named by its path. A
/// type declaration yields a record of the kind of the declared type, with
/// its type parameters where it has any, then a record for each of its
/// fields, and becomes the enclosing entity of what lies below it. A
/// function yields a record with the enclosing entity as parent, with the
/// calls of its subtree and with its type parameters where it has any. A
/// variable yields a record with the enclosing entity as parent. Each of
/// these becomes, by its name, the enclosing entity of what lies below it.
/// Any other node is passed through.
pub open spec fn go_visit(
    nodes: Seq<NodeView>,
    source: Seq<char>,
    file: Seq<char>,
    i: int,
    parent: Option<Seq<char>>,
) -> Visit<Record> {
    let name = declared_name(nodes, source, i, "name"@);
    let generics = optional_field_text(nodes, source, i, "type_parameters"@);
    if nodes[i].kind == "import_spec"@ {
        Visit {
            items: seq![
                entity_at(
                    nodes,
                    source,
                    file,
                    i,
                    SourceLanguage::Go,
                    EntityKind::Import,
                    declared_name(nodes, source, i, "path"@),
                    None,
                    None,
                    None,
                    None,
                ),
            ],
            descend: Some(Some(declared_name(nodes, source, i, "path"@))),
        }
    } else if nodes[i].kind == "type_spec"@ {
        Visit {
            items: seq![
                entity_at(
                    nodes,
                    source,
                    file,
                    i,
                    SourceLanguage::Go,
                    declared_type_kind(nodes, i),
                    name,
                    None,
                    None,
                    None,
                    generics,
                ),
            ] + go_field_records(nodes, source, file, i),
            descend: Some(Some(name)),
        }
    } else if nodes[i].kind == "function_declaration"@ {
        Visit {
            items: seq![
                entity_at(
                    nodes,
                    source,
                    file,
                    i,
                    SourceLanguage::Go,
                    EntityKind::Function,
                    name,
                    parent,
                    None,
                    Some(calls_in(nodes, source, i)),
                    generics,
                ),
            ],
            descend: Some(Some(name)),
        }
    } else if nodes[i].kind == "var_spec"@ {
        Visit {
            items: seq![
                entity_at(
                    nodes,
                    source,
                    file,
                    i,
                    SourceLanguage::Go,
                    EntityKind::Variable,
                    name,
                    parent,
                    None,
                    None,
                    None,
                ),
            ],
            descend: Some(Some(name)),
        }
    } else {
        Visit { items: Seq::empty(), descend: Some(parent) }
    }
}

/// The kind of entity that the type declaration at node `i` is reported as.
fn type_kind(tree: &SyntaxTree, i: usize) -> (kind: EntityKind)
    requires
        i < tree@.len(),
    ensures
        kind == declared_type_kind(tree@, i as int),
{
    match tree.child_by_field_name(i, "type") {
        Some(t) => if tree.has_kind(t, "struct_type") {
            EntityKind::Struct
        } else if tree.has_kind(t, "interface_type") {
            EntityKind::Interface
        } else if tree.has_kind(t, "enum_type") {
            EntityKind::Enum
        } else {
            EntityKind::Type
        },
        None => EntityKind::Type,
    }
}

/// Writes the records of the field declarations among the children of the
/// node `part`, for fields of the type `owner`.
fn write_fields_below(
    tree: &SyntaxTree,
    source: &str,
    file: &str,
    part: usize,
    owner: &str,
    out: &mut CountingWriter,
)
    requires
        part < tree@.len(),
    ensures
        emits(
            old(out)@,
            final(out)@,
            records_where(
                tree@,
                children(tree@, part as int),
                children(tree@, part as int).len() as int,
                "field_declaration"@,
                go_field_record(tree@, source@, file@, owner@),
            ),
        ),
{
    let ghost nodes = tree@;
    let kids = tree.children(part);
    let ghost all = children(nodes, part as int);
    let ghost make = go_field_record(nodes, source@, file@, owner@);
    let mut k: usize = 0;
    proof {
        out.lemma_count_in_range();
        lemma_emits_nothing(out@);
    }
    while k < kids.len()
        invariant
            k <= kids.len(),
            nodes == tree@,
            all == indices(kids@),
            make == go_field_record(nodes, source@, file@, owner@),
            forall|j: int| 0 <= j < kids.len() ==> #[trigger] kids[j] < nodes.len(),
            emits(
                old(out)@,
                out@,
                records_where(nodes, all, k as int, "field_declaration"@, make),
            ),
        decreases kids.len() - k,
    {
        let ghost before = out@;
        let ghost so_far = records_where(nodes, all, k as int, "field_declaration"@, make);
        let child = kids[k];
        if tree.has_kind(child, "field_declaration") {
            let name = declared_name_of(tree, source, child, "name");
            write_entity(
                tree,
                source,
                file,
                child,
                SourceLanguage::Go,
                EntityKind::Field,
                name,
                Some(owner),
                None,
                None,
                None,
                out,
            );
            proof {
                lemma_emits_then(old(out)@, before, out@, so_far, seq![make(child as int)]);
            }
        }
        k = k + 1;
    }
    assert(indices(kids@).len() == kids@.len());
}

/// Writes the records of the fields of the type declared at node `i`.
fn write_fields(
    tree: &SyntaxTree,
    source: &str,
    file: &str,
    i: usize,
    owner: &str,
    out: &mut CountingWriter,
)
    requires
        i < tree@.len(),
        owner@ == declared_name(tree@, source@, i as int, "name"@),
    ensures
        emits(old(out)@, final(out)@, go_field_records(tree@, source@, file@, i as int)),
{
    let ghost nodes = tree@;
    proof {
        out.lemma_count_in_range();
        lemma_emits_nothing(out@);
    }
    if let Some(t) = tree.child_by_field_name(i, "type") {
        let parts = tree.children(t);
        let ghost all = children(nodes, t as int);
        let mut k: usize = 0;
        while k < parts.len()
            invariant
                k <= parts.len(),
                nodes == tree@,
                all == indices(parts@),
                forall|j: int| 0 <= j < parts.len() ==> #[trigger] parts[j] < nodes.len(),
                emits(
                    old(out)@,
                    out@,
                    body_field_records(nodes, source@, file@, all, k as int, owner@),
                ),
            decreases parts.len() - k,
        {
            let ghost before = out@;
            let ghost so_far = body_field_records(nodes, source@, file@, all, k as int, owner@);
            let part = parts[k];
            assert(all[k as int] == part as int);
            write_fields_below(tree, source, file, part, owner, out);
            proof {
                lemma_emits_then(
                    old(out)@,
                    before,
                    out@,
                    so_far,
                    records_where(
                        nodes,
                        children(nodes, part as int),
                        children(nodes, part as int).len() as int,
                        "field_declaration"@,
                        go_field_record(nodes, source@, file@, owner@),
                    ),
                );
            }
            k = k + 1;
        }
        assert(indices(parts@).len() == parts@.len());
    }
}

/// The records of fields in a well-formed tree start on line one or later
/// and do not end before they start.
pub proof fn lemma_body_fields_lines(
    nodes: Seq<NodeView>,
    source: Seq<char>,
    file: Seq<char>,
    parts: Seq<int>,
    count: int,
    owner: Seq<char>,
)
    requires
        well_formed(nodes),
        forall|j: int| 0 <= j < parts.len() ==> 0 <= #[trigger] parts[j] < nodes.len(),
    ensures
        forall|k: int|
            0 <= k < body_field_records(nodes, source, file, parts, count, owner).len()
                ==> lines_in_order(
                #[trigger] body_field_records(nodes, source, file, parts, count, owner)[k],
            ),
    decreases count,
{
    if 0 < count <= parts.len() {
        lemma_body_fields_lines(nodes, source, file, parts, count - 1, owner);
        let part = parts[count - 1];
        let kids = children(nodes, part);
        let make = go_field_record(nodes, source, file, owner);
        lemma_children(nodes, part);
        assert forall|j: int| 0 <= j < kids.len() implies lines_in_order(
            make(#[trigger] kids[j]),
        ) by {
            assert(node_ok(nodes, kids[j]));
        }
        lemma_records_where_all(
            nodes,
            kids,
            kids.len() as int,
            "field_declaration"@,
            make,
            |r: Record| lines_in_order(r),
        );
        lemma_all_concat(
            body_field_records(nodes, source, file, parts, count - 1, owner),
            records_where(nodes, kids, kids.len() as int, "field_declaration"@, make),
            |r: Record| lines_in_order(r),
        );
    }
}

/// Visits node `i`.
pub fn visit_go(
    tree: &SyntaxTree,
    source: &str,
    file: &str,
    i: usize,
    parent: &Option<String>,
    out: &mut CountingWriter,
) -> (descend: Option<Option<String>>)
    requires
        i < tree@.len(),
    ensures
        emits(
            old(out)@,
            final(out)@,
            go_visit(tree@, source@, file@, i as int, string_view(*parent)).items,
        ),
        descend_view(descend) == go_visit(
            tree@,
            source@,
            file@,
            i as int,
            string_view(*parent),
        ).descend,
{
    if tree.has_kind(i, "import_spec") {
        let name = declared_name_of(tree, source, i, "path");
        write_entity(
            tree,
            source,
            file,
            i,
            SourceLanguage::Go,
            EntityKind::Import,
            name,
            None,
            None,
            None,
            None,
            out,
        );
        Some(Some(name.to_owned()))
    } else if tree.has_kind(i, "type_spec") {
        let name = declared_name_of(tree, source, i, "name");
        let generics = optional_field_text_of(tree, source, i, "type_parameters");
        write_entity(
            tree,
            source,
            file,
            i,
            SourceLanguage::Go,
            type_kind(tree, i),
            name,
            None,
            None,
            None,
            generics,
            out,
        );
        let ghost middle = out@;
        let ghost first = go_visit(tree@, source@, file@, i as int, string_view(*parent)).items.take(
            1,
        );
        write_fields(tree, source, file, i, name, out);
        proof {
            let fields = go_field_records(tree@, source@, file@, i as int);
            let items = go_visit(tree@, source@, file@, i as int, string_view(*parent)).items;
            assert(first =~= seq![items[0]]);
            lemma_emits_then(old(out)@, middle, out@, first, fields);
        }
        Some(Some(name.to_owned()))
    } else if tree.has_kind(i, "function_declaration") {
        let name = declared_name_of(tree, source, i, "name");
        let generics = optional_field_text_of(tree, source, i, "type_parameters");
        let calls = extract_function_calls(tree, source, i);
        write_entity(
            tree,
            source,
            file,
            i,
            SourceLanguage::Go,
            EntityKind::Function,
            name,
            as_text(parent),
            None,
            Some(&calls),
            generics,
            out,
        );
        Some(Some(name.to_owned()))
    } else if tree.has_kind(i, "var_spec") {
        let name = declared_name_of(tree, source, i, "name");
        write_entity(
            tree,
            source,
            file,
            i,
            SourceLanguage::Go,
            EntityKind::Variable,
            name,
            as_text(parent),
            None,
            None,
            None,
            out,
        );
        Some(Some(name.to_owned()))
    } else {
        proof {
            out.lemma_count_in_range();
            lemma_emits_nothing(out@);
        }
        Some(copy_text(parent))
    }
}

} // verus!
