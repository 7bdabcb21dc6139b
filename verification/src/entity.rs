//! Records of entities found at nodes: how name, signature and lines are
//! read off the tree, and how a record reaches the sink.

use crate::json::{json_put, JsonValue};
use crate::lang::{EntityKind, SourceLanguage};
use crate::record::{
    emits, lemma_emits_one, lines_in_order, make_entity_json, optional_text, optional_texts,
    write_object, Record,
};
use crate::text::{first_line, first_line_of};
use crate::tree::{
    child_by_field, first_child, node_ok, node_text, well_formed, NodeView, SyntaxTree,
};
use crate::writer::CountingWriter;
use vstd::prelude::*;

verus! {

/// The text of the first child that node `i` holds under `field`; empty
/// where it holds none.
pub open spec fn field_text(nodes: Seq<NodeView>, source: Seq<char>, i: int, field: Seq<char>)
    -> Seq<char> {
    match child_by_field(nodes, i, field) {
        Some(c) => node_text(nodes, source, c),
        None => Seq::empty(),
    }
}

/// The declared name of node `i`, where `field` is the field that holds
/// names: the text of the first child held under that field; without such a
/// child, the text of the first child; without children, nothing.
pub open spec fn declared_name(nodes: Seq<NodeView>, source: Seq<char>, i: int, field: Seq<char>)
    -> Seq<char> {
    match child_by_field(nodes, i, field) {
        Some(c) => node_text(nodes, source, c),
        None => match first_child(nodes, i) {
            Some(c) => node_text(nodes, source, c),
            None => Seq::empty(),
        },
    }
}

/// The text of the first child that node `i` holds under `field`, where it
/// holds one.
pub open spec fn optional_field_text(
    nodes: Seq<NodeView>,
    source: Seq<char>,
    i: int,
    field: Seq<char>,
) -> Option<Seq<char>> {
    match child_by_field(nodes, i, field) {
        Some(c) => Some(node_text(nodes, source, c)),
        None => None,
    }
}

/// The record of an entity at node `i`: its signature is the first line of
/// the node's text, its lines are the node's rows counted from one.
pub open spec fn entity_at(
    nodes: Seq<NodeView>,
    source: Seq<char>,
    file: Seq<char>,
    i: int,
    language: SourceLanguage,
    kind: EntityKind,
    name: Seq<char>,
    parent: Option<Seq<char>>,
    doc: Option<Seq<char>>,
    calls: Option<Seq<Seq<char>>>,
    generics: Option<Seq<char>>,
) -> Record {
    Record {
        file,
        language,
        kind,
        name,
        signature: first_line(node_text(nodes, source, i)),
        starting_line: nodes[i].start_row + 1,
        ending_line: nodes[i].end_row + 1,
        parent,
        doc,
        calls,
        generics,
    }
}

/// The record of an entity at a node of a well-formed tree starts on line
/// one or later, and does not end before it starts.
pub proof fn lemma_entity_lines(
    nodes: Seq<NodeView>,
    source: Seq<char>,
    file: Seq<char>,
    i: int,
    language: SourceLanguage,
    kind: EntityKind,
    name: Seq<char>,
    parent: Option<Seq<char>>,
    doc: Option<Seq<char>>,
    calls: Option<Seq<Seq<char>>>,
    generics: Option<Seq<char>>,
)
    requires
        well_formed(nodes),
        0 <= i < nodes.len(),
    ensures
        lines_in_order(
            entity_at(nodes, source, file, i, language, kind, name, parent, doc, calls, generics),
        ),
{
    assert(node_ok(nodes, i));
}

/// The text of an optional owned string.
pub open spec fn string_view(value: Option<String>) -> Option<Seq<char>> {
    match value {
        Some(v) => Some(v@),
        None => None,
    }
}

/// An optional owned string as an optional string slice.
pub fn as_text(value: &Option<String>) -> (text: Option<&str>)
    ensures
        optional_text(text) == string_view(*value),
{
    match value {
        Some(v) => Some(v.as_str()),
        None => None,
    }
}

/// A copy of an optional string.
pub fn copy_text(value: &Option<String>) -> (copy: Option<String>)
    ensures
        string_view(copy) == string_view(*value),
{
    match value {
        Some(v) => Some(v.clone()),
        None => None,
    }
}

/// An owned copy of an optional string slice.
pub fn own_text(value: Option<&str>) -> (owned: Option<String>)
    ensures
        string_view(owned) == optional_text(value),
{
    match value {
        Some(v) => Some(v.to_owned()),
        None => None,
    }
}

/// The text of the first child that node `i` holds under `field`; empty
/// where it holds none.
pub fn field_text_of<'a>(tree: &SyntaxTree, source: &'a str, i: usize, field: &str) -> (text:
    &'a str)
    requires
        i < tree@.len(),
    ensures
        text@ == field_text(tree@, source@, i as int, field@),
{
    match tree.child_by_field_name(i, field) {
        Some(c) => tree.text(c, source),
        None => {
            proof {
                reveal_strlit("");
            }
            ""
        },
    }
}

/// The declared name of node `i`, where `field` is the field that holds
/// names.
pub fn declared_name_of<'a>(tree: &SyntaxTree, source: &'a str, i: usize, field: &str) -> (name:
    &'a str)
    requires
        i < tree@.len(),
    ensures
        name@ == declared_name(tree@, source@, i as int, field@),
{
    match tree.child_by_field_name(i, field) {
        Some(c) => tree.text(c, source),
        None => match tree.first_child(i) {
            Some(c) => tree.text(c, source),
            None => {
                proof {
                    reveal_strlit("");
                }
                ""
            },
        },
    }
}

/// The text of the first child that node `i` holds under `field`, where it
/// holds one.
pub fn optional_field_text_of<'a>(
    tree: &SyntaxTree,
    source: &'a str,
    i: usize,
    field: &str,
) -> (text: Option<&'a str>)
    requires
        i < tree@.len(),
    ensures
        optional_text(text) == optional_field_text(tree@, source@, i as int, field@),
{
    match tree.child_by_field_name(i, field) {
        Some(c) => Some(tree.text(c, source)),
        None => None,
    }
}

/// Writes the record of an entity at node `i` to the sink.
pub fn write_entity(
    tree: &SyntaxTree,
    source: &str,
    file: &str,
    i: usize,
    language: SourceLanguage,
    kind: EntityKind,
    name: &str,
    parent: Option<&str>,
    doc: Option<&str>,
    calls: Option<&Vec<String>>,
    generics: Option<&str>,
    out: &mut CountingWriter,
)
    requires
        i < tree@.len(),
    ensures
        emits(
            old(out)@,
            final(out)@,
            seq![
                entity_at(
                    tree@,
                    source@,
                    file@,
                    i as int,
                    language,
                    kind,
                    name@,
                    optional_text(parent),
                    optional_text(doc),
                    optional_texts(calls),
                    optional_text(generics),
                ),
            ],
        ),
{
    let signature = first_line_of(tree.text(i, source));
    let mut object = make_entity_json(
        file,
        language,
        kind,
        name,
        signature.as_str(),
        tree.start_line(i),
        tree.end_line(i),
        parent,
        doc,
        calls,
    );
    if let Some(g) = generics {
        json_put(&mut object, "generics", JsonValue::Text(g));
    }
    let ghost record = entity_at(
        tree@,
        source@,
        file@,
        i as int,
        language,
        kind,
        name@,
        optional_text(parent),
        optional_text(doc),
        optional_texts(calls),
        optional_text(generics),
    );
    let _ = write_object(out, object);
    proof {
        lemma_emits_one(old(out)@, out@, record);
    }
}

/// The records that `make` gives for those of the first `count` of `kids`
/// that are of the kind `kind`, in the order of `kids`.
pub open spec fn records_where(
    nodes: Seq<NodeView>,
    kids: Seq<int>,
    count: int,
    kind: Seq<char>,
    make: spec_fn(int) -> Record,
) -> Seq<Record>
    decreases count,
{
    if 0 < count <= kids.len() {
        records_where(nodes, kids, count - 1, kind, make) + if nodes[kids[count - 1]].kind
            == kind {
            seq![make(kids[count - 1])]
        } else {
            Seq::empty()
        }
    } else {
        Seq::empty()
    }
}

/// How many of the first `count` of `kids` are of the kind `kind`.
pub open spec fn count_of_kind(nodes: Seq<NodeView>, kids: Seq<int>, count: int, kind: Seq<char>)
    -> nat
    decreases count,
{
    if 0 < count <= kids.len() {
        count_of_kind(nodes, kids, count - 1, kind) + if nodes[kids[count - 1]].kind == kind {
            1nat
        } else {
            0nat
        }
    } else {
        0
    }
}

/// There is one record for each node of the kind.
pub proof fn lemma_records_where_count(
    nodes: Seq<NodeView>,
    kids: Seq<int>,
    count: int,
    kind: Seq<char>,
    make: spec_fn(int) -> Record,
)
    ensures
        records_where(nodes, kids, count, kind, make).len() == count_of_kind(
            nodes,
            kids,
            count,
            kind,
        ),
    decreases count,
{
    if 0 < count <= kids.len() {
        lemma_records_where_count(nodes, kids, count - 1, kind, make);
    }
}

/// What holds of every record that `make` gives holds of every record made.
pub proof fn lemma_records_where_all(
    nodes: Seq<NodeView>,
    kids: Seq<int>,
    count: int,
    kind: Seq<char>,
    make: spec_fn(int) -> Record,
    good: spec_fn(Record) -> bool,
)
    requires
        forall|j: int| 0 <= j < kids.len() ==> good(make(#[trigger] kids[j])),
    ensures
        forall|k: int|
            0 <= k < records_where(nodes, kids, count, kind, make).len() ==> good(
                #[trigger] records_where(nodes, kids, count, kind, make)[k],
            ),
    decreases count,
{
    if 0 < count <= kids.len() {
        lemma_records_where_all(nodes, kids, count - 1, kind, make, good);
        let last = if nodes[kids[count - 1]].kind == kind {
            seq![make(kids[count - 1])]
        } else {
            Seq::empty()
        };
        crate::walk::lemma_all_concat(
            records_where(nodes, kids, count - 1, kind, make),
            last,
            good,
        );
    }
}

} // verus!
