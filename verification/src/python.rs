//! Extraction rules for Python: the decorators of classes and functions.
//! Classes and functions themselves go by the table, with docstrings.

use crate::entity::{
    as_text, copy_text, count_of_kind, declared_name, declared_name_of, entity_at,
    lemma_records_where_all, lemma_records_where_count, optional_field_text,
    optional_field_text_of, records_where, string_view, write_entity,
};
use crate::lang::{EntityKind, SourceLanguage};
use crate::record::{emits, lemma_emits_nothing, lemma_emits_then, optional_text, Record};
use crate::rules::descend_view;
use crate::tree::{children, indices, NodeView, SyntaxTree};
use crate::walk::Visit;
use crate::writer::CountingWriter;
use vstd::prelude::*;

verus! {

/// The record of the decorator at a node, of an entity whose decorators are
/// reported under `owner`.
pub open spec fn decorator_record(
    nodes: Seq<NodeView>,
    source: Seq<char>,
    file: Seq<char>,
    owner: Option<Seq<char>>,
) -> spec_fn(int) -> Record {
    |c: int|
        entity_at(
            nodes,
            source,
            file,
            c,
            SourceLanguage::Python,
            EntityKind::Decorator,
            declared_name(nodes, source, c, "name"@),
            owner,
            None,
            None,
            None,
        )
}

/// The entity under which the decorators of node `i` are reported: the
/// class itself if `i` is a class, else the enclosing entity.
pub open spec fn decorator_owner(
    nodes: Seq<NodeView>,
    source: Seq<char>,
    i: int,
    parent: Option<Seq<char>>,
) -> Option<Seq<char>> {
    if nodes[i].kind == "class_definition"@ {
        optional_field_text(nodes, source, i, "name"@)
    } else {
        parent
    }
}

/// The visit of node `i` in the pass over decorators. A class or function
/// yields a record for each decorator among its children. Every node is
/// passed through.
pub open spec fn decorator_visit(
    nodes: Seq<NodeView>,
    source: Seq<char>,
    file: Seq<char>,
    i: int,
    parent: Option<Seq<char>>,
) -> Visit<Record> {
    if nodes[i].kind == "class_definition"@ || nodes[i].kind == "function_definition"@ {
        Visit {
            items: records_where(
                nodes,
                children(nodes, i),
                children(nodes, i).len() as int,
                "decorator"@,
                decorator_record(nodes, source, file, decorator_owner(nodes, source, i, parent)),
            ),
            descend: Some(parent),
        }
    } else {
        Visit { items: Seq::empty(), descend: Some(parent) }
    }
}

/// Visits node `i` in the pass over decorators.
pub fn visit_decorators(
    tree: &SyntaxTree,
    source: &str,
    file: &str,
    i: usize,
    parent: &Option<String>,
    out: &mut CountingWriter,
) -> (descend: Option<Option<String>>)
    requires
        i < tree@.len(),
    ensures
        emits(
            old(out)@,
            final(out)@,
            decorator_visit(tree@, source@, file@, i as int, string_view(*parent)).items,
        ),
        descend_view(descend) == decorator_visit(
            tree@,
            source@,
            file@,
            i as int,
            string_view(*parent),
        ).descend,
{
    let ghost nodes = tree@;
    proof {
        out.lemma_count_in_range();
        lemma_emits_nothing(out@);
    }
    let is_class = tree.has_kind(i, "class_definition");
    if is_class || tree.has_kind(i, "function_definition") {
        let owner: Option<&str> = if is_class {
            optional_field_text_of(tree, source, i, "name")
        } else {
            as_text(parent)
        };
        let kids = tree.children(i);
        let ghost all = children(nodes, i as int);
        let ghost make = decorator_record(nodes, source@, file@, optional_text(owner));
        let mut k: usize = 0;
        while k < kids.len()
            invariant
                k <= kids.len(),
                nodes == tree@,
                all == indices(kids@),
                make == decorator_record(nodes, source@, file@, optional_text(owner)),
                forall|j: int| 0 <= j < kids.len() ==> #[trigger] kids[j] < nodes.len(),
                emits(old(out)@, out@, records_where(nodes, all, k as int, "decorator"@, make)),
            decreases kids.len() - k,
        {
            let ghost before = out@;
            let ghost so_far = records_where(nodes, all, k as int, "decorator"@, make);
            let child = kids[k];
            if tree.has_kind(child, "decorator") {
                let name = declared_name_of(tree, source, child, "name");
                write_entity(
                    tree,
                    source,
                    file,
                    child,
                    SourceLanguage::Python,
                    EntityKind::Decorator,
                    name,
                    owner,
                    None,
                    None,
                    None,
                    out,
                );
                proof {
                    lemma_emits_then(old(out)@, before, out@, so_far, seq![make(child as int)]);
                }
            }
            k = k + 1;
        }
    }
    Some(copy_text(parent))
}

/// A class yields one decorator record for each decorator among its
/// children, and each has the name of the class as parent.
pub proof fn lemma_class_decorators(
    nodes: Seq<NodeView>,
    source: Seq<char>,
    file: Seq<char>,
    i: int,
    parent: Option<Seq<char>>,
)
    requires
        nodes[i].kind == "class_definition"@,
    ensures
        decorator_visit(nodes, source, file, i, parent).items.len() == count_of_kind(
            nodes,
            children(nodes, i),
            children(nodes, i).len() as int,
            "decorator"@,
        ),
        forall|k: int|
            0 <= k < decorator_visit(nodes, source, file, i, parent).items.len() ==> {
                let record = #[trigger] decorator_visit(nodes, source, file, i, parent).items[k];
                record.kind == EntityKind::Decorator && record.parent == optional_field_text(
                    nodes,
                    source,
                    i,
                    "name"@,
                )
            },
{
    let kids = children(nodes, i);
    let make = decorator_record(nodes, source, file, decorator_owner(nodes, source, i, parent));
    let owner = optional_field_text(nodes, source, i, "name"@);
    lemma_records_where_count(nodes, kids, kids.len() as int, "decorator"@, make);
    lemma_records_where_all(
        nodes,
        kids,
        kids.len() as int,
        "decorator"@,
        make,
        |r: Record| r.kind == EntityKind::Decorator && r.parent == owner,
    );
}

} // verus!
