//! Extraction of the entities of one file: the passes over its syntax tree,
//! and which passes make up the extraction for each language.

use crate::cpp::{cpp_visit, visit_cpp};
use crate::entity::{
    copy_text, declared_name, lemma_records_where_all, optional_field_text, string_view,
};
use crate::go::{go_visit, lemma_body_fields_lines, visit_go};
use crate::lang::{EntityKind, SourceLanguage};
use crate::python::{decorator_owner, decorator_record, decorator_visit, visit_decorators};
use crate::record::{
    emits, emits_object, file_entries, lemma_emits_nothing, lemma_emits_then, lines_in_order,
    make_file_json, write_object, Record,
};
use crate::rules::{descend_view, table_visit, visit_by_table, DocStyle, Rules};
use crate::rust_lang::{rust_visit, visit_rust};
use crate::swift::{swift_visit, visit_swift};
use crate::tree::{
    child_by_field, children, indices, lemma_children, lemma_first_with_field_within, node_ok,
    total_span, well_formed, NodeView, SyntaxTree,
};
use crate::walk::{
    child_items, lemma_all_concat, lemma_pop_weight, lemma_push_all_weight, lemma_push_children,
    lemma_subtree_walked, lemma_walk_items, pending, stack_in_tree, stack_roots, walk,
    walk_children, Visit,
};
use crate::writer::CountingWriter;
use vstd::prelude::*;

verus! {

/// One pass over a syntax tree.
#[derive(Clone, Copy, Debug)]
pub enum Pass {
    /// By the table of a language, with documentation in the given style.
    Table(Rules, DocStyle),
    /// By the rules for Swift.
    Swift,
    /// By the rules for Go.
    Go,
    /// By the rules for C++.
    Cpp,
    /// Over the decorators of Python classes and functions.
    Decorators,
    /// By the rules for Rust.
    Rust,
}

/// The visit of node `i` in the given pass.
pub open spec fn pass_visit(
    pass: Pass,
    nodes: Seq<NodeView>,
    source: Seq<char>,
    file: Seq<char>,
    i: int,
    parent: Option<Seq<char>>,
) -> Visit<Record> {
    match pass {
        Pass::Table(rules, style) => table_visit(rules, style, nodes, source, file, i, parent),
        Pass::Swift => swift_visit(nodes, source, file, i, parent),
        Pass::Go => go_visit(nodes, source, file, i, parent),
        Pass::Cpp => cpp_visit(nodes, source, file, i, parent),
        Pass::Decorators => decorator_visit(nodes, source, file, i, parent),
        Pass::Rust => rust_visit(nodes, source, file, i, parent),
    }
}

/// The visits of the given pass over a tree.
pub open spec fn pass_visitor(pass: Pass, nodes: Seq<NodeView>, source: Seq<char>, file: Seq<char>)
    -> spec_fn(int, Option<Seq<char>>) -> Visit<Record> {
    |i: int, parent: Option<Seq<char>>| pass_visit(pass, nodes, source, file, i, parent)
}

/// The records of one pass over a tree: the walk from the root, which has
/// no enclosing entity.
pub open spec fn pass_records(pass: Pass, nodes: Seq<NodeView>, source: Seq<char>, file: Seq<char>)
    -> Seq<Record> {
    walk(pass_visitor(pass, nodes, source, file), nodes, 0, None)
}

/// A stack of nodes, each with its enclosing entity, as mathematical values.
pub open spec fn stack_view(stack: Seq<(usize, Option<String>)>) -> Seq<(int, Option<Seq<char>>)> {
    Seq::new(stack.len(), |k: int| (stack[k].0 as int, string_view(stack[k].1)))
}

/// Visits node `i` in the given pass.
fn visit(
    pass: &Pass,
    tree: &SyntaxTree,
    source: &str,
    file: &str,
    i: usize,
    parent: &Option<String>,
    out: &mut CountingWriter,
) -> (descend: Option<Option<String>>)
    requires
        i < tree@.len(),
    ensures
        emits(
            old(out)@,
            final(out)@,
            pass_visit(*pass, tree@, source@, file@, i as int, string_view(*parent)).items,
        ),
        descend_view(descend) == pass_visit(
            *pass,
            tree@,
            source@,
            file@,
            i as int,
            string_view(*parent),
        ).descend,
{
    match pass {
        Pass::Table(rules, style) => visit_by_table(
            rules,
            *style,
            tree,
            source,
            file,
            i,
            parent,
            out,
        ),
        Pass::Swift => visit_swift(tree, source, file, i, parent, out),
        Pass::Go => visit_go(tree, source, file, i, parent, out),
        Pass::Cpp => visit_cpp(tree, source, file, i, parent, out),
        Pass::Decorators => visit_decorators(tree, source, file, i, parent, out),
        Pass::Rust => visit_rust(tree, source, file, i, parent, out),
    }
}

/// Walks the tree in the given pass, with a work stack of pending nodes,
/// and writes each record to the sink as it is found.
pub fn walk_tree(pass: &Pass, tree: &SyntaxTree, source: &str, file: &str, out: &mut CountingWriter)
    ensures
        emits(old(out)@, final(out)@, pass_records(*pass, tree@, source@, file@)),
{
    let n = tree.len();
    let ghost nodes = tree@;
    let ghost visitor = pass_visitor(*pass, nodes, source@, file@);
    let ghost mut done: Seq<Record> = Seq::empty();
    let mut stack: Vec<(usize, Option<String>)> = Vec::new();
    stack.push((0, None));
    proof {
        let start = stack_view(stack@);
        assert(pending(visitor, nodes, start.drop_last()) =~= Seq::<Record>::empty());
        out.lemma_count_in_range();
        lemma_emits_nothing(out@);
    }
    while stack.len() > 0
        invariant
            nodes == tree@,
            n == nodes.len(),
            well_formed(nodes),
            visitor == pass_visitor(*pass, nodes, source@, file@),
            stack_in_tree(nodes, stack_view(stack@)),
            emits(old(out)@, out@, done),
            done + pending(visitor, nodes, stack_view(stack@)) == pass_records(
                *pass,
                nodes,
                source@,
                file@,
            ),
        decreases total_span(nodes, stack_roots(stack_view(stack@))),
    {
        let ghost old_stack = stack_view(stack@);
        let ghost old_done = done;
        let (i, parent) = stack.pop().unwrap();
        let ghost rest = stack_view(stack@);
        let ghost here = pass_visit(*pass, nodes, source@, file@, i as int, string_view(parent));
        proof {
            assert(rest =~= old_stack.drop_last());
            lemma_pop_weight(nodes, old_stack);
            lemma_children(nodes, i as int);
        }
        let ghost before = out@;
        let descend = visit(pass, tree, source, file, i, &parent, out);
        proof {
            lemma_emits_then(old(out)@, before, out@, old_done, here.items);
            done = old_done + here.items;
        }
        if let Some(below) = descend {
            let kids = tree.children(i);
            let mut k: usize = 0;
            while k < kids.len()
                invariant
                    k <= kids.len(),
                    indices(kids@) == children(nodes, i as int),
                    stack_view(stack@) == rest + child_items(
                        nodes,
                        i as int,
                        k as int,
                        string_view(below),
                    ),
                decreases kids.len() - k,
            {
                let ghost so_far = stack_view(stack@);
                stack.push((kids[k], copy_text(&below)));
                proof {
                    assert(stack_view(stack@) =~= so_far.push(
                        (kids@[k as int] as int, string_view(below)),
                    ));
                }
                k = k + 1;
            }
            proof {
                let count = children(nodes, i as int).len() as int;
                lemma_push_children(visitor, nodes, rest, i as int, count, string_view(below));
                lemma_push_all_weight(nodes, rest, i as int, string_view(below));
            }
        }
    }
}

/// The table for Java: classes and their methods.
pub open spec fn java_rules() -> Rules {
    Rules {
        language: SourceLanguage::Java,
        class_kind: "class_declaration",
        class_type: EntityKind::Class,
        class_name_field: "name",
        function_kind: "method_declaration",
        function_name_field: "name",
        function_type: EntityKind::Function,
    }
}

/// The table for C#: classes and their methods.
pub open spec fn csharp_rules() -> Rules {
    Rules {
        language: SourceLanguage::CSharp,
        class_kind: "class_declaration",
        class_type: EntityKind::Class,
        class_name_field: "name",
        function_kind: "method_declaration",
        function_name_field: "name",
        function_type: EntityKind::Function,
    }
}

/// The table for JavaScript and TypeScript: classes and function
/// declarations.
pub open spec fn js_ts_rules(language: SourceLanguage) -> Rules {
    Rules {
        language,
        class_kind: "class_declaration",
        class_type: EntityKind::Class,
        class_name_field: "name",
        function_kind: "function_declaration",
        function_name_field: "name",
        function_type: EntityKind::Function,
    }
}

/// The table for Python: classes and functions.
pub open spec fn python_rules() -> Rules {
    Rules {
        language: SourceLanguage::Python,
        class_kind: "class_definition",
        class_type: EntityKind::Class,
        class_name_field: "name",
        function_kind: "function_definition",
        function_name_field: "name",
        function_type: EntityKind::Function,
    }
}

/// The records of a Python file: those of its decorators, then those of its
/// classes and functions, with docstrings.
pub open spec fn python_entities(nodes: Seq<NodeView>, source: Seq<char>, file: Seq<char>) -> Seq<
    Record,
> {
    pass_records(Pass::Decorators, nodes, source, file) + pass_records(
        Pass::Table(python_rules(), DocStyle::Docstring),
        nodes,
        source,
        file,
    )
}

/// The records of a file in the given language; none for a language
/// without extraction rules.
pub open spec fn language_records(
    language: SourceLanguage,
    nodes: Seq<NodeView>,
    source: Seq<char>,
    file: Seq<char>,
) -> Seq<Record> {
    match language {
        SourceLanguage::Swift => pass_records(Pass::Swift, nodes, source, file),
        SourceLanguage::Python => python_entities(nodes, source, file),
        SourceLanguage::Rust => pass_records(Pass::Rust, nodes, source, file),
        SourceLanguage::Cpp => pass_records(Pass::Cpp, nodes, source, file),
        SourceLanguage::Java => pass_records(
            Pass::Table(java_rules(), DocStyle::Absent),
            nodes,
            source,
            file,
        ),
        SourceLanguage::Go => pass_records(Pass::Go, nodes, source, file),
        SourceLanguage::JavaScript => pass_records(
            Pass::Table(js_ts_rules(SourceLanguage::JavaScript), DocStyle::Absent),
            nodes,
            source,
            file,
        ),
        SourceLanguage::TypeScript => pass_records(
            Pass::Table(js_ts_rules(SourceLanguage::TypeScript), DocStyle::Absent),
            nodes,
            source,
            file,
        ),
        SourceLanguage::CSharp => pass_records(
            Pass::Table(csharp_rules(), DocStyle::Absent),
            nodes,
            source,
            file,
        ),
        SourceLanguage::Other => Seq::empty(),
    }
}

/// Extracts by the table `rules`, without documentation.
pub fn extract_entities_generic(
    tree: &SyntaxTree,
    source: &str,
    file: &str,
    out: &mut CountingWriter,
    rules: &Rules,
)
    ensures
        emits(
            old(out)@,
            final(out)@,
            pass_records(Pass::Table(*rules, DocStyle::Absent), tree@, source@, file@),
        ),
{
    walk_tree(&Pass::Table(*rules, DocStyle::Absent), tree, source, file, out);
}

/// Extracts by the table `rules`, with documentation in the given style.
pub fn extract_entities_with_doc(
    tree: &SyntaxTree,
    source: &str,
    file: &str,
    out: &mut CountingWriter,
    rules: &Rules,
    style: DocStyle,
)
    ensures
        emits(
            old(out)@,
            final(out)@,
            pass_records(Pass::Table(*rules, style), tree@, source@, file@),
        ),
{
    walk_tree(&Pass::Table(*rules, style), tree, source, file, out);
}

/// Extracts the entities of a Java file.
pub fn extract_java_entities(
    tree: &SyntaxTree,
    source: &str,
    file: &str,
    out: &mut CountingWriter,
)
    ensures
        emits(
            old(out)@,
            final(out)@,
            language_records(SourceLanguage::Java, tree@, source@, file@),
        ),
{
    let rules = Rules {
        language: SourceLanguage::Java,
        class_kind: "class_declaration",
        class_type: EntityKind::Class,
        class_name_field: "name",
        function_kind: "method_declaration",
        function_name_field: "name",
        function_type: EntityKind::Function,
    };
    extract_entities_generic(tree, source, file, out, &rules);
}

/// Extracts the entities of a C# file.
pub fn extract_csharp_entities(
    tree: &SyntaxTree,
    source: &str,
    file: &str,
    out: &mut CountingWriter,
)
    ensures
        emits(
            old(out)@,
            final(out)@,
            language_records(SourceLanguage::CSharp, tree@, source@, file@),
        ),
{
    let rules = Rules {
        language: SourceLanguage::CSharp,
        class_kind: "class_declaration",
        class_type: EntityKind::Class,
        class_name_field: "name",
        function_kind: "method_declaration",
        function_name_field: "name",
        function_type: EntityKind::Function,
    };
    extract_entities_generic(tree, source, file, out, &rules);
}

/// Extracts the entities of a JavaScript or TypeScript file, reported under
/// `language`.
pub fn extract_js_ts_entities(
    tree: &SyntaxTree,
    source: &str,
    file: &str,
    out: &mut CountingWriter,
    language: SourceLanguage,
)
    ensures
        emits(
            old(out)@,
            final(out)@,
            pass_records(
                Pass::Table(js_ts_rules(language), DocStyle::Absent),
                tree@,
                source@,
                file@,
            ),
        ),
{
    let rules = Rules {
        language,
        class_kind: "class_declaration",
        class_type: EntityKind::Class,
        class_name_field: "name",
        function_kind: "function_declaration",
        function_name_field: "name",
        function_type: EntityKind::Function,
    };
    extract_entities_generic(tree, source, file, out, &rules);
}

/// Extracts the entities of a Swift file.
pub fn extract_swift_entities(
    tree: &SyntaxTree,
    source: &str,
    file: &str,
    out: &mut CountingWriter,
)
    ensures
        emits(
            old(out)@,
            final(out)@,
            language_records(SourceLanguage::Swift, tree@, source@, file@),
        ),
{
    walk_tree(&Pass::Swift, tree, source, file, out);
}

/// Extracts the entities of a Go file.
pub fn extract_go_entities(tree: &SyntaxTree, source: &str, file: &str, out: &mut CountingWriter)
    ensures
        emits(old(out)@, final(out)@, language_records(SourceLanguage::Go, tree@, source@, file@)),
{
    walk_tree(&Pass::Go, tree, source, file, out);
}

/// Extracts the entities of a C++ file.
pub fn extract_cpp_entities(tree: &SyntaxTree, source: &str, file: &str, out: &mut CountingWriter)
    ensures
        emits(old(out)@, final(out)@, language_records(SourceLanguage::Cpp, tree@, source@, file@)),
{
    walk_tree(&Pass::Cpp, tree, source, file, out);
}

/// Extracts the entities of a Python file: first the decorators, then
/// classes and functions with their docstrings.
pub fn extract_python_entities(
    tree: &SyntaxTree,
    source: &str,
    file: &str,
    out: &mut CountingWriter,
)
    ensures
        emits(
            old(out)@,
            final(out)@,
            language_records(SourceLanguage::Python, tree@, source@, file@),
        ),
{
    walk_tree(&Pass::Decorators, tree, source, file, out);
    let ghost middle = out@;
    let rules = Rules {
        language: SourceLanguage::Python,
        class_kind: "class_definition",
        class_type: EntityKind::Class,
        class_name_field: "name",
        function_kind: "function_definition",
        function_name_field: "name",
        function_type: EntityKind::Function,
    };
    extract_entities_with_doc(tree, source, file, out, &rules, DocStyle::Docstring);
    proof {
        lemma_emits_then(
            old(out)@,
            middle,
            out@,
            pass_records(Pass::Decorators, tree@, source@, file@),
            pass_records(Pass::Table(python_rules(), DocStyle::Docstring), tree@, source@, file@),
        );
    }
}

/// Extracts the entities of a Rust file: its structs, enums and traits,
/// and its functions, each function once, those inside an implementation
/// block under the type that the block names.
pub fn extract_rust_entities(
    tree: &SyntaxTree,
    source: &str,
    file: &str,
    out: &mut CountingWriter,
)
    ensures
        emits(
            old(out)@,
            final(out)@,
            language_records(SourceLanguage::Rust, tree@, source@, file@),
        ),
{
    walk_tree(&Pass::Rust, tree, source, file, out);
}

/// Extracts the entities of a file in the given language. A file in a
/// language without extraction rules gets one record that holds only the
/// file and the language.
pub fn extract_entities(
    language: SourceLanguage,
    tree: &SyntaxTree,
    source: &str,
    file: &str,
    out: &mut CountingWriter,
)
    ensures
        language != SourceLanguage::Other ==> emits(
            old(out)@,
            final(out)@,
            language_records(language, tree@, source@, file@),
        ),
        language == SourceLanguage::Other ==> emits_object(
            old(out)@,
            final(out)@,
            file_entries(file@, language),
        ),
        forall|k: int|
            0 <= k < language_records(language, tree@, source@, file@).len() ==> lines_in_order(
                #[trigger] language_records(language, tree@, source@, file@)[k],
            ),
{
    let _ = tree.len();
    proof {
        lemma_record_lines(language, tree@, source@, file@);
    }
    match language {
        SourceLanguage::Swift => extract_swift_entities(tree, source, file, out),
        SourceLanguage::Python => extract_python_entities(tree, source, file, out),
        SourceLanguage::Rust => extract_rust_entities(tree, source, file, out),
        SourceLanguage::Cpp => extract_cpp_entities(tree, source, file, out),
        SourceLanguage::Java => extract_java_entities(tree, source, file, out),
        SourceLanguage::Go => extract_go_entities(tree, source, file, out),
        SourceLanguage::JavaScript => extract_js_ts_entities(
            tree,
            source,
            file,
            out,
            SourceLanguage::JavaScript,
        ),
        SourceLanguage::TypeScript => extract_js_ts_entities(
            tree,
            source,
            file,
            out,
            SourceLanguage::TypeScript,
        ),
        SourceLanguage::CSharp => extract_csharp_entities(tree, source, file, out),
        SourceLanguage::Other => {
            let _ = write_object(out, make_file_json(file, language));
        },
    }
}

/// Every record that a visit yields in a well-formed tree starts on line
/// one or later and does not end before it starts.
pub proof fn lemma_visit_lines(
    pass: Pass,
    nodes: Seq<NodeView>,
    source: Seq<char>,
    file: Seq<char>,
    i: int,
    parent: Option<Seq<char>>,
)
    requires
        well_formed(nodes),
        0 <= i < nodes.len(),
    ensures
        forall|k: int|
            0 <= k < pass_visit(pass, nodes, source, file, i, parent).items.len()
                ==> lines_in_order(
                #[trigger] pass_visit(pass, nodes, source, file, i, parent).items[k],
            ),
{
    assert(node_ok(nodes, i));
    match pass {
        Pass::Go => {
            if nodes[i].kind == "type_spec"@ {
                match child_by_field(nodes, i, "type"@) {
                    Some(t) => {
                        lemma_first_with_field_within(
                            nodes,
                            i + 1,
                            i + nodes[i].span,
                            "type"@,
                        );
                        lemma_children(nodes, t);
                        lemma_body_fields_lines(
                            nodes,
                            source,
                            file,
                            children(nodes, t),
                            children(nodes, t).len() as int,
                            declared_name(nodes, source, i, "name"@),
                        );
                    },
                    None => {},
                }
            }
        },
        Pass::Decorators => {
            lemma_children(nodes, i);
            let kids = children(nodes, i);
            let make = decorator_record(
                nodes,
                source,
                file,
                decorator_owner(nodes, source, i, parent),
            );
            assert forall|j: int| 0 <= j < kids.len() implies lines_in_order(
                make(#[trigger] kids[j]),
            ) by {
                assert(node_ok(nodes, kids[j]));
            }
            lemma_records_where_all(
                nodes,
                kids,
                kids.len() as int,
                "decorator"@,
                make,
                |r: Record| lines_in_order(r),
            );
        },
        _ => {},
    }
}

/// Every record of a pass over a well-formed tree starts on line one or
/// later and does not end before it starts.
pub proof fn lemma_pass_lines(pass: Pass, nodes: Seq<NodeView>, source: Seq<char>, file: Seq<char>)
    requires
        well_formed(nodes),
    ensures
        forall|k: int|
            0 <= k < pass_records(pass, nodes, source, file).len() ==> lines_in_order(
                #[trigger] pass_records(pass, nodes, source, file)[k],
            ),
{
    let visitor = pass_visitor(pass, nodes, source, file);
    let good = |r: Record| lines_in_order(r);
    assert forall|j: int, p: Option<Seq<char>>, k: int|
        0 <= j < nodes.len() && 0 <= k < visitor(j, p).items.len() implies good(
        #[trigger] visitor(j, p).items[k],
    ) by {
        lemma_visit_lines(pass, nodes, source, file, j, p);
    }
    lemma_walk_items(visitor, nodes, 0, None, good);
    assert forall|k: int| 0 <= k < pass_records(pass, nodes, source, file).len()
        implies lines_in_order(#[trigger] pass_records(pass, nodes, source, file)[k]) by {
    }
}

/// Every record of a file, in whatever language, starts on line one or
/// later and does not end before it starts.
pub proof fn lemma_record_lines(
    language: SourceLanguage,
    nodes: Seq<NodeView>,
    source: Seq<char>,
    file: Seq<char>,
)
    requires
        well_formed(nodes),
    ensures
        forall|k: int|
            0 <= k < language_records(language, nodes, source, file).len() ==> lines_in_order(
                #[trigger] language_records(language, nodes, source, file)[k],
            ),
{
    lemma_pass_lines(Pass::Swift, nodes, source, file);
    lemma_pass_lines(Pass::Go, nodes, source, file);
    lemma_pass_lines(Pass::Cpp, nodes, source, file);
    lemma_pass_lines(Pass::Decorators, nodes, source, file);
    lemma_pass_lines(Pass::Rust, nodes, source, file);
    lemma_pass_lines(Pass::Table(java_rules(), DocStyle::Absent), nodes, source, file);
    lemma_pass_lines(Pass::Table(csharp_rules(), DocStyle::Absent), nodes, source, file);
    lemma_pass_lines(
        Pass::Table(js_ts_rules(SourceLanguage::JavaScript), DocStyle::Absent),
        nodes,
        source,
        file,
    );
    lemma_pass_lines(
        Pass::Table(js_ts_rules(SourceLanguage::TypeScript), DocStyle::Absent),
        nodes,
        source,
        file,
    );
    lemma_pass_lines(Pass::Table(python_rules(), DocStyle::Docstring), nodes, source, file);
}

/// The kind of node declares nothing that the rules for Rust report or
/// that rebinds the enclosing entity.
pub open spec fn rust_plain(kind: Seq<char>) -> bool {
    kind != "function_item"@ && kind != "impl_item"@ && kind != "struct_item"@ && kind
        != "enum_item"@ && kind != "trait_item"@
}

/// No node from `from` up to `end` is a function, an implementation block
/// or a type declaration.
pub open spec fn all_plain(nodes: Seq<NodeView>, from: int, end: int) -> bool {
    forall|j: int| from <= j < end ==> rust_plain((#[trigger] nodes[j]).kind)
}

/// Every node from `from` up to `end` is plain or a function, and no
/// function among them has anything but plain nodes below it.
pub open spec fn functions_apart(nodes: Seq<NodeView>, from: int, end: int) -> bool {
    forall|j: int|
        from <= j < end ==> (rust_plain((#[trigger] nodes[j]).kind) || (nodes[j].kind
            == "function_item"@ && all_plain(nodes, j + 1, j + nodes[j].span)))
}

/// The kinds of node that the rules for Rust know are five different
/// kinds.
pub proof fn lemma_rust_kinds_differ()
    ensures
        "function_item"@ != "impl_item"@,
        "function_item"@ != "struct_item"@,
        "function_item"@ != "enum_item"@,
        "function_item"@ != "trait_item"@,
        "impl_item"@ != "struct_item"@,
        "impl_item"@ != "enum_item"@,
        "impl_item"@ != "trait_item"@,
        "struct_item"@ != "enum_item"@,
        "struct_item"@ != "trait_item"@,
        "enum_item"@ != "trait_item"@,
{
    reveal_strlit("function_item");
    reveal_strlit("impl_item");
    reveal_strlit("struct_item");
    reveal_strlit("enum_item");
    reveal_strlit("trait_item");
    assert("function_item"@.len() == 13);
    assert("impl_item"@.len() == 9);
    assert("struct_item"@.len() == 11);
    assert("enum_item"@.len() == 9);
    assert("trait_item"@.len() == 10);
    assert("impl_item"@[0] != "enum_item"@[0]);
}

/// A subtree of plain nodes yields no record.
pub proof fn lemma_no_records(
    nodes: Seq<NodeView>,
    source: Seq<char>,
    file: Seq<char>,
    i: int,
    parent: Option<Seq<char>>,
)
    requires
        well_formed(nodes),
        0 <= i < nodes.len(),
        all_plain(nodes, i, i + nodes[i].span),
    ensures
        walk(pass_visitor(Pass::Rust, nodes, source, file), nodes, i, parent).len() == 0,
    decreases nodes.len() - i, children(nodes, i).len() + 1,
{
    let visitor = pass_visitor(Pass::Rust, nodes, source, file);
    assert(visitor(i, parent) == rust_visit(nodes, source, file, i, parent));
    assert(node_ok(nodes, i));
    assert(rust_plain(nodes[i].kind));
    lemma_no_records_below(nodes, source, file, i, children(nodes, i).len() as int, parent);
}

/// The children of a node with none but plain nodes below it yield no
/// record.
pub proof fn lemma_no_records_below(
    nodes: Seq<NodeView>,
    source: Seq<char>,
    file: Seq<char>,
    i: int,
    count: int,
    below: Option<Seq<char>>,
)
    requires
        well_formed(nodes),
        0 <= i < nodes.len(),
        all_plain(nodes, i + 1, i + nodes[i].span),
    ensures
        walk_children(pass_visitor(Pass::Rust, nodes, source, file), nodes, i, count, below).len()
            == 0,
    decreases nodes.len() - i, count,
{
    if 0 < count <= children(nodes, i).len() {
        lemma_children(nodes, i);
        let child = children(nodes, i)[count - 1];
        assert(i < child < nodes.len());
        assert(all_plain(nodes, child, child + nodes[child].span));
        lemma_no_records(nodes, source, file, child, below);
        lemma_no_records_below(nodes, source, file, i, count - 1, below);
    }
}

/// From a subtree in which nothing but functions is declared, none inside
/// another, every record has as parent the enclosing entity with which the
/// subtree was visited: none, where it was visited with none.
pub proof fn lemma_parent_kept(
    nodes: Seq<NodeView>,
    source: Seq<char>,
    file: Seq<char>,
    i: int,
    parent: Option<Seq<char>>,
)
    requires
        well_formed(nodes),
        0 <= i < nodes.len(),
        functions_apart(nodes, i, i + nodes[i].span),
    ensures
        forall|k: int|
            0 <= k < walk(pass_visitor(Pass::Rust, nodes, source, file), nodes, i, parent).len()
                ==> (#[trigger] walk(
                pass_visitor(Pass::Rust, nodes, source, file),
                nodes,
                i,
                parent,
            )[k]).parent == parent,
    decreases nodes.len() - i, children(nodes, i).len() + 1,
{
    let visitor = pass_visitor(Pass::Rust, nodes, source, file);
    let here = visitor(i, parent);
    let count = children(nodes, i).len() as int;
    assert(here == rust_visit(nodes, source, file, i, parent));
    assert(node_ok(nodes, i));
    assert(rust_plain(nodes[i].kind) || nodes[i].kind == "function_item"@);
    lemma_rust_kinds_differ();
    if nodes[i].kind == "function_item"@ {
        let name = declared_name(nodes, source, i, "name"@);
        lemma_no_records_below(nodes, source, file, i, count, Some(name));
        assert(walk(visitor, nodes, i, parent) =~= here.items);
    } else {
        assert(functions_apart(nodes, i + 1, i + nodes[i].span));
        lemma_parent_kept_below(nodes, source, file, i, count, parent);
        assert(walk(visitor, nodes, i, parent) =~= walk_children(visitor, nodes, i, count, parent));
    }
}

/// From the children of a node below which nothing but functions is
/// declared, none inside another, every record has as parent the enclosing
/// entity that the children were told of.
pub proof fn lemma_parent_kept_below(
    nodes: Seq<NodeView>,
    source: Seq<char>,
    file: Seq<char>,
    i: int,
    count: int,
    below: Option<Seq<char>>,
)
    requires
        well_formed(nodes),
        0 <= i < nodes.len(),
        functions_apart(nodes, i + 1, i + nodes[i].span),
    ensures
        forall|k: int|
            0 <= k < walk_children(
                pass_visitor(Pass::Rust, nodes, source, file),
                nodes,
                i,
                count,
                below,
            ).len() ==> (#[trigger] walk_children(
                pass_visitor(Pass::Rust, nodes, source, file),
                nodes,
                i,
                count,
                below,
            )[k]).parent == below,
    decreases nodes.len() - i, count,
{
    let visitor = pass_visitor(Pass::Rust, nodes, source, file);
    if 0 < count <= children(nodes, i).len() {
        lemma_children(nodes, i);
        let child = children(nodes, i)[count - 1];
        assert(i < child < nodes.len());
        assert(functions_apart(nodes, child, child + nodes[child].span));
        lemma_parent_kept(nodes, source, file, child, below);
        lemma_parent_kept_below(nodes, source, file, i, count - 1, below);
        lemma_all_concat(
            walk(visitor, nodes, child, below),
            walk_children(visitor, nodes, i, count - 1, below),
            |r: Record| r.parent == below,
        );
    }
}

/// The functions of an implementation block are records of the file, with
/// the type that the block names as parent. Where nothing but functions is
/// declared inside the block, none inside another, the walk over the file
/// comes to the block with some enclosing entity; everything that it
/// yields from the block on is among the records of the file and has the
/// type of the block as parent, and the block itself yields no record.
pub proof fn lemma_impl_block_parent(
    nodes: Seq<NodeView>,
    source: Seq<char>,
    file: Seq<char>,
    i: int,
) -> (told: Option<Seq<char>>)
    requires
        well_formed(nodes),
        0 <= i < nodes.len(),
        nodes[i].kind == "impl_item"@,
        functions_apart(nodes, i + 1, i + nodes[i].span),
    ensures
        pass_visit(Pass::Rust, nodes, source, file, i, told).items.len() == 0,
        forall|record: Record|
            walk(pass_visitor(Pass::Rust, nodes, source, file), nodes, i, told).contains(record)
                ==> language_records(SourceLanguage::Rust, nodes, source, file).contains(record)
                && record.parent == optional_field_text(nodes, source, i, "type"@),
{
    let visitor = pass_visitor(Pass::Rust, nodes, source, file);
    let named = optional_field_text(nodes, source, i, "type"@);
    let count = children(nodes, i).len() as int;
    assert forall|j: int, parent: Option<Seq<char>>| (#[trigger] visitor(j, parent)).descend
        is Some by {
        assert(visitor(j, parent) == rust_visit(nodes, source, file, j, parent));
    }
    assert(node_ok(nodes, 0));
    lemma_rust_kinds_differ();
    let told = lemma_subtree_walked(visitor, nodes, 0, None, i);
    assert(visitor(i, told) == rust_visit(nodes, source, file, i, told));
    lemma_parent_kept_below(nodes, source, file, i, count, named);
    assert(walk(visitor, nodes, i, told) =~= walk_children(visitor, nodes, i, count, named));
    told
}

/// The number of records of functions among `records`.
pub open spec fn count_functions(records: Seq<Record>) -> nat
    decreases records.len(),
{
    if records.len() == 0 {
        0
    } else {
        count_functions(records.drop_last()) + if records.last().kind == EntityKind::Function {
            1nat
        } else {
            0nat
        }
    }
}

/// The number of function nodes from `from` up to `end`.
pub open spec fn count_function_nodes(nodes: Seq<NodeView>, from: int, end: int) -> nat
    decreases end - from,
{
    if from >= end {
        0
    } else {
        count_function_nodes(nodes, from, end - 1) + if nodes[end - 1].kind == "function_item"@ {
            1nat
        } else {
            0nat
        }
    }
}

/// The records of functions in two sequences of records add up.
proof fn lemma_count_functions_concat(first: Seq<Record>, second: Seq<Record>)
    ensures
        count_functions(first + second) == count_functions(first) + count_functions(second),
    decreases second.len(),
{
    if second.len() == 0 {
        assert(first + second =~= first);
    } else {
        assert((first + second).drop_last() =~= first + second.drop_last());
        lemma_count_functions_concat(first, second.drop_last());
    }
}

/// The function nodes of two ranges in a row add up.
proof fn lemma_count_nodes_split(nodes: Seq<NodeView>, from: int, middle: int, end: int)
    requires
        from <= middle <= end,
    ensures
        count_function_nodes(nodes, from, end) == count_function_nodes(nodes, from, middle)
            + count_function_nodes(nodes, middle, end),
    decreases end - middle,
{
    if middle < end {
        lemma_count_nodes_split(nodes, from, middle, end - 1);
    }
}

/// Where the first `count` children of node `i` end.
pub open spec fn end_of_children(nodes: Seq<NodeView>, i: int, count: int) -> int {
    if 0 < count <= children(nodes, i).len() {
        children(nodes, i)[count - 1] + nodes[children(nodes, i)[count - 1]].span
    } else {
        i + 1
    }
}

/// From any subtree, the rules for Rust yield exactly one record of a
/// function for each function node in it.
pub proof fn lemma_one_record_each(
    nodes: Seq<NodeView>,
    source: Seq<char>,
    file: Seq<char>,
    i: int,
    parent: Option<Seq<char>>,
)
    requires
        well_formed(nodes),
        0 <= i < nodes.len(),
    ensures
        count_functions(
            walk(pass_visitor(Pass::Rust, nodes, source, file), nodes, i, parent),
        ) == count_function_nodes(nodes, i, i + nodes[i].span),
    decreases nodes.len() - i, children(nodes, i).len() + 1,
{
    let visitor = pass_visitor(Pass::Rust, nodes, source, file);
    let here = visitor(i, parent);
    let count = children(nodes, i).len() as int;
    let below = here.descend->0;
    assert(here == rust_visit(nodes, source, file, i, parent));
    assert(node_ok(nodes, i));
    lemma_rust_kinds_differ();
    lemma_one_record_each_below(nodes, source, file, i, count, below);
    crate::tree::lemma_children_fill(nodes, i);
    lemma_count_nodes_split(nodes, i, i + 1, i + nodes[i].span);
    assert(count_function_nodes(nodes, i, i) == 0);
    let rest = walk_children(visitor, nodes, i, count, below);
    assert(walk(visitor, nodes, i, parent) =~= here.items + rest);
    lemma_count_functions_concat(here.items, rest);
    assert(end_of_children(nodes, i, count) == i + nodes[i].span) by {
        if count > 0 {
            assert(children(nodes, i).last() == children(nodes, i)[count - 1]);
        }
    }
    assert(count_function_nodes(nodes, i, i + 1) == if nodes[i].kind == "function_item"@ {
        1nat
    } else {
        0nat
    });
    assert(count_functions(here.items) == if nodes[i].kind == "function_item"@ {
        1nat
    } else {
        0nat
    }) by {
        if here.items.len() > 0 {
            assert(here.items.drop_last() =~= Seq::<Record>::empty());
            assert(count_functions(here.items.drop_last()) == 0);
        }
    }
}

/// From the first `count` children of a node, the rules for Rust yield
/// exactly one record of a function for each function node in their
/// subtrees.
pub proof fn lemma_one_record_each_below(
    nodes: Seq<NodeView>,
    source: Seq<char>,
    file: Seq<char>,
    i: int,
    count: int,
    below: Option<Seq<char>>,
)
    requires
        well_formed(nodes),
        0 <= i < nodes.len(),
        0 <= count <= children(nodes, i).len(),
    ensures
        count_functions(
            walk_children(pass_visitor(Pass::Rust, nodes, source, file), nodes, i, count, below),
        ) == count_function_nodes(nodes, i + 1, end_of_children(nodes, i, count)),
    decreases nodes.len() - i, count,
{
    let visitor = pass_visitor(Pass::Rust, nodes, source, file);
    if count > 0 {
        lemma_children(nodes, i);
        crate::tree::lemma_children_in_a_row(nodes, i, count - 1);
        let child = children(nodes, i)[count - 1];
        assert(i < child < nodes.len());
        lemma_one_record_each(nodes, source, file, child, below);
        lemma_one_record_each_below(nodes, source, file, i, count - 1, below);
        assert(end_of_children(nodes, i, count - 1) == child);
        lemma_count_functions_concat(
            walk(visitor, nodes, child, below),
            walk_children(visitor, nodes, i, count - 1, below),
        );
        lemma_count_nodes_split(nodes, i + 1, child, child + nodes[child].span);
    }
}

/// Among the records of a Rust file there is exactly one record of a
/// function for each function node of its tree.
pub proof fn lemma_rust_functions_once(nodes: Seq<NodeView>, source: Seq<char>, file: Seq<char>)
    requires
        well_formed(nodes),
    ensures
        count_functions(language_records(SourceLanguage::Rust, nodes, source, file))
            == count_function_nodes(nodes, 0, nodes.len() as int),
{
    lemma_one_record_each(nodes, source, file, 0, None);
}

} // verus!
