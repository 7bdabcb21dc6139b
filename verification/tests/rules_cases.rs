use repo_index::extract::{
    extract_entities_generic, extract_entities_with_doc, extract_rust_entities,
};
use repo_index::grammar::parse_source;
use repo_index::lang::{EntityKind, SourceLanguage};
use repo_index::rules::{DocStyle, Rules};
use repo_index::tree::{SyntaxNode, SyntaxTree};
use repo_index::writer::CountingWriter;

fn rules_node(
    kind: &str,
    field: Option<&str>,
    bytes: (usize, usize),
    rows: (usize, usize),
    span: usize,
) -> SyntaxNode {
    SyntaxNode {
        kind: kind.to_string(),
        fields: field.map(|f| f.to_string()).into_iter().collect(),
        start_byte: bytes.0,
        end_byte: bytes.1,
        start_row: rows.0,
        end_row: rows.1,
        span,
    }
}

fn custom_rules() -> Rules {
    Rules {
        language: SourceLanguage::Other,
        class_kind: "unit",
        class_type: EntityKind::Interface,
        class_name_field: "label",
        function_kind: "routine",
        function_name_field: "label",
        function_type: EntityKind::Variable,
    }
}

fn lines_of(sink: CountingWriter) -> Vec<serde_json::Value> {
    let (bytes, count) = sink.into_parts();
    let text = String::from_utf8(bytes).unwrap();
    let records: Vec<serde_json::Value> =
        text.lines().map(|line| serde_json::from_str(line).unwrap()).collect();
    assert_eq!(records.len(), count);
    records
}

// unit A { routine r; unit B { routine s } } routine t
fn nested_units() -> (SyntaxTree, &'static str) {
    let source = "A r\nB s\nt";
    let tree = SyntaxTree::new(vec![
        rules_node("file", None, (0, 9), (0, 2), 11),
        rules_node("unit", None, (0, 7), (0, 1), 8),
        rules_node("word", Some("label"), (0, 1), (0, 0), 1),
        rules_node("routine", None, (2, 3), (0, 0), 2),
        rules_node("word", Some("label"), (2, 3), (0, 0), 1),
        rules_node("unit", None, (4, 7), (1, 1), 4),
        rules_node("word", Some("label"), (4, 5), (1, 1), 1),
        rules_node("routine", None, (6, 7), (1, 1), 2),
        rules_node("word", Some("label"), (6, 7), (1, 1), 1),
        rules_node("routine", None, (8, 9), (2, 2), 2),
        rules_node("word", Some("label"), (8, 9), (2, 2), 1),
    ])
    .unwrap();
    (tree, source)
}

#[test]
fn table_walks_last_child_first_and_hands_names_down() {
    let (tree, source) = nested_units();
    let mut sink = CountingWriter::new(Vec::new(), 0);
    extract_entities_generic(&tree, source, "f", &mut sink, &custom_rules());
    let records = lines_of(sink);
    let seen: Vec<(String, String, Option<String>)> = records
        .iter()
        .map(|r| {
            (
                r["type"].as_str().unwrap().to_string(),
                r["name"].as_str().unwrap().to_string(),
                r.get("parent").map(|p| p.as_str().unwrap().to_string()),
            )
        })
        .collect();
    assert_eq!(
        seen,
        vec![
            ("variable".to_string(), "t".to_string(), None),
            ("interface".to_string(), "A".to_string(), None),
            ("interface".to_string(), "B".to_string(), None),
            ("variable".to_string(), "s".to_string(), Some("B".to_string())),
            ("variable".to_string(), "r".to_string(), Some("A".to_string())),
        ]
    );
    for record in &records {
        assert_eq!(record["language"], "other");
        assert_eq!(record["file"], "f");
        assert!(record.get("doc").is_none());
    }
    assert_eq!(records[1]["signature"], "A r");
    assert_eq!(records[1]["startingLineNumber"], 1);
    assert_eq!(records[1]["endingLineNumber"], 2);
    assert!(records[1].get("calls").is_none());
    assert_eq!(records[0]["calls"], serde_json::Value::from(Vec::<String>::new()));
}

#[test]
fn table_with_documentation_always_writes_the_member() {
    let (tree, source) = nested_units();
    let mut sink = CountingWriter::new(Vec::new(), 0);
    extract_entities_with_doc(&tree, source, "f", &mut sink, &custom_rules(), DocStyle::Comments);
    for record in lines_of(sink) {
        assert_eq!(record["doc"], "");
    }
    let mut sink = CountingWriter::new(Vec::new(), 0);
    extract_entities_with_doc(&tree, source, "f", &mut sink, &custom_rules(), DocStyle::Docstring);
    assert_eq!(lines_of(sink).len(), 5);
    let mut sink = CountingWriter::new(Vec::new(), 0);
    extract_entities_with_doc(&tree, source, "f", &mut sink, &custom_rules(), DocStyle::Absent);
    for record in lines_of(sink) {
        assert!(record.get("doc").is_none());
    }
}

#[test]
fn entity_without_name_field_is_named_by_its_first_child() {
    let tree = SyntaxTree::new(vec![
        rules_node("unit", None, (0, 3), (0, 0), 3),
        rules_node("word", None, (0, 1), (0, 0), 1),
        rules_node("word", Some("other"), (2, 3), (0, 0), 1),
    ])
    .unwrap();
    let mut sink = CountingWriter::new(Vec::new(), 0);
    extract_entities_generic(&tree, "A B", "f", &mut sink, &custom_rules());
    let records = lines_of(sink);
    assert_eq!(records.len(), 1);
    assert_eq!(records[0]["name"], "A");
    assert_eq!(records[0]["signature"], "A B");
}

#[test]
fn entity_without_children_has_an_empty_name() {
    let tree = SyntaxTree::new(vec![rules_node("routine", None, (0, 1), (0, 0), 1)]).unwrap();
    let mut sink = CountingWriter::new(Vec::new(), 0);
    extract_entities_generic(&tree, "A", "f", &mut sink, &custom_rules());
    let records = lines_of(sink);
    assert_eq!(records.len(), 1);
    assert_eq!(records[0]["name"], "");
    assert_eq!(records[0]["type"], "variable");
    assert_eq!(records[0]["signature"], "A");
}

#[test]
fn name_field_wins_over_the_first_child() {
    let tree = SyntaxTree::new(vec![
        rules_node("unit", None, (0, 3), (0, 0), 3),
        rules_node("word", None, (0, 1), (0, 0), 1),
        rules_node("word", Some("label"), (2, 3), (0, 0), 1),
    ])
    .unwrap();
    let mut sink = CountingWriter::new(Vec::new(), 0);
    extract_entities_generic(&tree, "A B", "f", &mut sink, &custom_rules());
    let records = lines_of(sink);
    assert_eq!(records[0]["name"], "B");
}

#[test]
fn records_beyond_the_counter_are_dropped() {
    let source = "struct A;\nstruct B;\nstruct C;\n";
    let tree = parse_source(SourceLanguage::Rust, source).ok().unwrap();
    let mut all = CountingWriter::new(Vec::new(), 0);
    extract_rust_entities(&tree, source, "a.rs", &mut all);
    assert_eq!(all.lines(), 3);
    assert!(!all.refused());
    let whole = String::from_utf8(all.into_parts().0).unwrap();
    let mut sink = CountingWriter::new(Vec::new(), usize::MAX - 2);
    extract_rust_entities(&tree, source, "a.rs", &mut sink);
    assert_eq!(sink.lines(), usize::MAX);
    assert!(sink.refused());
    let part = String::from_utf8(sink.into_parts().0).unwrap();
    let first_two: String = whole.lines().take(2).map(|l| format!("{l}\n")).collect();
    assert_eq!(part, first_two);
}

#[test]
fn table_knows_whether_a_parsed_tree_holds_its_fields() {
    assert!(!custom_rules().asks_known_fields());
    let mut rules = custom_rules();
    rules.class_name_field = "name";
    assert!(!rules.asks_known_fields());
    rules.function_name_field = "declarator";
    assert!(rules.asks_known_fields());
}

#[test]
fn field_unknown_to_a_parsed_tree_is_never_found() {
    let source = "class A {\n  void m() {}\n}\n";
    let tree = parse_source(SourceLanguage::Java, source).ok().unwrap();
    for i in 0..tree.len() {
        assert_eq!(tree.child_by_field_name(i, "body"), None);
        assert_eq!(tree.child_by_field_name(i, "parameters"), None);
    }
    // a table that asks for such a field names every entity by its first child
    let rules = Rules {
        language: SourceLanguage::Java,
        class_kind: "class_declaration",
        class_type: EntityKind::Class,
        class_name_field: "body",
        function_kind: "method_declaration",
        function_name_field: "name",
        function_type: EntityKind::Function,
    };
    assert!(!rules.asks_known_fields());
    let mut sink = CountingWriter::new(Vec::new(), 0);
    extract_entities_generic(&tree, source, "A.java", &mut sink, &rules);
    let records = lines_of(sink);
    assert_eq!(records.len(), 2);
    let class = records.iter().find(|r| r["type"] == "class").unwrap();
    assert_eq!(class["name"], "class");
    let method = records.iter().find(|r| r["type"] == "function").unwrap();
    assert_eq!(method["name"], "m");
    assert_eq!(method["parent"], "class");
}
