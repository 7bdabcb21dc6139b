use repo_index::extract::extract_python_entities;
use repo_index::grammar::parse_source;
use repo_index::lang::SourceLanguage;
use repo_index::tree::{SyntaxNode, SyntaxTree};
use repo_index::writer::CountingWriter;

fn python_node(
    kind: &str,
    field: Option<&str>,
    bytes: (usize, usize),
    rows: (usize, usize),
    span: usize,
) -> SyntaxNode {
    SyntaxNode {
        kind: kind.to_string(),
        fields: field.map(|f| f.to_string()).into_iter().collect(),
        start_byte: bytes.0,
        end_byte: bytes.1,
        start_row: rows.0,
        end_row: rows.1,
        span,
    }
}

fn python_records_of(tree: &SyntaxTree, source: &str) -> Vec<serde_json::Value> {
    let mut sink = CountingWriter::new(Vec::new(), 0);
    extract_python_entities(tree, source, "mod.py", &mut sink);
    let (bytes, count) = sink.into_parts();
    let text = String::from_utf8(bytes).unwrap();
    let records: Vec<serde_json::Value> =
        text.lines().map(|line| serde_json::from_str(line).unwrap()).collect();
    assert_eq!(records.len(), count);
    records
}

fn python_records(source: &str) -> Vec<serde_json::Value> {
    let tree = parse_source(SourceLanguage::Python, source).ok().unwrap();
    python_records_of(&tree, source)
}

#[test]
fn class_decorator_is_reported_under_the_class() {
    let source = "@decorated\nclass A:\n    pass\n";
    let tree = SyntaxTree::new(vec![
        python_node("module", None, (0, 28), (0, 3), 6),
        python_node("class_definition", None, (0, 27), (0, 2), 5),
        python_node("decorator", None, (0, 10), (0, 0), 1),
        python_node("identifier", Some("name"), (17, 18), (1, 1), 1),
        python_node("block", Some("body"), (24, 28), (2, 2), 2),
        python_node("pass_statement", None, (24, 28), (2, 2), 1),
    ])
    .unwrap();
    let records = python_records_of(&tree, source);
    let decorators: Vec<_> = records.iter().filter(|r| r["type"] == "decorator").collect();
    assert_eq!(decorators.len(), 1);
    assert_eq!(decorators[0]["parent"], "A");
    assert_eq!(decorators[0]["signature"], "@decorated");
    assert_eq!(decorators[0]["name"], "");
    assert_eq!(decorators[0]["startingLineNumber"], 1);
    assert_eq!(decorators[0]["endingLineNumber"], 1);
    assert_eq!(decorators[0]["language"], "python");
    assert!(decorators[0].get("doc").is_none());
    // the decorators come first, then the class itself
    assert_eq!(records.len(), 2);
    assert_eq!(records[0]["type"], "decorator");
    assert_eq!(records[1]["type"], "class");
    assert_eq!(records[1]["name"], "A");
}

#[test]
fn function_decorator_is_reported_under_the_enclosing_entity() {
    let source = "@wrap\ndef f():\n    pass\n";
    let tree = SyntaxTree::new(vec![
        python_node("module", None, (0, 23), (0, 3), 4),
        python_node("function_definition", None, (0, 22), (0, 2), 3),
        python_node("decorator", None, (0, 5), (0, 0), 1),
        python_node("identifier", Some("name"), (10, 11), (1, 1), 1),
    ])
    .unwrap();
    let records = python_records_of(&tree, source);
    let decorators: Vec<_> = records.iter().filter(|r| r["type"] == "decorator").collect();
    assert_eq!(decorators.len(), 1);
    assert!(decorators[0].get("parent").is_none());
    assert_eq!(decorators[0]["signature"], "@wrap");
}

#[test]
fn docstring_loses_one_quote_at_each_end() {
    let records = python_records("def f():\n    \"Doc of f.\"\n    return 1\n");
    let functions: Vec<_> = records.iter().filter(|r| r["type"] == "function").collect();
    assert_eq!(functions.len(), 1);
    assert_eq!(functions[0]["name"], "f");
    assert_eq!(functions[0]["doc"], "Doc of f.");
    let records = python_records("class A:\n    \"\"\"Doc of A.\"\"\"\n");
    let classes: Vec<_> = records.iter().filter(|r| r["type"] == "class").collect();
    assert_eq!(classes.len(), 1);
    assert_eq!(classes[0]["doc"], "\"\"Doc of A.\"\"");
}

#[test]
fn docstring_must_open_the_body() {
    let records = python_records("def f():\n    x = 1\n    \"not a docstring\"\n");
    let functions: Vec<_> = records.iter().filter(|r| r["type"] == "function").collect();
    assert_eq!(functions.len(), 1);
    assert_eq!(functions[0]["doc"], "");
    let records = python_records("def g():\n    # note\n    \"Doc of g.\"\n");
    let functions: Vec<_> = records.iter().filter(|r| r["type"] == "function").collect();
    assert_eq!(functions[0]["doc"], "Doc of g.");
}

#[test]
fn python_methods_have_their_class_as_parent() {
    let source = "class A:\n    def m(self):\n        helper(1)\n\ndef top():\n    pass\n";
    let records = python_records(source);
    let m: Vec<_> = records.iter().filter(|r| r["name"] == "m").collect();
    assert_eq!(m.len(), 1);
    assert_eq!(m[0]["parent"], "A");
    assert_eq!(m[0]["type"], "function");
    // Python's grammar tags a call as `call`, which the scan does not take for one
    assert_eq!(m[0]["calls"], serde_json::Value::from(Vec::<String>::new()));
    assert_eq!(m[0]["startingLineNumber"], 2);
    assert_eq!(m[0]["endingLineNumber"], 3);
    let top: Vec<_> = records.iter().filter(|r| r["name"] == "top").collect();
    assert_eq!(top.len(), 1);
    assert!(top[0].get("parent").is_none());
    let a: Vec<_> = records.iter().filter(|r| r["name"] == "A").collect();
    assert_eq!(a.len(), 1);
    assert!(a[0].get("parent").is_none());
    assert!(a[0].get("calls").is_none());
}
