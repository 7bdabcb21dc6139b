use repo_index::extract::{extract_entities, extract_rust_entities};
use repo_index::grammar::parse_source;
use repo_index::lang::SourceLanguage;
use repo_index::writer::CountingWriter;

fn rust_records(source: &str) -> Vec<serde_json::Value> {
    let tree = parse_source(SourceLanguage::Rust, source).ok().unwrap();
    let mut sink = CountingWriter::new(Vec::new(), 0);
    extract_rust_entities(&tree, source, "src/lib.rs", &mut sink);
    let (bytes, count) = sink.into_parts();
    let text = String::from_utf8(bytes).unwrap();
    let records: Vec<serde_json::Value> =
        text.lines().map(|line| serde_json::from_str(line).unwrap()).collect();
    assert_eq!(records.len(), count);
    records
}

fn rust_named<'a>(
    records: &'a [serde_json::Value],
    kind: &str,
    name: &str,
) -> Vec<&'a serde_json::Value> {
    records.iter().filter(|r| r["type"] == kind && r["name"] == name).collect()
}

const POINT: &str = "// Rust example
use std::f64::consts::PI;

/// Represents a 2D point.
pub struct Point {
    pub x: f64,
    pub y: f64,
}

impl Point {
    /// Creates a new Point.
    pub fn new(x: f64, y: f64) -> Self {
        Point { x, y }
    }
    /// Returns the Euclidean distance to another Point.
    pub fn distance_to(&self, other: &Point) -> f64 {
        let dx = self.x - other.x;
        let dy = self.y - other.y;
        (dx * dx + dy * dy).sqrt()
    }
}
";

#[test]
fn doc_comment_lines_are_joined_in_order() {
    let records = rust_records("/// A.\n/// B.\nfn documented() {}\n");
    let found = rust_named(&records, "function", "documented");
    assert!(!found.is_empty());
    for record in found {
        assert_eq!(record["doc"], "A.\nB.");
    }
}

#[test]
fn plain_comments_do_not_break_the_run_of_doc_comments() {
    let records = rust_records("/// A.\n// aside\n/// B.\nfn documented() {}\n");
    for record in rust_named(&records, "function", "documented") {
        assert_eq!(record["doc"], "A.\nB.");
    }
    let records = rust_records("/// lost\nstruct Between;\n/// kept\nfn documented() {}\n");
    for record in rust_named(&records, "function", "documented") {
        assert_eq!(record["doc"], "kept");
    }
}

#[test]
fn block_doc_comment_is_recovered() {
    let records = rust_records("/** Block doc. */\nfn documented() {}\n");
    for record in rust_named(&records, "function", "documented") {
        assert_eq!(record["doc"], "Block doc.");
    }
    let records = rust_records("/* plain */\nfn undocumented() {}\n");
    let found = rust_named(&records, "function", "undocumented");
    assert!(!found.is_empty());
    for record in found {
        assert_eq!(record["doc"], "");
    }
}

#[test]
fn function_in_impl_block_has_the_type_as_parent() {
    let records = rust_records("struct T;\nimpl T {\n    fn m() {}\n}\n");
    // the struct and the function; the block itself has no record
    assert_eq!(records.len(), 2);
    assert_eq!(rust_named(&records, "struct", "T").len(), 1);
    let functions: Vec<_> = records.iter().filter(|r| r["type"] == "function").collect();
    assert_eq!(functions.len(), 1);
    assert_eq!(functions[0]["name"], "m");
    assert_eq!(functions[0]["parent"], "T");
    assert_eq!(functions[0]["startingLineNumber"], 3);
    assert_eq!(functions[0]["endingLineNumber"], 3);
    assert_eq!(functions[0]["signature"], "fn m() {}");
}

#[test]
fn function_inside_a_method_has_the_method_as_parent() {
    let source = "struct T;\nimpl T {\n    fn outer(&self) {\n        fn inner() {}\n    }\n}\n";
    let records = rust_records(source);
    assert_eq!(records.len(), 3);
    assert_eq!(rust_named(&records, "function", "outer")[0]["parent"], "T");
    assert_eq!(rust_named(&records, "function", "inner")[0]["parent"], "outer");
}

#[test]
fn method_of_a_trait_has_the_trait_as_parent() {
    let records = rust_records("trait Tr {\n    fn given(&self) {}\n}\n");
    assert_eq!(records.len(), 2);
    assert_eq!(rust_named(&records, "class", "Tr").len(), 1);
    assert_eq!(rust_named(&records, "function", "given")[0]["parent"], "Tr");
}

#[test]
fn function_at_top_level_has_no_parent() {
    let records = rust_records("fn m() {}\n");
    assert_eq!(records.len(), 1);
    assert_eq!(records[0]["type"], "function");
    assert_eq!(records[0]["name"], "m");
    assert!(records[0].get("parent").is_none());
}

#[test]
fn point_example_end_to_end() {
    let records = rust_records(POINT);
    let structs = rust_named(&records, "struct", "Point");
    assert_eq!(structs.len(), 1);
    assert_eq!(structs[0]["doc"], "Represents a 2D point.");
    assert_eq!(structs[0]["language"], "rust");
    assert_eq!(structs[0]["file"], "src/lib.rs");
    assert_eq!(structs[0]["signature"], "pub struct Point {");
    assert_eq!(structs[0]["startingLineNumber"], 5);
    assert_eq!(structs[0]["endingLineNumber"], 8);
    assert!(structs[0].get("parent").is_none());
    assert!(structs[0].get("calls").is_none());
    assert!(structs[0].get("generics").is_none());
    // one record for the struct and one for each of its two functions
    assert_eq!(records.len(), 3);
    for (name, line) in [("new", 12), ("distance_to", 16)] {
        let methods = rust_named(&records, "function", name);
        assert_eq!(methods.len(), 1);
        assert_eq!(methods[0]["parent"], "Point");
        assert_eq!(methods[0]["startingLineNumber"], line);
        assert_ne!(methods[0]["doc"], "");
        assert!(methods[0]["calls"].is_array());
    }
    let distance = rust_named(&records, "function", "distance_to")[0];
    let calls = distance["calls"].as_array().unwrap();
    assert!(calls.iter().any(|c| c.as_str().unwrap().ends_with("sqrt")));
    assert_eq!(distance["doc"], "Returns the Euclidean distance to another Point.");
    assert_eq!(rust_named(&records, "function", "new")[0]["doc"], "Creates a new Point.");
}

#[test]
fn every_rust_record_has_its_lines_in_order() {
    for record in rust_records(POINT) {
        let start = record["startingLineNumber"].as_u64().unwrap();
        let end = record["endingLineNumber"].as_u64().unwrap();
        assert!(start >= 1);
        assert!(start <= end);
    }
}

#[test]
fn every_rust_declaration_is_reported_once() {
    let records = rust_records("enum E { A }\ntrait Tr { fn m(&self); }\nstruct S;\nfn f() {}\n");
    assert_eq!(records.len(), 4);
    assert_eq!(rust_named(&records, "struct", "S").len(), 1);
    assert_eq!(rust_named(&records, "enum", "E").len(), 1);
    assert_eq!(rust_named(&records, "class", "Tr").len(), 1);
    assert_eq!(rust_named(&records, "function", "f").len(), 1);
    for record in &records {
        assert!(record.get("parent").is_none());
        assert!(record.get("doc").is_some());
    }
}

#[test]
fn extract_entities_dispatches_on_the_language() {
    let source = "struct S;\n";
    let tree = parse_source(SourceLanguage::Rust, source).ok().unwrap();
    let mut by_language = CountingWriter::new(Vec::new(), 0);
    extract_entities(SourceLanguage::Rust, &tree, source, "a.rs", &mut by_language);
    let mut direct = CountingWriter::new(Vec::new(), 0);
    extract_rust_entities(&tree, source, "a.rs", &mut direct);
    assert_eq!(by_language.bytes(), direct.bytes());
    assert_eq!(by_language.lines(), 1);
}
