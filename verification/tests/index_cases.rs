use repo_index::grammar::{get_language, parse_source, read_tree, ParseFailure};
use repo_index::index::IndexRun;
use repo_index::lang::{detect_language, SourceLanguage};
use repo_index::tree::{SyntaxNode, SyntaxTree};

fn leaf_tree() -> SyntaxTree {
    SyntaxTree::new(vec![SyntaxNode {
        kind: "file".to_string(),
        fields: Vec::new(),
        start_byte: 0,
        end_byte: 0,
        start_row: 0,
        end_row: 0,
        span: 1,
    }])
    .unwrap()
}

#[test]
fn new_run_has_seen_nothing() {
    let run = IndexRun::new();
    assert_eq!(run.files_indexed(), 0);
    assert_eq!(run.entities_indexed(), 0);
    assert!(run.errors().is_empty());
    assert_eq!(run.finish(), Ok(()));
}

#[test]
fn file_with_unrecognized_extension_is_passed_over_in_silence() {
    let mut run = IndexRun::new();
    let language = detect_language(Some("txt"));
    assert_eq!(language, None);
    assert!(run.take_up("docs/notes.txt", language).is_none());
    assert_eq!(run.files_indexed(), 0);
    assert_eq!(run.entities_indexed(), 0);
    assert!(run.errors().is_empty());
    assert_eq!(run.finish(), Ok(()));
}

#[test]
fn file_without_grammar_is_one_failure_and_the_run_goes_on() {
    let mut run = IndexRun::new();
    assert!(run.take_up("a.xyz", Some(SourceLanguage::Other)).is_none());
    assert_eq!(run.files_indexed(), 0);
    assert_eq!(run.entities_indexed(), 0);
    assert_eq!(run.errors(), &vec!["[lang] No Tree-sitter language for other in file a.xyz"]);
    // the next file is taken up as usual
    let language = run.take_up("b.rs", Some(SourceLanguage::Rust)).unwrap();
    assert_eq!(language, SourceLanguage::Rust);
    let written = run.index_source(language, "struct S;\n", "b.rs", Vec::new());
    assert_eq!(run.files_indexed(), 1);
    assert_eq!(run.entities_indexed(), 1);
    assert_eq!(written.iter().filter(|b| **b == b'\n').count(), 1);
    assert_eq!(run.errors().len(), 1);
    assert_eq!(run.finish(), Err("Encountered 1 errors during indexing.".to_string()));
}

#[test]
fn every_language_but_other_has_a_grammar() {
    for language in [
        SourceLanguage::Rust,
        SourceLanguage::Python,
        SourceLanguage::JavaScript,
        SourceLanguage::TypeScript,
        SourceLanguage::Cpp,
        SourceLanguage::Java,
        SourceLanguage::CSharp,
        SourceLanguage::Swift,
        SourceLanguage::Go,
    ] {
        assert_eq!(get_language(language), Some(language));
        assert!(parse_source(language, "").is_ok());
        let mut run = IndexRun::new();
        assert_eq!(run.take_up("file", Some(language)), Some(language));
        assert!(run.errors().is_empty());
    }
    assert!(get_language(SourceLanguage::Other).is_none());
}

#[test]
fn entities_counted_are_lines_written() {
    let mut run = IndexRun::new();
    let mut output = Vec::new();
    let sources = [
        (SourceLanguage::Rust, "a.rs", "/// Doc\nstruct S;\nimpl S { fn f(&self) { g(); } }\n"),
        (SourceLanguage::Go, "b.go", "package p\n\nfunc F() {}\n\nvar x int\n"),
        (SourceLanguage::Python, "c.py", "class C:\n    def m(self):\n        pass\n"),
        (SourceLanguage::Java, "D.java", "class D { void m() {} }\n"),
        (SourceLanguage::Rust, "empty.rs", ""),
    ];
    for (language, file, source) in sources {
        let language = run.take_up(file, Some(language)).unwrap();
        output = run.index_source(language, source, file, output);
        let lines = output.iter().filter(|b| **b == b'\n').count();
        assert_eq!(run.entities_indexed(), lines);
    }
    assert_eq!(run.files_indexed(), 5);
    assert_eq!(run.entities_indexed(), 2 + 2 + 2 + 2);
    assert_eq!(run.finish(), Ok(()));
    for line in String::from_utf8(output).unwrap().lines() {
        let record: serde_json::Value = serde_json::from_str(line).unwrap();
        assert!(record["startingLineNumber"].as_u64().unwrap() >= 1);
        assert!(record["startingLineNumber"].as_u64() <= record["endingLineNumber"].as_u64());
    }
}

#[test]
fn file_in_a_language_without_rules_gets_a_minimal_record() {
    let mut run = IndexRun::new();
    let written = run.index_tree(
        SourceLanguage::Other,
        &leaf_tree(),
        "",
        "data.bin",
        b"before\n".to_vec(),
    );
    assert_eq!(run.files_indexed(), 1);
    assert_eq!(run.entities_indexed(), 1);
    assert!(run.errors().is_empty());
    let text = String::from_utf8(written).unwrap();
    let mut lines = text.lines();
    assert_eq!(lines.next(), Some("before"));
    let record: serde_json::Value = serde_json::from_str(lines.next().unwrap()).unwrap();
    assert_eq!(record.as_object().unwrap().len(), 2);
    assert_eq!(record["file"], "data.bin");
    assert_eq!(record["language"], "other");
    assert_eq!(lines.next(), None);
}

#[test]
fn failures_are_kept_with_their_tags() {
    let mut run = IndexRun::new();
    run.record_enumeration_error("cannot open dir");
    run.record_read_error("a.rs", "permission denied");
    run.record_write_error("b.rs", "disk full", b"");
    assert_eq!(
        run.errors(),
        &vec![
            "[walkdir] cannot open dir",
            "[read] a.rs: permission denied",
            "[write] b.rs: disk full",
        ]
    );
    assert_eq!(run.files_indexed(), 0);
    assert_eq!(run.entities_indexed(), 0);
    assert_eq!(run.finish(), Err("Encountered 3 errors during indexing.".to_string()));
}

#[test]
fn many_failures_are_counted_in_decimal() {
    let mut run = IndexRun::new();
    for _ in 0..12 {
        run.record_read_error("f", "e");
    }
    assert_eq!(run.finish(), Err("Encountered 12 errors during indexing.".to_string()));
}

#[test]
fn parsed_tree_is_read_in_pre_order() {
    let source = "fn f() {}\n";
    let mut parser = tree_sitter::Parser::new();
    parser.set_language(&tree_sitter::Language::new(tree_sitter_rust::LANGUAGE)).unwrap();
    let parsed = parser.parse(source, None).unwrap();
    let tree = read_tree(&parsed).unwrap();
    let root = parsed.root_node();
    assert_eq!(tree.len(), root.descendant_count());
    assert!(tree.has_kind(0, "source_file"));
    assert_eq!(tree.node(0).span, tree.len());
    let function = tree.children(0)[0];
    assert!(tree.has_kind(function, "function_item"));
    let name = tree.child_by_field_name(function, "name").unwrap();
    assert_eq!(tree.text(name, source), "f");
    assert_eq!(tree.node(name).fields, vec!["name"]);
    assert_eq!(tree.node(function).start_byte, 0);
    assert_eq!(tree.node(function).end_byte, 9);
    assert_eq!(tree.children(function).len(), root.child(0).unwrap().child_count() as usize);
    // the tree agrees with the parser on the first child that holds a field
    let by_parser = root.child(0).unwrap().child_by_field_name("name").unwrap();
    let by_tree = tree.child_by_field_name(function, "name").unwrap();
    assert_eq!(tree.node(by_tree).start_byte, by_parser.start_byte());
    assert_eq!(tree.node(by_tree).kind, by_parser.kind());
}

#[test]
fn parse_failure_has_two_forms() {
    match parse_source(SourceLanguage::Go, "package p\n") {
        Ok(tree) => assert!(tree.len() >= 1),
        Err(ParseFailure::Grammar(reason)) => panic!("grammar refused: {reason}"),
        Err(ParseFailure::NoTree) => panic!("no tree"),
    }
}

#[test]
fn refused_grammar_is_a_parser_failure() {
    let mut run = IndexRun::new();
    let written = run.index_parsed(
        SourceLanguage::Rust,
        Err(ParseFailure::Grammar("Incompatible language version 99".to_string())),
        "fn f() {}",
        "a.rs",
        b"kept\n".to_vec(),
    );
    assert_eq!(written, b"kept\n");
    assert_eq!(run.files_indexed(), 0);
    assert_eq!(run.entities_indexed(), 0);
    assert_eq!(run.errors(), &vec!["[parser] a.rs: Incompatible language version 99"]);
}

#[test]
fn missing_tree_is_a_parse_failure() {
    let mut run = IndexRun::new();
    let written =
        run.index_parsed(SourceLanguage::Go, Err(ParseFailure::NoTree), "package p", "p.go", Vec::new());
    assert!(written.is_empty());
    assert_eq!(run.files_indexed(), 0);
    assert_eq!(run.entities_indexed(), 0);
    assert_eq!(run.errors(), &vec!["[parse] p.go: failed to parse"]);
    assert_eq!(run.finish(), Err("Encountered 1 errors during indexing.".to_string()));
}

#[test]
fn parsed_tree_is_indexed() {
    let mut run = IndexRun::new();
    let source = "struct S {}\n";
    let parsed = parse_source(SourceLanguage::Swift, source);
    let written = run.index_parsed(SourceLanguage::Swift, parsed, source, "s.swift", Vec::new());
    assert_eq!(run.files_indexed(), 1);
    assert_eq!(run.entities_indexed(), 1);
    assert!(run.errors().is_empty());
    let record: serde_json::Value =
        serde_json::from_str(String::from_utf8(written).unwrap().trim_end()).unwrap();
    // the grammar tags a struct as a class declaration
    assert_eq!(record["type"], "class");
    assert_eq!(record["name"], "S");
}

#[test]
fn language_without_grammar_has_no_tree() {
    assert!(matches!(parse_source(SourceLanguage::Other, "anything"), Err(ParseFailure::NoTree)));
    let mut run = IndexRun::new();
    let written = run.index_source(SourceLanguage::Other, "anything", "a.bin", Vec::new());
    assert!(written.is_empty());
    assert_eq!(run.files_indexed(), 0);
    assert_eq!(run.errors(), &vec!["[parse] a.bin: failed to parse"]);
}

#[test]
fn failed_write_counts_the_lines_that_were_written() {
    let mut run = IndexRun::new();
    let first = run.index_source(SourceLanguage::Rust, "struct A;\n", "a.rs", Vec::new());
    assert_eq!(first.iter().filter(|b| **b == b'\n').count(), 1);
    let second = run.index_source(
        SourceLanguage::Rust,
        "struct B;\nstruct C;\nstruct D;\n",
        "b.rs",
        Vec::new(),
    );
    assert_eq!(second.iter().filter(|b| **b == b'\n').count(), 3);
    assert_eq!(run.entities_indexed(), 4);
    // the first line and a part of the second reached the output
    let first_line = second.iter().position(|b| *b == b'\n').unwrap() + 1;
    run.record_write_error("b.rs", "disk full", &second[..first_line + 5]);
    assert_eq!(run.entities_indexed(), 2);
    assert_eq!(run.files_indexed(), 2);
    assert_eq!(run.errors(), &vec!["[write] b.rs: disk full"]);
    // what is counted anew stays counted
    run.record_write_error("b.rs", "again", b"");
    assert_eq!(run.entities_indexed(), 2);
    // more lines than were counted change nothing
    run.record_write_error("b.rs", "odd", b"\n\n\n");
    assert_eq!(run.entities_indexed(), 2);
}

#[test]
fn failed_write_of_nothing_takes_back_the_file() {
    let mut run = IndexRun::new();
    let written = run.index_source(SourceLanguage::Go, "package p\n\nvar x int\n", "p.go", Vec::new());
    assert_eq!(run.entities_indexed(), 1);
    assert!(!written.is_empty());
    run.record_write_error("p.go", "closed", &written[..0]);
    assert_eq!(run.entities_indexed(), 0);
}
