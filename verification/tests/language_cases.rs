use repo_index::extract::{
    extract_cpp_entities, extract_csharp_entities, extract_entities, extract_go_entities,
    extract_java_entities, extract_js_ts_entities, extract_swift_entities,
};
use repo_index::grammar::parse_source;
use repo_index::lang::SourceLanguage;
use repo_index::writer::CountingWriter;

fn records_for(language: SourceLanguage, source: &str, file: &str) -> Vec<serde_json::Value> {
    let tree = parse_source(language, source).ok().unwrap();
    let mut sink = CountingWriter::new(Vec::new(), 0);
    match language {
        SourceLanguage::Swift => extract_swift_entities(&tree, source, file, &mut sink),
        SourceLanguage::Go => extract_go_entities(&tree, source, file, &mut sink),
        SourceLanguage::Cpp => extract_cpp_entities(&tree, source, file, &mut sink),
        SourceLanguage::Java => extract_java_entities(&tree, source, file, &mut sink),
        SourceLanguage::CSharp => extract_csharp_entities(&tree, source, file, &mut sink),
        SourceLanguage::JavaScript | SourceLanguage::TypeScript => {
            extract_js_ts_entities(&tree, source, file, &mut sink, language)
        }
        _ => extract_entities(language, &tree, source, file, &mut sink),
    }
    let (bytes, count) = sink.into_parts();
    let text = String::from_utf8(bytes).unwrap();
    let records: Vec<serde_json::Value> =
        text.lines().map(|line| serde_json::from_str(line).unwrap()).collect();
    assert_eq!(records.len(), count);
    records
}

fn only<'a>(records: &'a [serde_json::Value], kind: &str, name: &str) -> &'a serde_json::Value {
    let found: Vec<_> = records.iter().filter(|r| r["type"] == kind && r["name"] == name).collect();
    assert_eq!(found.len(), 1, "{kind} {name} in {records:?}");
    found[0]
}

#[test]
fn java_class_and_method() {
    let source = "class Greeter {\n    void greet() {\n        print(\"hi\");\n    }\n}\n";
    let records = records_for(SourceLanguage::Java, source, "Greeter.java");
    assert_eq!(records.len(), 2);
    let class = only(&records, "class", "Greeter");
    assert_eq!(class["language"], "java");
    assert_eq!(class["signature"], "class Greeter {");
    assert_eq!(class["startingLineNumber"], 1);
    assert_eq!(class["endingLineNumber"], 5);
    assert!(class.get("doc").is_none());
    let method = only(&records, "function", "greet");
    assert_eq!(method["parent"], "Greeter");
    assert_eq!(method["startingLineNumber"], 2);
    assert_eq!(method["endingLineNumber"], 4);
    assert!(method["calls"].is_array());
    assert!(method.get("doc").is_none());
}

#[test]
fn csharp_class_and_method() {
    let source = "class Greeter {\n    void Greet() {\n        Print(\"hi\");\n    }\n}\n";
    let records = records_for(SourceLanguage::CSharp, source, "Greeter.cs");
    let class = only(&records, "class", "Greeter");
    assert_eq!(class["language"], "c_sharp");
    let method = only(&records, "function", "Greet");
    assert_eq!(method["parent"], "Greeter");
    assert_eq!(method["calls"], serde_json::Value::from(vec!["Print"]));
}

#[test]
fn javascript_class_and_function() {
    let source = "class A {}\nfunction f() {\n  g(1);\n}\n";
    let records = records_for(SourceLanguage::JavaScript, source, "a.js");
    assert_eq!(records.len(), 2);
    assert_eq!(only(&records, "class", "A")["language"], "javascript");
    let function = only(&records, "function", "f");
    assert_eq!(function["calls"], serde_json::Value::from(vec!["g"]));
    assert!(function.get("parent").is_none());
}

#[test]
fn typescript_reports_its_own_language() {
    let source = "class A {}\nfunction f(x: number): number {\n  return g(x);\n}\n";
    let records = records_for(SourceLanguage::TypeScript, source, "a.ts");
    assert_eq!(only(&records, "class", "A")["language"], "typescript");
    assert_eq!(only(&records, "function", "f")["language"], "typescript");
}

#[test]
fn go_declarations() {
    let source = "package main\n\nimport \"fmt\"\n\ntype Pair[T any] struct {\n\tleft T\n}\n\ntype Shape interface {\n\tArea() int\n}\n\ntype Id int\n\nvar count int\n\nfunc Map[T any](x T) T {\n\tfmt.Println(x)\n\treturn x\n}\n";
    let records = records_for(SourceLanguage::Go, source, "main.go");
    let import = only(&records, "import", "\"fmt\"");
    assert_eq!(import["signature"], "\"fmt\"");
    assert_eq!(import["startingLineNumber"], 3);
    let pair = only(&records, "struct", "Pair");
    assert_eq!(pair["generics"], "[T any]");
    assert_eq!(pair["startingLineNumber"], 5);
    assert_eq!(pair["endingLineNumber"], 7);
    let shape = only(&records, "interface", "Shape");
    assert!(shape.get("generics").is_none());
    only(&records, "type", "Id");
    let variable = only(&records, "variable", "count");
    assert!(variable.get("parent").is_none());
    let function = only(&records, "function", "Map");
    assert_eq!(function["generics"], "[T any]");
    assert_eq!(function["calls"], serde_json::Value::from(vec!["fmt.Println"]));
    assert_eq!(function["language"], "go");
}

#[test]
fn go_fields_are_found_in_the_body_of_the_type() {
    let source = "package p\n\ntype S struct {\n\tX int\n\tY, Z string\n}\n";
    let records = records_for(SourceLanguage::Go, source, "a.go");
    assert_eq!(records.len(), 3);
    let owner = only(&records, "struct", "S");
    assert_eq!(owner["startingLineNumber"], 3);
    assert_eq!(owner["endingLineNumber"], 6);
    let x = only(&records, "field", "X");
    assert_eq!(x["parent"], "S");
    assert_eq!(x["startingLineNumber"], 4);
    assert_eq!(x["endingLineNumber"], 4);
    assert_eq!(x["signature"], "X int");
    assert_eq!(x["language"], "go");
    let y = only(&records, "field", "Y");
    assert_eq!(y["parent"], "S");
    assert_eq!(y["signature"], "Y, Z string");
    // the type comes first, then its fields in their order
    assert_eq!(records[0]["type"], "struct");
    assert_eq!(records[1]["name"], "X");
    assert_eq!(records[2]["name"], "Y");
}

#[test]
fn go_interface_has_no_fields() {
    let source = "package p\n\ntype I interface {\n\tM() int\n}\n";
    let records = records_for(SourceLanguage::Go, source, "a.go");
    assert_eq!(records.len(), 1);
    only(&records, "interface", "I");
}

#[test]
fn cpp_template_class_and_function() {
    let source = "template <typename T>\nclass Box {\npublic:\n    T get() { return load(); }\n};\n\nint main() {\n    run();\n    return 0;\n}\n";
    let records = records_for(SourceLanguage::Cpp, source, "box.cpp");
    let template = only(&records, "template", "template");
    assert_eq!(template["signature"], "template <typename T>");
    assert!(template.get("parent").is_none());
    let class = only(&records, "class", "Box");
    assert_eq!(class["language"], "cpp");
    let get = only(&records, "function", "get");
    assert_eq!(get["parent"], "Box");
    assert_eq!(get["calls"], serde_json::Value::from(vec!["load"]));
    let main = only(&records, "function", "main");
    assert!(main.get("parent").is_none());
    assert_eq!(main["calls"], serde_json::Value::from(vec!["run"]));
    assert_eq!(main["startingLineNumber"], 7);
    assert_eq!(main["endingLineNumber"], 10);
}

#[test]
fn swift_types_and_functions() {
    let source = "protocol Shape {\n    func area() -> Int\n}\n\nfunc top() {\n    helper()\n}\n";
    let records = records_for(SourceLanguage::Swift, source, "shape.swift");
    let protocol = only(&records, "protocol", "Shape");
    assert_eq!(protocol["language"], "swift");
    assert_eq!(protocol["signature"], "protocol Shape {");
    let top = only(&records, "function", "top");
    assert!(top.get("parent").is_none());
    assert_eq!(top["calls"], serde_json::Value::from(vec!["helper"]));
}

#[test]
fn nested_functions_are_entities_of_their_own() {
    let source = "function outer() {\n  a();\n  function inner() {\n    b();\n  }\n}\n";
    let records = records_for(SourceLanguage::JavaScript, source, "n.js");
    assert_eq!(records.len(), 2);
    let outer = only(&records, "function", "outer");
    assert!(outer.get("parent").is_none());
    let inner = only(&records, "function", "inner");
    assert_eq!(inner["parent"], "outer");
    assert_eq!(inner["startingLineNumber"], 3);
    assert_eq!(inner["endingLineNumber"], 5);
    // a call in the inner function counts for the outer one too
    let calls_of = |record: &serde_json::Value| -> Vec<String> {
        let mut calls: Vec<String> =
            record["calls"].as_array().unwrap().iter().map(|c| c.as_str().unwrap().to_string()).collect();
        calls.sort();
        calls
    };
    assert_eq!(calls_of(outer), vec!["a", "b"]);
    assert_eq!(calls_of(inner), vec!["b"]);
}

#[test]
fn class_inside_a_method_has_the_method_as_parent() {
    let source = "class A {\n  void m() {\n    class B {\n      void n() {}\n    }\n  }\n}\n";
    let records = records_for(SourceLanguage::Java, source, "A.java");
    assert_eq!(records.len(), 4);
    assert_eq!(only(&records, "function", "m")["parent"], "A");
    assert!(only(&records, "class", "B").get("parent").is_none());
    assert_eq!(only(&records, "function", "n")["parent"], "B");
}

#[test]
fn repeated_calls_are_all_kept() {
    let source = "function f() {\n  g();\n  g();\n}\n";
    let records = records_for(SourceLanguage::JavaScript, source, "r.js");
    let f = only(&records, "function", "f");
    assert_eq!(f["calls"], serde_json::Value::from(vec!["g", "g"]));
}

#[test]
fn cpp_calls_of_inner_functions_count_for_the_outer_one_too() {
    let source = "void outer() {\n    struct L {\n        void inner() { b(); }\n    };\n    a();\n}\n";
    let records = records_for(SourceLanguage::Cpp, source, "n.cpp");
    let outer = only(&records, "function", "outer");
    let inner = only(&records, "function", "inner");
    let calls_of = |record: &serde_json::Value| -> Vec<String> {
        record["calls"].as_array().unwrap().iter().map(|c| c.as_str().unwrap().to_string()).collect()
    };
    assert_eq!(calls_of(inner), vec!["b"]);
    let mut of_outer = calls_of(outer);
    of_outer.sort();
    assert_eq!(of_outer, vec!["a", "b"]);
}
