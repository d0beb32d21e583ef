use rusk::{transpile, transpile_to_rust, transpile_syntax_tree_json, TranspileError};

fn rust(source: &str) -> String {
    transpile(source).unwrap().rust
}

#[test]
fn readme_example_lowers_to_rust() {
    let source = "#derive(Debug, Clone)
pub struct User
    pub id: u64
    pub name: String

impl User
    pub fn new(id: u64, name: String) -> Self =
        Self
            id = id
            name = name

    pub fn display_name(&self) -> &str = &self.name
";
    let expected = "#[derive(Debug, Clone)]
pub struct User {
    pub id: u64,
    pub name: String,
}
impl User {
    pub fn new(id: u64, name: String) -> Self {
        Self {
            id: id,
            name: name,
        }
    }
    pub fn display_name(&self) -> &str {
        &self.name
    }
}
";
    assert_eq!(rust(source), expected);
}

#[test]
fn square_generics_become_angle_brackets_in_types() {
    assert_eq!(
        rust("fn load() -> Result[Vec[u8], String] = read()\n"),
        "fn load() -> Result<Vec<u8>, String> {\n    read()\n}\n"
    );
}

#[test]
fn method_generics_become_turbofish() {
    assert_eq!(
        rust("fn main() =\n    let n = value.parse[i32]()\n    n\n"),
        "fn main() {\n    let n = value.parse::<i32>();\n    n\n}\n"
    );
}

#[test]
fn dotted_type_and_item_paths_become_rust_paths() {
    assert_eq!(rust("use std.io.Read\n"), "use std::io::Read;\n");
    assert_eq!(
        rust("fn make() -> Foo = Foo.new()\n"),
        "fn make() -> Foo {\n    Foo::new()\n}\n"
    );
}

#[test]
fn rust_paths_pass_through_unchanged() {
    assert_eq!(
        rust("fn make() -> std::string::String = String::new()\n"),
        "fn make() -> std::string::String {\n    String::new()\n}\n"
    );
}

#[test]
fn do_lines_end_with_semicolons() {
    assert_eq!(
        rust("fn main() =\n    do println!(\"hi\")\n    x = 1\n    x\n"),
        "fn main() {\n    println!(\"hi\");\n    x = 1;\n    x\n}\n"
    );
}

#[test]
fn field_less_struct_becomes_unit_struct() {
    assert_eq!(rust("struct Marker\n"), "struct Marker;\n");
}

#[test]
fn empty_source_gives_one_line_feed() {
    let output = transpile("").unwrap();
    assert_eq!(output.rust, "\n");
    assert!(output.source_map.is_empty());
    assert!(output.source_tree.is_empty());
}

#[test]
fn tab_is_refused_with_its_line() {
    let error = transpile("fn f() =\n\tx\n").unwrap_err();
    assert_eq!(error.line, 2);
    assert_eq!(error.message, "tabs are not supported; use spaces");
    assert_eq!(error.to_string(), "line 2: tabs are not supported; use spaces");
}

#[test]
fn dangling_indentation_is_refused() {
    let error = transpile("a\n    b\n  c\n").unwrap_err();
    assert_eq!(error.line, 3);
    assert_eq!(error.message, "indentation must belong to the previous line");
}

#[test]
fn indented_first_line_is_refused() {
    let error = transpile("  a\n").unwrap_err();
    assert_eq!(error.line, 1);
    assert_eq!(error.message, "indentation must belong to the previous line");
}

#[test]
fn error_text_names_line_and_message() {
    let error = TranspileError { line: 12, message: "oops".to_string() };
    assert_eq!(error.to_string(), "line 12: oops");
}

#[test]
fn rust_text_or_error_text() {
    assert_eq!(transpile_to_rust("fn one() -> i32 = 1\n").unwrap(), "fn one() -> i32 {\n    1\n}\n");
    assert_eq!(
        transpile_to_rust("x\n\ty\n").unwrap_err(),
        "line 2: tabs are not supported; use spaces"
    );
    assert_eq!(
        transpile_syntax_tree_json("  x\n").unwrap_err(),
        "line 1: indentation must belong to the previous line"
    );
}

#[test]
fn syntax_tree_json_of_a_function() {
    let json = transpile_syntax_tree_json("fn id(x: i32) -> i32 = x\n").unwrap();
    let expected = "{\n  \"version\": 2,\n  \"format\": \"rusk.syntax-tree\",\n  \"tree\": [\n    {\n      \"kind\": \"function\",\n      \"source\": { \"line\": 1, \"indent\": 0, \"text\": \"fn id(x: i32) -> i32 = x\" },\n      \"generated\": { \"start_line\": 1, \"end_line\": 3 },\n      \"children\": []\n    }\n  ]\n}\n";
    assert_eq!(json, expected);
}

#[test]
fn source_map_entries_follow_source_lines() {
    let output = transpile("struct P\n    x: i32\n\n    y: i32\n").unwrap();
    let pairs: Vec<(usize, usize)> = output
        .source_map
        .iter()
        .map(|e| (e.source_line, e.generated_line))
        .collect();
    assert_eq!(pairs, vec![(1, 1), (2, 2), (4, 3)]);
    assert_eq!(output.rust, "struct P {\n    x: i32,\n    y: i32,\n}\n");
}

#[test]
fn attribute_shorthand_becomes_rust_attributes() {
    assert_eq!(
        rust("#!allow(dead_code)\n#![allow(unused)]\n#derive(Debug)\nstruct A\n"),
        "#![allow(dead_code)]\n#![allow(unused)]\n#[derive(Debug)]\nstruct A;\n"
    );
}

#[test]
fn control_blocks_get_braces() {
    assert_eq!(
        rust("fn f(x: i32) -> i32 =\n    if x > 0\n        1\n    else\n        2\n"),
        "fn f(x: i32) -> i32 {\n    if x > 0 {\n        1\n    }\n    else {\n        2\n    }\n}\n"
    );
    assert_eq!(
        rust("fn spin() =\n    loop\n        do tick()\n"),
        "fn spin() {\n    loop {\n        tick();\n    }\n}\n"
    );
}

#[test]
fn inline_if_then_else_becomes_braced_expression() {
    assert_eq!(
        rust("fn sign(x: i32) -> i32 = if x < 0 then -1 else 1\n"),
        "fn sign(x: i32) -> i32 {\n    if x < 0 { -1 } else { 1 }\n}\n"
    );
}

#[test]
fn readme_main_ends_with_a_macro_statement() {
    let source = "pub fn main() =\n    let user = User.new(1, \"Ada\".to_string())\n    println!(\"{}\", user.display_name())\n";
    assert_eq!(
        rust(source),
        "pub fn main() {\n    let user = User::new(1, \"Ada\".to_string());\n    println!(\"{}\", user.display_name());\n}\n"
    );
    assert_eq!(rust("fn v() -> Vec<u8> =\n    vec![1]\n"), "fn v() -> Vec<u8> {\n    vec![1]\n}\n");
}

#[test]
fn value_macros_stay_tail_expressions() {
    assert_eq!(
        rust("fn name() -> String =\n    let a = 1\n    format!(\"{}\", a)\n"),
        "fn name() -> String {\n    let a = 1;\n    format!(\"{}\", a)\n}\n"
    );
    assert_eq!(
        rust("fn check(a: i32) =\n    assert_eq!(a, 1)\n"),
        "fn check(a: i32) {\n    assert_eq!(a, 1);\n}\n"
    );
}
