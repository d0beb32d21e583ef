use rusk::cli::{parse_args, Command};
use rusk::editor::language_server_command;
use rusk::symbols::{
    document_symbols, item_name, line_range, node_range, symbol_kind, symbol_name, Span,
    SymbolCategory,
};
use rusk::{transpile, SourceMapNode};

fn strings(items: &[&str]) -> Vec<String> {
    items.iter().map(|s| s.to_string()).collect()
}

#[test]
fn item_names_follow_their_keyword() {
    assert_eq!(item_name("pub struct User", "struct"), Some("User".to_string()));
    assert_eq!(item_name("fn id(x: i32) -> i32 = x", "fn"), Some("id".to_string()));
    assert_eq!(item_name("pub fn  new_user[T]()", "fn"), Some("new_user".to_string()));
    assert_eq!(item_name("let x = 1", "fn"), None);
    assert_eq!(item_name("struct", "struct"), None);
    assert_eq!(item_name("enum  ::Foo", "enum"), Some("Foo".to_string()));
}

#[test]
fn symbol_names() {
    assert_eq!(symbol_name("  pub struct User  "), "User");
    assert_eq!(symbol_name("pub fn new(id: u64) -> Self ="), "new");
    assert_eq!(symbol_name("impl Display for User"), "impl Display for User");
    assert_eq!(symbol_name("mod parser"), "parser");
    assert_eq!(symbol_name("id: u64"), "id");
    assert_eq!(symbol_name("pub id: u64"), "pub");
    assert_eq!(symbol_name("Circle(f64)"), "Circle");
    assert_eq!(symbol_name("Empty"), "Empty");
}

#[test]
fn symbol_kinds() {
    assert_eq!(symbol_kind("struct"), Some(SymbolCategory::Struct));
    assert_eq!(symbol_kind("enum"), Some(SymbolCategory::Enum));
    assert_eq!(symbol_kind("trait"), Some(SymbolCategory::Interface));
    assert_eq!(symbol_kind("impl"), Some(SymbolCategory::Object));
    assert_eq!(symbol_kind("module"), Some(SymbolCategory::Module));
    assert_eq!(symbol_kind("function"), Some(SymbolCategory::Function));
    assert_eq!(symbol_kind("member"), Some(SymbolCategory::Field));
    assert_eq!(symbol_kind("field"), Some(SymbolCategory::Field));
    assert_eq!(symbol_kind("let"), None);
    assert_eq!(symbol_kind("Struct"), None);
}

#[test]
fn node_ranges_cover_the_source_text() {
    let node = SourceMapNode {
        kind: "function".to_string(),
        source_line: 3,
        source_indent: 4,
        source_text: "fn f() = é".to_string(),
        generated_start_line: 1,
        generated_end_line: 3,
        children: Vec::new(),
    };
    assert_eq!(node_range(&node), Span { line: 2, start: 4, end: 15 });
}

#[test]
fn line_ranges_for_diagnostics() {
    assert_eq!(line_range("a\nbcd\n", 2), Span { line: 1, start: 0, end: 3 });
    assert_eq!(line_range("abc", 0), Span { line: 0, start: 0, end: 3 });
    assert_eq!(line_range("abc", 7), Span { line: 6, start: 0, end: 0 });
    assert_eq!(line_range("x\r\nyé\r\n", 2), Span { line: 1, start: 0, end: 3 });
}

#[test]
fn document_symbols_of_a_source() {
    let output = transpile("pub struct User\n    pub id: u64\n\nfn main() = 1\nlet x = 2\n").unwrap();
    let symbols = document_symbols(&output);
    assert_eq!(symbols.len(), 2);
    assert_eq!(symbols[0].name, "User");
    assert_eq!(symbols[0].detail, "struct");
    assert_eq!(symbols[0].kind, SymbolCategory::Struct);
    assert_eq!(symbols[0].range, Span { line: 0, start: 0, end: 15 });
    assert_eq!(symbols[0].children.len(), 1);
    assert_eq!(symbols[0].children[0].name, "pub");
    assert_eq!(symbols[0].children[0].kind, SymbolCategory::Field);
    assert_eq!(symbols[0].children[0].range, Span { line: 1, start: 4, end: 15 });
    assert_eq!(symbols[1].name, "main");
    assert_eq!(symbols[1].kind, SymbolCategory::Function);
    assert_eq!(symbols[1].range.line, 3);
}

#[test]
fn command_line_arguments() {
    match parse_args(Vec::new()).unwrap() {
        Command::Run(a) => {
            assert_eq!(a.input, None);
            assert_eq!(a.output, None);
            assert_eq!(a.source_map, None);
        }
        Command::Help => panic!("expected a run"),
    }
    match parse_args(strings(&["in.rsml", "--output", "o.rs", "--source-map", "m.json"])).unwrap() {
        Command::Run(a) => {
            assert_eq!(a.input.as_deref(), Some("in.rsml"));
            assert_eq!(a.output.as_deref(), Some("o.rs"));
            assert_eq!(a.source_map.as_deref(), Some("m.json"));
        }
        Command::Help => panic!("expected a run"),
    }
    assert!(matches!(parse_args(strings(&["x", "-h", "-z"])).unwrap(), Command::Help));
    assert!(matches!(parse_args(strings(&["--help"])).unwrap(), Command::Help));
    assert_eq!(parse_args(strings(&["-o"])).unwrap_err(), "--output requires a path");
    assert_eq!(parse_args(strings(&["--source-map"])).unwrap_err(), "--source-map requires a path");
    assert_eq!(parse_args(strings(&["-x"])).unwrap_err(), "unknown option: -x");
    assert_eq!(parse_args(strings(&["-"])).unwrap_err(), "unknown option: -");
    assert_eq!(parse_args(strings(&["a", "b"])).unwrap_err(), "only one input path is supported");
}

#[test]
fn second_transpile_word_is_an_input_path() {
    match parse_args(strings(&["transpile", "transpile"])).unwrap() {
        Command::Run(a) => assert_eq!(a.input.as_deref(), Some("transpile")),
        Command::Help => panic!("expected a run"),
    }
}

#[test]
fn language_server_command_choice() {
    let c = language_server_command(
        "rusk-lsp",
        Some("/opt/rusk-lsp".to_string()),
        Some(strings(&["--stdio"])),
        Some("/usr/bin/rusk-lsp".to_string()),
    )
    .unwrap();
    assert_eq!(c.command, "/opt/rusk-lsp");
    assert_eq!(c.args, strings(&["--stdio"]));
    let c = language_server_command("rusk-lsp", None, None, Some("/usr/bin/rusk-lsp".to_string())).unwrap();
    assert_eq!(c.command, "/usr/bin/rusk-lsp");
    assert!(c.args.is_empty());
    assert_eq!(
        language_server_command("other", None, None, None).unwrap_err(),
        "unknown language server: other"
    );
    assert!(language_server_command("rusk-lsp", None, Some(Vec::new()), None)
        .unwrap_err()
        .starts_with("rusk-lsp not found in PATH"));
}

#[test]
fn diagnostics_name_the_offending_line() {
    assert!(rusk::symbols::diagnostic("fn f() = 1\n").is_none());
    let (span, message) = rusk::symbols::diagnostic("fn f() =\n\tx\n").unwrap();
    assert_eq!(span, Span { line: 1, start: 0, end: 2 });
    assert_eq!(message, "line 2: tabs are not supported; use spaces");
}

#[test]
fn only_the_rusk_server_is_known() {
    assert!(rusk::editor::is_known_server("rusk-lsp"));
    assert!(!rusk::editor::is_known_server("rust-analyzer"));
}

#[test]
fn source_nodes_clone_and_compare() {
    let output = transpile("struct A\n    b: u8\n").unwrap();
    let copy = output.clone();
    assert_eq!(copy, output);
    assert_eq!(output.source_tree[0].clone(), output.source_tree[0]);
    let e = transpile("\tx").unwrap_err();
    assert_eq!(e.clone(), e);
}
