use rusk::cli::{parse_args, Command};
use rusk::json::push_escaped;
use rusk::web::{http_response, route_path, safe_join};
use rusk::{source_map_json, transpile, SourceMapNode, TranspileOutput};

fn strings(items: &[&str]) -> Vec<String> {
    items.iter().map(|s| s.to_string()).collect()
}

#[test]
fn text_without_dots_or_brackets_is_kept() {
    assert_eq!(
        transpile("fn add(a: i32, b: i32) -> i32 = a + b\n").unwrap().rust,
        "fn add(a: i32, b: i32) -> i32 {\n    a + b\n}\n"
    );
}

#[test]
fn tree_holds_every_line_in_order() {
    let output = transpile("impl A\n    fn f(&self) =\n        g()\n\n    fn h() = 2\n").unwrap();
    assert_eq!(output.source_tree.len(), 1);
    let top = &output.source_tree[0];
    assert_eq!(top.source_line, 1);
    assert_eq!(top.kind, "impl");
    let lines: Vec<usize> = top.children.iter().map(|n| n.source_line).collect();
    assert_eq!(lines, vec![2, 5]);
    assert_eq!(top.children[0].children[0].source_line, 3);
    assert_eq!(top.generated_start_line, 1);
    assert_eq!(top.generated_end_line, 8);
}

#[test]
fn errors_are_only_tabs_or_indentation() {
    let sources = ["a\n\tb\n", "a\n  b\n c\n", "   a\n", "a\n    b\n  c\n"];
    for source in sources {
        let message = transpile(source).unwrap_err().message;
        assert!(
            message == "tabs are not supported; use spaces"
                || message == "indentation must belong to the previous line",
            "{message}"
        );
    }
}

#[test]
fn output_always_ends_with_line_feed() {
    for source in ["", "x", "fn f() = 1", "struct A\n    b: u8"] {
        assert!(transpile(source).unwrap().rust.ends_with('\n'));
    }
}

#[test]
fn source_map_points_into_output_in_order() {
    let output = transpile("enum E\n    A\n    B\n        x: u8\nfn f() = 1\n").unwrap();
    let line_count = output.rust.lines().count();
    let generated: Vec<usize> = output.source_map.iter().map(|e| e.generated_line).collect();
    assert_eq!(generated, vec![1, 2, 3, 4, 7]);
    assert!(generated.iter().all(|g| *g >= 1 && *g <= line_count));
    assert!(generated.windows(2).all(|w| w[0] < w[1]));
}

#[test]
fn joined_paths_stay_under_root() {
    assert_eq!(safe_join("/srv", "a/b.js"), Some("/srv/a/b.js".to_string()));
    assert_eq!(safe_join("/srv/", "a//./b"), Some("/srv/a/b".to_string()));
    assert_eq!(safe_join("/srv", "../etc/passwd"), None);
    assert_eq!(safe_join("/srv", "a/../../b"), None);
    assert_eq!(safe_join("/srv", "/etc/passwd"), None);
    assert_eq!(safe_join("/srv", "./a"), None);
    assert_eq!(safe_join("/srv", ""), Some("/srv".to_string()));
}

#[test]
fn routed_paths_are_relative() {
    assert_eq!(route_path("/"), "index.html");
    assert_eq!(route_path("//app/main.js"), "app/main.js");
    assert_eq!(route_path("/style.css"), "style.css");
    assert_eq!(route_path(""), "");
}

#[test]
fn head_answer_is_get_answer_without_body() {
    let get = http_response(200, "text/plain", b"hi", false);
    let head = http_response(200, "text/plain", b"hi", true);
    assert_eq!(
        head,
        b"HTTP/1.1 200 OK\r\nContent-Type: text/plain\r\nContent-Length: 2\r\nConnection: close\r\n\r\n".to_vec()
    );
    let mut expected = head.clone();
    expected.extend_from_slice(b"hi");
    assert_eq!(get, expected);
}

#[test]
fn transpile_word_is_optional() {
    let with_word = parse_args(strings(&["transpile", "in.rsml", "-o", "out.rs"])).unwrap();
    let without = parse_args(strings(&["in.rsml", "-o", "out.rs"])).unwrap();
    match (with_word, without) {
        (Command::Run(a), Command::Run(b)) => {
            assert_eq!(a.input, b.input);
            assert_eq!(a.output, b.output);
            assert_eq!(a.source_map, b.source_map);
            assert_eq!(a.input.as_deref(), Some("in.rsml"));
            assert_eq!(a.output.as_deref(), Some("out.rs"));
        }
        _ => panic!("expected runs"),
    }
}

#[test]
fn escaped_text_stays_on_one_line() {
    let mut out: Vec<char> = Vec::new();
    let text: Vec<char> = "a\nb\"c\\d\te\r\u{1}Ö".chars().collect();
    push_escaped(&mut out, &text);
    let escaped: String = out.into_iter().collect();
    assert_eq!(escaped, "a\\nb\\\"c\\\\d\\te\\r\\u0001Ö");
    assert!(!escaped.contains('\n'));
}

#[test]
fn tree_json_escapes_node_text() {
    let output = TranspileOutput {
        rust: String::new(),
        source_map: Vec::new(),
        source_tree: vec![SourceMapNode {
            kind: "expression".to_string(),
            source_line: 1,
            source_indent: 0,
            source_text: "say(\"hi\")\u{7f}".to_string(),
            generated_start_line: 1,
            generated_end_line: 1,
            children: Vec::new(),
        }],
    };
    let json = source_map_json(&output);
    assert!(json.contains("\"text\": \"say(\\\"hi\\\")\\u007f\""));
    assert_eq!(json.lines().count(), 12);
}

fn nodes_within(nodes: &[SourceMapNode], lo: usize, hi: usize) -> bool {
    let mut next = lo;
    for node in nodes {
        if node.generated_start_line < next
            || node.generated_start_line > node.generated_end_line
            || node.generated_end_line > hi
            || !nodes_within(&node.children, node.generated_start_line, node.generated_end_line)
        {
            return false;
        }
        next = node.generated_end_line + 1;
    }
    true
}

#[test]
fn source_tree_spans_nest_within_output() {
    let source = "mod m\n    enum E\n        A\n        B\n            x: u8\n    fn f(a: u8) -> u8 =\n        match a\n            0 => 1\n            n =>\n                n\n";
    let output = transpile(source).unwrap();
    let line_count = output.rust.lines().count();
    assert!(nodes_within(&output.source_tree, 1, line_count));
    let m = &output.source_tree[0];
    assert_eq!((m.generated_start_line, m.generated_end_line), (1, line_count));
    let f = &m.children[1];
    assert_eq!(f.kind, "function");
    assert_eq!(f.children[0].kind, "match");
    assert_eq!(f.children[0].children[1].kind, "match_arm");
}

#[test]
fn source_map_follows_source_order() {
    let source = "fn f() = 1\n    ignored\n\nstruct S\n    a: u8\nimpl S\n    fn g(&self) =\n        do h()\n        2\n";
    let output = transpile(source).unwrap();
    let lines: Vec<usize> = output.source_map.iter().map(|e| e.source_line).collect();
    assert_eq!(lines, vec![1, 4, 5, 6, 7, 8, 9]);
    assert!(lines.windows(2).all(|w| w[0] < w[1]));
    assert!(lines.iter().all(|l| *l >= 1 && *l <= source.split('\n').count()));
}

#[test]
fn tree_follows_indentation() {
    let output = transpile("mod m\n   fn a() = 1\n   fn b() =\n      c()\nfn d() = 4\n").unwrap();
    let top: Vec<usize> = output.source_tree.iter().map(|n| n.source_indent).collect();
    assert_eq!(top, vec![0, 0]);
    let inner: Vec<usize> = output.source_tree[0].children.iter().map(|n| n.source_indent).collect();
    assert_eq!(inner, vec![3, 3]);
    assert_eq!(output.source_tree[0].children[1].children[0].source_indent, 6);
}

#[test]
fn generated_lines_are_the_output_lines() {
    let output = transpile("struct A\n    b: u8\nfn f() =\n    if x then 1 else 2\n").unwrap();
    let last = output.source_tree.last().unwrap();
    assert_eq!(output.rust.lines().count(), last.generated_end_line);
    let size = fn_count(&output.source_tree);
    assert_eq!(output.source_map.len(), size);
    let starts: Vec<(usize, usize)> = preorder(&output.source_tree);
    let entries: Vec<(usize, usize)> =
        output.source_map.iter().map(|e| (e.source_line, e.generated_line)).collect();
    assert_eq!(entries, starts);
}

fn fn_count(nodes: &[SourceMapNode]) -> usize {
    nodes.iter().map(|n| 1 + fn_count(&n.children)).sum()
}

fn preorder(nodes: &[SourceMapNode]) -> Vec<(usize, usize)> {
    let mut out = Vec::new();
    for n in nodes {
        out.push((n.source_line, n.generated_start_line));
        out.extend(preorder(&n.children));
    }
    out
}

#[test]
fn escaped_text_decodes_back() {
    let decode = |e: &str| serde_json::from_str::<String>(&format!("\"{}\"", e)).unwrap();
    for text in ["plain text", "a\"b\\c\nd\re\tf\u{1}g\u{7f}h\u{9f}é", ""] {
        let mut out: Vec<char> = Vec::new();
        let chars: Vec<char> = text.chars().collect();
        push_escaped(&mut out, &chars);
        let escaped: String = out.into_iter().collect();
        assert_eq!(decode(&escaped), text);
        if !text.contains(['"', '\\', '\n', '\r', '\t', '\u{1}', '\u{7f}']) {
            assert_eq!(escaped, text);
        }
    }
}

fn check_node(value: &serde_json::Value, node: &SourceMapNode) {
    assert_eq!(value["kind"].as_str(), Some(node.kind.as_str()));
    assert_eq!(value["source"]["line"].as_u64(), Some(node.source_line as u64));
    assert_eq!(value["source"]["indent"].as_u64(), Some(node.source_indent as u64));
    assert_eq!(value["source"]["text"].as_str(), Some(node.source_text.as_str()));
    assert_eq!(value["generated"]["start_line"].as_u64(), Some(node.generated_start_line as u64));
    assert_eq!(value["generated"]["end_line"].as_u64(), Some(node.generated_end_line as u64));
    let children = value["children"].as_array().unwrap();
    assert_eq!(children.len(), node.children.len());
    for (v, n) in children.iter().zip(node.children.iter()) {
        check_node(v, n);
    }
}

#[test]
fn source_map_json_reads_back() {
    let output = transpile("struct S\n    a: u8\nfn f(x: &str) -> &str =\n    let q = \"say \\\"hi\\\"\"\n    x\n").unwrap();
    let json = source_map_json(&output);
    let value: serde_json::Value = serde_json::from_str(&json).unwrap();
    assert_eq!(value["version"].as_u64(), Some(2));
    assert_eq!(value["format"].as_str(), Some("rusk.syntax-tree"));
    let tree = value["tree"].as_array().unwrap();
    assert_eq!(tree.len(), output.source_tree.len());
    for (v, n) in tree.iter().zip(output.source_tree.iter()) {
        check_node(v, n);
    }
    let empty = transpile("").unwrap();
    let value: serde_json::Value = serde_json::from_str(&source_map_json(&empty)).unwrap();
    assert_eq!(value["tree"].as_array().map(|a| a.len()), Some(0));
}
