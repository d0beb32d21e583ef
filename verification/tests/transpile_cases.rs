use rusk::{source_map_json, transpile};

fn rust(source: &str) -> String {
    transpile(source).unwrap().rust
}

#[test]
fn lowers_struct_impl_and_inline_functions() {
    let source = r#"
#[derive(Debug, Clone)]
pub struct User
    pub id: u64
    pub name: String

impl User
    pub fn new(id: u64, name: String) -> Self = Self{ id, name }

    pub fn display_name(&self) -> &str = &self.name
"#;

    assert_eq!(
        rust(source),
        r#"#[derive(Debug, Clone)]
pub struct User {
    pub id: u64,
    pub name: String,
}
impl User {
    pub fn new(id: u64, name: String) -> Self {
        Self{ id, name }
    }
    pub fn display_name(&self) -> &str {
        &self.name
    }
}
"#
    );
}

#[test]
fn lowers_do_and_match_arms() {
    let source = r#"
fn parse(line: &str) -> Result[i32, String] =
    match line.parse[i32]()
        Ok(value)
            do println!("{}", value)
            Ok(value)
        Err(error) => Err(error.to_string())
"#;

    assert_eq!(
        rust(source),
        r#"fn parse(line: &str) -> Result<i32, String> {
    match line.parse::<i32>() {
        Ok(value) => {
            println!("{}", value);
            Ok(value)
        },
        Err(error) => Err(error.to_string()),
    }
}
"#
    );
}

#[test]
fn lowers_generic_impl_and_inline_do_match_arm() {
    let source = r#"
pub struct Boxed[T]
    pub value: T

impl[T] Boxed[T]
    pub fn new(value: T) -> Self = Self{ value }

fn log(value: Result[i32, String]) =
    match value
        Ok(number) => do println!("{}", number)
        Err(error) => error
"#;

    assert_eq!(
        rust(source),
        r#"pub struct Boxed<T> {
    pub value: T,
}
impl<T> Boxed<T> {
    pub fn new(value: T) -> Self {
        Self{ value }
    }
}
fn log(value: Result<i32, String>) {
    match value {
        Ok(number) => {
            println!("{}", number);
        },
        Err(error) => error,
    }
}
"#
    );
}

#[test]
fn preserves_value_dots_and_lowers_path_dots() {
    let source = r#"
fn test(iter: Iter) =
    do Foo.new()
    do Foo::bar()
    do iter.collect::<Vec[_]>()
    do std.io.read()
"#;

    assert_eq!(
        rust(source),
        r#"fn test(iter: Iter) {
    Foo::new();
    Foo::bar();
    iter.collect::<Vec<_>>();
    std::io::read();
}
"#
    );
}

#[test]
fn keeps_index_expressions_numeric() {
    let source = r#"
fn example(xs: &[i32], index: usize) =
    let a = [Foo]
    let b = [3]
    let c = xs[3]
    let d = xs[index]
    c + d
"#;

    assert_eq!(
        rust(source),
        r#"fn example(xs: &[i32], index: usize) {
    let a = [Foo];
    let b = [3];
    let c = xs[3];
    let d = xs[index];
    c + d
}
"#
    );
}

#[test]
fn lowers_if_then_else_expression() {
    let source = r#"
fn clamp(value: i32, min: i32, max: i32) -> i32 =
    if value < min then min else if value > max then max else value
"#;

    assert_eq!(
        rust(source),
        r#"fn clamp(value: i32, min: i32, max: i32) -> i32 {
    if value < min { min } else { if value > max { max } else { value } }
}
"#
    );

    assert_eq!(
        rust("fn choose(a: bool, b: bool) -> i32 = if a then if b then 1 else 2 else 3\n"),
        r#"fn choose(a: bool, b: bool) -> i32 {
    if a { if b { 1 } else { 2 } } else { 3 }
}
"#
    );
}

#[test]
fn emits_source_map_json() {
    let output = transpile("fn id(x: i32) -> i32 = x\n").unwrap();
    assert_eq!(output.source_map[0].source_line, 1);
    assert_eq!(output.source_tree[0].kind, "function");
    let json = source_map_json(&output);
    assert!(json.contains("\"version\": 2"));
    assert!(json.contains("\"kind\": \"function\""));
    assert!(json.contains("\"generated\": { \"start_line\": 1, \"end_line\": 3 }"));
}
