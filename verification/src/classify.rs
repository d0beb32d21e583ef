//! Recognising the kind of a source line.
use vstd::prelude::*;
use crate::expr::{find_top_level_keyword, if_head, lemma_keyword_from, lower_attribute, spec_find_top_level_keyword, spec_lower_attribute, spec_split_once_top_level, split_once_top_level};
use crate::layout::{Node, SpecNode, node_view};
use crate::lower::{ident_end, lemma_ident_end, read_ident};
use crate::text::{ascii_upper, chars_of, contains, contains_lit, ends_with, ends_with_lit, eq_lit, find, find_lit, ident_start, is_ascii_upper, is_ident_start, lemma_find_from, occurs_at_exec, push_all, push_lit, slice, starts_with, starts_with_lit, strip_prefix, strip_prefix_lit, trim, trim_end, trim_end_exec, trim_exec, unicode_uppercase, uppercase};

verus! {

/// The kind of block whose children are being emitted.
#[derive(Clone, Copy, PartialEq, Eq, Debug, Structural)]
pub enum Context {
    Root,
    Block,
    Struct,
    Enum,
    Trait,
    Match,
    StructLiteral,
}

/// The text starts the item `kw`, possibly public: `kw`, `kw ..`, `kw[..`, `pub kw ..`,
/// `pub(crate) kw[..` and so on.
pub open spec fn spec_starts_item(t: Seq<char>, kw: Seq<char>) -> bool {
    ||| t == kw
    ||| starts_with(t, kw + " "@)
    ||| starts_with(t, kw + "["@)
    ||| starts_with(t, "pub "@ + kw + " "@)
    ||| starts_with(t, "pub "@ + kw + "["@)
    ||| starts_with(t, "pub(crate) "@ + kw + " "@)
    ||| starts_with(t, "pub(crate) "@ + kw + "["@)
}

fn starts_with_pattern(t: &Vec<char>, before: &str, kw: &Vec<char>, after: &str) -> (r: bool)
    ensures
        r == starts_with(t@, before@ + kw@ + after@),
{
    let mut p = chars_of(before);
    push_all(&mut p, kw);
    push_lit(&mut p, after);
    occurs_at_exec(t, 0, &p)
}

pub fn starts_item(t: &Vec<char>, keyword: &str) -> (r: bool)
    ensures
        r == spec_starts_item(t@, keyword@),
{
    let kw = chars_of(keyword);
    let r = eq_lit(t, keyword) || starts_with_pattern(t, "", &kw, " ") || starts_with_pattern(
        t,
        "",
        &kw,
        "[",
    ) || starts_with_pattern(t, "pub ", &kw, " ") || starts_with_pattern(t, "pub ", &kw, "[")
        || starts_with_pattern(t, "pub(crate) ", &kw, " ") || starts_with_pattern(
        t,
        "pub(crate) ",
        &kw,
        "[",
    );
    proof {
        reveal_strlit("");
        assert(""@ + kw@ =~= keyword@);
    }
    r
}

pub open spec fn spec_is_struct_item(t: Seq<char>) -> bool {
    spec_starts_item(t, "struct"@)
}

pub open spec fn spec_is_enum_item(t: Seq<char>) -> bool {
    spec_starts_item(t, "enum"@)
}

pub open spec fn spec_is_trait_item(t: Seq<char>) -> bool {
    spec_starts_item(t, "trait"@)
}

pub open spec fn spec_is_impl_or_mod_item(t: Seq<char>) -> bool {
    spec_starts_item(t, "impl"@) || spec_starts_item(t, "mod"@)
}

pub open spec fn spec_is_function(t: Seq<char>) -> bool {
    starts_with(t, "fn "@) || starts_with(t, "pub fn "@) || contains(t, " fn "@)
}

pub open spec fn spec_is_match(t: Seq<char>) -> bool {
    starts_with(t, "match "@)
}

pub open spec fn spec_is_let(t: Seq<char>) -> bool {
    starts_with(t, "let "@)
}

pub open spec fn spec_is_use_or_extern_crate(t: Seq<char>) -> bool {
    starts_with(t, "use "@) || starts_with(t, "extern crate "@)
}

pub open spec fn spec_is_jump_statement(t: Seq<char>) -> bool {
    ||| t == "return"@
    ||| starts_with(t, "return "@)
    ||| t == "break"@
    ||| starts_with(t, "break "@)
    ||| t == "continue"@
    ||| starts_with(t, "continue "@)
}

pub open spec fn spec_is_assignment(t: Seq<char>) -> bool {
    &&& (contains(t, " += "@) || contains(t, " -= "@) || contains(t, " *= "@) || contains(
        t,
        " /= "@,
    ) || contains(t, " %= "@) || contains(t, " = "@))
    &&& !contains(t, " == "@)
    &&& !contains(t, " != "@)
    &&& !contains(t, " <= "@)
    &&& !contains(t, " >= "@)
    &&& !contains(t, " => "@)
}

/// A one-line `if c then a` form (its `then` is followed by an expression).
pub open spec fn spec_is_inline_if_expression(t: Seq<char>) -> bool {
    match if_head(t) {
        None => false,
        Some((_, rest)) => match spec_find_top_level_keyword(rest, "then"@) {
            None => false,
            Some(ti) => trim(rest.skip(ti + "then"@.len())).len() != 0,
        },
    }
}

pub open spec fn spec_is_control(t: Seq<char>) -> bool {
    ||| (starts_with(t, "if "@) && !spec_is_inline_if_expression(t))
    ||| (starts_with(t, "else if "@) && !spec_is_inline_if_expression(t))
    ||| (starts_with(t, "else"@) && !starts_with(t, "else if "@))
    ||| t == "loop"@
    ||| starts_with(t, "while "@)
    ||| starts_with(t, "for "@)
    ||| t == "unsafe"@
    ||| t == "async"@
}

/// `Name{ .. }` on one line: ends with `}` and the text before the first `{` starts
/// with an ASCII capital.
pub open spec fn spec_is_inline_struct_literal(t: Seq<char>) -> bool {
    match find(t, "{"@) {
        None => false,
        Some(open) => {
            let head = trim_end(t.take(open));
            ends_with(t, "}"@) && head.len() > 0 && is_ascii_upper(head[0])
        },
    }
}

/// A capitalised line whose children all read `field = value`.
pub open spec fn spec_looks_like_struct_literal(n: SpecNode) -> bool {
    let t = trim(n.text);
    &&& n.children.len() > 0
    &&& t.len() > 0 && unicode_uppercase(t[0])
    &&& forall|i: int|
        0 <= i < n.children.len() ==> (#[trigger] spec_split_once_top_level(
            trim(n.children[i].text),
            '=',
        )) is Some
}

pub open spec fn spec_classify_expression(t: Seq<char>) -> Seq<char> {
    if spec_is_inline_if_expression(t) {
        "if_expression"@
    } else if spec_is_inline_struct_literal(t) {
        "struct_literal"@
    } else if spec_is_assignment(t) {
        "assignment"@
    } else if spec_is_jump_statement(t) {
        "jump"@
    } else {
        "expression"@
    }
}

/// The kind recorded in the source tree for a node met in `ctx`.
pub open spec fn spec_classify_node(n: SpecNode, ctx: Context) -> Seq<char> {
    let t = trim(n.text);
    if starts_with(t, "//"@) {
        "comment"@
    } else if spec_lower_attribute(t) is Some {
        "attribute"@
    } else if ctx == Context::Match {
        "match_arm"@
    } else if ctx == Context::StructLiteral {
        "field"@
    } else if (ctx == Context::Struct || ctx == Context::Enum) && !spec_is_function(t) {
        "member"@
    } else if spec_is_struct_item(t) {
        "struct"@
    } else if spec_is_enum_item(t) {
        "enum"@
    } else if spec_is_trait_item(t) {
        "trait"@
    } else if spec_is_function(t) {
        "function"@
    } else if spec_starts_item(t, "impl"@) {
        "impl"@
    } else if spec_starts_item(t, "mod"@) {
        "module"@
    } else if spec_is_match(t) {
        "match"@
    } else if spec_is_inline_if_expression(t) {
        "if_expression"@
    } else if spec_is_control(t) {
        "control"@
    } else if spec_looks_like_struct_literal(n) || spec_is_inline_struct_literal(t) {
        "struct_literal"@
    } else if spec_is_let(t) {
        "let"@
    } else {
        match strip_prefix(t, "do "@) {
            Some(e) => "do_"@ + spec_classify_expression(trim(e)),
            None => spec_classify_expression(t),
        }
    }
}

pub fn is_struct_item(t: &Vec<char>) -> (r: bool)
    ensures
        r == spec_is_struct_item(t@),
{
    starts_item(t, "struct")
}

pub fn is_enum_item(t: &Vec<char>) -> (r: bool)
    ensures
        r == spec_is_enum_item(t@),
{
    starts_item(t, "enum")
}

pub fn is_trait_item(t: &Vec<char>) -> (r: bool)
    ensures
        r == spec_is_trait_item(t@),
{
    starts_item(t, "trait")
}

pub fn is_impl_or_mod_item(t: &Vec<char>) -> (r: bool)
    ensures
        r == spec_is_impl_or_mod_item(t@),
{
    starts_item(t, "impl") || starts_item(t, "mod")
}

pub fn is_function(t: &Vec<char>) -> (r: bool)
    ensures
        r == spec_is_function(t@),
{
    starts_with_lit(t, "fn ") || starts_with_lit(t, "pub fn ") || contains_lit(t, " fn ")
}

pub fn is_match(t: &Vec<char>) -> (r: bool)
    ensures
        r == spec_is_match(t@),
{
    starts_with_lit(t, "match ")
}

pub fn is_let(t: &Vec<char>) -> (r: bool)
    ensures
        r == spec_is_let(t@),
{
    starts_with_lit(t, "let ")
}

pub fn is_use_or_extern_crate(t: &Vec<char>) -> (r: bool)
    ensures
        r == spec_is_use_or_extern_crate(t@),
{
    starts_with_lit(t, "use ") || starts_with_lit(t, "extern crate ")
}

pub fn is_jump_statement(t: &Vec<char>) -> (r: bool)
    ensures
        r == spec_is_jump_statement(t@),
{
    eq_lit(t, "return") || starts_with_lit(t, "return ") || eq_lit(t, "break") || starts_with_lit(
        t,
        "break ",
    ) || eq_lit(t, "continue") || starts_with_lit(t, "continue ")
}

pub fn is_assignment(t: &Vec<char>) -> (r: bool)
    ensures
        r == spec_is_assignment(t@),
{
    (contains_lit(t, " += ") || contains_lit(t, " -= ") || contains_lit(t, " *= ") || contains_lit(
        t,
        " /= ",
    ) || contains_lit(t, " %= ") || contains_lit(t, " = ")) && !contains_lit(t, " == ")
        && !contains_lit(t, " != ") && !contains_lit(t, " <= ") && !contains_lit(t, " >= ")
        && !contains_lit(t, " => ")
}

pub fn is_inline_if_expression(t: &Vec<char>) -> (r: bool)
    ensures
        r == spec_is_inline_if_expression(t@),
{
    let rest = if let Some(rest) = strip_prefix_lit(t, "if ") {
        rest
    } else if let Some(rest) = strip_prefix_lit(t, "else if ") {
        rest
    } else {
        return false;
    };
    match find_top_level_keyword(&rest, "then") {
        None => false,
        Some(ti) => {
            proof {
                lemma_keyword_from(rest@, "then"@, 0, 0, 0, 0);
                reveal_strlit("then");
                assert("then"@.len() == 4);
            }
            let tail = slice(&rest, ti + 4, rest.len());
            assert(tail@ =~= rest@.skip(ti + "then"@.len()));
            let tt = trim_exec(&tail);
            tt.len() != 0
        },
    }
}

pub fn is_control(t: &Vec<char>) -> (r: bool)
    ensures
        r == spec_is_control(t@),
{
    (starts_with_lit(t, "if ") && !is_inline_if_expression(t)) || (starts_with_lit(t, "else if ")
        && !is_inline_if_expression(t)) || (starts_with_lit(t, "else") && !starts_with_lit(
        t,
        "else if ",
    )) || eq_lit(t, "loop") || starts_with_lit(t, "while ") || starts_with_lit(t, "for ")
        || eq_lit(t, "unsafe") || eq_lit(t, "async")
}

pub fn is_inline_struct_literal(t: &Vec<char>) -> (r: bool)
    ensures
        r == spec_is_inline_struct_literal(t@),
{
    let open = match find_lit(t, "{") {
        None => return false,
        Some(i) => i,
    };
    proof {
        lemma_find_from(t@, "{"@, 0);
    }
    let ends = ends_with_lit(t, "}");
    let before = slice(t, 0, open);
    let head = trim_end_exec(&before);
    ends && head.len() > 0 && ascii_upper(head[0])
}

pub fn looks_like_struct_literal(n: &Node) -> (r: bool)
    ensures
        r == spec_looks_like_struct_literal(node_view(*n)),
{
    let t = trim_exec(&n.text);
    if n.children.len() == 0 || t.len() == 0 || !uppercase(t[0]) {
        return false;
    }
    let mut i: usize = 0;
    while i < n.children.len()
        invariant
            i <= n.children.len(),
            forall|j: int|
                0 <= j < i ==> (#[trigger] spec_split_once_top_level(
                    trim(node_view(*n).children[j].text),
                    '=',
                )) is Some,
        decreases n.children.len() - i,
    {
        let ct = trim_exec(&n.children[i].text);
        assert(node_view(*n).children[i as int] == node_view(n.children@[i as int]));
        if split_once_top_level(&ct, '=').is_none() {
            assert(spec_split_once_top_level(trim(node_view(*n).children[i as int].text), '=') is None);
            return false;
        }
        i += 1;
    }
    true
}

pub fn classify_expression(t: &Vec<char>) -> (r: Vec<char>)
    ensures
        r@ == spec_classify_expression(t@),
{
    if is_inline_if_expression(t) {
        chars_of("if_expression")
    } else if is_inline_struct_literal(t) {
        chars_of("struct_literal")
    } else if is_assignment(t) {
        chars_of("assignment")
    } else if is_jump_statement(t) {
        chars_of("jump")
    } else {
        chars_of("expression")
    }
}

pub fn classify_node(n: &Node, ctx: Context) -> (r: Vec<char>)
    ensures
        r@ == spec_classify_node(node_view(*n), ctx),
{
    let t = trim_exec(&n.text);
    let in_member_context = match ctx {
        Context::Struct | Context::Enum => true,
        _ => false,
    };
    if starts_with_lit(&t, "//") {
        chars_of("comment")
    } else if lower_attribute(&t).is_some() {
        chars_of("attribute")
    } else if ctx == Context::Match {
        chars_of("match_arm")
    } else if ctx == Context::StructLiteral {
        chars_of("field")
    } else if in_member_context && !is_function(&t) {
        chars_of("member")
    } else if is_struct_item(&t) {
        chars_of("struct")
    } else if is_enum_item(&t) {
        chars_of("enum")
    } else if is_trait_item(&t) {
        chars_of("trait")
    } else if is_function(&t) {
        chars_of("function")
    } else if starts_item(&t, "impl") {
        chars_of("impl")
    } else if starts_item(&t, "mod") {
        chars_of("module")
    } else if is_match(&t) {
        chars_of("match")
    } else if is_inline_if_expression(&t) {
        chars_of("if_expression")
    } else if is_control(&t) {
        chars_of("control")
    } else if looks_like_struct_literal(n) || is_inline_struct_literal(&t) {
        chars_of("struct_literal")
    } else if is_let(&t) {
        chars_of("let")
    } else {
        match strip_prefix_lit(&t, "do ") {
            Some(e) => {
                let te = trim_exec(&e);
                let k = classify_expression(&te);
                let mut r = chars_of("do_");
                push_all(&mut r, &k);
                r
            },
            None => classify_expression(&t),
        }
    }
}


/// The std macros that only print or check and give `()`: `print`, `println`, `eprint`,
/// `eprintln` and the `assert` family.
pub open spec fn spec_is_statement_macro(name: Seq<char>) -> bool {
    ||| name == "print"@
    ||| name == "println"@
    ||| name == "eprint"@
    ||| name == "eprintln"@
    ||| name == "assert"@
    ||| name == "assert_eq"@
    ||| name == "assert_ne"@
    ||| name == "debug_assert"@
    ||| name == "debug_assert_eq"@
    ||| name == "debug_assert_ne"@
}

/// A call `name!(..)` of a statement macro: the name, `!(`, and a closing `)` at the end.
pub open spec fn spec_is_statement_macro_call(t: Seq<char>) -> bool {
    let k = ident_end(t, 0);
    &&& t.len() > 0 && is_ident_start(t[0])
    &&& k + 1 < t.len() && t[k] == '!' && t[k + 1] == '('
    &&& t.last() == ')'
    &&& spec_is_statement_macro(t.take(k))
}

pub fn is_statement_macro_call(t: &Vec<char>) -> (r: bool)
    ensures
        r == spec_is_statement_macro_call(t@),
{
    if t.len() == 0 || !ident_start(t[0]) {
        return false;
    }
    let k = read_ident(t, 0);
    proof {
        lemma_ident_end(t@, 0);
    }
    if !(k < t.len() - 1 && t[k] == '!' && t[k + 1] == '(' && t[t.len() - 1] == ')') {
        return false;
    }
    let name = slice(t, 0, k);
    assert(name@ =~= t@.take(k as int));
    eq_lit(&name, "print") || eq_lit(&name, "println") || eq_lit(&name, "eprint") || eq_lit(
        &name,
        "eprintln",
    ) || eq_lit(&name, "assert") || eq_lit(&name, "assert_eq") || eq_lit(&name, "assert_ne")
        || eq_lit(&name, "debug_assert") || eq_lit(&name, "debug_assert_eq") || eq_lit(
        &name,
        "debug_assert_ne",
    )
}

} // verus!
