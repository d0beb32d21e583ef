//! Emitting Rust lines, the line source map and the source tree from the
//! indentation tree.
use vstd::prelude::*;
use crate::classify::{Context, spec_classify_node, spec_is_assignment, spec_is_control, spec_is_enum_item, spec_is_function, spec_is_impl_or_mod_item, spec_is_jump_statement, spec_is_let, spec_is_match, spec_is_statement_macro_call, spec_is_struct_item, spec_is_trait_item, spec_is_use_or_extern_crate, spec_looks_like_struct_literal};
use crate::expr::{spec_lower_attribute, spec_lower_expr, spec_lower_signature, spec_split_arrow, spec_split_once_top_level};
use crate::layout::{SpecNode};
use crate::model::{SpecEntry, SpecMapNode};
use crate::text::{contains, spaces, starts_with, strip_prefix, trim};

verus! {

/// What an emitter step produces: generated lines, source map entries and
/// source-tree nodes.
pub struct Em {
    pub lines: Seq<Seq<char>>,
    pub map: Seq<SpecEntry>,
    pub tree: Seq<SpecMapNode>,
}

pub open spec fn em_empty() -> Em {
    Em { lines: Seq::empty(), map: Seq::empty(), tree: Seq::empty() }
}

pub open spec fn em_cat(a: Em, b: Em) -> Em {
    Em { lines: a.lines + b.lines, map: a.map + b.map, tree: a.tree + b.tree }
}

/// A line produced by a source node: recorded in the line source map.
pub open spec fn em_push(n: SpecNode, line: Seq<char>, base: int) -> Em {
    Em { lines: seq![line], map: seq![(n.line, base + 1)], tree: Seq::empty() }
}

/// A line produced by the emitter alone (a closing brace or a body line).
pub open spec fn em_gen(line: Seq<char>) -> Em {
    Em { lines: seq![line], map: Seq::empty(), tree: Seq::empty() }
}

pub open spec fn ind(n: SpecNode) -> Seq<char> {
    spaces(n.indent as nat)
}

pub open spec fn ind4(n: SpecNode) -> Seq<char> {
    spaces(n.indent as nat) + spaces(4)
}

/// `emit_nodes` for the first `k` of `nodes`, starting after `base` generated lines.
pub open spec fn spec_emit_nodes(nodes: Seq<SpecNode>, ctx: Context, k: int, base: int) -> Em
    decreases nodes, k,
{
    if k <= 0 || k > nodes.len() {
        em_empty()
    } else {
        let prev = spec_emit_nodes(nodes, ctx, k - 1, base);
        em_cat(
            prev,
            spec_emit_node(nodes[k - 1], ctx, k == nodes.len(), base + prev.lines.len()),
        )
    }
}

pub open spec fn spec_emit_children(n: SpecNode, ctx: Context, base: int) -> Em
    decreases n, 4int,
{
    spec_emit_nodes(n.children, ctx, n.children.len() as int, base)
}

/// `emit_node`: the node's lines, and one source-tree node spanning them.
pub open spec fn spec_emit_node(n: SpecNode, ctx: Context, is_last: bool, base: int) -> Em
    decreases n, 11int,
{
    let body = spec_emit_node_body(n, ctx, is_last, base);
    Em {
        lines: body.lines,
        map: body.map,
        tree: seq![
            SpecMapNode {
                kind: spec_classify_node(n, ctx),
                line: n.line,
                indent: n.indent,
                text: n.text,
                start: base + 1,
                end: base + body.lines.len(),
                children: body.tree,
            },
        ],
    }
}

/// `emit_node_body`: comments and attributes are copied; other lines are emitted as
/// the enclosing context requires.
pub open spec fn spec_emit_node_body(n: SpecNode, ctx: Context, is_last: bool, base: int) -> Em
    decreases n, 10int,
{
    let t = trim(n.text);
    if starts_with(t, "//"@) {
        em_push(n, t, base)
    } else {
        match spec_lower_attribute(t) {
            Some(a) => em_push(n, ind(n) + a, base),
            None => match ctx {
                Context::Struct => spec_emit_struct_member(n, base),
                Context::Enum => spec_emit_enum_member(n, base),
                Context::Trait => spec_emit_trait_member(n, base),
                Context::Match => spec_emit_match_arm(n, base),
                Context::StructLiteral => spec_emit_struct_literal_field(n, base),
                _ => spec_emit_general(n, ctx, is_last, base),
            },
        }
    }
}

/// `emit_general`: items, functions, blocks, struct literals and statements.
pub open spec fn spec_emit_general(n: SpecNode, ctx: Context, is_last: bool, base: int) -> Em
    decreases n, 8int,
{
    let t = trim(n.text);
    if spec_is_struct_item(t) {
        spec_emit_braced_item(n, Context::Struct, spec_lower_signature(t), base)
    } else if spec_is_enum_item(t) {
        spec_emit_braced_item(n, Context::Enum, spec_lower_signature(t), base)
    } else if spec_is_trait_item(t) {
        spec_emit_braced_item(n, Context::Trait, spec_lower_signature(t), base)
    } else if spec_is_function(t) {
        spec_emit_function(n, base)
    } else if spec_is_impl_or_mod_item(t) {
        spec_emit_braced_item(n, Context::Block, spec_lower_signature(t), base)
    } else if spec_is_match(t) {
        spec_emit_braced_item(n, Context::Match, spec_lower_expr(t), base)
    } else if spec_is_control(t) {
        spec_emit_braced_item(n, Context::Block, spec_lower_expr(t), base)
    } else if spec_looks_like_struct_literal(n) {
        spec_emit_struct_literal_expr(n, is_last, base)
    } else {
        spec_emit_statement(n, is_last, base)
    }
}

/// `emit_braced_item`: `header {`, the children, `}`; a struct or enum without
/// children becomes `header;`.
pub open spec fn spec_emit_braced_item(n: SpecNode, child: Context, header: Seq<char>, base: int) -> Em
    decreases n, 6int,
{
    if n.children.len() == 0 && (child == Context::Struct || child == Context::Enum) {
        em_push(n, ind(n) + header + ";"@, base)
    } else {
        let kids = spec_emit_children(n, child, base + 1);
        em_cat(em_cat(em_push(n, ind(n) + header + " {"@, base), kids), em_gen(ind(n) + "}"@))
    }
}

/// `emit_function`: `sig = body` becomes a braced function; a signature without
/// `=` is copied as it is.
pub open spec fn spec_emit_function(n: SpecNode, base: int) -> Em
    decreases n, 6int,
{
    let t = trim(n.text);
    match spec_split_once_top_level(t, '=') {
        None => em_push(n, ind(n) + spec_lower_signature(t), base),
        Some((sig, rest)) => {
            let head = em_push(n, ind(n) + spec_lower_signature(trim(sig)) + " {"@, base);
            let body = trim(rest);
            let mid = if body.len() == 0 {
                spec_emit_children(n, Context::Block, base + 1)
            } else {
                match strip_prefix(body, "do "@) {
                    Some(e) => em_gen(ind4(n) + spec_lower_expr(trim(e)) + ";"@),
                    None => em_gen(ind4(n) + spec_lower_expr(body)),
                }
            };
            em_cat(em_cat(head, mid), em_gen(ind(n) + "}"@))
        },
    }
}

/// `emit_statement`: `do e` and statements end with `;`, and so does a call of a printing
/// or asserting macro; the last expression of a block does not.
pub open spec fn spec_emit_statement(n: SpecNode, is_last: bool, base: int) -> Em
    decreases n, 7int,
{
    let t = trim(n.text);
    match strip_prefix(t, "do "@) {
        Some(e) => em_push(n, ind(n) + spec_lower_expr(trim(e)) + ";"@, base),
        None => if spec_is_use_or_extern_crate(t) {
            em_push(n, ind(n) + spec_lower_signature(t) + ";"@, base)
        } else if spec_is_let(t) || spec_is_assignment(t) || spec_is_jump_statement(t) {
            em_push(n, ind(n) + spec_lower_expr(t) + ";"@, base)
        } else if n.children.len() > 0 && spec_is_control(t) {
            spec_emit_braced_item(n, Context::Block, spec_lower_expr(t), base)
        } else if n.children.len() > 0 && spec_looks_like_struct_literal(n) {
            spec_emit_struct_literal_expr(n, is_last, base)
        } else {
            em_push(
                n,
                ind(n) + spec_lower_expr(t) + if is_last && !spec_is_statement_macro_call(t) {
                    ""@
                } else {
                    ";"@
                },
                base,
            )
        },
    }
}

/// `emit_struct_member`: fields become `field,`; nested functions and blocks are
/// emitted as in a block.
pub open spec fn spec_emit_struct_member(n: SpecNode, base: int) -> Em
    decreases n, 9int,
{
    let t = trim(n.text);
    if spec_is_function(t) || spec_is_impl_or_mod_item(t) {
        spec_emit_general(n, Context::Block, true, base)
    } else {
        em_push(n, ind(n) + spec_lower_signature(t) + ","@, base)
    }
}

/// `emit_enum_member`: `Variant,` or a struct-like variant `Variant { .. },`.
pub open spec fn spec_emit_enum_member(n: SpecNode, base: int) -> Em
    decreases n, 9int,
{
    let v = spec_lower_signature(trim(n.text));
    if n.children.len() == 0 {
        em_push(n, ind(n) + v + ","@, base)
    } else {
        let kids = spec_emit_children(n, Context::Struct, base + 1);
        em_cat(em_cat(em_push(n, ind(n) + v + " {"@, base), kids), em_gen(ind(n) + "},"@))
    }
}

/// `emit_trait_member`: provided methods get a body, required ones end with `;`.
pub open spec fn spec_emit_trait_member(n: SpecNode, base: int) -> Em
    decreases n, 9int,
{
    let t = trim(n.text);
    if spec_is_function(t) && contains(t, "="@) {
        spec_emit_function(n, base)
    } else if spec_is_function(t) {
        em_push(n, ind(n) + spec_lower_signature(t) + ";"@, base)
    } else {
        spec_emit_general(n, Context::Trait, true, base)
    }
}

/// `emit_match_arm`: `pattern => expr,`, a block arm, or a `do` arm.
pub open spec fn spec_emit_match_arm(n: SpecNode, base: int) -> Em
    decreases n, 9int,
{
    let t = trim(n.text);
    match spec_split_arrow(t) {
        Some((pat, rest)) => {
            let pattern = spec_lower_expr(trim(pat));
            let e = trim(rest);
            if e.len() == 0 {
                let kids = spec_emit_children(n, Context::Block, base + 1);
                em_cat(
                    em_cat(em_push(n, ind(n) + pattern + " => {"@, base), kids),
                    em_gen(ind(n) + "},"@),
                )
            } else {
                match strip_prefix(e, "do "@) {
                    Some(d) => em_cat(
                        em_cat(
                            em_push(n, ind(n) + pattern + " => {"@, base),
                            em_gen(ind4(n) + spec_lower_expr(trim(d)) + ";"@),
                        ),
                        em_gen(ind(n) + "},"@),
                    ),
                    None => em_push(n, ind(n) + pattern + " => "@ + spec_lower_expr(e) + ","@, base),
                }
            }
        },
        None => if n.children.len() == 0 {
            em_push(n, ind(n) + spec_lower_expr(t) + ","@, base)
        } else {
            let kids = spec_emit_children(n, Context::Block, base + 1);
            em_cat(
                em_cat(em_push(n, ind(n) + spec_lower_expr(t) + " => {"@, base), kids),
                em_gen(ind(n) + "},"@),
            )
        },
    }
}

/// `emit_struct_literal_expr`: `Name {`, the fields, `}` (with `;` unless last).
pub open spec fn spec_emit_struct_literal_expr(n: SpecNode, is_last: bool, base: int) -> Em
    decreases n, 6int,
{
    let kids = spec_emit_children(n, Context::StructLiteral, base + 1);
    em_cat(
        em_cat(em_push(n, ind(n) + spec_lower_expr(trim(n.text)) + " {"@, base), kids),
        em_gen(
            ind(n) + "}"@ + if is_last {
                ""@
            } else {
                ";"@
            },
        ),
    )
}

/// `emit_struct_literal_field`: `field = value` becomes `field: value,`.
pub open spec fn spec_emit_struct_literal_field(n: SpecNode, base: int) -> Em {
    let t = trim(n.text);
    match spec_split_once_top_level(t, '=') {
        Some((f, e)) => em_push(n, ind(n) + trim(f) + ": "@ + spec_lower_expr(trim(e)) + ","@, base),
        None => em_push(n, ind(n) + spec_lower_expr(t) + ","@, base),
    }
}

} // verus!
