//! The executable emitter: it appends generated lines and source map entries and
//! returns the source-tree nodes, as `emit` specifies.
use vstd::prelude::*;
use crate::classify::{Context, classify_node, is_assignment, is_control, is_enum_item, is_function, is_impl_or_mod_item, is_jump_statement, is_let, is_match, is_statement_macro_call, is_struct_item, is_trait_item, is_use_or_extern_crate, looks_like_struct_literal};
use crate::emit::{Em, em_cat, em_empty, em_gen, em_push, spec_emit_braced_item, spec_emit_children, spec_emit_enum_member, spec_emit_function, spec_emit_general, spec_emit_match_arm, spec_emit_node, spec_emit_node_body, spec_emit_nodes, spec_emit_statement, spec_emit_struct_literal_expr, spec_emit_struct_literal_field, spec_emit_struct_member, spec_emit_trait_member};
use crate::expr::{lower_attribute, lower_expr, lower_signature, split_arrow, split_once_top_level};
use crate::layout::{Node, SpecNode, flatten, flatten_node, node_view, nodes_view};
use crate::model::{SourceMapEntry, SourceMapNode, SpecEntry, SpecMapNode, entries_view, map_node_view, map_nodes_view};
use crate::text::{contains_lit, push_all, push_lit, push_spaces, spaces, starts_with_lit, string_of, strip_prefix_lit, trim_exec};

verus! {

/// Generated lines and line source map so far.
pub struct Emitter {
    pub lines: Vec<Vec<char>>,
    pub source_map: Vec<SourceMapEntry>,
}

pub open spec fn em_lines(e: Emitter) -> Seq<Seq<char>> {
    e.lines@.map_values(|l: Vec<char>| l@)
}

pub open spec fn em_map(e: Emitter) -> Seq<SpecEntry> {
    entries_view(e.source_map@)
}

/// `b` is `a` with the lines and entries of `m` appended.
pub open spec fn emitted(a: Emitter, b: Emitter, m: Em) -> bool {
    &&& em_lines(b) == em_lines(a) + m.lines
    &&& em_map(b) == em_map(a) + m.map
    &&& b.lines.len() == a.lines.len() + m.lines.len()
}

/// Number of source lines in a subtree.
pub open spec fn size(n: SpecNode) -> int {
    flatten_node(n).len() as int
}

pub proof fn lemma_emitted_trans(a: Emitter, b: Emitter, c: Emitter, m1: Em, m2: Em)
    requires
        emitted(a, b, m1),
        emitted(b, c, m2),
    ensures
        emitted(a, c, em_cat(m1, m2)),
{
    assert(em_lines(a) + m1.lines + m2.lines =~= em_lines(a) + (m1.lines + m2.lines));
    assert(em_map(a) + m1.map + m2.map =~= em_map(a) + (m1.map + m2.map));
}

pub proof fn lemma_emitted_refl(a: Emitter)
    ensures
        emitted(a, a, em_empty()),
{
    assert(em_lines(a) + Seq::<Seq<char>>::empty() =~= em_lines(a));
    assert(em_map(a) + Seq::<SpecEntry>::empty() =~= em_map(a));
}

pub proof fn lemma_children(n: Node)
    ensures
        node_view(n).children == nodes_view(n.children@),
        size(node_view(n)) == 1 + flatten(nodes_view(n.children@)).len(),
{
    assert(node_view(n).children =~= nodes_view(n.children@));
}

pub proof fn lemma_flatten_append(a: Seq<SpecNode>, b: Seq<SpecNode>)
    ensures
        flatten(a + b) == flatten(a) + flatten(b),
    decreases a.len(),
{
    if a.len() == 0 {
        assert(a + b =~= b);
        assert(flatten(a) + flatten(b) =~= flatten(b));
    } else {
        assert((a + b)[0] == a[0]);
        assert((a + b).drop_first() =~= a.drop_first() + b);
        lemma_flatten_append(a.drop_first(), b);
        assert(flatten_node(a[0]) + (flatten(a.drop_first()) + flatten(b)) =~= flatten_node(a[0])
            + flatten(a.drop_first()) + flatten(b));
    }
}

pub proof fn lemma_flatten_one(n: SpecNode)
    ensures
        flatten(seq![n]) == flatten_node(n),
{
    assert(seq![n].drop_first() =~= Seq::<SpecNode>::empty());
    assert(flatten_node(n) + flatten(Seq::<SpecNode>::empty()) =~= flatten_node(n));
}

fn push_line(e: &mut Emitter, n: &Node, line: Vec<char>)
    requires
        old(e).lines.len() + 1 < usize::MAX,
    ensures
        emitted(*old(e), *final(e), em_push(node_view(*n), line@, old(e).lines.len() as int)),
{
    let generated_line = e.lines.len() + 1;
    let ghost before_map = em_map(*e);
    let ghost before_lines = em_lines(*e);
    e.source_map.push(SourceMapEntry { source_line: n.line, generated_line });
    e.lines.push(line);
    assert(em_map(*e) =~= before_map + seq![(n.line as int, generated_line as int)]);
    assert(em_lines(*e) =~= before_lines + seq![line@]);
}

fn push_generated(e: &mut Emitter, line: Vec<char>)
    requires
        old(e).lines.len() + 1 < usize::MAX,
    ensures
        emitted(*old(e), *final(e), em_gen(line@)),
{
    let ghost before_map = em_map(*e);
    let ghost before_lines = em_lines(*e);
    e.lines.push(line);
    assert(em_map(*e) =~= before_map + Seq::<SpecEntry>::empty());
    assert(em_lines(*e) =~= before_lines + seq![line@]);
}

fn no_tree() -> (t: Vec<SourceMapNode>)
    ensures
        map_nodes_view(t@) == Seq::<SpecMapNode>::empty(),
{
    let t: Vec<SourceMapNode> = Vec::new();
    assert(map_nodes_view(t@) =~= Seq::<SpecMapNode>::empty());
    t
}

/// `spaces(indent)` followed by `a`.
fn indented(indent: usize, a: &Vec<char>) -> (l: Vec<char>)
    ensures
        l@ == spaces(indent as nat) + a@,
{
    let mut l: Vec<char> = Vec::new();
    push_spaces(&mut l, indent);
    push_all(&mut l, a);
    assert(l@ =~= spaces(indent as nat) + a@);
    l
}

/// `spaces(indent)` followed by `a` and the literal `b`.
fn indented_lit(indent: usize, a: &Vec<char>, b: &str) -> (l: Vec<char>)
    ensures
        l@ == spaces(indent as nat) + a@ + b@,
{
    let mut l = indented(indent, a);
    push_lit(&mut l, b);
    l
}

/// `spaces(indent + 4)` followed by `a` and the literal `b`.
fn body_line(indent: usize, a: &Vec<char>, b: &str) -> (l: Vec<char>)
    ensures
        l@ == spaces(indent as nat) + spaces(4) + a@ + b@,
{
    let mut l: Vec<char> = Vec::new();
    push_spaces(&mut l, indent);
    push_spaces(&mut l, 4);
    push_all(&mut l, a);
    push_lit(&mut l, b);
    l
}

/// `emit_nodes`.
pub fn emit_nodes(nodes: &Vec<Node>, ctx: Context, e: &mut Emitter) -> (tree: Vec<SourceMapNode>)
    requires
        old(e).lines.len() + 3 * flatten(nodes_view(nodes@)).len() < usize::MAX,
    ensures
        emitted(
            *old(e),
            *final(e),
            spec_emit_nodes(
                nodes_view(nodes@),
                ctx,
                nodes@.len() as int,
                old(e).lines.len() as int,
            ),
        ),
        map_nodes_view(tree@) == spec_emit_nodes(
            nodes_view(nodes@),
            ctx,
            nodes@.len() as int,
            old(e).lines.len() as int,
        ).tree,
        final(e).lines.len() <= old(e).lines.len() + 3 * flatten(nodes_view(nodes@)).len(),
    decreases nodes, 0int,
{
    let ghost nv = nodes_view(nodes@);
    let ghost base = e.lines.len() as int;
    let ghost start = *e;
    let mut tree: Vec<SourceMapNode> = Vec::new();
    let mut i: usize = 0;
    proof {
        lemma_emitted_refl(*e);
        assert(map_nodes_view(tree@) =~= Seq::<SpecMapNode>::empty());
        assert(nv.take(0) =~= Seq::<SpecNode>::empty());
        assert(nv.take(nv.len() as int) =~= nv);
    }
    while i < nodes.len()
        invariant
            i <= nodes.len(),
            nv == nodes_view(nodes@),
            base == start.lines.len(),
            start == *old(e),
            base + 3 * flatten(nv).len() < usize::MAX,
            emitted(start, *e, spec_emit_nodes(nv, ctx, i as int, base)),
            map_nodes_view(tree@) == spec_emit_nodes(nv, ctx, i as int, base).tree,
            e.lines.len() <= base + 3 * flatten(nv.take(i as int)).len(),
            nv.take(nv.len() as int) == nv,
        decreases nodes.len() - i,
    {
        let ghost mid = *e;
        let ghost prev = spec_emit_nodes(nv, ctx, i as int, base);
        proof {
            assert(nv.take(i + 1) =~= nv.take(i as int) + seq![nv[i as int]]);
            lemma_flatten_append(nv.take(i as int), seq![nv[i as int]]);
            lemma_flatten_one(nv[i as int]);
            assert(nv =~= nv.take(i + 1) + nv.skip(i + 1));
            lemma_flatten_append(nv.take(i + 1), nv.skip(i + 1));
            assert(nv[i as int] == node_view(nodes@[i as int]));
        }
        let last = i + 1 == nodes.len();
        let t = emit_node(&nodes[i], ctx, last, e);
        let ghost before_tree = map_nodes_view(tree@);
        tree.push(t);
        i += 1;
        proof {
            lemma_emitted_trans(
                start,
                mid,
                *e,
                prev,
                spec_emit_node(nv[i - 1], ctx, last, base + prev.lines.len()),
            );
            assert(map_nodes_view(tree@) =~= before_tree + seq![map_node_view(t)]);
        }
    }
    tree
}

/// `emit_node`.
pub fn emit_node(n: &Node, ctx: Context, is_last: bool, e: &mut Emitter) -> (tree: SourceMapNode)
    requires
        old(e).lines.len() + 3 * size(node_view(*n)) < usize::MAX,
    ensures
        emitted(
            *old(e),
            *final(e),
            spec_emit_node(node_view(*n), ctx, is_last, old(e).lines.len() as int),
        ),
        seq![map_node_view(tree)] == spec_emit_node(
            node_view(*n),
            ctx,
            is_last,
            old(e).lines.len() as int,
        ).tree,
        final(e).lines.len() <= old(e).lines.len() + 3 * size(node_view(*n)),
    decreases n, 11int,
{
    let kind = classify_node(n, ctx);
    let start = e.lines.len() + 1;
    let children = emit_node_body(n, ctx, is_last, e);
    let t = SourceMapNode {
        kind: string_of(&kind),
        source_line: n.line,
        source_indent: n.indent,
        source_text: string_of(&n.text),
        generated_start_line: start,
        generated_end_line: e.lines.len(),
        children,
    };
    assert(map_node_view(t).children =~= map_nodes_view(t.children@));
    t
}

/// `emit_node_body`.
pub fn emit_node_body(n: &Node, ctx: Context, is_last: bool, e: &mut Emitter) -> (tree: Vec<
    SourceMapNode,
>)
    requires
        old(e).lines.len() + 3 * size(node_view(*n)) < usize::MAX,
    ensures
        emitted(
            *old(e),
            *final(e),
            spec_emit_node_body(node_view(*n), ctx, is_last, old(e).lines.len() as int),
        ),
        map_nodes_view(tree@) == spec_emit_node_body(
            node_view(*n),
            ctx,
            is_last,
            old(e).lines.len() as int,
        ).tree,
        final(e).lines.len() <= old(e).lines.len() + 3 * size(node_view(*n)),
    decreases n, 10int,
{
    proof {
        lemma_children(*n);
    }
    let t = trim_exec(&n.text);
    if starts_with_lit(&t, "//") {
        push_line(e, n, t);
        return no_tree();
    }
    if let Some(a) = lower_attribute(&t) {
        let l = indented(n.indent, &a);
        push_line(e, n, l);
        return no_tree();
    }
    match ctx {
        Context::Struct => emit_struct_member(n, e),
        Context::Enum => emit_enum_member(n, e),
        Context::Trait => emit_trait_member(n, e),
        Context::Match => emit_match_arm(n, e),
        Context::StructLiteral => emit_struct_literal_field(n, e),
        _ => emit_general(n, ctx, is_last, e),
    }
}

/// `emit_general`.
pub fn emit_general(n: &Node, ctx: Context, is_last: bool, e: &mut Emitter) -> (tree: Vec<
    SourceMapNode,
>)
    requires
        old(e).lines.len() + 3 * size(node_view(*n)) < usize::MAX,
    ensures
        emitted(
            *old(e),
            *final(e),
            spec_emit_general(node_view(*n), ctx, is_last, old(e).lines.len() as int),
        ),
        map_nodes_view(tree@) == spec_emit_general(
            node_view(*n),
            ctx,
            is_last,
            old(e).lines.len() as int,
        ).tree,
        final(e).lines.len() <= old(e).lines.len() + 3 * size(node_view(*n)),
    decreases n, 8int,
{
    let t = trim_exec(&n.text);
    if is_struct_item(&t) {
        let h = lower_signature(&t);
        emit_braced_item(n, Context::Struct, &h, e)
    } else if is_enum_item(&t) {
        let h = lower_signature(&t);
        emit_braced_item(n, Context::Enum, &h, e)
    } else if is_trait_item(&t) {
        let h = lower_signature(&t);
        emit_braced_item(n, Context::Trait, &h, e)
    } else if is_function(&t) {
        emit_function(n, e)
    } else if is_impl_or_mod_item(&t) {
        let h = lower_signature(&t);
        emit_braced_item(n, Context::Block, &h, e)
    } else if is_match(&t) {
        let h = lower_expr(&t);
        emit_braced_item(n, Context::Match, &h, e)
    } else if is_control(&t) {
        let h = lower_expr(&t);
        emit_braced_item(n, Context::Block, &h, e)
    } else if looks_like_struct_literal(n) {
        emit_struct_literal_expr(n, is_last, e)
    } else {
        emit_statement(n, is_last, e)
    }
}

/// Emits the children of `n` in `child` context after the header line.
fn emit_children(n: &Node, child: Context, e: &mut Emitter) -> (tree: Vec<SourceMapNode>)
    requires
        old(e).lines.len() + 3 * flatten(nodes_view(n.children@)).len() < usize::MAX,
    ensures
        emitted(
            *old(e),
            *final(e),
            spec_emit_children(node_view(*n), child, old(e).lines.len() as int),
        ),
        map_nodes_view(tree@) == spec_emit_children(
            node_view(*n),
            child,
            old(e).lines.len() as int,
        ).tree,
        final(e).lines.len() <= old(e).lines.len() + 3 * flatten(nodes_view(n.children@)).len(),
    decreases n, 4int,
{
    proof {
        lemma_children(*n);
    }
    emit_nodes(&n.children, child, e)
}

/// Emits `head`, the children of `n` in `child` context, and `tail`.
fn emit_wrapped(n: &Node, head: Vec<char>, child: Context, tail: Vec<char>, e: &mut Emitter) -> (tree:
    Vec<SourceMapNode>)
    requires
        old(e).lines.len() + 3 * size(node_view(*n)) < usize::MAX,
    ensures
        emitted(
            *old(e),
            *final(e),
            em_cat(
                em_cat(
                    em_push(node_view(*n), head@, old(e).lines.len() as int),
                    spec_emit_children(node_view(*n), child, old(e).lines.len() + 1),
                ),
                em_gen(tail@),
            ),
        ),
        map_nodes_view(tree@) == spec_emit_children(
            node_view(*n),
            child,
            old(e).lines.len() + 1,
        ).tree,
        final(e).lines.len() <= old(e).lines.len() + 3 * size(node_view(*n)),
    decreases n, 5int,
{
    proof {
        lemma_children(*n);
    }
    let ghost s0 = *e;
    push_line(e, n, head);
    let ghost s1 = *e;
    let kids = emit_children(n, child, e);
    let ghost s2 = *e;
    push_generated(e, tail);
    proof {
        let m1 = em_push(node_view(*n), head@, s0.lines.len() as int);
        let m2 = spec_emit_children(node_view(*n), child, s0.lines.len() + 1);
        lemma_emitted_trans(s0, s1, s2, m1, m2);
        lemma_emitted_trans(s0, s2, *e, em_cat(m1, m2), em_gen(tail@));
        assert(em_cat(em_cat(m1, m2), em_gen(tail@)).tree =~= m2.tree);
    }
    kids
}

/// Emits `first`, a generated `second` line and a generated `third` line.
fn emit_three(n: &Node, first: Vec<char>, second: Vec<char>, third: Vec<char>, e: &mut Emitter) -> (tree:
    Vec<SourceMapNode>)
    requires
        old(e).lines.len() + 3 < usize::MAX,
    ensures
        emitted(
            *old(e),
            *final(e),
            em_cat(
                em_cat(em_push(node_view(*n), first@, old(e).lines.len() as int), em_gen(second@)),
                em_gen(third@),
            ),
        ),
        map_nodes_view(tree@) == Seq::<SpecMapNode>::empty(),
        final(e).lines.len() == old(e).lines.len() + 3,
{
    let ghost s0 = *e;
    push_line(e, n, first);
    let ghost s1 = *e;
    push_generated(e, second);
    let ghost s2 = *e;
    push_generated(e, third);
    proof {
        let m1 = em_push(node_view(*n), first@, s0.lines.len() as int);
        lemma_emitted_trans(s0, s1, s2, m1, em_gen(second@));
        lemma_emitted_trans(s0, s2, *e, em_cat(m1, em_gen(second@)), em_gen(third@));
    }
    no_tree()
}

/// `emit_braced_item`.
pub fn emit_braced_item(n: &Node, child: Context, header: &Vec<char>, e: &mut Emitter) -> (tree: Vec<
    SourceMapNode,
>)
    requires
        old(e).lines.len() + 3 * size(node_view(*n)) < usize::MAX,
    ensures
        emitted(
            *old(e),
            *final(e),
            spec_emit_braced_item(node_view(*n), child, header@, old(e).lines.len() as int),
        ),
        map_nodes_view(tree@) == spec_emit_braced_item(
            node_view(*n),
            child,
            header@,
            old(e).lines.len() as int,
        ).tree,
        final(e).lines.len() <= old(e).lines.len() + 3 * size(node_view(*n)),
    decreases n, 6int,
{
    proof {
        lemma_children(*n);
    }
    let is_record = match child {
        Context::Struct | Context::Enum => true,
        _ => false,
    };
    if n.children.len() == 0 && is_record {
        let l = indented_lit(n.indent, header, ";");
        push_line(e, n, l);
        return no_tree();
    }
    let head = indented_lit(n.indent, header, " {");
    let tail = indented_lit(n.indent, &Vec::new(), "}");
    assert(tail@ =~= spaces(n.indent as nat) + "}"@);
    emit_wrapped(n, head, child, tail, e)
}

/// `emit_function`.
pub fn emit_function(n: &Node, e: &mut Emitter) -> (tree: Vec<SourceMapNode>)
    requires
        old(e).lines.len() + 3 * size(node_view(*n)) < usize::MAX,
    ensures
        emitted(*old(e), *final(e), spec_emit_function(node_view(*n), old(e).lines.len() as int)),
        map_nodes_view(tree@) == spec_emit_function(
            node_view(*n),
            old(e).lines.len() as int,
        ).tree,
        final(e).lines.len() <= old(e).lines.len() + 3 * size(node_view(*n)),
    decreases n, 6int,
{
    proof {
        lemma_children(*n);
    }
    let t = trim_exec(&n.text);
    let (signature, rest) = match split_once_top_level(&t, '=') {
        None => {
            let sig = lower_signature(&t);
            let l = indented(n.indent, &sig);
            push_line(e, n, l);
            return no_tree();
        },
        Some(parts) => parts,
    };
    let st = trim_exec(&signature);
    let sig = lower_signature(&st);
    let head = indented_lit(n.indent, &sig, " {");
    let tail = indented_lit(n.indent, &Vec::new(), "}");
    assert(tail@ =~= spaces(n.indent as nat) + "}"@);
    let body = trim_exec(&rest);
    if body.len() == 0 {
        return emit_wrapped(n, head, Context::Block, tail, e);
    }
    let mid = match strip_prefix_lit(&body, "do ") {
        Some(x) => {
            let tx = trim_exec(&x);
            let lx = lower_expr(&tx);
            body_line(n.indent, &lx, ";")
        },
        None => {
            let lx = lower_expr(&body);
            let l = body_line(n.indent, &lx, "");
            proof {
                reveal_strlit("");
                assert(l@ =~= spaces(n.indent as nat) + spaces(4) + lx@);
            }
            l
        },
    };
    emit_three(n, head, mid, tail, e)
}

/// `emit_statement`.
pub fn emit_statement(n: &Node, is_last: bool, e: &mut Emitter) -> (tree: Vec<SourceMapNode>)
    requires
        old(e).lines.len() + 3 * size(node_view(*n)) < usize::MAX,
    ensures
        emitted(
            *old(e),
            *final(e),
            spec_emit_statement(node_view(*n), is_last, old(e).lines.len() as int),
        ),
        map_nodes_view(tree@) == spec_emit_statement(
            node_view(*n),
            is_last,
            old(e).lines.len() as int,
        ).tree,
        final(e).lines.len() <= old(e).lines.len() + 3 * size(node_view(*n)),
    decreases n, 7int,
{
    proof {
        lemma_children(*n);
    }
    let t = trim_exec(&n.text);
    if let Some(x) = strip_prefix_lit(&t, "do ") {
        let tx = trim_exec(&x);
        let lx = lower_expr(&tx);
        let l = indented_lit(n.indent, &lx, ";");
        push_line(e, n, l);
        no_tree()
    } else if is_use_or_extern_crate(&t) {
        let s = lower_signature(&t);
        let l = indented_lit(n.indent, &s, ";");
        push_line(e, n, l);
        no_tree()
    } else if is_let(&t) || is_assignment(&t) || is_jump_statement(&t) {
        let s = lower_expr(&t);
        let l = indented_lit(n.indent, &s, ";");
        push_line(e, n, l);
        no_tree()
    } else if n.children.len() > 0 && is_control(&t) {
        let h = lower_expr(&t);
        emit_braced_item(n, Context::Block, &h, e)
    } else if n.children.len() > 0 && looks_like_struct_literal(n) {
        emit_struct_literal_expr(n, is_last, e)
    } else {
        let s = lower_expr(&t);
        let l = if is_last && !is_statement_macro_call(&t) {
            indented_lit(n.indent, &s, "")
        } else {
            indented_lit(n.indent, &s, ";")
        };
        push_line(e, n, l);
        no_tree()
    }
}

/// `emit_struct_member`.
pub fn emit_struct_member(n: &Node, e: &mut Emitter) -> (tree: Vec<SourceMapNode>)
    requires
        old(e).lines.len() + 3 * size(node_view(*n)) < usize::MAX,
    ensures
        emitted(
            *old(e),
            *final(e),
            spec_emit_struct_member(node_view(*n), old(e).lines.len() as int),
        ),
        map_nodes_view(tree@) == spec_emit_struct_member(
            node_view(*n),
            old(e).lines.len() as int,
        ).tree,
        final(e).lines.len() <= old(e).lines.len() + 3 * size(node_view(*n)),
    decreases n, 9int,
{
    proof {
        lemma_children(*n);
    }
    let t = trim_exec(&n.text);
    if is_function(&t) || is_impl_or_mod_item(&t) {
        emit_general(n, Context::Block, true, e)
    } else {
        let s = lower_signature(&t);
        let l = indented_lit(n.indent, &s, ",");
        push_line(e, n, l);
        no_tree()
    }
}

/// `emit_enum_member`.
pub fn emit_enum_member(n: &Node, e: &mut Emitter) -> (tree: Vec<SourceMapNode>)
    requires
        old(e).lines.len() + 3 * size(node_view(*n)) < usize::MAX,
    ensures
        emitted(*old(e), *final(e), spec_emit_enum_member(node_view(*n), old(e).lines.len() as int)),
        map_nodes_view(tree@) == spec_emit_enum_member(
            node_view(*n),
            old(e).lines.len() as int,
        ).tree,
        final(e).lines.len() <= old(e).lines.len() + 3 * size(node_view(*n)),
    decreases n, 9int,
{
    proof {
        lemma_children(*n);
    }
    let t = trim_exec(&n.text);
    let v = lower_signature(&t);
    if n.children.len() == 0 {
        let l = indented_lit(n.indent, &v, ",");
        push_line(e, n, l);
        no_tree()
    } else {
        let head = indented_lit(n.indent, &v, " {");
        let tail = indented_lit(n.indent, &Vec::new(), "},");
        assert(tail@ =~= spaces(n.indent as nat) + "},"@);
        emit_wrapped(n, head, Context::Struct, tail, e)
    }
}

/// `emit_trait_member`.
pub fn emit_trait_member(n: &Node, e: &mut Emitter) -> (tree: Vec<SourceMapNode>)
    requires
        old(e).lines.len() + 3 * size(node_view(*n)) < usize::MAX,
    ensures
        emitted(*old(e), *final(e), spec_emit_trait_member(node_view(*n), old(e).lines.len() as int)),
        map_nodes_view(tree@) == spec_emit_trait_member(
            node_view(*n),
            old(e).lines.len() as int,
        ).tree,
        final(e).lines.len() <= old(e).lines.len() + 3 * size(node_view(*n)),
    decreases n, 9int,
{
    proof {
        lemma_children(*n);
    }
    let t = trim_exec(&n.text);
    if is_function(&t) && contains_lit(&t, "=") {
        emit_function(n, e)
    } else if is_function(&t) {
        let s = lower_signature(&t);
        let l = indented_lit(n.indent, &s, ";");
        push_line(e, n, l);
        no_tree()
    } else {
        emit_general(n, Context::Trait, true, e)
    }
}

/// `emit_match_arm`.
pub fn emit_match_arm(n: &Node, e: &mut Emitter) -> (tree: Vec<SourceMapNode>)
    requires
        old(e).lines.len() + 3 * size(node_view(*n)) < usize::MAX,
    ensures
        emitted(*old(e), *final(e), spec_emit_match_arm(node_view(*n), old(e).lines.len() as int)),
        map_nodes_view(tree@) == spec_emit_match_arm(
            node_view(*n),
            old(e).lines.len() as int,
        ).tree,
        final(e).lines.len() <= old(e).lines.len() + 3 * size(node_view(*n)),
    decreases n, 9int,
{
    proof {
        lemma_children(*n);
    }
    let t = trim_exec(&n.text);
    let tail = indented_lit(n.indent, &Vec::new(), "},");
    assert(tail@ =~= spaces(n.indent as nat) + "},"@);
    match split_arrow(&t) {
        Some((pat, rest)) => {
            let tp = trim_exec(&pat);
            let pattern = lower_expr(&tp);
            let x = trim_exec(&rest);
            let head = indented_lit(n.indent, &pattern, " => {");
            if x.len() == 0 {
                emit_wrapped(n, head, Context::Block, tail, e)
            } else {
                match strip_prefix_lit(&x, "do ") {
                    Some(d) => {
                        let td = trim_exec(&d);
                        let ld = lower_expr(&td);
                        let mid = body_line(n.indent, &ld, ";");
                        emit_three(n, head, mid, tail, e)
                    },
                    None => {
                        let lx = lower_expr(&x);
                        let mut l = indented_lit(n.indent, &pattern, " => ");
                        push_all(&mut l, &lx);
                        push_lit(&mut l, ",");
                        push_line(e, n, l);
                        no_tree()
                    },
                }
            }
        },
        None => {
            let lx = lower_expr(&t);
            if n.children.len() == 0 {
                let l = indented_lit(n.indent, &lx, ",");
                push_line(e, n, l);
                no_tree()
            } else {
                let head = indented_lit(n.indent, &lx, " => {");
                emit_wrapped(n, head, Context::Block, tail, e)
            }
        },
    }
}

/// `emit_struct_literal_expr`.
pub fn emit_struct_literal_expr(n: &Node, is_last: bool, e: &mut Emitter) -> (tree: Vec<
    SourceMapNode,
>)
    requires
        old(e).lines.len() + 3 * size(node_view(*n)) < usize::MAX,
    ensures
        emitted(
            *old(e),
            *final(e),
            spec_emit_struct_literal_expr(node_view(*n), is_last, old(e).lines.len() as int),
        ),
        map_nodes_view(tree@) == spec_emit_struct_literal_expr(
            node_view(*n),
            is_last,
            old(e).lines.len() as int,
        ).tree,
        final(e).lines.len() <= old(e).lines.len() + 3 * size(node_view(*n)),
    decreases n, 6int,
{
    let t = trim_exec(&n.text);
    let lx = lower_expr(&t);
    let head = indented_lit(n.indent, &lx, " {");
    let tail = if is_last {
        indented_lit(n.indent, &Vec::new(), "}")
    } else {
        indented_lit(n.indent, &Vec::new(), "};")
    };
    proof {
        reveal_strlit("");
        reveal_strlit("}");
        reveal_strlit(";");
        reveal_strlit("};");
        assert("}"@ + ";"@ =~= "};"@);
        assert("}"@ + ""@ =~= "}"@);
        let expected = spaces(n.indent as nat) + "}"@ + if is_last {
            ""@
        } else {
            ";"@
        };
        assert(tail@ =~= expected);
    }
    emit_wrapped(n, head, Context::StructLiteral, tail, e)
}

/// `emit_struct_literal_field`.
pub fn emit_struct_literal_field(n: &Node, e: &mut Emitter) -> (tree: Vec<SourceMapNode>)
    requires
        old(e).lines.len() + 3 * size(node_view(*n)) < usize::MAX,
    ensures
        emitted(
            *old(e),
            *final(e),
            spec_emit_struct_literal_field(node_view(*n), old(e).lines.len() as int),
        ),
        map_nodes_view(tree@) == spec_emit_struct_literal_field(
            node_view(*n),
            old(e).lines.len() as int,
        ).tree,
        final(e).lines.len() <= old(e).lines.len() + 3 * size(node_view(*n)),
{
    let t = trim_exec(&n.text);
    match split_once_top_level(&t, '=') {
        Some((f, x)) => {
            let tf = trim_exec(&f);
            let tx = trim_exec(&x);
            let lx = lower_expr(&tx);
            let mut l = indented_lit(n.indent, &tf, ": ");
            push_all(&mut l, &lx);
            push_lit(&mut l, ",");
            push_line(e, n, l);
        },
        None => {
            let lx = lower_expr(&t);
            let l = indented_lit(n.indent, &lx, ",");
            push_line(e, n, l);
        },
    }
    no_tree()
}

} // verus!
