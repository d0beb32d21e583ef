//! Properties of the library as a whole.
use vstd::prelude::*;
use crate::classify::{Context};
use crate::cli::{spec_parse_args};
use crate::emit::{Em, em_cat, em_gen, em_push, ind, ind4, spec_emit_braced_item, spec_emit_children, spec_emit_enum_member, spec_emit_function, spec_emit_general, spec_emit_match_arm, spec_emit_node, spec_emit_node_body, spec_emit_nodes, spec_emit_statement, spec_emit_struct_literal_expr, spec_emit_struct_member, spec_emit_trait_member};
use crate::expr::{if_head, lemma_else_from, lemma_keyword_from, lemma_split_from, spec_find_else_for_then_body, spec_find_top_level_keyword, spec_lower_attribute, spec_lower_basic_expr, spec_lower_expr, spec_lower_if_then_else, spec_lower_signature, spec_split_arrow, spec_split_once_top_level};
use crate::json::{escape_char, escape_json, hex, hex4, hex_digit};
use crate::layout::{SpecLine, SpecNode, flatten, flatten_node, lemma_lines_upto, lemma_parse_nodes, lemma_split_lines_len, lines_upto, spec_parse_nodes, spec_source_lines, split_lines};
use crate::lower::{Mode, dots_to_colons, generics_from, ident_end, lemma_ident_end, path_end, paths_from, spec_has_ident_before, spec_matching_bracket, spec_replace_square_generics};
use crate::model::{SpecEntry, SpecMapNode};
use crate::render::{lemma_flatten_append, lemma_flatten_one};
use crate::text::{ends_with, is_cc, is_ident_continue, is_ident_start, lemma_find_from, lemma_trim_end, lemma_trim_len, lemma_trim_start, spaces, starts_with, strip_prefix, trim, trim_end, trim_start};
use crate::web::{MAX_BODY_BYTES, has_special_component, leading_slashes, push_name, push_names, skipped_piece, spec_http_response, spec_parse_request_head, spec_read_setting, spec_route_path, spec_safe_join, split_slash};
use crate::{ensure_trailing_newline, join_lines, spec_transpile};

verus! {

proof fn lemma_generics_plain(t: Seq<char>, i: int, mode: Mode)
    requires
        0 <= i <= t.len(),
        forall|k: int| 0 <= k < t.len() ==> t[k] != '[',
    ensures
        generics_from(t, i, mode) == t.skip(i),
    decreases t.len() - i,
{
    if i < t.len() {
        lemma_generics_plain(t, i + 1, mode);
        assert(seq![t[i]] + t.skip(i + 1) =~= t.skip(i));
    } else {
        assert(t.skip(i) =~= Seq::<char>::empty());
    }
}

proof fn lemma_paths_plain(t: Seq<char>, i: int, mode: Mode)
    requires
        0 <= i <= t.len(),
        forall|k: int| 0 <= k < t.len() ==> t[k] != '.',
    ensures
        paths_from(t, i, mode) == t.skip(i),
    decreases t.len() - i,
{
    if i >= t.len() {
        assert(t.skip(i) =~= Seq::<char>::empty());
    } else if is_ident_start(t[i]) {
        lemma_ident_end(t, i);
        let first_end = ident_end(t, i);
        assert(is_ident_continue(t[i]));
        assert(first_end > i);
        assert(path_end(t, first_end) == first_end);
        lemma_paths_plain(t, first_end, mode);
        assert(t.subrange(i, first_end) + t.skip(first_end) =~= t.skip(i));
    } else {
        lemma_paths_plain(t, i + 1, mode);
        assert(seq![t[i]] + t.skip(i + 1) =~= t.skip(i));
    }
}

/// Lowering leaves a text with no `.` and no `[` unchanged, in signatures and in
/// expressions (other than `if .. then` forms): Rust's own `::` paths pass through.
pub proof fn law_plain_text_unchanged(t: Seq<char>)
    requires
        forall|k: int| 0 <= k < t.len() ==> t[k] != '.' && t[k] != '[',
    ensures
        spec_lower_signature(t) == t,
        spec_lower_basic_expr(t) == t,
        if_head(t) is None ==> spec_lower_expr(t) == t,
{
    lemma_generics_plain(t, 0, Mode::Type);
    lemma_generics_plain(t, 0, Mode::Expr);
    assert(t.skip(0) =~= t);
    lemma_paths_plain(t, 0, Mode::Type);
    lemma_paths_plain(t, 0, Mode::Expr);
}

proof fn lemma_parse_level_zero(lines: Seq<SpecLine>, index: int)
    requires
        0 <= index <= lines.len(),
        forall|k: int| 0 <= k < lines.len() ==> (#[trigger] lines[k]).indent >= 0,
    ensures
        spec_parse_nodes(lines, index, 0) matches Ok((_, end)) ==> end == lines.len(),
    decreases lines.len() - index,
{
    lemma_parse_nodes(lines, index, 0);
    if index < lines.len() && lines[index].indent == 0 {
        let next = index + 1;
        if next < lines.len() && lines[next].indent > 0 {
            lemma_parse_nodes(lines, next, lines[next].indent);
        }
        let child = if next < lines.len() && lines[next].indent > 0 {
            spec_parse_nodes(lines, next, lines[next].indent)
        } else {
            Ok((Seq::empty(), next))
        };
        if let Ok((children, after)) = child {
            lemma_parse_level_zero(lines, after);
        }
    }
}

proof fn lemma_lines_indent(raw: Seq<Seq<char>>, n: int)
    ensures
        lines_upto(raw, n) matches Ok(ls) ==> forall|k: int| 0 <= k < ls.len() ==> (#[trigger] ls[k]).indent >= 0,
    decreases n,
{
    if n > 0 {
        lemma_lines_indent(raw, n - 1);
    }
}

/// Every non-blank source line appears in the indentation tree exactly once, in source
/// order (each node before the lines indented below it), and the tree takes in the
/// whole source.
pub proof fn law_tree_holds_every_line(s: Seq<char>)
    ensures
        spec_source_lines(s) matches Ok(lines) ==> (spec_parse_nodes(lines, 0, 0) matches Ok(
            (nodes, end),
        ) ==> end == lines.len() && flatten(nodes) == lines),
{
    if let Ok(lines) = spec_source_lines(s) {
        lemma_lines_indent(split_lines(s), split_lines(s).len() as int);
        lemma_parse_nodes(lines, 0, 0);
        lemma_parse_level_zero(lines, 0);
        if let Ok((nodes, end)) = spec_parse_nodes(lines, 0, 0) {
            assert(lines.subrange(0, lines.len() as int) =~= lines);
        }
    }
}

/// A source is refused only for a tab or for a line indented below a line it does not
/// belong to; never for indentation left over at the end.
pub proof fn law_errors_are_tabs_or_indentation(s: Seq<char>)
    ensures
        spec_transpile(s) matches Err(e) ==> e.message == "tabs are not supported; use spaces"@
            || e.message == "indentation must belong to the previous line"@,
{
    law_tree_holds_every_line(s);
    lemma_tab_or_indent_source(split_lines(s), split_lines(s).len() as int);
    if let Ok(lines) = spec_source_lines(s) {
        lemma_parse_errors(lines, 0, 0);
    }
}

proof fn lemma_tab_or_indent_source(raw: Seq<Seq<char>>, n: int)
    ensures
        lines_upto(raw, n) matches Err(e) ==> e.message == "tabs are not supported; use spaces"@,
    decreases n,
{
    if n > 0 {
        lemma_tab_or_indent_source(raw, n - 1);
    }
}

proof fn lemma_parse_errors(lines: Seq<SpecLine>, index: int, indent: int)
    requires
        0 <= index <= lines.len(),
    ensures
        spec_parse_nodes(lines, index, indent) matches Err(e) ==> e.message
            == "indentation must belong to the previous line"@,
    decreases lines.len() - index,
{
    if index < lines.len() && lines[index].indent == indent {
        let next = index + 1;
        if next < lines.len() && lines[next].indent > indent {
            lemma_parse_errors(lines, next, lines[next].indent);
            lemma_parse_nodes(lines, next, lines[next].indent);
        }
        let child = if next < lines.len() && lines[next].indent > indent {
            spec_parse_nodes(lines, next, lines[next].indent)
        } else {
            Ok((Seq::empty(), next))
        };
        if let Ok((children, after)) = child {
            let resume = if index < after <= lines.len() {
                after
            } else {
                lines.len() as int
            };
            lemma_parse_errors(lines, resume, indent);
        }
    }
}

/// The generated Rust text always ends with a line feed.
pub proof fn law_output_ends_with_newline(s: Seq<char>)
    ensures
        spec_transpile(s) matches Ok(o) ==> ends_with(o.rust, seq!['\n']),
{
    if let Ok(o) = spec_transpile(s) {
        let t = join_lines(
            spec_emit_nodes(
                match spec_parse_nodes(spec_source_lines(s)->Ok_0, 0, 0) {
                    Ok((nodes, _)) => nodes,
                    Err(_) => Seq::empty(),
                },
                Context::Root,
                match spec_parse_nodes(spec_source_lines(s)->Ok_0, 0, 0) {
                    Ok((nodes, _)) => nodes.len() as int,
                    Err(_) => 0,
                },
                0,
            ).lines,
        );
        if !ends_with(t, seq!['\n']) {
            let u = t.push('\n');
            assert(u.subrange(u.len() - 1, u.len() as int) =~= seq!['\n']);
        }
    }
}

proof fn lemma_push_names_prefix(root: Seq<char>, pieces: Seq<Seq<char>>, k: int)
    requires
        0 <= k <= pieces.len(),
    ensures
        push_names(root, pieces, k).len() >= root.len(),
        push_names(root, pieces, k).subrange(0, root.len() as int) == root,
    decreases k,
{
    if k > 0 {
        lemma_push_names_prefix(root, pieces, k - 1);
        let r = push_names(root, pieces, k - 1);
        if !skipped_piece(pieces[k - 1]) {
            let q = push_name(r, pieces[k - 1]);
            assert(q.subrange(0, root.len() as int) =~= r.subrange(0, root.len() as int));
        }
    } else {
        assert(root.subrange(0, root.len() as int) =~= root);
    }
}

/// A joined static file path always lies under the root: it starts with the root, and
/// the relative path had no root, no leading `.` and no `..`.
pub proof fn law_safe_join_stays_under_root(root: Seq<char>, rel: Seq<char>)
    ensures
        spec_safe_join(root, rel) matches Some(p) ==> starts_with(p, root)
            && !has_special_component(rel),
{
    if !has_special_component(rel) {
        lemma_push_names_prefix(root, split_slash(rel), split_slash(rel).len() as int);
    }
}

proof fn lemma_leading_slashes(s: Seq<char>)
    ensures
        leading_slashes(s) <= s.len(),
        leading_slashes(s) < s.len() ==> s[leading_slashes(s) as int] != '/',
    decreases s.len(),
{
    if s.len() > 0 && s[0] == '/' {
        lemma_leading_slashes(s.drop_first());
        assert(s.drop_first().len() == s.len() - 1);
        if leading_slashes(s) < s.len() {
            assert(s[leading_slashes(s) as int] == s.drop_first()[leading_slashes(s.drop_first()) as int]);
        }
    }
}

/// The file a request path names never starts with `/`, so it stays relative to the root.
pub proof fn law_route_path_is_relative(path: Seq<char>)
    ensures
        !(spec_route_path(path).len() > 0 && spec_route_path(path)[0] == '/'),
{
    lemma_leading_slashes(path);
    if path == "/"@ {
        reveal_strlit("index.html");
    }
}

/// The answer to a `HEAD` request is the answer to the `GET` request without its body.
pub proof fn law_head_response_is_prefix(status: u16, media_type: Seq<char>, body: Seq<u8>)
    ensures
        spec_http_response(status, media_type, body, false) == spec_http_response(
            status,
            media_type,
            body,
            true,
        ) + body,
{
}

/// The leading `transpile` word is optional: with or without it the arguments mean the same.
pub proof fn law_transpile_word_optional(args: Seq<Seq<char>>)
    requires
        args.len() == 0 || args[0] != "transpile"@,
    ensures
        spec_parse_args(seq!["transpile"@] + args) == spec_parse_args(args),
{
    let all = seq!["transpile"@] + args;
    assert(all[0] == "transpile"@);
    assert(all.skip(1) =~= args);
}

proof fn lemma_hex_digits(n: nat)
    ensures
        forall|k: int| 0 <= k < hex(n).len() ==> !is_cc(#[trigger] hex(n)[k]),
    decreases n,
{
    if n >= 16 {
        lemma_hex_digits(n / 16);
        assert forall|k: int| 0 <= k < hex(n).len() implies !is_cc(#[trigger] hex(n)[k]) by {
            if k < hex(n / 16).len() {
                assert(hex(n)[k] == hex(n / 16)[k]);
            }
        }
    }
}

proof fn lemma_escape_char_plain(c: char)
    ensures
        forall|k: int| 0 <= k < escape_char(c).len() ==> !is_cc(#[trigger] escape_char(c)[k]),
{
    lemma_hex_digits(c as nat);
    let h = hex(c as nat);
    if h.len() < 4 {
        let z = Seq::new((4 - h.len()) as nat, |i: int| '0');
        assert forall|k: int| 0 <= k < (z + h).len() implies !is_cc(#[trigger] (z + h)[k]) by {
            if k >= z.len() {
                assert((z + h)[k] == h[k - z.len()]);
            }
        }
    }
    if is_cc(c) && c != '\\' && c != '"' && c != '\n' && c != '\r' && c != '\t' {
        let e = seq!['\\', 'u'] + hex4(c as nat);
        assert forall|k: int| 0 <= k < e.len() implies !is_cc(#[trigger] e[k]) by {
            if k >= 2 {
                assert(e[k] == hex4(c as nat)[k - 2]);
            }
        }
    }
}

/// Escaped JSON strings hold no control character (U+0000 to U+001F, U+007F to U+009F),
/// in particular no line feed, so each JSON string stays on one line.
pub proof fn law_escaped_text_has_no_control_characters(s: Seq<char>)
    ensures
        forall|k: int| 0 <= k < escape_json(s).len() ==> !is_cc(#[trigger] escape_json(s)[k]),
        forall|k: int| 0 <= k < escape_json(s).len() ==> #[trigger] escape_json(s)[k] != '\n',
    decreases s.len(),
{
    if s.len() > 0 {
        law_escaped_text_has_no_control_characters(s.drop_last());
        lemma_escape_char_plain(s.last());
        let a = escape_json(s.drop_last());
        let b = escape_char(s.last());
        assert forall|k: int| 0 <= k < (a + b).len() implies !is_cc(#[trigger] (a + b)[k]) by {
            if k < a.len() {
                assert((a + b)[k] == a[k]);
            } else {
                assert((a + b)[k] == b[k - a.len()]);
            }
        }
    }
    assert forall|k: int| 0 <= k < escape_json(s).len() implies #[trigger] escape_json(s)[k] != '\n' by {
        assert(!is_cc(escape_json(s)[k]));
    }
}


/// Every source-map entry of `em` names one of its lines (counted after `base`), and the
/// entries come in increasing order of generated line.
pub open spec fn map_fits(em: Em, base: int) -> bool {
    &&& forall|i: int| 0 <= i < em.map.len() ==> base < (#[trigger] em.map[i]).1 <= base + em.lines.len()
    &&& forall|i: int, j: int|
        0 <= i < j < em.map.len() ==> (#[trigger] em.map[i]).1 < (#[trigger] em.map[j]).1
}

proof fn lemma_cat_fits(a: Em, b: Em, base: int)
    requires
        map_fits(a, base),
        map_fits(b, base + a.lines.len()),
    ensures
        map_fits(em_cat(a, b), base),
{
    let c = em_cat(a, b);
    let la = a.map.len() as int;
    assert forall|i: int| 0 <= i < c.map.len() implies base < (#[trigger] c.map[i]).1 <= base
        + c.lines.len() by {
        if i < la {
            assert(c.map[i] == a.map[i]);
        } else {
            assert(c.map[i] == b.map[i - la]);
        }
    }
    assert forall|i: int, j: int| 0 <= i < j < c.map.len() implies (#[trigger] c.map[i]).1 < (
    #[trigger] c.map[j]).1 by {
        if j < la {
            assert(c.map[i] == a.map[i]);
            assert(c.map[j] == a.map[j]);
        } else if i >= la {
            assert(c.map[i] == b.map[i - la]);
            assert(c.map[j] == b.map[j - la]);
        } else {
            assert(c.map[i] == a.map[i]);
            assert(c.map[j] == b.map[j - la]);
        }
    }
}

/// The source-tree nodes `t` lie in order within generated lines `lo..=hi`: each one
/// after the one before it, each spanning at least its own line, and the children of each
/// within its span.
pub open spec fn tree_within(t: Seq<SpecMapNode>, lo: int, hi: int) -> bool
    decreases t,
{
    if t.len() == 0 {
        true
    } else {
        let n = t[t.len() - 1];
        &&& tree_within(t.drop_last(), lo, n.start - 1)
        &&& lo <= n.start <= n.end <= hi
        &&& tree_within(n.children, n.start, n.end)
    }
}

/// The map entries and the source-tree nodes of `em` lie within its lines.
pub open spec fn em_fits(em: Em, base: int) -> bool {
    &&& map_fits(em, base)
    &&& tree_within(em.tree, base + 1, base + em.lines.len())
}

proof fn lemma_tree_widen(t: Seq<SpecMapNode>, lo: int, hi: int, hi2: int)
    requires
        tree_within(t, lo, hi),
        hi <= hi2,
    ensures
        tree_within(t, lo, hi2),
{
}

proof fn lemma_tree_cat(a: Seq<SpecMapNode>, c: Seq<SpecMapNode>, lo: int, m: int, hi: int)
    requires
        tree_within(a, lo, m),
        tree_within(c, m + 1, hi),
        lo <= m + 1,
        m <= hi,
    ensures
        tree_within(a + c, lo, hi),
    decreases c.len(),
{
    if c.len() == 0 {
        assert(a + c =~= a);
        lemma_tree_widen(a, lo, m, hi);
    } else {
        let n = c[c.len() - 1];
        lemma_tree_cat(a, c.drop_last(), lo, m, n.start - 1);
        assert((a + c).drop_last() =~= a + c.drop_last());
        assert((a + c)[(a + c).len() - 1] == n);
    }
}

proof fn lemma_cat_em_fits(a: Em, b: Em, base: int)
    requires
        em_fits(a, base),
        em_fits(b, base + a.lines.len()),
    ensures
        em_fits(em_cat(a, b), base),
{
    lemma_cat_fits(a, b, base);
    lemma_tree_cat(a.tree, b.tree, base + 1, base + a.lines.len(), base + a.lines.len() + b.lines.len());
}

proof fn lemma_push_fits(n: SpecNode, line: Seq<char>, base: int)
    ensures
        em_fits(em_push(n, line, base), base),
{
}

proof fn lemma_gen_fits(line: Seq<char>, base: int)
    ensures
        em_fits(em_gen(line), base),
{
}

/// A head line of `n`, lines that fit after it, and a closing line.
proof fn lemma_wrap_fits(n: SpecNode, head: Seq<char>, mid: Em, tail: Seq<char>, base: int)
    requires
        em_fits(mid, base + 1),
    ensures
        em_fits(em_cat(em_cat(em_push(n, head, base), mid), em_gen(tail)), base),
{
    lemma_push_fits(n, head, base);
    lemma_cat_em_fits(em_push(n, head, base), mid, base);
    let first = em_cat(em_push(n, head, base), mid);
    lemma_gen_fits(tail, base + first.lines.len());
    lemma_cat_em_fits(first, em_gen(tail), base);
}

proof fn lemma_nodes_fit(nodes: Seq<SpecNode>, ctx: Context, k: int, base: int)
    ensures
        em_fits(spec_emit_nodes(nodes, ctx, k, base), base),
    decreases nodes, k,
{
    if 0 < k <= nodes.len() {
        lemma_nodes_fit(nodes, ctx, k - 1, base);
        let prev = spec_emit_nodes(nodes, ctx, k - 1, base);
        lemma_node_fits(nodes[k - 1], ctx, k == nodes.len(), base + prev.lines.len());
        lemma_cat_em_fits(
            prev,
            spec_emit_node(nodes[k - 1], ctx, k == nodes.len(), base + prev.lines.len()),
            base,
        );
    }
}

proof fn lemma_children_fit(n: SpecNode, ctx: Context, base: int)
    ensures
        em_fits(spec_emit_children(n, ctx, base), base),
    decreases n, 4int,
{
    lemma_nodes_fit(n.children, ctx, n.children.len() as int, base);
}

proof fn lemma_node_fits(n: SpecNode, ctx: Context, is_last: bool, base: int)
    ensures
        em_fits(spec_emit_node(n, ctx, is_last, base), base),
        spec_emit_node(n, ctx, is_last, base).lines.len() >= 1,
    decreases n, 11int,
{
    lemma_body_fits(n, ctx, is_last, base);
    let em = spec_emit_node(n, ctx, is_last, base);
    assert(em.tree.drop_last() =~= Seq::<SpecMapNode>::empty());
    assert(tree_within(em.tree.drop_last(), base + 1, base));
    assert(tree_within(em.tree[0].children, base + 1, base + em.lines.len()));
}

proof fn lemma_body_fits(n: SpecNode, ctx: Context, is_last: bool, base: int)
    ensures
        em_fits(spec_emit_node_body(n, ctx, is_last, base), base),
        spec_emit_node_body(n, ctx, is_last, base).lines.len() >= 1,
    decreases n, 10int,
{
    match ctx {
        Context::Struct => lemma_struct_member_fits(n, base),
        Context::Enum => lemma_enum_member_fits(n, base),
        Context::Trait => lemma_trait_member_fits(n, base),
        Context::Match => lemma_match_arm_fits(n, base),
        Context::StructLiteral => {},
        _ => lemma_general_fits(n, ctx, is_last, base),
    }
}

#[verifier::spinoff_prover]
#[verifier::rlimit(40)]
proof fn lemma_general_fits(n: SpecNode, ctx: Context, is_last: bool, base: int)
    ensures
        em_fits(spec_emit_general(n, ctx, is_last, base), base),
        spec_emit_general(n, ctx, is_last, base).lines.len() >= 1,
    decreases n, 8int,
{
    let t = trim(n.text);
    lemma_braced_fits(n, Context::Struct, spec_lower_signature(t), base);
    lemma_braced_fits(n, Context::Enum, spec_lower_signature(t), base);
    lemma_braced_fits(n, Context::Trait, spec_lower_signature(t), base);
    lemma_function_fits(n, base);
    lemma_braced_fits(n, Context::Block, spec_lower_signature(t), base);
    lemma_braced_fits(n, Context::Match, spec_lower_expr(t), base);
    lemma_braced_fits(n, Context::Block, spec_lower_expr(t), base);
    lemma_struct_literal_fits(n, is_last, base);
    lemma_statement_fits(n, is_last, base);
}

proof fn lemma_braced_fits(n: SpecNode, child: Context, header: Seq<char>, base: int)
    ensures
        em_fits(spec_emit_braced_item(n, child, header, base), base),
        spec_emit_braced_item(n, child, header, base).lines.len() >= 1,
    decreases n, 6int,
{
    lemma_children_fit(n, child, base + 1);
    lemma_wrap_fits(
        n,
        ind(n) + header + " {"@,
        spec_emit_children(n, child, base + 1),
        ind(n) + "}"@,
        base,
    );
}

proof fn lemma_function_fits(n: SpecNode, base: int)
    ensures
        em_fits(spec_emit_function(n, base), base),
        spec_emit_function(n, base).lines.len() >= 1,
    decreases n, 6int,
{
    lemma_children_fit(n, Context::Block, base + 1);
    let t = trim(n.text);
    if let Some((sig, rest)) = spec_split_once_top_level(t, '=') {
        let body = trim(rest);
        let mid = if body.len() == 0 {
            spec_emit_children(n, Context::Block, base + 1)
        } else {
            match strip_prefix(body, "do "@) {
                Some(e) => em_gen(ind4(n) + spec_lower_expr(trim(e)) + ";"@),
                None => em_gen(ind4(n) + spec_lower_expr(body)),
            }
        };
        lemma_wrap_fits(n, ind(n) + spec_lower_signature(trim(sig)) + " {"@, mid, ind(n) + "}"@, base);
    }
}

proof fn lemma_statement_fits(n: SpecNode, is_last: bool, base: int)
    ensures
        em_fits(spec_emit_statement(n, is_last, base), base),
        spec_emit_statement(n, is_last, base).lines.len() >= 1,
    decreases n, 7int,
{
    let t = trim(n.text);
    lemma_braced_fits(n, Context::Block, spec_lower_expr(t), base);
    lemma_struct_literal_fits(n, is_last, base);
}

proof fn lemma_struct_member_fits(n: SpecNode, base: int)
    ensures
        em_fits(spec_emit_struct_member(n, base), base),
        spec_emit_struct_member(n, base).lines.len() >= 1,
    decreases n, 9int,
{
    lemma_general_fits(n, Context::Block, true, base);
}

proof fn lemma_enum_member_fits(n: SpecNode, base: int)
    ensures
        em_fits(spec_emit_enum_member(n, base), base),
        spec_emit_enum_member(n, base).lines.len() >= 1,
    decreases n, 9int,
{
    lemma_children_fit(n, Context::Struct, base + 1);
    let v = spec_lower_signature(trim(n.text));
    lemma_wrap_fits(n, ind(n) + v + " {"@, spec_emit_children(n, Context::Struct, base + 1), ind(n) + "},"@, base);
}

proof fn lemma_trait_member_fits(n: SpecNode, base: int)
    ensures
        em_fits(spec_emit_trait_member(n, base), base),
        spec_emit_trait_member(n, base).lines.len() >= 1,
    decreases n, 9int,
{
    lemma_function_fits(n, base);
    lemma_general_fits(n, Context::Trait, true, base);
}

proof fn lemma_match_arm_fits(n: SpecNode, base: int)
    ensures
        em_fits(spec_emit_match_arm(n, base), base),
        spec_emit_match_arm(n, base).lines.len() >= 1,
    decreases n, 9int,
{
    lemma_children_fit(n, Context::Block, base + 1);
    let t = trim(n.text);
    match spec_split_arrow(t) {
        Some((pat, rest)) => {
            let pattern = spec_lower_expr(trim(pat));
            let e = trim(rest);
            lemma_wrap_fits(n, ind(n) + pattern + " => {"@, spec_emit_children(n, Context::Block, base + 1), ind(n) + "},"@, base);
            if let Some(d) = strip_prefix(e, "do "@) {
                lemma_wrap_fits(n, ind(n) + pattern + " => {"@, em_gen(ind4(n) + spec_lower_expr(trim(d)) + ";"@), ind(n) + "},"@, base);
            }
        },
        None => {
            lemma_wrap_fits(n, ind(n) + spec_lower_expr(t) + " => {"@, spec_emit_children(n, Context::Block, base + 1), ind(n) + "},"@, base);
        },
    }
}

proof fn lemma_struct_literal_fits(n: SpecNode, is_last: bool, base: int)
    ensures
        em_fits(spec_emit_struct_literal_expr(n, is_last, base), base),
        spec_emit_struct_literal_expr(n, is_last, base).lines.len() >= 1,
    decreases n, 6int,
{
    lemma_children_fit(n, Context::StructLiteral, base + 1);
    lemma_wrap_fits(
        n,
        ind(n) + spec_lower_expr(trim(n.text)) + " {"@,
        spec_emit_children(n, Context::StructLiteral, base + 1),
        ind(n) + "}"@ + if is_last {
            ""@
        } else {
            ";"@
        },
        base,
    );
}

/// The Rust text is made of generated lines joined by line feeds. Every entry of the line
/// source map names one of those lines (numbered from 1), in increasing order; the
/// source-tree nodes lie in order within those lines, each spanning at least its own line
/// and the lines of its children.
pub proof fn law_source_maps_point_into_output(s: Seq<char>)
    ensures
        spec_transpile(s) matches Ok(o) ==> exists|lines: Seq<Seq<char>>|
            #![trigger join_lines(lines)]
            {
                &&& o.rust == ensure_trailing_newline(join_lines(lines))
                &&& forall|i: int| 0 <= i < o.map.len() ==> 1 <= (#[trigger] o.map[i]).1 <= lines.len()
                &&& forall|i: int, j: int|
                    0 <= i < j < o.map.len() ==> (#[trigger] o.map[i]).1 < (#[trigger] o.map[j]).1
                &&& tree_within(o.tree, 1, lines.len() as int)
            },
{
    if let Ok(lines) = spec_source_lines(s) {
        if let Ok((nodes, _)) = spec_parse_nodes(lines, 0, 0) {
            lemma_nodes_fit(nodes, Context::Root, nodes.len() as int, 0);
            let em = spec_emit_nodes(nodes, Context::Root, nodes.len() as int, 0);
            assert(em_fits(em, 0));
            if let Ok(o) = spec_transpile(s) {
                assert(o.rust == ensure_trailing_newline(join_lines(em.lines)));
                assert(o.map == em.map);
                assert(o.tree == em.tree);
            }
        }
    }
}


/// A setting read from the environment is never zero when its default is not: zero, a
/// non-number or an absent value all give the default.
pub proof fn law_settings_are_positive(value: Option<Seq<char>>, max: nat, default: nat)
    requires
        default > 0,
    ensures
        spec_read_setting(value, max, default) > 0,
{
}

/// An accepted request head never declares a body longer than the server's limit.
pub proof fn law_accepted_body_within_limit(header: Seq<char>)
    ensures
        spec_parse_request_head(header) matches Ok(h) ==> h.content_length <= MAX_BODY_BYTES,
{
}


/// The lines' numbers rise strictly.
pub open spec fn lines_rise(ls: Seq<SpecLine>) -> bool {
    forall|i: int, j: int| 0 <= i < j < ls.len() ==> (#[trigger] ls[i]).line < (#[trigger] ls[j]).line
}

/// The lines' numbers lie within `lo..=hi`.
pub open spec fn lines_between(ls: Seq<SpecLine>, lo: int, hi: int) -> bool {
    forall|i: int| 0 <= i < ls.len() ==> lo <= (#[trigger] ls[i]).line <= hi
}

/// The entries' source lines lie within `lo..=hi` and rise strictly.
pub open spec fn entries_rise(map: Seq<SpecEntry>, lo: int, hi: int) -> bool {
    &&& forall|i: int| 0 <= i < map.len() ==> lo <= (#[trigger] map[i]).0 <= hi
    &&& forall|i: int, j: int| 0 <= i < j < map.len() ==> (#[trigger] map[i]).0 < (#[trigger] map[j]).0
}

/// A subtree whose lines rise and lie within `lo..=hi`.
pub open spec fn subtree_in(n: SpecNode, lo: int, hi: int) -> bool {
    lines_rise(flatten_node(n)) && lines_between(flatten_node(n), lo, hi)
}

proof fn lemma_entries_cat(a: Seq<SpecEntry>, b: Seq<SpecEntry>, lo: int, m: int, hi: int)
    requires
        entries_rise(a, lo, m),
        entries_rise(b, m + 1, hi),
        lo <= m + 1,
        m <= hi,
    ensures
        entries_rise(a + b, lo, hi),
{
    let c = a + b;
    let la = a.len() as int;
    assert forall|i: int| 0 <= i < c.len() implies lo <= (#[trigger] c[i]).0 <= hi by {
        if i < la {
            assert(c[i] == a[i]);
        } else {
            assert(c[i] == b[i - la]);
        }
    }
    assert forall|i: int, j: int| 0 <= i < j < c.len() implies (#[trigger] c[i]).0 < (
    #[trigger] c[j]).0 by {
        if j < la {
            assert(c[i] == a[i]);
            assert(c[j] == a[j]);
        } else if i >= la {
            assert(c[i] == b[i - la]);
            assert(c[j] == b[j - la]);
        } else {
            assert(c[i] == a[i]);
            assert(c[j] == b[j - la]);
        }
    }
}

/// What a rising subtree tells of its root and its children.
proof fn lemma_subtree_parts(n: SpecNode, lo: int, hi: int)
    requires
        subtree_in(n, lo, hi),
    ensures
        lo <= n.line <= hi,
        lines_rise(flatten(n.children)),
        lines_between(flatten(n.children), n.line + 1, hi),
{
    let f = flatten_node(n);
    let c = flatten(n.children);
    assert(f[0].line == n.line);
    assert forall|i: int, j: int| 0 <= i < j < c.len() implies (#[trigger] c[i]).line < (
    #[trigger] c[j]).line by {
        assert(c[i] == f[i + 1]);
        assert(c[j] == f[j + 1]);
    }
    assert forall|i: int| 0 <= i < c.len() implies n.line + 1 <= (#[trigger] c[i]).line <= hi by {
        assert(c[i] == f[i + 1]);
        assert(f[0].line < f[i + 1].line);
    }
}

/// The head entry of `n`, rising entries after it, and a closing line.
proof fn lemma_wrap_rise(n: SpecNode, head: Seq<char>, mid: Em, tail: Seq<char>, base: int, lo: int, hi: int)
    requires
        lo <= n.line <= hi,
        entries_rise(mid.map, n.line + 1, hi),
    ensures
        entries_rise(em_cat(em_cat(em_push(n, head, base), mid), em_gen(tail)).map, lo, hi),
{
    let p = em_push(n, head, base);
    lemma_entries_cat(p.map, mid.map, lo, n.line, hi);
    assert(em_cat(em_cat(p, mid), em_gen(tail)).map =~= p.map + mid.map);
}

proof fn lemma_nodes_rise(nodes: Seq<SpecNode>, ctx: Context, k: int, base: int, lo: int, hi: int)
    requires
        0 <= k <= nodes.len(),
        lines_rise(flatten(nodes.take(k))),
        lines_between(flatten(nodes.take(k)), lo, hi),
    ensures
        entries_rise(spec_emit_nodes(nodes, ctx, k, base).map, lo, hi),
    decreases nodes, k,
{
    if k > 0 {
        let n = nodes[k - 1];
        assert(nodes.take(k) =~= nodes.take(k - 1) + seq![n]);
        lemma_flatten_append(nodes.take(k - 1), seq![n]);
        lemma_flatten_one(n);
        let p = flatten(nodes.take(k - 1));
        let q = flatten_node(n);
        let f = flatten(nodes.take(k));
        assert(f == p + q);
        assert(q[0].line == n.line);
        assert(f[p.len() as int] == q[0]);
        assert forall|i: int, j: int| 0 <= i < j < p.len() implies (#[trigger] p[i]).line < (
        #[trigger] p[j]).line by {
            assert(f[i] == p[i]);
            assert(f[j] == p[j]);
        }
        assert forall|i: int| 0 <= i < p.len() implies lo <= (#[trigger] p[i]).line <= n.line - 1 by {
            assert(f[i] == p[i]);
        }
        assert forall|i: int, j: int| 0 <= i < j < q.len() implies (#[trigger] q[i]).line < (
        #[trigger] q[j]).line by {
            assert(f[p.len() + i] == q[i]);
            assert(f[p.len() + j] == q[j]);
        }
        assert forall|i: int| 0 <= i < q.len() implies n.line <= (#[trigger] q[i]).line <= hi by {
            assert(f[p.len() + i] == q[i]);
            if i > 0 {
                assert(f[p.len() as int] == q[0]);
            }
        }
        lemma_nodes_rise(nodes, ctx, k - 1, base, lo, n.line - 1);
        let prev = spec_emit_nodes(nodes, ctx, k - 1, base);
        lemma_node_rise(n, ctx, k == nodes.len(), base + prev.lines.len(), n.line, hi);
        lemma_entries_cat(
            prev.map,
            spec_emit_node(n, ctx, k == nodes.len(), base + prev.lines.len()).map,
            lo,
            n.line - 1,
            hi,
        );
    }
}

proof fn lemma_children_rise(n: SpecNode, ctx: Context, base: int, lo: int, hi: int)
    requires
        subtree_in(n, lo, hi),
    ensures
        entries_rise(spec_emit_children(n, ctx, base).map, n.line + 1, hi),
    decreases n, 4int,
{
    lemma_subtree_parts(n, lo, hi);
    assert(n.children.take(n.children.len() as int) =~= n.children);
    lemma_nodes_rise(n.children, ctx, n.children.len() as int, base, n.line + 1, hi);
}

proof fn lemma_node_rise(n: SpecNode, ctx: Context, is_last: bool, base: int, lo: int, hi: int)
    requires
        subtree_in(n, lo, hi),
    ensures
        entries_rise(spec_emit_node(n, ctx, is_last, base).map, lo, hi),
    decreases n, 11int,
{
    lemma_body_rise(n, ctx, is_last, base, lo, hi);
}

proof fn lemma_body_rise(n: SpecNode, ctx: Context, is_last: bool, base: int, lo: int, hi: int)
    requires
        subtree_in(n, lo, hi),
    ensures
        entries_rise(spec_emit_node_body(n, ctx, is_last, base).map, lo, hi),
    decreases n, 10int,
{
    lemma_subtree_parts(n, lo, hi);
    match ctx {
        Context::Struct => lemma_struct_member_rise(n, base, lo, hi),
        Context::Enum => lemma_enum_member_rise(n, base, lo, hi),
        Context::Trait => lemma_trait_member_rise(n, base, lo, hi),
        Context::Match => lemma_match_arm_rise(n, base, lo, hi),
        Context::StructLiteral => {},
        _ => lemma_general_rise(n, ctx, is_last, base, lo, hi),
    }
}

#[verifier::spinoff_prover]
#[verifier::rlimit(40)]
proof fn lemma_general_rise(n: SpecNode, ctx: Context, is_last: bool, base: int, lo: int, hi: int)
    requires
        subtree_in(n, lo, hi),
    ensures
        entries_rise(spec_emit_general(n, ctx, is_last, base).map, lo, hi),
    decreases n, 8int,
{
    let t = trim(n.text);
    lemma_braced_rise(n, Context::Struct, spec_lower_signature(t), base, lo, hi);
    lemma_braced_rise(n, Context::Enum, spec_lower_signature(t), base, lo, hi);
    lemma_braced_rise(n, Context::Trait, spec_lower_signature(t), base, lo, hi);
    lemma_function_rise(n, base, lo, hi);
    lemma_braced_rise(n, Context::Block, spec_lower_signature(t), base, lo, hi);
    lemma_braced_rise(n, Context::Match, spec_lower_expr(t), base, lo, hi);
    lemma_braced_rise(n, Context::Block, spec_lower_expr(t), base, lo, hi);
    lemma_struct_literal_rise(n, is_last, base, lo, hi);
    lemma_statement_rise(n, is_last, base, lo, hi);
}

proof fn lemma_braced_rise(n: SpecNode, child: Context, header: Seq<char>, base: int, lo: int, hi: int)
    requires
        subtree_in(n, lo, hi),
    ensures
        entries_rise(spec_emit_braced_item(n, child, header, base).map, lo, hi),
    decreases n, 6int,
{
    lemma_subtree_parts(n, lo, hi);
    lemma_children_rise(n, child, base + 1, lo, hi);
    lemma_wrap_rise(
        n,
        ind(n) + header + " {"@,
        spec_emit_children(n, child, base + 1),
        ind(n) + "}"@,
        base,
        lo,
        hi,
    );
}

proof fn lemma_function_rise(n: SpecNode, base: int, lo: int, hi: int)
    requires
        subtree_in(n, lo, hi),
    ensures
        entries_rise(spec_emit_function(n, base).map, lo, hi),
    decreases n, 6int,
{
    lemma_subtree_parts(n, lo, hi);
    lemma_children_rise(n, Context::Block, base + 1, lo, hi);
    let t = trim(n.text);
    if let Some((sig, rest)) = spec_split_once_top_level(t, '=') {
        let body = trim(rest);
        let mid = if body.len() == 0 {
            spec_emit_children(n, Context::Block, base + 1)
        } else {
            match strip_prefix(body, "do "@) {
                Some(e) => em_gen(ind4(n) + spec_lower_expr(trim(e)) + ";"@),
                None => em_gen(ind4(n) + spec_lower_expr(body)),
            }
        };
        lemma_wrap_rise(n, ind(n) + spec_lower_signature(trim(sig)) + " {"@, mid, ind(n) + "}"@, base, lo, hi);
    }
}

proof fn lemma_statement_rise(n: SpecNode, is_last: bool, base: int, lo: int, hi: int)
    requires
        subtree_in(n, lo, hi),
    ensures
        entries_rise(spec_emit_statement(n, is_last, base).map, lo, hi),
    decreases n, 7int,
{
    lemma_subtree_parts(n, lo, hi);
    let t = trim(n.text);
    lemma_braced_rise(n, Context::Block, spec_lower_expr(t), base, lo, hi);
    lemma_struct_literal_rise(n, is_last, base, lo, hi);
}

proof fn lemma_struct_member_rise(n: SpecNode, base: int, lo: int, hi: int)
    requires
        subtree_in(n, lo, hi),
    ensures
        entries_rise(spec_emit_struct_member(n, base).map, lo, hi),
    decreases n, 9int,
{
    lemma_subtree_parts(n, lo, hi);
    lemma_general_rise(n, Context::Block, true, base, lo, hi);
}

proof fn lemma_enum_member_rise(n: SpecNode, base: int, lo: int, hi: int)
    requires
        subtree_in(n, lo, hi),
    ensures
        entries_rise(spec_emit_enum_member(n, base).map, lo, hi),
    decreases n, 9int,
{
    lemma_subtree_parts(n, lo, hi);
    lemma_children_rise(n, Context::Struct, base + 1, lo, hi);
    let v = spec_lower_signature(trim(n.text));
    lemma_wrap_rise(n, ind(n) + v + " {"@, spec_emit_children(n, Context::Struct, base + 1), ind(n) + "},"@, base, lo, hi);
}

proof fn lemma_trait_member_rise(n: SpecNode, base: int, lo: int, hi: int)
    requires
        subtree_in(n, lo, hi),
    ensures
        entries_rise(spec_emit_trait_member(n, base).map, lo, hi),
    decreases n, 9int,
{
    lemma_subtree_parts(n, lo, hi);
    lemma_function_rise(n, base, lo, hi);
    lemma_general_rise(n, Context::Trait, true, base, lo, hi);
}

proof fn lemma_match_arm_rise(n: SpecNode, base: int, lo: int, hi: int)
    requires
        subtree_in(n, lo, hi),
    ensures
        entries_rise(spec_emit_match_arm(n, base).map, lo, hi),
    decreases n, 9int,
{
    lemma_subtree_parts(n, lo, hi);
    lemma_children_rise(n, Context::Block, base + 1, lo, hi);
    let t = trim(n.text);
    match spec_split_arrow(t) {
        Some((pat, rest)) => {
            let pattern = spec_lower_expr(trim(pat));
            let e = trim(rest);
            lemma_wrap_rise(n, ind(n) + pattern + " => {"@, spec_emit_children(n, Context::Block, base + 1), ind(n) + "},"@, base, lo, hi);
            if let Some(d) = strip_prefix(e, "do "@) {
                lemma_wrap_rise(n, ind(n) + pattern + " => {"@, em_gen(ind4(n) + spec_lower_expr(trim(d)) + ";"@), ind(n) + "},"@, base, lo, hi);
            }
        },
        None => {
            lemma_wrap_rise(n, ind(n) + spec_lower_expr(t) + " => {"@, spec_emit_children(n, Context::Block, base + 1), ind(n) + "},"@, base, lo, hi);
        },
    }
}

proof fn lemma_struct_literal_rise(n: SpecNode, is_last: bool, base: int, lo: int, hi: int)
    requires
        subtree_in(n, lo, hi),
    ensures
        entries_rise(spec_emit_struct_literal_expr(n, is_last, base).map, lo, hi),
    decreases n, 6int,
{
    lemma_subtree_parts(n, lo, hi);
    lemma_children_rise(n, Context::StructLiteral, base + 1, lo, hi);
    lemma_wrap_rise(
        n,
        ind(n) + spec_lower_expr(trim(n.text)) + " {"@,
        spec_emit_children(n, Context::StructLiteral, base + 1),
        ind(n) + "}"@ + if is_last {
            ""@
        } else {
            ";"@
        },
        base,
        lo,
        hi,
    );
}

proof fn lemma_lines_rise(raw: Seq<Seq<char>>, n: int)
    requires
        0 <= n <= raw.len(),
    ensures
        lines_upto(raw, n) matches Ok(ls) ==> lines_rise(ls) && lines_between(ls, 1, n),
    decreases n,
{
    lemma_lines_upto(raw, n);
    if n > 0 {
        lemma_lines_rise(raw, n - 1);
        lemma_lines_upto(raw, n - 1);
    }
}

/// The entries of the line source map come in increasing order of source line, and each
/// names a line of the source (numbered from 1).
pub proof fn law_source_map_follows_source_order(s: Seq<char>)
    ensures
        spec_transpile(s) matches Ok(o) ==> {
            &&& forall|i: int, j: int|
                0 <= i < j < o.map.len() ==> (#[trigger] o.map[i]).0 < (#[trigger] o.map[j]).0
            &&& forall|i: int|
                0 <= i < o.map.len() ==> 1 <= (#[trigger] o.map[i]).0 <= split_lines(s).len()
        },
{
    let raw = split_lines(s);
    lemma_split_lines_len(s);
    lemma_lines_rise(raw, raw.len() as int);
    law_tree_holds_every_line(s);
    if let Ok(lines) = spec_source_lines(s) {
        if let Ok((nodes, end)) = spec_parse_nodes(lines, 0, 0) {
            assert(nodes.take(nodes.len() as int) =~= nodes);
            lemma_nodes_rise(nodes, Context::Root, nodes.len() as int, 0, 1, raw.len() as int);
        }
    }
}


/// Every node of `nodes` is indented by `indent`, and the nodes below each one share one
/// indentation, deeper than its own.
pub open spec fn block_at(nodes: Seq<SpecNode>, indent: int) -> bool
    decreases nodes,
{
    if nodes.len() == 0 {
        true
    } else {
        let n = nodes[0];
        &&& n.indent == indent
        &&& (n.children.len() > 0 ==> n.children[0].indent > indent && block_at(
            n.children,
            n.children[0].indent,
        ))
        &&& block_at(nodes.drop_first(), indent)
    }
}

proof fn lemma_parse_blocks(lines: Seq<SpecLine>, index: int, indent: int)
    requires
        0 <= index <= lines.len(),
    ensures
        spec_parse_nodes(lines, index, indent) matches Ok((nodes, _)) ==> block_at(nodes, indent),
    decreases lines.len() - index,
{
    if index < lines.len() && lines[index].indent == indent {
        let next = index + 1;
        if next < lines.len() && lines[next].indent > indent {
            lemma_parse_blocks(lines, next, lines[next].indent);
            lemma_parse_nodes(lines, next, lines[next].indent);
        }
        let child = if next < lines.len() && lines[next].indent > indent {
            spec_parse_nodes(lines, next, lines[next].indent)
        } else {
            Ok((Seq::empty(), next))
        };
        if let Ok((children, after)) = child {
            let resume = if index < after <= lines.len() {
                after
            } else {
                lines.len() as int
            };
            lemma_parse_blocks(lines, resume, indent);
            if let Ok((rest, end)) = spec_parse_nodes(lines, resume, indent) {
                let node = SpecNode {
                    line: lines[index].line,
                    indent: lines[index].indent,
                    text: lines[index].text,
                    children,
                };
                let nodes = seq![node] + rest;
                assert(nodes[0] == node);
                assert(nodes.drop_first() =~= rest);
            }
        }
    }
}

/// The indentation tree follows the layout: top-level lines are not indented, and the
/// lines below a node share one indentation, deeper than the node's.
pub proof fn law_tree_follows_indentation(s: Seq<char>)
    ensures
        spec_source_lines(s) matches Ok(lines) ==> (spec_parse_nodes(lines, 0, 0) matches Ok(
            (nodes, _),
        ) ==> block_at(nodes, 0)),
{
    if let Ok(lines) = spec_source_lines(s) {
        lemma_parse_blocks(lines, 0, 0);
    }
}


/// The map entries a source tree stands for: for each node in order, its source line and
/// its first generated line, then the entries of the nodes below it.
pub open spec fn tree_entries(t: Seq<SpecMapNode>) -> Seq<SpecEntry>
    decreases t,
{
    if t.len() == 0 {
        Seq::empty()
    } else {
        let n = t[t.len() - 1];
        tree_entries(t.drop_last()) + seq![(n.line, n.start)] + tree_entries(n.children)
    }
}

/// The number of nodes in a source tree, all levels counted.
pub open spec fn tree_size(t: Seq<SpecMapNode>) -> nat
    decreases t,
{
    if t.len() == 0 {
        0
    } else {
        let n = t[t.len() - 1];
        tree_size(t.drop_last()) + 1 + tree_size(n.children)
    }
}

proof fn lemma_tree_entries_len(t: Seq<SpecMapNode>)
    ensures
        tree_entries(t).len() == tree_size(t),
    decreases t,
{
    if t.len() > 0 {
        let n = t[t.len() - 1];
        lemma_tree_entries_len(t.drop_last());
        lemma_tree_entries_len(n.children);
    }
}

proof fn lemma_tree_entries_cat(a: Seq<SpecMapNode>, b: Seq<SpecMapNode>)
    ensures
        tree_entries(a + b) == tree_entries(a) + tree_entries(b),
    decreases b.len(),
{
    if b.len() == 0 {
        assert(a + b =~= a);
        assert(tree_entries(a) + tree_entries(b) =~= tree_entries(a));
    } else {
        let n = b[b.len() - 1];
        lemma_tree_entries_cat(a, b.drop_last());
        assert((a + b).drop_last() =~= a + b.drop_last());
        assert((a + b)[(a + b).len() - 1] == n);
        assert(tree_entries(a + b) =~= tree_entries(a) + tree_entries(b));
    }
}

/// The head entry of `n`, lines whose entries their tree stands for, and a closing line.
proof fn lemma_wrap_entries(n: SpecNode, head: Seq<char>, mid: Em, tail: Seq<char>, base: int)
    requires
        mid.map == tree_entries(mid.tree),
    ensures
        em_cat(em_cat(em_push(n, head, base), mid), em_gen(tail)).map == seq![(n.line, base + 1)]
            + tree_entries(em_cat(em_cat(em_push(n, head, base), mid), em_gen(tail)).tree),
{
    let c = em_cat(em_cat(em_push(n, head, base), mid), em_gen(tail));
    assert(c.tree =~= mid.tree);
    assert(c.map =~= seq![(n.line, base + 1)] + mid.map);
}

proof fn lemma_nodes_entries(nodes: Seq<SpecNode>, ctx: Context, k: int, base: int)
    ensures
        spec_emit_nodes(nodes, ctx, k, base).map == tree_entries(spec_emit_nodes(nodes, ctx, k, base).tree),
    decreases nodes, k,
{
    if 0 < k <= nodes.len() {
        lemma_nodes_entries(nodes, ctx, k - 1, base);
        let prev = spec_emit_nodes(nodes, ctx, k - 1, base);
        let node = spec_emit_node(nodes[k - 1], ctx, k == nodes.len(), base + prev.lines.len());
        lemma_node_entries(nodes[k - 1], ctx, k == nodes.len(), base + prev.lines.len());
        lemma_tree_entries_cat(prev.tree, node.tree);
    } else {
        assert(tree_entries(Seq::<SpecMapNode>::empty()) =~= Seq::<SpecEntry>::empty());
    }
}

proof fn lemma_children_entries(n: SpecNode, ctx: Context, base: int)
    ensures
        spec_emit_children(n, ctx, base).map == tree_entries(spec_emit_children(n, ctx, base).tree),
    decreases n, 4int,
{
    lemma_nodes_entries(n.children, ctx, n.children.len() as int, base);
}

proof fn lemma_node_entries(n: SpecNode, ctx: Context, is_last: bool, base: int)
    ensures
        spec_emit_node(n, ctx, is_last, base).map == tree_entries(spec_emit_node(n, ctx, is_last, base).tree),
    decreases n, 11int,
{
    lemma_body_entries(n, ctx, is_last, base);
    let em = spec_emit_node(n, ctx, is_last, base);
    assert(em.tree.drop_last() =~= Seq::<SpecMapNode>::empty());
    assert(tree_entries(em.tree.drop_last()) =~= Seq::<SpecEntry>::empty());
    assert(tree_entries(em.tree) =~= seq![(n.line, base + 1)] + tree_entries(em.tree[0].children));
}

proof fn lemma_body_entries(n: SpecNode, ctx: Context, is_last: bool, base: int)
    ensures
        spec_emit_node_body(n, ctx, is_last, base).map == seq![(n.line, base + 1)] + tree_entries(
            spec_emit_node_body(n, ctx, is_last, base).tree,
        ),
    decreases n, 10int,
{
    assert(tree_entries(Seq::<SpecMapNode>::empty()) =~= Seq::<SpecEntry>::empty());
    assert(seq![(n.line, base + 1)] + Seq::<SpecEntry>::empty() =~= seq![(n.line, base + 1)]);
    match ctx {
        Context::Struct => lemma_struct_member_entries(n, base),
        Context::Enum => lemma_enum_member_entries(n, base),
        Context::Trait => lemma_trait_member_entries(n, base),
        Context::Match => lemma_match_arm_entries(n, base),
        Context::StructLiteral => {},
        _ => lemma_general_entries(n, ctx, is_last, base),
    }
}

#[verifier::spinoff_prover]
#[verifier::rlimit(40)]
proof fn lemma_general_entries(n: SpecNode, ctx: Context, is_last: bool, base: int)
    ensures
        spec_emit_general(n, ctx, is_last, base).map == seq![(n.line, base + 1)] + tree_entries(
            spec_emit_general(n, ctx, is_last, base).tree,
        ),
    decreases n, 8int,
{
    let t = trim(n.text);
    lemma_braced_entries(n, Context::Struct, spec_lower_signature(t), base);
    lemma_braced_entries(n, Context::Enum, spec_lower_signature(t), base);
    lemma_braced_entries(n, Context::Trait, spec_lower_signature(t), base);
    lemma_function_entries(n, base);
    lemma_braced_entries(n, Context::Block, spec_lower_signature(t), base);
    lemma_braced_entries(n, Context::Match, spec_lower_expr(t), base);
    lemma_braced_entries(n, Context::Block, spec_lower_expr(t), base);
    lemma_struct_literal_entries(n, is_last, base);
    lemma_statement_entries(n, is_last, base);
}

proof fn lemma_braced_entries(n: SpecNode, child: Context, header: Seq<char>, base: int)
    ensures
        spec_emit_braced_item(n, child, header, base).map == seq![(n.line, base + 1)] + tree_entries(
            spec_emit_braced_item(n, child, header, base).tree,
        ),
    decreases n, 6int,
{
    assert(tree_entries(Seq::<SpecMapNode>::empty()) =~= Seq::<SpecEntry>::empty());
    assert(seq![(n.line, base + 1)] + Seq::<SpecEntry>::empty() =~= seq![(n.line, base + 1)]);
    lemma_children_entries(n, child, base + 1);
    lemma_wrap_entries(n, ind(n) + header + " {"@, spec_emit_children(n, child, base + 1), ind(n) + "}"@, base);
}

proof fn lemma_function_entries(n: SpecNode, base: int)
    ensures
        spec_emit_function(n, base).map == seq![(n.line, base + 1)] + tree_entries(
            spec_emit_function(n, base).tree,
        ),
    decreases n, 6int,
{
    assert(tree_entries(Seq::<SpecMapNode>::empty()) =~= Seq::<SpecEntry>::empty());
    assert(seq![(n.line, base + 1)] + Seq::<SpecEntry>::empty() =~= seq![(n.line, base + 1)]);
    lemma_children_entries(n, Context::Block, base + 1);
    let t = trim(n.text);
    if let Some((sig, rest)) = spec_split_once_top_level(t, '=') {
        let body = trim(rest);
        let mid = if body.len() == 0 {
            spec_emit_children(n, Context::Block, base + 1)
        } else {
            match strip_prefix(body, "do "@) {
                Some(e) => em_gen(ind4(n) + spec_lower_expr(trim(e)) + ";"@),
                None => em_gen(ind4(n) + spec_lower_expr(body)),
            }
        };
        lemma_wrap_entries(n, ind(n) + spec_lower_signature(trim(sig)) + " {"@, mid, ind(n) + "}"@, base);
    }
}

proof fn lemma_statement_entries(n: SpecNode, is_last: bool, base: int)
    ensures
        spec_emit_statement(n, is_last, base).map == seq![(n.line, base + 1)] + tree_entries(
            spec_emit_statement(n, is_last, base).tree,
        ),
    decreases n, 7int,
{
    assert(tree_entries(Seq::<SpecMapNode>::empty()) =~= Seq::<SpecEntry>::empty());
    assert(seq![(n.line, base + 1)] + Seq::<SpecEntry>::empty() =~= seq![(n.line, base + 1)]);
    let t = trim(n.text);
    lemma_braced_entries(n, Context::Block, spec_lower_expr(t), base);
    lemma_struct_literal_entries(n, is_last, base);
}

proof fn lemma_struct_member_entries(n: SpecNode, base: int)
    ensures
        spec_emit_struct_member(n, base).map == seq![(n.line, base + 1)] + tree_entries(
            spec_emit_struct_member(n, base).tree,
        ),
    decreases n, 9int,
{
    assert(tree_entries(Seq::<SpecMapNode>::empty()) =~= Seq::<SpecEntry>::empty());
    assert(seq![(n.line, base + 1)] + Seq::<SpecEntry>::empty() =~= seq![(n.line, base + 1)]);
    lemma_general_entries(n, Context::Block, true, base);
}

proof fn lemma_enum_member_entries(n: SpecNode, base: int)
    ensures
        spec_emit_enum_member(n, base).map == seq![(n.line, base + 1)] + tree_entries(
            spec_emit_enum_member(n, base).tree,
        ),
    decreases n, 9int,
{
    assert(tree_entries(Seq::<SpecMapNode>::empty()) =~= Seq::<SpecEntry>::empty());
    assert(seq![(n.line, base + 1)] + Seq::<SpecEntry>::empty() =~= seq![(n.line, base + 1)]);
    lemma_children_entries(n, Context::Struct, base + 1);
    let v = spec_lower_signature(trim(n.text));
    lemma_wrap_entries(n, ind(n) + v + " {"@, spec_emit_children(n, Context::Struct, base + 1), ind(n) + "},"@, base);
}

proof fn lemma_trait_member_entries(n: SpecNode, base: int)
    ensures
        spec_emit_trait_member(n, base).map == seq![(n.line, base + 1)] + tree_entries(
            spec_emit_trait_member(n, base).tree,
        ),
    decreases n, 9int,
{
    assert(tree_entries(Seq::<SpecMapNode>::empty()) =~= Seq::<SpecEntry>::empty());
    assert(seq![(n.line, base + 1)] + Seq::<SpecEntry>::empty() =~= seq![(n.line, base + 1)]);
    lemma_function_entries(n, base);
    lemma_general_entries(n, Context::Trait, true, base);
}

proof fn lemma_match_arm_entries(n: SpecNode, base: int)
    ensures
        spec_emit_match_arm(n, base).map == seq![(n.line, base + 1)] + tree_entries(
            spec_emit_match_arm(n, base).tree,
        ),
    decreases n, 9int,
{
    assert(tree_entries(Seq::<SpecMapNode>::empty()) =~= Seq::<SpecEntry>::empty());
    assert(seq![(n.line, base + 1)] + Seq::<SpecEntry>::empty() =~= seq![(n.line, base + 1)]);
    lemma_children_entries(n, Context::Block, base + 1);
    let t = trim(n.text);
    match spec_split_arrow(t) {
        Some((pat, rest)) => {
            let pattern = spec_lower_expr(trim(pat));
            let e = trim(rest);
            lemma_wrap_entries(n, ind(n) + pattern + " => {"@, spec_emit_children(n, Context::Block, base + 1), ind(n) + "},"@, base);
            if let Some(d) = strip_prefix(e, "do "@) {
                lemma_wrap_entries(n, ind(n) + pattern + " => {"@, em_gen(ind4(n) + spec_lower_expr(trim(d)) + ";"@), ind(n) + "},"@, base);
            }
        },
        None => {
            lemma_wrap_entries(n, ind(n) + spec_lower_expr(t) + " => {"@, spec_emit_children(n, Context::Block, base + 1), ind(n) + "},"@, base);
        },
    }
}

proof fn lemma_struct_literal_entries(n: SpecNode, is_last: bool, base: int)
    ensures
        spec_emit_struct_literal_expr(n, is_last, base).map == seq![(n.line, base + 1)] + tree_entries(
            spec_emit_struct_literal_expr(n, is_last, base).tree,
        ),
    decreases n, 6int,
{
    lemma_children_entries(n, Context::StructLiteral, base + 1);
    lemma_wrap_entries(
        n,
        ind(n) + spec_lower_expr(trim(n.text)) + " {"@,
        spec_emit_children(n, Context::StructLiteral, base + 1),
        ind(n) + "}"@ + if is_last {
            ""@
        } else {
            ";"@
        },
        base,
    );
}

/// The line source map is the source tree read in order: each node gives one entry, its
/// source line with its first generated line, followed by the entries of the nodes below
/// it; so there are exactly as many entries as nodes.
pub proof fn law_source_map_is_tree_in_order(s: Seq<char>)
    ensures
        spec_transpile(s) matches Ok(o) ==> o.map == tree_entries(o.tree) && o.map.len() == tree_size(
            o.tree,
        ),
{
    if let Ok(lines) = spec_source_lines(s) {
        if let Ok((nodes, _)) = spec_parse_nodes(lines, 0, 0) {
            lemma_nodes_entries(nodes, Context::Root, nodes.len() as int, 0);
            let em = spec_emit_nodes(nodes, Context::Root, nodes.len() as int, 0);
            lemma_tree_entries_len(em.tree);
        }
    }
}


/// The text holds no line feed.
pub open spec fn no_lf(s: Seq<char>) -> bool {
    forall|k: int| 0 <= k < s.len() ==> #[trigger] s[k] != '\n'
}

/// None of the lines holds a line feed.
pub open spec fn lines_no_lf(ls: Seq<Seq<char>>) -> bool {
    forall|i: int| 0 <= i < ls.len() ==> no_lf(#[trigger] ls[i])
}

/// None of the source lines' texts holds a line feed.
pub open spec fn texts_no_lf(ls: Seq<SpecLine>) -> bool {
    forall|i: int| 0 <= i < ls.len() ==> no_lf((#[trigger] ls[i]).text)
}

pub broadcast proof fn lemma_no_lf_cat(a: Seq<char>, b: Seq<char>)
    requires
        no_lf(a),
        no_lf(b),
    ensures
        #[trigger] no_lf(a + b),
{
    assert forall|k: int| 0 <= k < (a + b).len() implies #[trigger] (a + b)[k] != '\n' by {
        if k < a.len() {
            assert((a + b)[k] == a[k]);
        } else {
            assert((a + b)[k] == b[k - a.len()]);
        }
    }
}

pub broadcast proof fn lemma_no_lf_take(s: Seq<char>, i: int)
    requires
        no_lf(s),
        0 <= i <= s.len(),
    ensures
        #[trigger] no_lf(s.take(i)),
{
    assert forall|k: int| 0 <= k < s.take(i).len() implies #[trigger] s.take(i)[k] != '\n' by {
        assert(s.take(i)[k] == s[k]);
    }
}

pub broadcast proof fn lemma_no_lf_skip(s: Seq<char>, i: int)
    requires
        no_lf(s),
        0 <= i <= s.len(),
    ensures
        #[trigger] no_lf(s.skip(i)),
{
    assert forall|k: int| 0 <= k < s.skip(i).len() implies #[trigger] s.skip(i)[k] != '\n' by {
        assert(s.skip(i)[k] == s[i + k]);
    }
}

pub broadcast proof fn lemma_no_lf_subrange(s: Seq<char>, i: int, j: int)
    requires
        no_lf(s),
        0 <= i <= j <= s.len(),
    ensures
        #[trigger] no_lf(s.subrange(i, j)),
{
    assert forall|k: int| 0 <= k < s.subrange(i, j).len() implies #[trigger] s.subrange(i, j)[k]
        != '\n' by {
        assert(s.subrange(i, j)[k] == s[i + k]);
    }
}

pub broadcast proof fn lemma_no_lf_trim(s: Seq<char>)
    requires
        no_lf(s),
    ensures
        #[trigger] no_lf(trim(s)),
        no_lf(trim_end(s)),
        no_lf(trim_start(s)),
{
    broadcast use lemma_no_lf_take, lemma_no_lf_skip;
    lemma_trim_end(s);
    lemma_trim_start(s);
    lemma_trim_start(trim_end(s));
}

pub broadcast proof fn lemma_no_lf_one(c: char)
    requires
        c != '\n',
    ensures
        #[trigger] no_lf(seq![c]),
{
}

pub broadcast proof fn lemma_no_lf_spaces(k: nat)
    ensures
        #[trigger] no_lf(spaces(k)),
{
}

pub broadcast proof fn lemma_lines_no_lf_cat(a: Seq<Seq<char>>, b: Seq<Seq<char>>)
    requires
        lines_no_lf(a),
        lines_no_lf(b),
    ensures
        #[trigger] lines_no_lf(a + b),
{
    assert forall|i: int| 0 <= i < (a + b).len() implies no_lf(#[trigger] (a + b)[i]) by {
        if i < a.len() {
            assert((a + b)[i] == a[i]);
        } else {
            assert((a + b)[i] == b[i - a.len()]);
        }
    }
}

pub broadcast proof fn lemma_lines_no_lf_one(l: Seq<char>)
    requires
        no_lf(l),
    ensures
        #[trigger] lines_no_lf(seq![l]),
{
}

pub broadcast group group_no_lf {
    lemma_no_lf_cat,
    lemma_no_lf_take,
    lemma_no_lf_skip,
    lemma_no_lf_subrange,
    lemma_no_lf_trim,
    lemma_no_lf_one,
    lemma_no_lf_spaces,
    lemma_lines_no_lf_cat,
    lemma_lines_no_lf_one,
}

/// The literals that lowering and emitting put into lines.
proof fn lemma_literals_no_lf()
    ensures
        no_lf(""@),
        no_lf(";"@),
        no_lf(","@),
        no_lf(" {"@),
        no_lf("}"@),
        no_lf("},"@),
        no_lf(" => {"@),
        no_lf(" => "@),
        no_lf(": "@),
        no_lf("#!"@),
        no_lf("#!["@),
        no_lf("#["@),
        no_lf("]"@),
        no_lf("if"@),
        no_lf("else if"@),
        no_lf(" { "@),
        no_lf(" } else { "@),
        no_lf(" }"@),
{
    reveal_strlit("");
    reveal_strlit(";");
    reveal_strlit(",");
    reveal_strlit(" {");
    reveal_strlit("}");
    reveal_strlit("},");
    reveal_strlit(" => {");
    reveal_strlit(" => ");
    reveal_strlit(": ");
    reveal_strlit("#!");
    reveal_strlit("#![");
    reveal_strlit("#[");
    reveal_strlit("]");
    reveal_strlit("if");
    reveal_strlit("else if");
    reveal_strlit(" { ");
    reveal_strlit(" } else { ");
    reveal_strlit(" }");
}

proof fn lemma_dots_no_lf(s: Seq<char>)
    requires
        no_lf(s),
    ensures
        no_lf(dots_to_colons(s)),
    decreases s.len(),
{
    broadcast use group_no_lf;
    if s.len() > 0 {
        assert(s.drop_last() =~= s.take(s.len() - 1));
        lemma_dots_no_lf(s.drop_last());
        assert(s.last() != '\n');
    }
}

proof fn lemma_generics_no_lf(s: Seq<char>, i: int, mode: Mode)
    requires
        no_lf(s),
    ensures
        no_lf(generics_from(s, i, mode)),
    decreases s.len(), s.len() - i,
{
    broadcast use group_no_lf;
    if 0 <= i < s.len() {
        assert(s[i] != '\n');
        lemma_generics_no_lf(s, i + 1, mode);
        if s[i] == '[' && spec_has_ident_before(s, i) {
            if let Some(close) = spec_matching_bracket(s, i, '[', ']') {
                if i < close < s.len() {
                    let content = s.subrange(i + 1, close);
                    lemma_generics_no_lf(content, 0, Mode::Type);
                    lemma_generics_no_lf(s, close + 1, mode);
                    assert(no_lf(seq![':', ':', '<']));
                    assert(no_lf(seq!['<']));
                    assert(no_lf(seq!['>']));
                }
            }
        }
    }
}

proof fn lemma_paths_no_lf(s: Seq<char>, i: int, mode: Mode)
    requires
        no_lf(s),
    ensures
        no_lf(paths_from(s, i, mode)),
    decreases s.len() - i,
{
    broadcast use group_no_lf;
    if 0 <= i < s.len() {
        assert(s[i] != '\n');
        if is_ident_start(s[i]) {
            let first_end = ident_end(s, i);
            let end = path_end(s, first_end);
            if i < end <= s.len() {
                lemma_dots_no_lf(s.subrange(i, end));
                lemma_paths_no_lf(s, end, mode);
            }
        } else {
            lemma_paths_no_lf(s, i + 1, mode);
        }
    }
}

pub broadcast proof fn lemma_signature_no_lf(t: Seq<char>)
    requires
        no_lf(t),
    ensures
        #[trigger] no_lf(spec_lower_signature(t)),
{
    lemma_generics_no_lf(t, 0, Mode::Type);
    lemma_paths_no_lf(spec_replace_square_generics(t, Mode::Type), 0, Mode::Type);
}

pub broadcast proof fn lemma_basic_expr_no_lf(t: Seq<char>)
    requires
        no_lf(t),
    ensures
        #[trigger] no_lf(spec_lower_basic_expr(t)),
{
    lemma_generics_no_lf(t, 0, Mode::Expr);
    lemma_paths_no_lf(spec_replace_square_generics(t, Mode::Expr), 0, Mode::Expr);
}

proof fn lemma_if_then_else_no_lf(t: Seq<char>)
    requires
        no_lf(t),
    ensures
        spec_lower_if_then_else(t) matches Some(r) ==> no_lf(r),
    decreases t.len(), 0int,
{
    broadcast use group_no_lf, lemma_basic_expr_no_lf;
    lemma_literals_no_lf();
    reveal_strlit("if ");
    reveal_strlit("else if ");
    reveal_strlit("then");
    reveal_strlit("else");
    if let Some((prefix, rest)) = if_head(t) {
        assert(no_lf(rest));
        if let Some(ti) = spec_find_top_level_keyword(rest, "then"@) {
            lemma_keyword_from(rest, "then"@, 0, 0, 0, 0);
            let condition = trim(rest.take(ti));
            let body = trim(rest.skip(ti + "then"@.len()));
            lemma_trim_len(rest.skip(ti + "then"@.len()));
            assert(no_lf(condition));
            assert(no_lf(body));
            if body.len() > 0 {
                lemma_expr_no_lf(body);
                if let Some(ei) = spec_find_else_for_then_body(body) {
                    lemma_else_from(body, 0, 0, 0, 0, 0);
                    lemma_trim_len(body.take(ei));
                    lemma_trim_len(body.skip(ei + "else"@.len()));
                    let then_expr = trim(body.take(ei));
                    let else_expr = trim(body.skip(ei + "else"@.len()));
                    lemma_expr_no_lf(then_expr);
                    lemma_expr_no_lf(else_expr);
                }
            }
        }
    }
}

pub proof fn lemma_expr_no_lf(t: Seq<char>)
    requires
        no_lf(t),
    ensures
        no_lf(spec_lower_expr(t)),
    decreases t.len(), 1int,
{
    lemma_if_then_else_no_lf(t);
    lemma_basic_expr_no_lf(t);
}

pub broadcast proof fn lemma_expr_no_lf_auto(t: Seq<char>)
    requires
        no_lf(t),
    ensures
        #[trigger] no_lf(spec_lower_expr(t)),
{
    lemma_expr_no_lf(t);
}

proof fn lemma_attribute_no_lf(t: Seq<char>)
    requires
        no_lf(t),
    ensures
        spec_lower_attribute(t) matches Some(a) ==> no_lf(a),
{
    broadcast use group_no_lf, lemma_signature_no_lf;
    lemma_literals_no_lf();
    reveal_strlit("#!");
    if t.len() > 0 {
        assert(no_lf(t.skip(1)));
    }
}


/// What a subtree whose texts hold no line feed tells of its root and its children.
proof fn lemma_subtree_texts(n: SpecNode)
    requires
        texts_no_lf(flatten_node(n)),
    ensures
        no_lf(n.text),
        no_lf(trim(n.text)),
        texts_no_lf(flatten(n.children)),
{
    broadcast use group_no_lf;
    let f = flatten_node(n);
    let c = flatten(n.children);
    assert(f[0].text == n.text);
    assert forall|i: int| 0 <= i < c.len() implies no_lf((#[trigger] c[i]).text) by {
        assert(c[i] == f[i + 1]);
    }
}

proof fn lemma_pieces_no_lf(t: Seq<char>)
    requires
        no_lf(t),
    ensures
        spec_split_once_top_level(t, '=') matches Some((a, b)) ==> no_lf(a) && no_lf(b),
        spec_split_arrow(t) matches Some((a, b)) ==> no_lf(a) && no_lf(b),
        strip_prefix(t, "do "@) matches Some(e) ==> no_lf(e),
{
    broadcast use group_no_lf;
    lemma_split_from(t, '=', 0, 0, 0, 0, '\0');
    lemma_find_from(t, "=>"@, 0);
    reveal_strlit("=>");
}

proof fn lemma_nodes_no_lf(nodes: Seq<SpecNode>, ctx: Context, k: int, base: int)
    requires
        0 <= k <= nodes.len(),
        texts_no_lf(flatten(nodes.take(k))),
    ensures
        lines_no_lf(spec_emit_nodes(nodes, ctx, k, base).lines),
    decreases nodes, k,
{
    broadcast use group_no_lf;
    if k > 0 {
        let n = nodes[k - 1];
        assert(nodes.take(k) =~= nodes.take(k - 1) + seq![n]);
        lemma_flatten_append(nodes.take(k - 1), seq![n]);
        lemma_flatten_one(n);
        let p = flatten(nodes.take(k - 1));
        let q = flatten_node(n);
        let f = flatten(nodes.take(k));
        assert(f == p + q);
        assert forall|i: int| 0 <= i < p.len() implies no_lf((#[trigger] p[i]).text) by {
            assert(f[i] == p[i]);
        }
        assert forall|i: int| 0 <= i < q.len() implies no_lf((#[trigger] q[i]).text) by {
            assert(f[p.len() + i] == q[i]);
        }
        lemma_nodes_no_lf(nodes, ctx, k - 1, base);
        let prev = spec_emit_nodes(nodes, ctx, k - 1, base);
        lemma_node_no_lf(n, ctx, k == nodes.len(), base + prev.lines.len());
    } else {
        assert(lines_no_lf(Seq::<Seq<char>>::empty()));
    }
}

proof fn lemma_children_no_lf(n: SpecNode, ctx: Context, base: int)
    requires
        texts_no_lf(flatten_node(n)),
    ensures
        lines_no_lf(spec_emit_children(n, ctx, base).lines),
    decreases n, 4int,
{
    lemma_subtree_texts(n);
    assert(n.children.take(n.children.len() as int) =~= n.children);
    lemma_nodes_no_lf(n.children, ctx, n.children.len() as int, base);
}

proof fn lemma_node_no_lf(n: SpecNode, ctx: Context, is_last: bool, base: int)
    requires
        texts_no_lf(flatten_node(n)),
    ensures
        lines_no_lf(spec_emit_node(n, ctx, is_last, base).lines),
    decreases n, 11int,
{
    lemma_body_no_lf(n, ctx, is_last, base);
}

proof fn lemma_body_no_lf(n: SpecNode, ctx: Context, is_last: bool, base: int)
    requires
        texts_no_lf(flatten_node(n)),
    ensures
        lines_no_lf(spec_emit_node_body(n, ctx, is_last, base).lines),
    decreases n, 10int,
{
    broadcast use group_no_lf, lemma_signature_no_lf, lemma_expr_no_lf_auto;
    lemma_literals_no_lf();
    lemma_subtree_texts(n);
    lemma_attribute_no_lf(trim(n.text));
    lemma_pieces_no_lf(trim(n.text));
    match ctx {
        Context::Struct => lemma_struct_member_no_lf(n, base),
        Context::Enum => lemma_enum_member_no_lf(n, base),
        Context::Trait => lemma_trait_member_no_lf(n, base),
        Context::Match => lemma_match_arm_no_lf(n, base),
        Context::StructLiteral => {},
        _ => lemma_general_no_lf(n, ctx, is_last, base),
    }
}

#[verifier::spinoff_prover]
#[verifier::rlimit(40)]
proof fn lemma_general_no_lf(n: SpecNode, ctx: Context, is_last: bool, base: int)
    requires
        texts_no_lf(flatten_node(n)),
    ensures
        lines_no_lf(spec_emit_general(n, ctx, is_last, base).lines),
    decreases n, 8int,
{
    broadcast use group_no_lf, lemma_signature_no_lf, lemma_expr_no_lf_auto;
    lemma_subtree_texts(n);
    let t = trim(n.text);
    lemma_signature_no_lf(t);
    lemma_expr_no_lf(t);
    lemma_braced_no_lf(n, Context::Struct, spec_lower_signature(t), base);
    lemma_braced_no_lf(n, Context::Enum, spec_lower_signature(t), base);
    lemma_braced_no_lf(n, Context::Trait, spec_lower_signature(t), base);
    lemma_function_no_lf(n, base);
    lemma_braced_no_lf(n, Context::Block, spec_lower_signature(t), base);
    lemma_braced_no_lf(n, Context::Match, spec_lower_expr(t), base);
    lemma_braced_no_lf(n, Context::Block, spec_lower_expr(t), base);
    lemma_struct_literal_no_lf(n, is_last, base);
    lemma_statement_no_lf(n, is_last, base);
}

proof fn lemma_braced_no_lf(n: SpecNode, child: Context, header: Seq<char>, base: int)
    requires
        texts_no_lf(flatten_node(n)),
        no_lf(header),
    ensures
        lines_no_lf(spec_emit_braced_item(n, child, header, base).lines),
    decreases n, 6int,
{
    broadcast use group_no_lf, lemma_signature_no_lf, lemma_expr_no_lf_auto;
    lemma_literals_no_lf();
    lemma_subtree_texts(n);
    lemma_children_no_lf(n, child, base + 1);
}

proof fn lemma_function_no_lf(n: SpecNode, base: int)
    requires
        texts_no_lf(flatten_node(n)),
    ensures
        lines_no_lf(spec_emit_function(n, base).lines),
    decreases n, 6int,
{
    broadcast use group_no_lf, lemma_signature_no_lf, lemma_expr_no_lf_auto;
    lemma_literals_no_lf();
    lemma_subtree_texts(n);
    lemma_children_no_lf(n, Context::Block, base + 1);
    let t = trim(n.text);
    lemma_pieces_no_lf(t);
    if let Some((sig, rest)) = spec_split_once_top_level(t, '=') {
        lemma_pieces_no_lf(trim(rest));
    }
}

proof fn lemma_statement_no_lf(n: SpecNode, is_last: bool, base: int)
    requires
        texts_no_lf(flatten_node(n)),
    ensures
        lines_no_lf(spec_emit_statement(n, is_last, base).lines),
    decreases n, 7int,
{
    broadcast use group_no_lf, lemma_signature_no_lf, lemma_expr_no_lf_auto;
    lemma_literals_no_lf();
    lemma_subtree_texts(n);
    let t = trim(n.text);
    lemma_pieces_no_lf(t);
    lemma_braced_no_lf(n, Context::Block, spec_lower_expr(t), base);
    lemma_struct_literal_no_lf(n, is_last, base);
}

proof fn lemma_struct_member_no_lf(n: SpecNode, base: int)
    requires
        texts_no_lf(flatten_node(n)),
    ensures
        lines_no_lf(spec_emit_struct_member(n, base).lines),
    decreases n, 9int,
{
    broadcast use group_no_lf, lemma_signature_no_lf, lemma_expr_no_lf_auto;
    lemma_literals_no_lf();
    lemma_subtree_texts(n);
    lemma_general_no_lf(n, Context::Block, true, base);
}

proof fn lemma_enum_member_no_lf(n: SpecNode, base: int)
    requires
        texts_no_lf(flatten_node(n)),
    ensures
        lines_no_lf(spec_emit_enum_member(n, base).lines),
    decreases n, 9int,
{
    broadcast use group_no_lf, lemma_signature_no_lf, lemma_expr_no_lf_auto;
    lemma_literals_no_lf();
    lemma_subtree_texts(n);
    lemma_children_no_lf(n, Context::Struct, base + 1);
}

proof fn lemma_trait_member_no_lf(n: SpecNode, base: int)
    requires
        texts_no_lf(flatten_node(n)),
    ensures
        lines_no_lf(spec_emit_trait_member(n, base).lines),
    decreases n, 9int,
{
    broadcast use group_no_lf, lemma_signature_no_lf, lemma_expr_no_lf_auto;
    lemma_literals_no_lf();
    lemma_subtree_texts(n);
    lemma_function_no_lf(n, base);
    lemma_general_no_lf(n, Context::Trait, true, base);
}

proof fn lemma_match_arm_no_lf(n: SpecNode, base: int)
    requires
        texts_no_lf(flatten_node(n)),
    ensures
        lines_no_lf(spec_emit_match_arm(n, base).lines),
    decreases n, 9int,
{
    broadcast use group_no_lf, lemma_signature_no_lf, lemma_expr_no_lf_auto;
    lemma_literals_no_lf();
    lemma_subtree_texts(n);
    lemma_children_no_lf(n, Context::Block, base + 1);
    let t = trim(n.text);
    lemma_pieces_no_lf(t);
    if let Some((pat, rest)) = spec_split_arrow(t) {
        lemma_pieces_no_lf(trim(rest));
    }
}

proof fn lemma_struct_literal_no_lf(n: SpecNode, is_last: bool, base: int)
    requires
        texts_no_lf(flatten_node(n)),
    ensures
        lines_no_lf(spec_emit_struct_literal_expr(n, is_last, base).lines),
    decreases n, 6int,
{
    broadcast use group_no_lf, lemma_signature_no_lf, lemma_expr_no_lf_auto;
    lemma_literals_no_lf();
    lemma_subtree_texts(n);
    lemma_children_no_lf(n, Context::StructLiteral, base + 1);
}

proof fn lemma_split_lines_no_lf(s: Seq<char>)
    ensures
        lines_no_lf(split_lines(s)),
    decreases s.len(),
{
    if s.len() > 0 {
        lemma_split_lines_no_lf(s.drop_last());
        lemma_split_lines_len(s.drop_last());
        let r = split_lines(s.drop_last());
        if s.last() != '\n' {
            let u = r.update(r.len() - 1, r.last().push(s.last()));
            assert forall|i: int| 0 <= i < u.len() implies no_lf(#[trigger] u[i]) by {
                if i == r.len() - 1 {
                    let l = r.last().push(s.last());
                    assert(no_lf(r[i]));
                    assert forall|k: int| 0 <= k < l.len() implies #[trigger] l[k] != '\n' by {
                        if k < l.len() - 1 {
                            assert(l[k] == r.last()[k]);
                        }
                    }
                } else {
                    assert(u[i] == r[i]);
                }
            }
        } else {
            let u = r.push(Seq::<char>::empty());
            assert forall|i: int| 0 <= i < u.len() implies no_lf(#[trigger] u[i]) by {
                if i < r.len() {
                    assert(u[i] == r[i]);
                }
            }
        }
    }
}

proof fn lemma_source_texts_no_lf(raw: Seq<Seq<char>>, n: int)
    requires
        0 <= n <= raw.len(),
        lines_no_lf(raw),
    ensures
        lines_upto(raw, n) matches Ok(ls) ==> texts_no_lf(ls),
    decreases n,
{
    broadcast use group_no_lf;
    if n > 0 {
        lemma_source_texts_no_lf(raw, n - 1);
        assert(no_lf(raw[n - 1]));
        if let Ok(ls) = lines_upto(raw, n - 1) {
            let t = trim_end(raw[n - 1]);
            lemma_no_lf_trim(raw[n - 1]);
            lemma_no_lf_trim(t);
            if let Ok(ls2) = lines_upto(raw, n) {
                assert forall|i: int| 0 <= i < ls2.len() implies no_lf((#[trigger] ls2[i]).text) by {
                    if i < ls.len() {
                        assert(ls2[i] == ls[i]);
                    }
                }
            }
        }
    }
}

/// The generated lines that make up the Rust text hold no line feed: the text is those
/// lines joined, one per line.
pub proof fn law_generated_lines_hold_no_line_feed(s: Seq<char>)
    ensures
        spec_transpile(s) matches Ok(o) ==> exists|lines: Seq<Seq<char>>|
            #![trigger join_lines(lines)]
            o.rust == ensure_trailing_newline(join_lines(lines)) && lines_no_lf(lines),
{
    lemma_split_lines_no_lf(s);
    lemma_split_lines_len(s);
    lemma_source_texts_no_lf(split_lines(s), split_lines(s).len() as int);
    law_tree_holds_every_line(s);
    if let Ok(lines) = spec_source_lines(s) {
        if let Ok((nodes, end)) = spec_parse_nodes(lines, 0, 0) {
            assert(nodes.take(nodes.len() as int) =~= nodes);
            lemma_nodes_no_lf(nodes, Context::Root, nodes.len() as int, 0);
            let em = spec_emit_nodes(nodes, Context::Root, nodes.len() as int, 0);
            if let Ok(o) = spec_transpile(s) {
                assert(o.rust == ensure_trailing_newline(join_lines(em.lines)));
            }
        }
    }
}


/// The value of a hexadecimal digit, in either case.
pub open spec fn hex_value(c: char) -> Option<nat> {
    if '0' <= c && c <= '9' {
        Some((c as nat - 48) as nat)
    } else if 'a' <= c && c <= 'f' {
        Some((c as nat - 87) as nat)
    } else if 'A' <= c && c <= 'F' {
        Some((c as nat - 55) as nat)
    } else {
        None
    }
}

/// The value of four hexadecimal digits.
pub open spec fn hex4_value(e: Seq<char>) -> Option<nat> {
    if e.len() == 4 {
        match (hex_value(e[0]), hex_value(e[1]), hex_value(e[2]), hex_value(e[3])) {
            (Some(a), Some(b), Some(c), Some(d)) => Some(a * 4096 + b * 256 + c * 16 + d),
            _ => None,
        }
    } else {
        None
    }
}

/// The character an escape sequence at the start of `e` stands for, and its length:
/// `\"`, `\\`, `\/`, `\b`, `\f`, `\n`, `\r`, `\t`, or `\u` and four hexadecimal digits
/// naming a character outside the surrogate range.
pub open spec fn json_escape_at(e: Seq<char>) -> Option<(char, int)> {
    if e.len() < 2 || e[0] != '\\' {
        None
    } else if e[1] == '"' || e[1] == '\\' || e[1] == '/' {
        Some((e[1], 2))
    } else if e[1] == 'b' {
        Some(('\u{8}', 2))
    } else if e[1] == 'f' {
        Some(('\u{C}', 2))
    } else if e[1] == 'n' {
        Some(('\n', 2))
    } else if e[1] == 'r' {
        Some(('\r', 2))
    } else if e[1] == 't' {
        Some(('\t', 2))
    } else if e[1] == 'u' && e.len() >= 6 {
        match hex4_value(e.subrange(2, 6)) {
            Some(v) => if v < 0xD800 || 0xE000 <= v {
                Some((v as char, 6))
            } else {
                None
            },
            None => None,
        }
    } else {
        None
    }
}

/// JSON string decoding of the text between the quotes (RFC 8259): escape sequences
/// stand for their characters; an unescaped `"` or a character below U+0020 is refused.
/// Surrogate pairs are not decoded (the escaping here never writes one).
pub open spec fn json_decode(e: Seq<char>) -> Option<Seq<char>>
    decreases e.len(),
{
    if e.len() == 0 {
        Some(Seq::empty())
    } else if e[0] == '\\' {
        match json_escape_at(e) {
            Some((c, k)) => if 2 <= k <= e.len() {
                match json_decode(e.skip(k)) {
                    Some(r) => Some(seq![c] + r),
                    None => None,
                }
            } else {
                None
            },
            None => None,
        }
    } else if e[0] == '"' || (e[0] as u32) < 32 {
        None
    } else {
        match json_decode(e.skip(1)) {
            Some(r) => Some(seq![e[0]] + r),
            None => None,
        }
    }
}

pub proof fn lemma_hex4_small(n: nat)
    requires
        n < 256,
    ensures
        hex4(n) == seq!['0', '0', hex_digit(n / 16), hex_digit(n % 16)],
        hex4_value(hex4(n)) == Some(n),
{
    if n < 16 {
        assert(hex4(n) =~= seq!['0', '0', hex_digit(n / 16), hex_digit(n % 16)]);
    } else {
        assert(hex(n / 16) == seq![hex_digit(n / 16)]);
        assert(hex4(n) =~= seq!['0', '0', hex_digit(n / 16), hex_digit(n % 16)]);
    }
    assert forall|d: nat| d < 16 implies hex_value(#[trigger] hex_digit(d)) == Some(d) by {
        if d < 10 {
            assert(d == 0 || d == 1 || d == 2 || d == 3 || d == 4 || d == 5 || d == 6 || d == 7
                || d == 8 || d == 9);
        }
    }
    let h = hex4(n);
    assert(hex_value(h[2]) == Some(n / 16));
    assert(hex_value(h[3]) == Some(n % 16));
}

pub proof fn lemma_escape_front(s: Seq<char>)
    requires
        s.len() > 0,
    ensures
        escape_json(s) == escape_char(s[0]) + escape_json(s.drop_first()),
    decreases s.len(),
{
    if s.len() == 1 {
        assert(s.drop_last() =~= Seq::<char>::empty());
        assert(s.drop_first() =~= Seq::<char>::empty());
        assert(escape_json(Seq::<char>::empty()) =~= Seq::<char>::empty());
        assert(escape_json(s) =~= escape_char(s[0]) + escape_json(s.drop_first()));
    } else {
        lemma_escape_front(s.drop_last());
        assert(s.drop_last().drop_first() =~= s.drop_first().drop_last());
        assert(s.drop_first().last() == s.last());
        assert(s.drop_last()[0] == s[0]);
        assert(escape_json(s) =~= escape_char(s[0]) + escape_json(s.drop_first()));
    }
}

proof fn lemma_decode_step(c: char, rest: Seq<char>)
    ensures
        json_decode(escape_char(c) + rest) == match json_decode(rest) {
            Some(r) => Some(seq![c] + r),
            None => None::<Seq<char>>,
        },
{
    let e = escape_char(c) + rest;
    let k = escape_char(c).len() as int;
    assert(e.skip(k) =~= rest);
    if c == '\\' || c == '"' || c == '\n' || c == '\r' || c == '\t' {
        assert(e[0] == '\\');
    } else if is_cc(c) {
        lemma_hex4_small(c as nat);
        assert(e.subrange(2, 6) =~= hex4(c as nat));
        assert((c as nat) as char == c);
    } else {
        assert(e[0] == c);
    }
}

/// JSON string decoding gives back the text that was escaped; and text without `"`, `\`
/// or control characters is left as it is.
pub proof fn law_escaped_text_decodes_back(s: Seq<char>)
    ensures
        json_decode(escape_json(s)) == Some(s),
        (forall|k: int| 0 <= k < s.len() ==> #[trigger] s[k] != '"' && s[k] != '\\' && !is_cc(s[k]))
            ==> escape_json(s) == s,
    decreases s.len(),
{
    if s.len() == 0 {
        assert(escape_json(s) =~= Seq::<char>::empty());
        assert(s =~= Seq::<char>::empty());
    } else {
        law_escaped_text_decodes_back(s.drop_first());
        lemma_escape_front(s);
        lemma_decode_step(s[0], escape_json(s.drop_first()));
        assert(seq![s[0]] + s.drop_first() =~= s);
        if forall|k: int| 0 <= k < s.len() ==> #[trigger] s[k] != '"' && s[k] != '\\' && !is_cc(s[k]) {
            assert(s[0] != '"' && s[0] != '\\' && !is_cc(s[0]));
            assert forall|k: int| 0 <= k < s.drop_first().len() implies #[trigger] s.drop_first()[k]
                != '"' && s.drop_first()[k] != '\\' && !is_cc(s.drop_first()[k]) by {
                assert(s.drop_first()[k] == s[k + 1]);
            }
        }
    }
}

} // verus!
