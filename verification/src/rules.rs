//! What the lowering and emitting rules do, stated over their inputs and results.
use vstd::prelude::*;
use crate::classify::{Context, spec_classify_node, spec_is_enum_item, spec_is_function, spec_is_struct_item};
use crate::emit::{spec_emit_node};
use crate::expr::{if_head, spec_find_else_for_then_body, spec_find_top_level_keyword, spec_lower_attribute, spec_lower_basic_expr, spec_lower_expr, spec_lower_signature};
use crate::layout::{SpecNode};
use crate::lower::{Mode, all_ascii_digits, close_from, dots_to_colons, generics_from, ident_end, ident_pieces, lemma_ident_end, lemma_path_end, path_end, paths_from, spec_is_builtin_type, spec_matching_bracket, spec_replace_dotted_paths, spec_replace_square_generics, spec_should_convert_path, spec_type_like_generic, type_like_token};
use crate::text::{contains, ends_with, is_ascii_alpha, is_ident_continue, is_ident_start, is_ws, lemma_trim_end, lemma_trim_start, spaces, starts_with, strip_prefix, trim, trim_end};

verus! {

proof fn lemma_enum_item_first(t: Seq<char>)
    requires
        spec_is_enum_item(t),
    ensures
        t.len() > 0,
        t[0] == 'e' || t[0] == 'p',
{
    reveal_strlit("enum");
    reveal_strlit(" ");
    reveal_strlit("[");
    reveal_strlit("pub ");
    reveal_strlit("pub(crate) ");
    let kw = "enum"@;
    if t == kw {
    } else if starts_with(t, kw + " "@) {
        assert(t[0] == (kw + " "@)[0]);
    } else if starts_with(t, kw + "["@) {
        assert(t[0] == (kw + "["@)[0]);
    } else if starts_with(t, "pub "@ + kw + " "@) {
        assert(t[0] == ("pub "@ + kw + " "@)[0]);
    } else if starts_with(t, "pub "@ + kw + "["@) {
        assert(t[0] == ("pub "@ + kw + "["@)[0]);
    } else if starts_with(t, "pub(crate) "@ + kw + " "@) {
        assert(t[0] == ("pub(crate) "@ + kw + " "@)[0]);
    } else {
        assert(t[0] == ("pub(crate) "@ + kw + "["@)[0]);
    }
}

/// An enum item (`enum X`, `pub enum X`, `pub(crate) enum X`, with or without generics)
/// met at the top level or in a block is recorded in the source tree with the kind
/// `enum`, so the language server reports it as an enum.
pub proof fn law_enum_items_are_recorded_as_enums(n: SpecNode, ctx: Context, is_last: bool, base: int)
    requires
        ctx == Context::Root || ctx == Context::Block,
        spec_is_enum_item(trim(n.text)),
        !spec_is_struct_item(trim(n.text)),
    ensures
        spec_classify_node(n, ctx) == "enum"@,
        spec_emit_node(n, ctx, is_last, base).tree.len() == 1,
        spec_emit_node(n, ctx, is_last, base).tree[0].kind == "enum"@,
{
    let t = trim(n.text);
    lemma_enum_item_first(t);
    reveal_strlit("//");
    reveal_strlit("#!");
    assert(!starts_with(t, "//"@)) by {
        if starts_with(t, "//"@) {
            assert(t[0] == "//"@[0]);
        }
    }
    assert(strip_prefix(t, "#!"@) is None) by {
        if starts_with(t, "#!"@) {
            assert(t[0] == "#!"@[0]);
        }
    }
    assert(spec_lower_attribute(t) is None);
}

/// In a trait body, a required method (a function line without `=`) becomes one line:
/// its indentation, its lowered signature and a closing `;`.
pub proof fn law_trait_required_methods_end_with_semicolon(n: SpecNode, is_last: bool, base: int)
    requires
        spec_is_function(trim(n.text)),
        !contains(trim(n.text), "="@),
        !starts_with(trim(n.text), "//"@),
        spec_lower_attribute(trim(n.text)) is None,
    ensures
        spec_emit_node(n, Context::Trait, is_last, base).lines.len() == 1,
        spec_emit_node(n, Context::Trait, is_last, base).lines[0] == spaces(n.indent as nat)
            + spec_lower_signature(trim(n.text)) + ";"@,
        ends_with(spec_emit_node(n, Context::Trait, is_last, base).lines[0], ";"@),
{
    let l = spaces(n.indent as nat) + spec_lower_signature(trim(n.text)) + ";"@;
    reveal_strlit(";");
    assert(l.subrange(l.len() - 1, l.len() as int) =~= ";"@);
}

/// An inline `if c then e` with no top-level `else` becomes `if c { e }`: the keyword, the
/// lowered condition, and the lowered then-branch between braces; with a top-level `else`
/// both branches are kept, each between braces.
pub proof fn law_if_then_keeps_its_branches(t: Seq<char>, prefix: Seq<char>, rest: Seq<char>, ti: int)
    requires
        if_head(t) == Some((prefix, rest)),
        spec_find_top_level_keyword(rest, "then"@) == Some(ti),
        trim(rest.skip(ti + 4)).len() > 0,
    ensures
        ({
            let body = trim(rest.skip(ti + 4));
            let cond = spec_lower_basic_expr(trim(rest.take(ti)));
            match spec_find_else_for_then_body(body) {
                None => spec_lower_expr(t) == prefix + " "@ + cond + " { "@ + spec_lower_expr(body) + " }"@,
                Some(ei) => spec_lower_expr(t) == prefix + " "@ + cond + " { "@ + spec_lower_expr(
                    trim(body.take(ei)),
                ) + " } else { "@ + spec_lower_expr(trim(body.skip(ei + 4))) + " }"@,
            }
        }),
{
    reveal_strlit("then");
    reveal_strlit("else");
    reveal_strlit(" ");
    assert(" "@ =~= seq![' ']);
}


/// Every character can continue an identifier, and there is at least one.
pub open spec fn ident_word(w: Seq<char>) -> bool {
    w.len() > 0 && forall|k: int| 0 <= k < w.len() ==> is_ident_continue(#[trigger] w[k])
}

/// No `[` in the text.
pub open spec fn no_open_bracket(s: Seq<char>) -> bool {
    forall|k: int| 0 <= k < s.len() ==> #[trigger] s[k] != '['
}

proof fn lemma_generics_copy(s: Seq<char>, i: int, k: int, mode: Mode)
    requires
        0 <= i <= k <= s.len(),
        forall|j: int| i <= j < k ==> #[trigger] s[j] != '[',
    ensures
        generics_from(s, i, mode) == s.subrange(i, k) + generics_from(s, k, mode),
    decreases k - i,
{
    if i < k {
        lemma_generics_copy(s, i + 1, k, mode);
        assert(seq![s[i]] + s.subrange(i + 1, k) =~= s.subrange(i, k));
    } else {
        assert(s.subrange(i, k) =~= Seq::<char>::empty());
    }
}

proof fn lemma_close_plain(s: Seq<char>, j: int, c: int)
    requires
        0 <= j <= c < s.len(),
        s[c] == ']',
        forall|k: int| j <= k < c ==> #[trigger] s[k] != '[' && s[k] != ']',
    ensures
        close_from(s, j, 1, '[', ']') == Some(c),
    decreases c - j,
{
    if j < c {
        lemma_close_plain(s, j + 1, c);
    }
}

proof fn lemma_pieces_word(w: Seq<char>)
    requires
        forall|k: int| 0 <= k < w.len() ==> is_ident_continue(#[trigger] w[k]),
    ensures
        ident_pieces(w) == seq![w],
    decreases w.len(),
{
    if w.len() > 0 {
        lemma_pieces_word(w.drop_last());
        assert(w.drop_last().push(w.last()) =~= w);
    } else {
        assert(w =~= Seq::<char>::empty());
    }
}

proof fn lemma_builtin_word(t: Seq<char>)
    requires
        spec_is_builtin_type(t),
    ensures
        ident_word(t),
        is_ascii_alpha(t[0]),
        !is_ws(t[0]),
        !is_ws(t.last()),
{
    reveal_strlit("bool");
    reveal_strlit("char");
    reveal_strlit("str");
    reveal_strlit("String");
    reveal_strlit("usize");
    reveal_strlit("isize");
    reveal_strlit("u8");
    reveal_strlit("u16");
    reveal_strlit("u32");
    reveal_strlit("u64");
    reveal_strlit("u128");
    reveal_strlit("i8");
    reveal_strlit("i16");
    reveal_strlit("i32");
    reveal_strlit("i64");
    reveal_strlit("i128");
    reveal_strlit("f32");
    reveal_strlit("f64");
}

proof fn lemma_builtin_type_like(t: Seq<char>)
    requires
        spec_is_builtin_type(t),
    ensures
        spec_type_like_generic(t),
{
    lemma_builtin_word(t);
    lemma_trim_end(t);
    lemma_trim_start(t);
    assert(trim_end(t) == t);
    assert(trim(t) == t);
    assert(!all_ascii_digits(t));
    lemma_pieces_word(t);
    assert(ident_pieces(t)[0] == t);
    assert(type_like_token(ident_pieces(t)[0]));
}

/// The names of Rust's built-in scalar and string types.
pub open spec fn builtin_type_name(t: Seq<char>) -> bool {
    ||| t == "bool"@
    ||| t == "char"@
    ||| t == "str"@
    ||| t == "String"@
    ||| t == "usize"@
    ||| t == "isize"@
    ||| t == "u8"@
    ||| t == "u16"@
    ||| t == "u32"@
    ||| t == "u64"@
    ||| t == "u128"@
    ||| t == "i8"@
    ||| t == "i16"@
    ||| t == "i32"@
    ||| t == "i64"@
    ||| t == "i128"@
    ||| t == "f32"@
    ||| t == "f64"@
}

/// In expressions, `Name[T]` with a built-in type `T` (`bool`, `char`, `str`, `String`,
/// `usize`, `isize`, `u8` to `u128`, `i8` to `i128`, `f32`, `f64`) is a generic argument:
/// it becomes `Name<T>`, the text before and after it (with no `[`, and not a call right
/// after) staying as it is.
pub proof fn law_builtin_type_arguments_become_generics(p: Seq<char>, name: Seq<char>, t: Seq<char>, z: Seq<char>)
    requires
        no_open_bracket(p),
        ident_word(name),
        builtin_type_name(t),
        no_open_bracket(z),
        z.len() == 0 || z[0] != '(',
    ensures
        spec_replace_square_generics(p + name + seq!['['] + t + seq![']'] + z, Mode::Expr)
            == p + name + seq!['<'] + t + seq!['>'] + z,
{
    assert(spec_is_builtin_type(t));
    lemma_builtin_word(t);
    let s = p + name + seq!['['] + t + seq![']'] + z;
    let i0 = (p.len() + name.len()) as int;
    let c = i0 + 1 + t.len();
    assert forall|j: int| 0 <= j < i0 implies #[trigger] s[j] != '[' by {
        if j < p.len() {
            assert(s[j] == p[j]);
        } else {
            assert(s[j] == name[j - p.len()]);
        }
    }
    lemma_generics_copy(s, 0, i0, Mode::Expr);
    assert(s.subrange(0, i0) =~= p + name);
    assert(s[i0] == '[');
    assert(s[i0 - 1] == name.last());
    assert forall|k: int| i0 + 1 <= k < c implies #[trigger] s[k] != '[' && s[k] != ']' by {
        assert(s[k] == t[k - i0 - 1]);
    }
    assert(s[c] == ']');
    lemma_close_plain(s, i0 + 1, c);
    assert(spec_matching_bracket(s, i0, '[', ']') == Some(c));
    assert(s.subrange(i0 + 1, c) =~= t);
    lemma_builtin_type_like(t);
    assert forall|k: int| 0 <= k < t.len() implies #[trigger] t[k] != '[' by {}
    lemma_generics_copy(t, 0, t.len() as int, Mode::Type);
    assert(t.subrange(0, t.len() as int) =~= t);
    assert(generics_from(t, t.len() as int, Mode::Type) == Seq::<char>::empty());
    assert forall|j: int| c + 1 <= j < s.len() implies #[trigger] s[j] != '[' by {
        assert(s[j] == z[j - c - 1]);
    }
    lemma_generics_copy(s, c + 1, s.len() as int, Mode::Expr);
    assert(s.subrange(c + 1, s.len() as int) =~= z);
    assert(generics_from(s, s.len() as int, Mode::Expr) == Seq::<char>::empty());
    if z.len() > 0 {
        assert(s[c + 1] == z[0]);
    }
    assert(generics_from(s, i0, Mode::Expr) == seq!['<'] + t + seq!['>'] + generics_from(s, c + 1, Mode::Expr));
    assert(s.subrange(0, i0) + (seq!['<'] + t + seq!['>'] + z) =~= p + name + seq!['<'] + t + seq!['>'] + z);
}

/// One or more `.` + identifier segments, such as `.util.helper`: each `.` is followed by
/// the start of an identifier, and every other character continues one.
pub open spec fn dotted_segments(t: Seq<char>) -> bool {
    &&& t.len() >= 2
    &&& t[0] == '.'
    &&& forall|k: int| 0 <= k < t.len() && #[trigger] t[k] == '.' ==> k + 1 < t.len() && is_ident_start(t[k + 1])
    &&& forall|k: int| 0 <= k < t.len() && #[trigger] t[k] != '.' ==> is_ident_continue(t[k])
}

proof fn lemma_ident_end_shift(a: Seq<char>, z: Seq<char>, j: int)
    requires
        0 <= j <= z.len(),
    ensures
        ident_end(a + z, a.len() + j) == a.len() + ident_end(z, j),
    decreases z.len() - j,
{
    if j < z.len() {
        assert((a + z)[a.len() + j] == z[j]);
        lemma_ident_end_shift(a, z, j + 1);
    }
}

proof fn lemma_path_end_shift(a: Seq<char>, z: Seq<char>, j: int)
    requires
        0 <= j <= z.len(),
    ensures
        path_end(a + z, a.len() + j) == a.len() + path_end(z, j),
    decreases z.len() - j,
{
    let s = a + z;
    let i = a.len() + j;
    if j + 1 < z.len() {
        assert(s[i] == z[j]);
        assert(s[i + 1] == z[j + 1]);
        if z[j] == '.' && is_ident_start(z[j + 1]) {
            lemma_ident_end_shift(a, z, j + 1);
            lemma_ident_end(z, j + 1);
            let e = ident_end(z, j + 1);
            lemma_path_end_shift(a, z, e);
        }
    }
}

proof fn lemma_paths_from_shift(a: Seq<char>, z: Seq<char>, j: int, mode: Mode)
    requires
        0 <= j <= z.len(),
    ensures
        paths_from(a + z, a.len() + j, mode) == paths_from(z, j, mode),
    decreases z.len() - j,
{
    let s = a + z;
    let i = a.len() + j;
    if j < z.len() {
        assert(s[i] == z[j]);
        if is_ident_start(z[j]) {
            lemma_ident_end_shift(a, z, j);
            lemma_ident_end(z, j);
            let fe = ident_end(z, j);
            lemma_path_end_shift(a, z, fe);
            lemma_path_end(z, fe);
            let end = path_end(z, fe);
            if j < end {
                assert(s.subrange(i, a.len() + end) =~= z.subrange(j, end));
                assert(s.subrange(i, a.len() + fe) =~= z.subrange(j, fe));
                if end < z.len() {
                    assert(s[a.len() + end] == z[end]);
                }
                lemma_paths_from_shift(a, z, end, mode);
            }
        } else {
            lemma_paths_from_shift(a, z, j + 1, mode);
        }
    }
}

proof fn lemma_dots_to_colons_append(x: Seq<char>, y: Seq<char>)
    ensures
        dots_to_colons(x + y) == dots_to_colons(x) + dots_to_colons(y),
    decreases y.len(),
{
    if y.len() == 0 {
        assert(x + y =~= x);
        assert(dots_to_colons(x) + dots_to_colons(y) =~= dots_to_colons(x));
    } else {
        assert((x + y).drop_last() =~= x + y.drop_last());
        assert((x + y).last() == y.last());
        lemma_dots_to_colons_append(x, y.drop_last());
    }
}

proof fn lemma_dots_to_colons_plain(x: Seq<char>)
    requires
        forall|k: int| 0 <= k < x.len() ==> #[trigger] x[k] != '.',
    ensures
        dots_to_colons(x) == x,
    decreases x.len(),
{
    if x.len() == 0 {
        assert(x =~= Seq::<char>::empty());
    } else {
        lemma_dots_to_colons_plain(x.drop_last());
        assert(x.drop_last().push(x.last()) =~= x);
    }
}

/// Within `s`, the path whose segments are the dotted run from `i` (a `.` or the run's
/// end) to `l` ends at `l`.
proof fn lemma_path_runs_to(s: Seq<char>, i: int, l: int)
    requires
        0 < i <= l <= s.len(),
        l < s.len() ==> !is_ident_continue(s[l]) && s[l] != '.',
        i < l ==> s[i] == '.',
        forall|k: int| i <= k < l && #[trigger] s[k] == '.' ==> k + 1 < l && is_ident_start(s[k + 1]),
        forall|k: int| i <= k < l && #[trigger] s[k] != '.' ==> is_ident_continue(s[k]),
    ensures
        path_end(s, i) == l,
    decreases l - i,
{
    if i < l {
        assert(s[i] == '.');
        assert(i + 1 < l && is_ident_start(s[i + 1]));
        lemma_ident_end(s, i + 1);
        let e = ident_end(s, i + 1);
        assert(e > i + 1);
        if e > l {
            assert(is_ident_continue(s[l]));
        }
        if e < l {
            assert(!is_ident_continue(s[e]));
            assert(s[e] == '.');
        }
        lemma_path_runs_to(s, e, l);
    } else {
        if l + 1 < s.len() {
            assert(s[l] != '.');
        }
    }
}

/// In expressions, a dotted path that starts at a well-known root (`std`, `core`, `alloc`,
/// `crate`, `super`, `Self`) is a Rust path: every `.` of it becomes `::`, and the text
/// after the path is lowered on its own.
pub proof fn law_rooted_paths_take_colons(root: Seq<char>, t: Seq<char>, z: Seq<char>)
    requires
        root == "std"@ || root == "core"@ || root == "alloc"@ || root == "crate"@ || root == "super"@
            || root == "Self"@,
        dotted_segments(t),
        z.len() == 0 || (!is_ident_continue(z[0]) && z[0] != '.'),
    ensures
        spec_replace_dotted_paths(root + t + z, Mode::Expr) == root + dots_to_colons(t)
            + spec_replace_dotted_paths(z, Mode::Expr),
{
    reveal_strlit("std");
    reveal_strlit("core");
    reveal_strlit("alloc");
    reveal_strlit("crate");
    reveal_strlit("super");
    reveal_strlit("Self");
    assert(ident_word(root) && is_ident_start(root[0]) && root.len() <= 5);
    let s = root + t + z;
    let r = root.len() as int;
    let l = r + t.len();
    assert forall|k: int| 0 <= k < r implies is_ident_continue(#[trigger] s[k]) by {
        assert(s[k] == root[k]);
    }
    assert(s[r] == '.');
    lemma_ident_end(s, 0);
    let fe = ident_end(s, 0);
    if fe > r {
        assert(is_ident_continue(s[r]));
    }
    if fe < r {
        assert(!is_ident_continue(s[fe]));
    }
    assert(fe == r);
    if l < s.len() {
        assert(s[l] == z[0]);
    }
    assert forall|k: int| r <= k < l && #[trigger] s[k] == '.' implies k + 1 < l && is_ident_start(s[k + 1]) by {
        assert(s[k] == t[k - r]);
        assert(t[k - r] == '.');
        assert(s[k + 1] == t[k - r + 1]);
    }
    assert forall|k: int| r <= k < l && #[trigger] s[k] != '.' implies is_ident_continue(s[k]) by {
        assert(s[k] == t[k - r]);
    }
    lemma_path_runs_to(s, r, l);
    assert(path_end(s, fe) == l);
    assert(s.subrange(0, fe) == root) by {
        assert(s.subrange(0, fe) =~= root);
    }
    assert(spec_should_convert_path(root, Mode::Expr, if l < s.len() { Some(s[l]) } else { None }));
    assert(s.subrange(0, l) =~= root + t);
    assert forall|k: int| 0 <= k < root.len() implies #[trigger] root[k] != '.' by {}
    lemma_dots_to_colons_plain(root);
    lemma_dots_to_colons_append(root, t);
    lemma_paths_from_shift(root + t, z, 0, Mode::Expr);
    assert(root + t + z == (root + t) + z);
}

} // verus!
