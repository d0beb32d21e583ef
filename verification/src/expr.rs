//! Top-level keyword search, `if .. then .. else` lowering, and the lowering entry
//! points for expressions, signatures and attributes.
use vstd::prelude::*;
use crate::lower::{Mode, replace_dotted_paths, replace_square_generics, spec_replace_dotted_paths, spec_replace_square_generics};
use crate::text::{chars_of, find, find_exec, ident_continue, is_ident_continue, lemma_find_from, lemma_trim_len, occurs_at, occurs_at_exec, push_all, push_lit, slice, starts_with, strip_prefix, strip_prefix_lit, trim, trim_exec};

verus! {

/// Nesting depth after reading `c`: one up on `open`, one down (never below zero) on `close`.
pub open spec fn depth_after(c: char, d: nat, open: char, close: char) -> nat {
    if c == open {
        d + 1
    } else if c == close {
        if d == 0 {
            0
        } else {
            (d - 1) as nat
        }
    } else {
        d
    }
}

fn depth_step(c: char, d: usize, open: char, close: char) -> (r: usize)
    requires
        d < usize::MAX,
        open != close,
    ensures
        r as nat == depth_after(c, d as nat, open, close),
{
    if c == open {
        d + 1
    } else if c == close {
        if d == 0 {
            0
        } else {
            d - 1
        }
    } else {
        d
    }
}

/// No identifier character touches the `len` characters at `index`.
pub open spec fn spec_is_keyword_boundary(t: Seq<char>, index: int, len: int) -> bool {
    &&& (index == 0 || !is_ident_continue(t[index - 1]))
    &&& (index + len >= t.len() || !is_ident_continue(t[index + len]))
}

pub fn is_keyword_boundary(t: &Vec<char>, index: usize, len: usize) -> (r: bool)
    requires
        index + len <= t.len(),
    ensures
        r == spec_is_keyword_boundary(t@, index as int, len as int),
{
    (index == 0 || !ident_continue(t[index - 1])) && (index + len >= t.len() || !ident_continue(
        t[index + len],
    ))
}

/// Scanning from `i` with the given bracket depths, the first place outside all
/// brackets where the keyword `kw` stands as a whole word.
pub open spec fn keyword_from(t: Seq<char>, kw: Seq<char>, i: int, r: nat, s: nat, c: nat) -> Option<
    int,
>
    decreases t.len() - i,
{
    if i < 0 || i >= t.len() {
        None
    } else {
        let r2 = depth_after(t[i], r, '(', ')');
        let s2 = depth_after(t[i], s, '[', ']');
        let c2 = depth_after(t[i], c, '{', '}');
        if r2 == 0 && s2 == 0 && c2 == 0 && occurs_at(t, i, kw) && spec_is_keyword_boundary(
            t,
            i,
            kw.len() as int,
        ) {
            Some(i)
        } else {
            keyword_from(t, kw, i + 1, r2, s2, c2)
        }
    }
}

/// `find_top_level_keyword`.
pub open spec fn spec_find_top_level_keyword(t: Seq<char>, kw: Seq<char>) -> Option<int> {
    keyword_from(t, kw, 0, 0, 0, 0)
}

pub proof fn lemma_keyword_from(t: Seq<char>, kw: Seq<char>, i: int, r: nat, s: nat, c: nat)
    requires
        0 <= i,
    ensures
        keyword_from(t, kw, i, r, s, c) matches Some(k) ==> i <= k && k + kw.len() <= t.len(),
    decreases t.len() - i,
{
    if i < t.len() {
        let r2 = depth_after(t[i], r, '(', ')');
        let s2 = depth_after(t[i], s, '[', ']');
        let c2 = depth_after(t[i], c, '{', '}');
        lemma_keyword_from(t, kw, i + 1, r2, s2, c2);
    }
}

pub fn find_top_level_keyword(t: &Vec<char>, keyword: &str) -> (res: Option<usize>)
    ensures
        match res {
            Some(k) => spec_find_top_level_keyword(t@, keyword@) == Some(k as int),
            None => spec_find_top_level_keyword(t@, keyword@) is None,
        },
{
    let kw = chars_of(keyword);
    let mut round: usize = 0;
    let mut square: usize = 0;
    let mut curly: usize = 0;
    let mut index: usize = 0;
    while index < t.len()
        invariant
            index <= t.len(),
            round <= index,
            square <= index,
            curly <= index,
            kw@ == keyword@,
            spec_find_top_level_keyword(t@, keyword@) == keyword_from(
                t@,
                keyword@,
                index as int,
                round as nat,
                square as nat,
                curly as nat,
            ),
        decreases t.len() - index,
    {
        let c = t[index];
        round = depth_step(c, round, '(', ')');
        square = depth_step(c, square, '[', ']');
        curly = depth_step(c, curly, '{', '}');
        if round == 0 && square == 0 && curly == 0 && occurs_at_exec(t, index, &kw)
            && is_keyword_boundary(t, index, kw.len()) {
            return Some(index);
        }
        index += 1;
    }
    None
}

/// Scanning a `then` body from `i`: the `else` that belongs to it, skipping the
/// `else` branches of `if`s nested inside it.
pub open spec fn else_from(t: Seq<char>, i: int, r: nat, s: nat, c: nat, nested: nat) -> Option<
    int,
>
    decreases t.len() - i,
{
    if i < 0 || i >= t.len() {
        None
    } else {
        let r2 = depth_after(t[i], r, '(', ')');
        let s2 = depth_after(t[i], s, '[', ']');
        let c2 = depth_after(t[i], c, '{', '}');
        if r2 == 0 && s2 == 0 && c2 == 0 {
            if occurs_at(t, i, "if"@) && spec_is_keyword_boundary(t, i, "if"@.len() as int) {
                else_from(t, i + 1, r2, s2, c2, nested + 1)
            } else if occurs_at(t, i, "else"@) && spec_is_keyword_boundary(
                t,
                i,
                "else"@.len() as int,
            ) {
                if nested == 0 {
                    Some(i)
                } else {
                    else_from(t, i + 1, r2, s2, c2, (nested - 1) as nat)
                }
            } else {
                else_from(t, i + 1, r2, s2, c2, nested)
            }
        } else {
            else_from(t, i + 1, r2, s2, c2, nested)
        }
    }
}

/// `find_else_for_then_body`.
pub open spec fn spec_find_else_for_then_body(t: Seq<char>) -> Option<int> {
    else_from(t, 0, 0, 0, 0, 0)
}

pub proof fn lemma_else_from(t: Seq<char>, i: int, r: nat, s: nat, c: nat, nested: nat)
    requires
        0 <= i,
    ensures
        else_from(t, i, r, s, c, nested) matches Some(k) ==> i <= k && k + "else"@.len()
            <= t.len(),
    decreases t.len() - i,
{
    if i < t.len() {
        let r2 = depth_after(t[i], r, '(', ')');
        let s2 = depth_after(t[i], s, '[', ']');
        let c2 = depth_after(t[i], c, '{', '}');
        if r2 == 0 && s2 == 0 && c2 == 0 {
            if occurs_at(t, i, "if"@) && spec_is_keyword_boundary(t, i, "if"@.len() as int) {
                lemma_else_from(t, i + 1, r2, s2, c2, nested + 1);
            } else if occurs_at(t, i, "else"@) && spec_is_keyword_boundary(
                t,
                i,
                "else"@.len() as int,
            ) {
                if nested != 0 {
                    lemma_else_from(t, i + 1, r2, s2, c2, (nested - 1) as nat);
                }
            } else {
                lemma_else_from(t, i + 1, r2, s2, c2, nested);
            }
        } else {
            lemma_else_from(t, i + 1, r2, s2, c2, nested);
        }
    }
}

pub fn find_else_for_then_body(t: &Vec<char>) -> (res: Option<usize>)
    ensures
        match res {
            Some(k) => spec_find_else_for_then_body(t@) == Some(k as int),
            None => spec_find_else_for_then_body(t@) is None,
        },
{
    let kw_if = chars_of("if");
    let kw_else = chars_of("else");
    let mut round: usize = 0;
    let mut square: usize = 0;
    let mut curly: usize = 0;
    let mut nested: usize = 0;
    let mut index: usize = 0;
    while index < t.len()
        invariant
            index <= t.len(),
            round <= index,
            square <= index,
            curly <= index,
            nested <= index,
            kw_if@ == "if"@,
            kw_else@ == "else"@,
            spec_find_else_for_then_body(t@) == else_from(
                t@,
                index as int,
                round as nat,
                square as nat,
                curly as nat,
                nested as nat,
            ),
        decreases t.len() - index,
    {
        let c = t[index];
        round = depth_step(c, round, '(', ')');
        square = depth_step(c, square, '[', ']');
        curly = depth_step(c, curly, '{', '}');
        if round == 0 && square == 0 && curly == 0 {
            if occurs_at_exec(t, index, &kw_if) && is_keyword_boundary(t, index, kw_if.len()) {
                nested += 1;
            } else if occurs_at_exec(t, index, &kw_else) && is_keyword_boundary(
                t,
                index,
                kw_else.len(),
            ) {
                if nested == 0 {
                    return Some(index);
                }
                nested -= 1;
            }
        }
        index += 1;
    }
    None
}

// ---------------------------------------------------------------- lowering entry points

/// Lowering of a type position or item signature.
pub open spec fn spec_lower_signature(t: Seq<char>) -> Seq<char> {
    spec_replace_dotted_paths(spec_replace_square_generics(t, Mode::Type), Mode::Type)
}

/// Lowering of an expression that is not an `if .. then` form.
pub open spec fn spec_lower_basic_expr(t: Seq<char>) -> Seq<char> {
    spec_replace_dotted_paths(spec_replace_square_generics(t, Mode::Expr), Mode::Expr)
}

pub fn lower_signature(t: &Vec<char>) -> (r: Vec<char>)
    ensures
        r@ == spec_lower_signature(t@),
{
    let g = replace_square_generics(t, Mode::Type);
    replace_dotted_paths(&g, Mode::Type)
}

pub fn lower_basic_expr(t: &Vec<char>) -> (r: Vec<char>)
    ensures
        r@ == spec_lower_basic_expr(t@),
{
    let g = replace_square_generics(t, Mode::Expr);
    replace_dotted_paths(&g, Mode::Expr)
}

/// The keyword that starts an `if` form and the text after it.
pub open spec fn if_head(t: Seq<char>) -> Option<(Seq<char>, Seq<char>)> {
    if starts_with(t, "if "@) {
        Some(("if"@, t.skip("if "@.len() as int)))
    } else if starts_with(t, "else if "@) {
        Some(("else if"@, t.skip("else if "@.len() as int)))
    } else {
        None
    }
}

/// Expression lowering: an `if c then a else b` form becomes `if c { a } else { b }`,
/// anything else is lowered by `spec_lower_basic_expr`.
pub open spec fn spec_lower_expr(t: Seq<char>) -> Seq<char>
    decreases t.len(), 1int,
{
    match spec_lower_if_then_else(t) {
        Some(r) => r,
        None => spec_lower_basic_expr(t),
    }
}

/// `lower_if_then_else`.
pub open spec fn spec_lower_if_then_else(t: Seq<char>) -> Option<Seq<char>>
    decreases t.len(), 0int,
{
    match if_head(t) {
        None => None,
        Some((prefix, rest)) => {
            proof {
                reveal_strlit("if ");
                reveal_strlit("else if ");
                reveal_strlit("then");
                reveal_strlit("else");
            }
            match spec_find_top_level_keyword(rest, "then"@) {
                None => None,
                Some(ti) => {
                    proof {
                        lemma_keyword_from(rest, "then"@, 0, 0, 0, 0);
                    }
                    let condition = trim(rest.take(ti));
                    let body = trim(rest.skip(ti + "then"@.len()));
                    if body.len() == 0 {
                        Some(prefix + seq![' '] + spec_lower_basic_expr(condition))
                    } else {
                        let cond = spec_lower_basic_expr(condition);
                        proof {
                            lemma_trim_len(rest.skip(ti + "then"@.len()));
                        }
                        match spec_find_else_for_then_body(body) {
                            Some(ei) => {
                                proof {
                                    lemma_else_from(body, 0, 0, 0, 0, 0);
                                    lemma_trim_len(body.take(ei));
                                    lemma_trim_len(body.skip(ei + "else"@.len()));
                                }
                                let then_expr = trim(body.take(ei));
                                let else_expr = trim(body.skip(ei + "else"@.len()));
                                Some(prefix + seq![' '] + cond + " { "@ + spec_lower_expr(then_expr)
                                    + " } else { "@ + spec_lower_expr(else_expr) + " }"@)
                            },
                            None => Some(prefix + seq![' '] + cond + " { "@ + spec_lower_expr(body)
                                + " }"@),
                        }
                    }
                },
            }
        },
    }
}

pub fn lower_expr(t: &Vec<char>) -> (r: Vec<char>)
    ensures
        r@ == spec_lower_expr(t@),
    decreases t@.len(), 1int,
{
    match lower_if_then_else(t) {
        Some(r) => r,
        None => lower_basic_expr(t),
    }
}

pub fn lower_if_then_else(t: &Vec<char>) -> (res: Option<Vec<char>>)
    ensures
        match res {
            Some(r) => spec_lower_if_then_else(t@) == Some(r@),
            None => spec_lower_if_then_else(t@) is None,
        },
    decreases t@.len(), 0int,
{
    proof {
        reveal_strlit("if ");
        reveal_strlit("else if ");
        reveal_strlit("then");
        reveal_strlit("else");
    }
    let (prefix, rest) = if let Some(rest) = strip_prefix_lit(t, "if ") {
        (chars_of("if"), rest)
    } else if let Some(rest) = strip_prefix_lit(t, "else if ") {
        (chars_of("else if"), rest)
    } else {
        return None;
    };
    assert(if_head(t@) == Some((prefix@, rest@)));
    let then_index = match find_top_level_keyword(&rest, "then") {
        Some(i) => i,
        None => return None,
    };
    proof {
        lemma_keyword_from(rest@, "then"@, 0, 0, 0, 0);
        assert("then"@.len() == 4);
        assert("else"@.len() == 4);
    }
    let then_len: usize = 4;
    let before = slice(&rest, 0, then_index);
    let condition = trim_exec(&before);
    let after = slice(&rest, then_index + then_len, rest.len());
    let body = trim_exec(&after);
    assert(before@ =~= rest@.take(then_index as int));
    assert(after@ =~= rest@.skip(then_index + "then"@.len()));
    let mut out = prefix;
    out.push(' ');
    if body.len() == 0 {
        let c = lower_basic_expr(&condition);
        push_all(&mut out, &c);
        return Some(out);
    }
    let cond = lower_basic_expr(&condition);
    push_all(&mut out, &cond);
    proof {
        lemma_trim_len(rest@.skip(then_index + "then"@.len()));
    }
    match find_else_for_then_body(&body) {
        Some(else_index) => {
            proof {
                lemma_else_from(body@, 0, 0, 0, 0, 0);
                lemma_trim_len(body@.take(else_index as int));
                lemma_trim_len(body@.skip(else_index + "else"@.len()));
            }
            let else_len: usize = 4;
            let tb = slice(&body, 0, else_index);
            let then_expr = trim_exec(&tb);
            let eb = slice(&body, else_index + else_len, body.len());
            let else_expr = trim_exec(&eb);
            assert(tb@ =~= body@.take(else_index as int));
            assert(eb@ =~= body@.skip(else_index + "else"@.len()));
            let lt = lower_expr(&then_expr);
            let le = lower_expr(&else_expr);
            push_lit(&mut out, " { ");
            push_all(&mut out, &lt);
            push_lit(&mut out, " } else { ");
            push_all(&mut out, &le);
            push_lit(&mut out, " }");
            Some(out)
        },
        None => {
            let lb = lower_expr(&body);
            push_lit(&mut out, " { ");
            push_all(&mut out, &lb);
            push_lit(&mut out, " }");
            Some(out)
        },
    }
}

// ---------------------------------------------------------------- splitting

/// Scanning from `i`: the first `needle` outside parentheses, square brackets and
/// `::<..>` turbofish brackets.
pub open spec fn split_from(
    t: Seq<char>,
    needle: char,
    i: int,
    r: nat,
    s: nat,
    a: nat,
    prev: char,
) -> Option<int>
    decreases t.len() - i,
{
    if i < 0 || i >= t.len() {
        None
    } else {
        let ch = t[i];
        if ch == '(' {
            split_from(t, needle, i + 1, r + 1, s, a, ch)
        } else if ch == ')' {
            split_from(t, needle, i + 1, depth_after(ch, r, '(', ')'), s, a, ch)
        } else if ch == '[' {
            split_from(t, needle, i + 1, r, s + 1, a, ch)
        } else if ch == ']' {
            split_from(t, needle, i + 1, r, depth_after(ch, s, '[', ']'), a, ch)
        } else if ch == '<' && prev == ':' {
            split_from(t, needle, i + 1, r, s, a + 1, ch)
        } else if ch == '>' && a > 0 {
            split_from(t, needle, i + 1, r, s, (a - 1) as nat, ch)
        } else if ch == needle && r == 0 && s == 0 && a == 0 {
            Some(i)
        } else {
            split_from(t, needle, i + 1, r, s, a, ch)
        }
    }
}

/// `split_once_top_level`: the text before and after the first top-level `needle`.
pub open spec fn spec_split_once_top_level(t: Seq<char>, needle: char) -> Option<
    (Seq<char>, Seq<char>),
> {
    match split_from(t, needle, 0, 0, 0, 0, '\0') {
        Some(i) => Some((t.take(i), t.skip(i + 1))),
        None => None,
    }
}

pub proof fn lemma_split_from(
    t: Seq<char>,
    needle: char,
    i: int,
    r: nat,
    s: nat,
    a: nat,
    prev: char,
)
    requires
        0 <= i,
    ensures
        split_from(t, needle, i, r, s, a, prev) matches Some(k) ==> i <= k < t.len(),
    decreases t.len() - i,
{
    if i < t.len() {
        let ch = t[i];
        if ch == '(' {
            lemma_split_from(t, needle, i + 1, r + 1, s, a, ch);
        } else if ch == ')' {
            lemma_split_from(t, needle, i + 1, depth_after(ch, r, '(', ')'), s, a, ch);
        } else if ch == '[' {
            lemma_split_from(t, needle, i + 1, r, s + 1, a, ch);
        } else if ch == ']' {
            lemma_split_from(t, needle, i + 1, r, depth_after(ch, s, '[', ']'), a, ch);
        } else if ch == '<' && prev == ':' {
            lemma_split_from(t, needle, i + 1, r, s, a + 1, ch);
        } else if ch == '>' && a > 0 {
            lemma_split_from(t, needle, i + 1, r, s, (a - 1) as nat, ch);
        } else if ch == needle && r == 0 && s == 0 && a == 0 {
        } else {
            lemma_split_from(t, needle, i + 1, r, s, a, ch);
        }
    }
}

pub fn split_once_top_level(t: &Vec<char>, needle: char) -> (res: Option<(Vec<char>, Vec<char>)>)
    ensures
        match res {
            Some((a, b)) => spec_split_once_top_level(t@, needle) == Some((a@, b@)),
            None => spec_split_once_top_level(t@, needle) is None,
        },
{
    let mut round: usize = 0;
    let mut square: usize = 0;
    let mut angle: usize = 0;
    let mut previous: char = '\0';
    let mut index: usize = 0;
    while index < t.len()
        invariant
            index <= t.len(),
            round <= index,
            square <= index,
            angle <= index,
            split_from(t@, needle, 0, 0, 0, 0, '\0') == split_from(
                t@,
                needle,
                index as int,
                round as nat,
                square as nat,
                angle as nat,
                previous,
            ),
        decreases t.len() - index,
    {
        let ch = t[index];
        if ch == '(' {
            round += 1;
        } else if ch == ')' {
            round = depth_step(ch, round, '(', ')');
        } else if ch == '[' {
            square += 1;
        } else if ch == ']' {
            square = depth_step(ch, square, '[', ']');
        } else if ch == '<' && previous == ':' {
            angle += 1;
        } else if ch == '>' && angle > 0 {
            angle -= 1;
        } else if ch == needle && round == 0 && square == 0 && angle == 0 {
            let a = slice(t, 0, index);
            let b = slice(t, index + 1, t.len());
            assert(b@ =~= t@.skip(index + 1));
            return Some((a, b));
        }
        previous = ch;
        index += 1;
    }
    None
}

/// `split_arrow`: the text before and after the first `=>`.
pub open spec fn spec_split_arrow(t: Seq<char>) -> Option<(Seq<char>, Seq<char>)> {
    match find(t, "=>"@) {
        Some(i) => Some((t.take(i), t.skip(i + "=>"@.len()))),
        None => None,
    }
}

pub fn split_arrow(t: &Vec<char>) -> (res: Option<(Vec<char>, Vec<char>)>)
    ensures
        match res {
            Some((a, b)) => spec_split_arrow(t@) == Some((a@, b@)),
            None => spec_split_arrow(t@) is None,
        },
{
    let arrow = chars_of("=>");
    match find_exec(t, &arrow) {
        Some(i) => {
            proof {
                lemma_find_from(t@, "=>"@, 0);
                assert(find(t@, "=>"@) == Some(i as int));
                assert(occurs_at(t@, i as int, arrow@));
                assert(i + arrow@.len() <= t@.len());
            }
            assert(arrow@.len() == arrow.len());
            assert(i + arrow.len() <= t.len());
            let a = slice(t, 0, i);
            let b = slice(t, i + arrow.len(), t.len());
            assert(b@ =~= t@.skip(i + "=>"@.len()));
            Some((a, b))
        },
        None => None,
    }
}

// ---------------------------------------------------------------- attributes

/// `lower_attribute`: `#derive(..)`, `#[..]`, `#!allow(..)` and `#![..]` lines become Rust
/// attributes; other lines are not attributes.
pub open spec fn spec_lower_attribute(t: Seq<char>) -> Option<Seq<char>> {
    match strip_prefix(t, "#!"@) {
        Some(rest) => if rest.len() > 0 && rest[0] == '[' {
            Some("#!"@ + spec_lower_signature(rest))
        } else {
            Some("#!["@ + spec_lower_signature(rest) + "]"@)
        },
        None => if t.len() > 0 && t[0] == '#' {
            let rest = t.skip(1);
            if rest.len() > 0 && rest[0] == '[' {
                Some(spec_lower_signature(t))
            } else {
                Some("#["@ + spec_lower_signature(rest) + "]"@)
            }
        } else {
            None
        },
    }
}

pub fn lower_attribute(t: &Vec<char>) -> (res: Option<Vec<char>>)
    ensures
        match res {
            Some(r) => spec_lower_attribute(t@) == Some(r@),
            None => spec_lower_attribute(t@) is None,
        },
{
    if let Some(rest) = strip_prefix_lit(t, "#!") {
        let body = lower_signature(&rest);
        if rest.len() > 0 && rest[0] == '[' {
            let mut out = chars_of("#!");
            push_all(&mut out, &body);
            Some(out)
        } else {
            let mut out = chars_of("#![");
            push_all(&mut out, &body);
            push_lit(&mut out, "]");
            Some(out)
        }
    } else if t.len() > 0 && t[0] == '#' {
        let rest = slice(t, 1, t.len());
        assert(rest@ =~= t@.skip(1));
        if rest.len() > 0 && rest[0] == '[' {
            Some(lower_signature(t))
        } else {
            let body = lower_signature(&rest);
            let mut out = chars_of("#[");
            push_all(&mut out, &body);
            push_lit(&mut out, "]");
            Some(out)
        }
    } else {
        None
    }
}

} // verus!
