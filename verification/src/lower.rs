//! Lowering of expressions, signatures and attributes: square-bracket generics,
//! dotted paths and `if .. then .. else` expressions.
use vstd::prelude::*;
use crate::text::{ascii_digit, ascii_upper, eq_lit, ident_continue, ident_start, is_ascii_digit, is_ascii_upper, is_ident_continue, is_ident_start, push_all, slice, trim, trim_exec, unicode_uppercase, uppercase};

verus! {

/// Whether a text stands where Rust expects a type or an expression.
#[derive(Clone, Copy, PartialEq, Eq, Debug)]
pub enum Mode {
    Type,
    Expr,
}

// ---------------------------------------------------------------- brackets

/// Scanning from `j` with nesting `depth`, the position where the bracket opened
/// before `j` closes.
pub open spec fn close_from(s: Seq<char>, j: int, depth: int, open: char, close: char) -> Option<
    int,
>
    decreases s.len() - j,
{
    if j < 0 || j >= s.len() {
        None
    } else if s[j] == open {
        close_from(s, j + 1, depth + 1, open, close)
    } else if s[j] == close {
        if depth - 1 == 0 {
            Some(j)
        } else {
            close_from(s, j + 1, depth - 1, open, close)
        }
    } else {
        close_from(s, j + 1, depth, open, close)
    }
}

/// The position of the bracket that closes the one at `open_index`.
pub open spec fn spec_matching_bracket(s: Seq<char>, open_index: int, open: char, close: char) -> Option<
    int,
> {
    close_from(s, open_index, 0, open, close)
}

pub proof fn lemma_close_from(s: Seq<char>, j: int, depth: int, open: char, close: char)
    requires
        0 <= j,
    ensures
        close_from(s, j, depth, open, close) matches Some(k) ==> j <= k < s.len(),
    decreases s.len() - j,
{
    if j >= s.len() {
    } else if s[j] == open {
        lemma_close_from(s, j + 1, depth + 1, open, close);
    } else if s[j] == close {
        if depth - 1 != 0 {
            lemma_close_from(s, j + 1, depth - 1, open, close);
        }
    } else {
        lemma_close_from(s, j + 1, depth, open, close);
    }
}

pub fn matching_bracket(chars: &Vec<char>, open_index: usize, open: char, close: char) -> (r:
    Option<usize>)
    requires
        open_index < chars.len(),
        chars@[open_index as int] == open,
        open != close,
    ensures
        match r {
            Some(k) => spec_matching_bracket(chars@, open_index as int, open, close) == Some(
                k as int,
            ),
            None => spec_matching_bracket(chars@, open_index as int, open, close) is None,
        },
{
    let mut depth: usize = 1;
    let mut j = open_index + 1;
    assert(close_from(chars@, open_index as int, 0, open, close) == close_from(
        chars@,
        j as int,
        1,
        open,
        close,
    ));
    while j < chars.len()
        invariant
            open_index < j <= chars.len(),
            1 <= depth <= j - open_index,
            spec_matching_bracket(chars@, open_index as int, open, close) == close_from(
                chars@,
                j as int,
                depth as int,
                open,
                close,
            ),
        decreases chars.len() - j,
    {
        let c = chars[j];
        if c == open {
            depth += 1;
        } else if c == close {
            if depth - 1 == 0 {
                return Some(j);
            }
            depth -= 1;
        }
        j += 1;
    }
    None
}

pub open spec fn spec_has_ident_before(s: Seq<char>, i: int) -> bool {
    i > 0 && (is_ident_continue(s[i - 1]) || s[i - 1] == ']' || s[i - 1] == '>')
}

pub fn has_ident_before(chars: &Vec<char>, index: usize) -> (r: bool)
    requires
        index <= chars.len(),
    ensures
        r == spec_has_ident_before(chars@, index as int),
{
    index > 0 && (ident_continue(chars[index - 1]) || chars[index - 1] == ']' || chars[index
        - 1] == '>')
}

// ---------------------------------------------------------------- generic tokens

/// The pieces of `s` between characters that cannot continue an identifier.
pub open spec fn ident_pieces(s: Seq<char>) -> Seq<Seq<char>>
    decreases s.len(),
{
    if s.len() == 0 {
        seq![Seq::<char>::empty()]
    } else {
        let r = ident_pieces(s.drop_last());
        if !is_ident_continue(s.last()) {
            r.push(Seq::<char>::empty())
        } else {
            r.update(r.len() - 1, r.last().push(s.last()))
        }
    }
}

pub proof fn lemma_ident_pieces_len(s: Seq<char>)
    ensures
        ident_pieces(s).len() >= 1,
    decreases s.len(),
{
    if s.len() > 0 {
        lemma_ident_pieces_len(s.drop_last());
    }
}

pub open spec fn spec_is_builtin_type(t: Seq<char>) -> bool {
    ||| t == "bool"@
    ||| t == "char"@
    ||| t == "str"@
    ||| t == "String"@
    ||| t == "usize"@
    ||| t == "isize"@
    ||| t == "u8"@
    ||| t == "u16"@
    ||| t == "u32"@
    ||| t == "u64"@
    ||| t == "u128"@
    ||| t == "i8"@
    ||| t == "i16"@
    ||| t == "i32"@
    ||| t == "i64"@
    ||| t == "i128"@
    ||| t == "f32"@
    ||| t == "f64"@
}

pub fn is_builtin_type(t: &Vec<char>) -> (r: bool)
    ensures
        r == spec_is_builtin_type(t@),
{
    eq_lit(t, "bool") || eq_lit(t, "char") || eq_lit(t, "str") || eq_lit(t, "String") || eq_lit(
        t,
        "usize",
    ) || eq_lit(t, "isize") || eq_lit(t, "u8") || eq_lit(t, "u16") || eq_lit(t, "u32")
        || eq_lit(t, "u64") || eq_lit(t, "u128") || eq_lit(t, "i8") || eq_lit(t, "i16")
        || eq_lit(t, "i32") || eq_lit(t, "i64") || eq_lit(t, "i128") || eq_lit(t, "f32")
        || eq_lit(t, "f64")
}

/// A token that makes bracket content look like a type argument.
pub open spec fn type_like_token(t: Seq<char>) -> bool {
    t == seq!['_'] || spec_is_builtin_type(t) || (t.len() > 0 && is_ascii_upper(t[0]))
}

pub open spec fn all_ascii_digits(s: Seq<char>) -> bool {
    forall|k: int| 0 <= k < s.len() ==> is_ascii_digit(#[trigger] s[k])
}

/// Bracket content that reads as type arguments rather than an index.
pub open spec fn spec_type_like_generic(content: Seq<char>) -> bool {
    let t = trim(content);
    &&& t.len() > 0
    &&& !all_ascii_digits(t)
    &&& exists|k: int|
        0 <= k < ident_pieces(t).len() && type_like_token(#[trigger] ident_pieces(t)[k])
}

fn token_is_type_like(t: &Vec<char>) -> (r: bool)
    ensures
        r == type_like_token(t@),
{
    let under = t.len() == 1 && t[0] == '_';
    assert(under == (t@ == seq!['_'])) by {
        if t@ == seq!['_'] {
            assert(t@.len() == 1);
            assert(seq!['_'][0] == '_');
        }
        if under {
            assert(t@ =~= seq!['_']);
        }
    }
    under || is_builtin_type(t) || (t.len() > 0 && ascii_upper(t[0]))
}

pub fn type_like_generic(content: &Vec<char>) -> (r: bool)
    ensures
        r == spec_type_like_generic(content@),
{
    let t = trim_exec(content);
    if t.len() == 0 {
        return false;
    }
    let mut k: usize = 0;
    let mut all_digits = true;
    while k < t.len()
        invariant
            k <= t.len(),
            all_digits == all_ascii_digits(t@.take(k as int)),
        decreases t.len() - k,
    {
        if !ascii_digit(t[k]) {
            all_digits = false;
        }
        k += 1;
        assert(all_digits == all_ascii_digits(t@.take(k as int))) by {
            if all_digits {
                assert forall|j: int| 0 <= j < k implies is_ascii_digit(
                    #[trigger] t@.take(k as int)[j],
                ) by {
                    if j < k - 1 {
                        assert(t@.take(k as int)[j] == t@.take(k - 1)[j]);
                    }
                }
            } else {
                if !is_ascii_digit(t@[k - 1]) {
                    assert(!is_ascii_digit(t@.take(k as int)[k - 1]));
                } else {
                    let j = choose|j: int|
                        0 <= j < k - 1 && !is_ascii_digit(#[trigger] t@.take(k - 1)[j]);
                    assert(t@.take(k as int)[j] == t@.take(k - 1)[j]);
                }
            }
        }
    }
    assert(t@.take(t.len() as int) =~= t@);
    if all_digits {
        return false;
    }
    // scan the identifier pieces
    let mut piece: Vec<char> = Vec::new();
    let mut i: usize = 0;
    let mut found = false;
    let ghost pieces = ident_pieces(t@);
    proof {
        assert(t@.take(0) =~= Seq::<char>::empty());
        assert(ident_pieces(t@.take(0)) == seq![Seq::<char>::empty()]);
    }
    while i < t.len()
        invariant
            i <= t.len(),
            ident_pieces(t@.take(i as int)).len() >= 1,
            piece@ == ident_pieces(t@.take(i as int)).last(),
            found == exists|j: int|
                0 <= j < ident_pieces(t@.take(i as int)).len() - 1 && type_like_token(
                    #[trigger] ident_pieces(t@.take(i as int))[j],
                ),
        decreases t.len() - i,
    {
        let ghost before = ident_pieces(t@.take(i as int));
        let c = t[i];
        assert(t@.take(i + 1).drop_last() =~= t@.take(i as int));
        assert(t@.take(i + 1).last() == c);
        if ident_continue(c) {
            piece.push(c);
            i += 1;
            proof {
                let after = ident_pieces(t@.take(i as int));
                assert(after == before.update(before.len() - 1, before.last().push(c)));
                assert forall|j: int| 0 <= j < after.len() - 1 implies after[j] == before[j] by {}
                if found {
                    let j = choose|j: int|
                        0 <= j < before.len() - 1 && type_like_token(#[trigger] before[j]);
                    assert(after[j] == before[j]);
                }
            }
        } else {
            let ok = token_is_type_like(&piece);
            found = found || ok;
            piece = Vec::new();
            i += 1;
            proof {
                let after = ident_pieces(t@.take(i as int));
                assert(after == before.push(Seq::<char>::empty()));
                assert(piece@ =~= after.last());
                assert forall|j: int| 0 <= j < before.len() implies after[j] == before[j] by {}
                if found {
                    if ok {
                        assert(type_like_token(after[before.len() - 1]));
                    } else {
                        let j = choose|j: int|
                            0 <= j < before.len() - 1 && type_like_token(#[trigger] before[j]);
                        assert(after[j] == before[j]);
                    }
                }
            }
        }
    }
    let last_ok = token_is_type_like(&piece);
    proof {
        assert(t@.take(t.len() as int) =~= t@);
        lemma_ident_pieces_len(t@);
    }
    found || last_ok
}

// ---------------------------------------------------------------- square generics

/// Lowering of Scala-style `[..]` generic brackets, from position `i` on.
pub open spec fn generics_from(s: Seq<char>, i: int, mode: Mode) -> Seq<char>
    decreases s.len(), s.len() - i,
{
    if i < 0 || i >= s.len() {
        Seq::empty()
    } else {
        let conv = if s[i] == '[' && spec_has_ident_before(s, i) {
            match spec_matching_bracket(s, i, '[', ']') {
                Some(close) => if i < close < s.len() {
                    let content = s.subrange(i + 1, close);
                    let next_is_paren = close + 1 < s.len() && s[close + 1] == '(';
                    let should = match mode {
                        Mode::Type => true,
                        Mode::Expr => next_is_paren || spec_type_like_generic(content),
                    };
                    if should {
                        let opener = if mode == Mode::Expr && next_is_paren {
                            seq![':', ':', '<']
                        } else {
                            seq!['<']
                        };
                        Some((opener + generics_from(content, 0, Mode::Type) + seq!['>'], close + 1))
                    } else {
                        None
                    }
                } else {
                    None
                },
                None => None,
            }
        } else {
            None
        };
        match conv {
            Some((piece, next)) => piece + generics_from(s, next, mode),
            None => seq![s[i]] + generics_from(s, i + 1, mode),
        }
    }
}

/// `replace_square_generics`: `Vec[T]` becomes `Vec<T>`; in expressions `f[T](..)`
/// becomes `f::<T>(..)`, and `xs[i]` stays an index unless the content looks like a type.
pub open spec fn spec_replace_square_generics(s: Seq<char>, mode: Mode) -> Seq<char> {
    generics_from(s, 0, mode)
}

pub fn replace_square_generics(chars: &Vec<char>, mode: Mode) -> (r: Vec<char>)
    ensures
        r@ == spec_replace_square_generics(chars@, mode),
    decreases chars@.len(),
{
    let mut output: Vec<char> = Vec::new();
    let mut index: usize = 0;
    while index < chars.len()
        invariant
            index <= chars.len(),
            output@ + generics_from(chars@, index as int, mode) == generics_from(
                chars@,
                0,
                mode,
            ),
        decreases chars.len() - index,
    {
        if chars[index] == '[' && has_ident_before(chars, index) {
            if let Some(close) = matching_bracket(chars, index, '[', ']') {
                proof {
                    lemma_close_from(chars@, index as int, 0, '[', ']');
                }
                if index < close {
                    let content = slice(chars, index + 1, close);
                    let next_is_paren = close + 1 < chars.len() && chars[close + 1] == '(';
                    let should = match mode {
                        Mode::Type => true,
                        Mode::Expr => next_is_paren || type_like_generic(&content),
                    };
                    if should {
                        let inner = replace_square_generics(&content, Mode::Type);
                        let ghost before = output@;
                        let is_expr = match mode {
                            Mode::Expr => true,
                            Mode::Type => false,
                        };
                        if is_expr && next_is_paren {
                            output.push(':');
                            output.push(':');
                            output.push('<');
                        } else {
                            output.push('<');
                        }
                        push_all(&mut output, &inner);
                        output.push('>');
                        proof {
                            let opener = if mode == Mode::Expr && next_is_paren {
                                seq![':', ':', '<']
                            } else {
                                seq!['<']
                            };
                            assert(output@ =~= before + (opener + inner@ + seq!['>']));
                            assert(output@ + generics_from(chars@, close + 1, mode) =~= before + (
                            opener + inner@ + seq!['>'] + generics_from(chars@, close + 1, mode)));
                        }
                        index = close + 1;
                        continue ;
                    }
                }
            }
        }
        let ghost before = output@;
        output.push(chars[index]);
        proof {
            assert(output@ + generics_from(chars@, index + 1, mode) =~= before + (seq![
                chars@[index as int],
            ] + generics_from(chars@, index + 1, mode)));
        }
        index += 1;
    }
    assert(output@ =~= output@ + generics_from(chars@, index as int, mode));
    output
}

// ---------------------------------------------------------------- dotted paths

/// The end of the identifier that starts at `i`.
pub open spec fn ident_end(s: Seq<char>, i: int) -> int
    decreases s.len() - i,
{
    if 0 <= i < s.len() && is_ident_continue(s[i]) {
        ident_end(s, i + 1)
    } else {
        i
    }
}

pub proof fn lemma_ident_end(s: Seq<char>, i: int)
    requires
        0 <= i <= s.len(),
    ensures
        i <= ident_end(s, i) <= s.len(),
        forall|k: int| i <= k < ident_end(s, i) ==> is_ident_continue(#[trigger] s[k]),
        ident_end(s, i) < s.len() ==> !is_ident_continue(s[ident_end(s, i)]),
    decreases s.len() - i,
{
    if 0 <= i < s.len() && is_ident_continue(s[i]) {
        lemma_ident_end(s, i + 1);
    }
}

/// The end of a dotted path whose first segment ends at `i`.
pub open spec fn path_end(s: Seq<char>, i: int) -> int
    decreases s.len() - i,
{
    if 0 <= i && i + 1 < s.len() && s[i] == '.' && is_ident_start(s[i + 1]) {
        let e = ident_end(s, i + 1);
        if i < e <= s.len() {
            path_end(s, e)
        } else {
            i
        }
    } else {
        i
    }
}

pub proof fn lemma_path_end(s: Seq<char>, i: int)
    requires
        0 <= i <= s.len(),
    ensures
        i <= path_end(s, i) <= s.len(),
    decreases s.len() - i,
{
    if 0 <= i && i + 1 < s.len() && s[i] == '.' && is_ident_start(s[i + 1]) {
        lemma_ident_end(s, i + 1);
        lemma_path_end(s, ident_end(s, i + 1));
    }
}

/// Every `.` replaced by `::`.
pub open spec fn dots_to_colons(s: Seq<char>) -> Seq<char>
    decreases s.len(),
{
    if s.len() == 0 {
        Seq::empty()
    } else {
        dots_to_colons(s.drop_last()) + if s.last() == '.' {
            seq![':', ':']
        } else {
            seq![s.last()]
        }
    }
}

/// Whether a dotted path is a Rust path: always in types; in expressions when it
/// starts at a well-known root or a capitalised name, or names a macro.
pub open spec fn spec_should_convert_path(first: Seq<char>, mode: Mode, next: Option<char>) -> bool {
    match mode {
        Mode::Type => true,
        Mode::Expr => {
            ||| first == "std"@
            ||| first == "core"@
            ||| first == "alloc"@
            ||| first == "crate"@
            ||| first == "super"@
            ||| first == "Self"@
            ||| (first.len() > 0 && unicode_uppercase(first[0]))
            ||| next == Some('!')
        },
    }
}

pub fn should_convert_path(first: &Vec<char>, mode: Mode, next: Option<char>) -> (r: bool)
    ensures
        r == spec_should_convert_path(first@, mode, next),
{
    match mode {
        Mode::Type => true,
        Mode::Expr => {
            eq_lit(first, "std") || eq_lit(first, "core") || eq_lit(first, "alloc") || eq_lit(
                first,
                "crate",
            ) || eq_lit(first, "super") || eq_lit(first, "Self") || (first.len() > 0 && uppercase(
                first[0],
            )) || next == Some('!')
        },
    }
}

/// Lowering of dotted paths from position `i` on.
pub open spec fn paths_from(s: Seq<char>, i: int, mode: Mode) -> Seq<char>
    decreases s.len() - i,
{
    if i < 0 || i >= s.len() {
        Seq::empty()
    } else if is_ident_start(s[i]) {
        let first_end = ident_end(s, i);
        let end = path_end(s, first_end);
        if i < end <= s.len() {
            let run = s.subrange(i, end);
            let next = if end < s.len() {
                Some(s[end])
            } else {
                None
            };
            let piece = if end > first_end && spec_should_convert_path(
                s.subrange(i, first_end),
                mode,
                next,
            ) {
                dots_to_colons(run)
            } else {
                run
            };
            piece + paths_from(s, end, mode)
        } else {
            Seq::empty()
        }
    } else {
        seq![s[i]] + paths_from(s, i + 1, mode)
    }
}

/// `replace_dotted_paths`: `std.io.Read` becomes `std::io::Read` where the path is a
/// Rust path; value dots such as `self.name` stay.
pub open spec fn spec_replace_dotted_paths(s: Seq<char>, mode: Mode) -> Seq<char> {
    paths_from(s, 0, mode)
}

pub(crate) fn read_ident(chars: &Vec<char>, index: usize) -> (r: usize)
    requires
        index <= chars.len(),
    ensures
        r as int == ident_end(chars@, index as int),
{
    let mut i = index;
    while i < chars.len() && ident_continue(chars[i])
        invariant
            index <= i <= chars.len(),
            ident_end(chars@, index as int) == ident_end(chars@, i as int),
        decreases chars.len() - i,
    {
        i += 1;
    }
    i
}

fn push_dots_to_colons(out: &mut Vec<char>, chars: &Vec<char>, lo: usize, hi: usize)
    requires
        lo <= hi <= chars.len(),
    ensures
        final(out)@ == old(out)@ + dots_to_colons(chars@.subrange(lo as int, hi as int)),
{
    let mut k = lo;
    assert(chars@.subrange(lo as int, lo as int) =~= Seq::<char>::empty());
    while k < hi
        invariant
            lo <= k <= hi <= chars.len(),
            out@ == old(out)@ + dots_to_colons(chars@.subrange(lo as int, k as int)),
        decreases hi - k,
    {
        let ghost before = out@;
        let c = chars[k];
        if c == '.' {
            out.push(':');
            out.push(':');
        } else {
            out.push(c);
        }
        k += 1;
        proof {
            let sub = chars@.subrange(lo as int, k as int);
            assert(sub.drop_last() =~= chars@.subrange(lo as int, k - 1));
            assert(sub.last() == c);
            assert(out@ =~= old(out)@ + dots_to_colons(sub));
        }
    }
}

pub fn replace_dotted_paths(chars: &Vec<char>, mode: Mode) -> (r: Vec<char>)
    ensures
        r@ == spec_replace_dotted_paths(chars@, mode),
{
    let mut output: Vec<char> = Vec::new();
    let mut index: usize = 0;
    while index < chars.len()
        invariant
            index <= chars.len(),
            output@ + paths_from(chars@, index as int, mode) == paths_from(chars@, 0, mode),
        decreases chars.len() - index,
    {
        let ghost before = output@;
        if ident_start(chars[index]) {
            let start = index;
            let first_end = read_ident(chars, index);
            proof {
                lemma_ident_end(chars@, index as int);
            }
            index = first_end;
            while index < chars.len() - 1 && chars[index] == '.' && ident_start(chars[index + 1])
                invariant
                    start < first_end <= index <= chars.len(),
                    path_end(chars@, first_end as int) == path_end(chars@, index as int),
                decreases chars.len() - index,
            {
                let seg_end = read_ident(chars, index + 1);
                proof {
                    lemma_ident_end(chars@, index + 1);
                }
                index = seg_end;
            }
            proof {
                lemma_path_end(chars@, first_end as int);
            }
            let end = index;
            let next = if end < chars.len() {
                Some(chars[end])
            } else {
                None
            };
            let first = slice(chars, start, first_end);
            if end > first_end && should_convert_path(&first, mode, next) {
                push_dots_to_colons(&mut output, chars, start, end);
            } else {
                let run = slice(chars, start, end);
                push_all(&mut output, &run);
            }
            proof {
                assert(output@ + paths_from(chars@, end as int, mode) =~= before + paths_from(
                    chars@,
                    start as int,
                    mode,
                ));
            }
        } else {
            output.push(chars[index]);
            index += 1;
            proof {
                assert(output@ + paths_from(chars@, index as int, mode) =~= before + paths_from(
                    chars@,
                    index - 1,
                    mode,
                ));
            }
        }
    }
    assert(output@ =~= output@ + paths_from(chars@, index as int, mode));
    output
}

} // verus!
