//! Character classes, trimming, searching and slicing over character sequences.
use vstd::prelude::*;

verus! {

/// Unicode `White_Space`, the class that `char::is_whitespace` and `str::trim` use.
pub open spec fn is_ws(c: char) -> bool {
    ||| ('\u{09}' <= c && c <= '\u{0D}')
    ||| c == ' '
    ||| c == '\u{85}'
    ||| c == '\u{A0}'
    ||| c == '\u{1680}'
    ||| ('\u{2000}' <= c && c <= '\u{200A}')
    ||| c == '\u{2028}'
    ||| c == '\u{2029}'
    ||| c == '\u{202F}'
    ||| c == '\u{205F}'
    ||| c == '\u{3000}'
}

pub fn whitespace(c: char) -> (r: bool)
    ensures
        r == is_ws(c),
{
    ('\u{09}' <= c && c <= '\u{0D}') || c == ' ' || c == '\u{85}' || c == '\u{A0}' || c
        == '\u{1680}' || ('\u{2000}' <= c && c <= '\u{200A}') || c == '\u{2028}' || c
        == '\u{2029}' || c == '\u{202F}' || c == '\u{205F}' || c == '\u{3000}'
}

pub open spec fn is_ascii_upper(c: char) -> bool {
    'A' <= c && c <= 'Z'
}

pub open spec fn is_ascii_lower(c: char) -> bool {
    'a' <= c && c <= 'z'
}

pub open spec fn is_ascii_digit(c: char) -> bool {
    '0' <= c && c <= '9'
}

pub open spec fn is_ascii_alpha(c: char) -> bool {
    is_ascii_upper(c) || is_ascii_lower(c)
}

pub open spec fn is_ascii_alnum(c: char) -> bool {
    is_ascii_alpha(c) || is_ascii_digit(c)
}

/// First character of an identifier: `_` or an ASCII letter.
pub open spec fn is_ident_start(c: char) -> bool {
    c == '_' || is_ascii_alpha(c)
}

/// Later character of an identifier: `_` or an ASCII letter or digit.
pub open spec fn is_ident_continue(c: char) -> bool {
    c == '_' || is_ascii_alnum(c)
}

pub fn ascii_upper(c: char) -> (r: bool)
    ensures
        r == is_ascii_upper(c),
{
    'A' <= c && c <= 'Z'
}

pub fn ascii_digit(c: char) -> (r: bool)
    ensures
        r == is_ascii_digit(c),
{
    '0' <= c && c <= '9'
}

pub fn ascii_alnum(c: char) -> (r: bool)
    ensures
        r == is_ascii_alnum(c),
{
    ('A' <= c && c <= 'Z') || ('a' <= c && c <= 'z') || ('0' <= c && c <= '9')
}

pub fn ident_start(c: char) -> (r: bool)
    ensures
        r == is_ident_start(c),
{
    c == '_' || ('A' <= c && c <= 'Z') || ('a' <= c && c <= 'z')
}

pub fn ident_continue(c: char) -> (r: bool)
    ensures
        r == is_ident_continue(c),
{
    c == '_' || ascii_alnum(c)
}

/// What `char::is_uppercase` answers: the Unicode `Uppercase` property.
pub uninterp spec fn unicode_uppercase(c: char) -> bool;

/// The Unicode general category `Cc`, which `char::is_control` tests: U+0000 to U+001F
/// and U+007F to U+009F.
pub open spec fn is_cc(c: char) -> bool {
    c <= '\u{1F}' || ('\u{7F}' <= c && c <= '\u{9F}')
}

/// Calls `char::is_uppercase`; its answer is the named property of the character, which
/// among ASCII characters holds of `A` to `Z` alone.
#[verifier::external_body]
pub(crate) fn uppercase(c: char) -> (r: bool)
    ensures
        r == unicode_uppercase(c),
        c <= '\u{7F}' ==> r == ('A' <= c && c <= 'Z'),
{
    c.is_uppercase()
}

/// `char::is_control`.
pub fn control(c: char) -> (r: bool)
    ensures
        r == is_cc(c),
{
    c <= '\u{1F}' || ('\u{7F}' <= c && c <= '\u{9F}')
}

/// The text without its trailing white space.
pub open spec fn trim_end(s: Seq<char>) -> Seq<char>
    decreases s.len(),
{
    if s.len() > 0 && is_ws(s.last()) {
        trim_end(s.drop_last())
    } else {
        s
    }
}

/// The text without its leading white space.
pub open spec fn trim_start(s: Seq<char>) -> Seq<char>
    decreases s.len(),
{
    if s.len() > 0 && is_ws(s[0]) {
        trim_start(s.drop_first())
    } else {
        s
    }
}

/// The text without leading and trailing white space.
pub open spec fn trim(s: Seq<char>) -> Seq<char> {
    trim_start(trim_end(s))
}

/// Number of leading white-space characters.
pub open spec fn ws_prefix(s: Seq<char>) -> nat
    decreases s.len(),
{
    if s.len() > 0 && is_ws(s[0]) {
        1 + ws_prefix(s.drop_first())
    } else {
        0
    }
}

/// Length of the text once trailing white space is dropped.
pub open spec fn kept_len(s: Seq<char>) -> nat
    decreases s.len(),
{
    if s.len() > 0 && is_ws(s.last()) {
        kept_len(s.drop_last())
    } else {
        s.len()
    }
}

pub proof fn lemma_trim_end(s: Seq<char>)
    ensures
        kept_len(s) <= s.len(),
        trim_end(s) == s.take(kept_len(s) as int),
        kept_len(s) > 0 ==> !is_ws(s[kept_len(s) - 1]),
        forall|k: int| kept_len(s) <= k < s.len() ==> is_ws(#[trigger] s[k]),
    decreases s.len(),
{
    if s.len() > 0 && is_ws(s.last()) {
        lemma_trim_end(s.drop_last());
        assert(s.drop_last().take(kept_len(s) as int) =~= s.take(kept_len(s) as int));
        assert forall|k: int| kept_len(s) <= k < s.len() implies is_ws(#[trigger] s[k]) by {
            if k < s.len() - 1 {
                assert(s[k] == s.drop_last()[k]);
            }
        }
    } else {
        assert(s.take(s.len() as int) =~= s);
    }
}

pub proof fn lemma_trim_start(s: Seq<char>)
    ensures
        ws_prefix(s) <= s.len(),
        trim_start(s) == s.skip(ws_prefix(s) as int),
        ws_prefix(s) < s.len() ==> !is_ws(s[ws_prefix(s) as int]),
        forall|k: int| 0 <= k < ws_prefix(s) ==> is_ws(#[trigger] s[k]),
    decreases s.len(),
{
    if s.len() > 0 && is_ws(s[0]) {
        lemma_trim_start(s.drop_first());
        assert(s.drop_first().skip(ws_prefix(s.drop_first()) as int) =~= s.skip(
            ws_prefix(s) as int,
        ));
        assert forall|k: int| 0 <= k < ws_prefix(s) implies is_ws(#[trigger] s[k]) by {
            if k > 0 {
                assert(s[k] == s.drop_first()[k - 1]);
            }
        }
    } else {
        assert(s.skip(0) =~= s);
    }
}

pub proof fn lemma_trim_len(s: Seq<char>)
    ensures
        trim(s).len() <= s.len(),
        trim_end(s).len() <= s.len(),
        trim_start(s).len() <= s.len(),
{
    lemma_trim_end(s);
    lemma_trim_start(trim_end(s));
    lemma_trim_start(s);
}

/// The text from `lo` up to `hi`.
pub fn slice(v: &Vec<char>, lo: usize, hi: usize) -> (r: Vec<char>)
    requires
        lo <= hi <= v.len(),
    ensures
        r@ == v@.subrange(lo as int, hi as int),
{
    let mut r: Vec<char> = Vec::new();
    let mut i = lo;
    while i < hi
        invariant
            lo <= i <= hi <= v.len(),
            r@ == v@.subrange(lo as int, i as int),
        decreases hi - i,
    {
        r.push(v[i]);
        i += 1;
        assert(r@ =~= v@.subrange(lo as int, i as int));
    }
    r
}

pub fn trim_end_exec(v: &Vec<char>) -> (r: Vec<char>)
    ensures
        r@ == trim_end(v@),
{
    proof {
        lemma_trim_end(v@);
    }
    let mut n = v.len();
    while n > 0 && whitespace(v[n - 1])
        invariant
            n <= v.len(),
            kept_len(v@) <= n,
            kept_len(v@) <= v.len(),
            kept_len(v@) > 0 ==> !is_ws(v@[kept_len(v@) - 1]),
            forall|k: int| n <= k < v.len() ==> is_ws(#[trigger] v@[k]),
        decreases n,
    {
        n -= 1;
    }
    assert(n == kept_len(v@));
    slice(v, 0, n)
}

pub fn trim_start_exec(v: &Vec<char>) -> (r: Vec<char>)
    ensures
        r@ == trim_start(v@),
{
    proof {
        lemma_trim_start(v@);
    }
    let mut n: usize = 0;
    while n < v.len() && whitespace(v[n])
        invariant
            n <= ws_prefix(v@),
            ws_prefix(v@) <= v.len(),
            ws_prefix(v@) < v.len() ==> !is_ws(v@[ws_prefix(v@) as int]),
        decreases v.len() - n,
    {
        n += 1;
    }
    let r = slice(v, n, v.len());
    assert(r@ =~= v@.skip(n as int));
    r
}

pub fn trim_exec(v: &Vec<char>) -> (r: Vec<char>)
    ensures
        r@ == trim(v@),
{
    let e = trim_end_exec(v);
    trim_start_exec(&e)
}

/// Collects the characters of a string slice.
pub fn chars_of(s: &str) -> (v: Vec<char>)
    ensures
        v@ == s@,
{
    let mut v: Vec<char> = Vec::new();
    for c in it: s.chars()
        invariant
            v@ == it.seq().take(it.index() as int),
    {
        v.push(c);
    }
    v
}

/// Builds a `String` from its characters (`FromIterator<char>` for `String`).
#[verifier::external_body]
pub(crate) fn string_of(v: &Vec<char>) -> (s: String)
    ensures
        s@ == v@,
{
    v.iter().collect()
}

/// `p` occurs in `s` at position `i`.
pub open spec fn occurs_at(s: Seq<char>, i: int, p: Seq<char>) -> bool {
    0 <= i && i + p.len() <= s.len() && s.subrange(i, i + p.len()) == p
}

pub open spec fn starts_with(s: Seq<char>, p: Seq<char>) -> bool {
    occurs_at(s, 0, p)
}

pub open spec fn ends_with(s: Seq<char>, p: Seq<char>) -> bool {
    p.len() <= s.len() && occurs_at(s, s.len() - p.len(), p)
}

/// The first position from `i` on where `p` occurs in `s`.
pub open spec fn find_from(s: Seq<char>, p: Seq<char>, i: int) -> Option<int>
    decreases s.len() + 1 - i,
{
    if i < 0 || i + p.len() > s.len() {
        None
    } else if occurs_at(s, i, p) {
        Some(i)
    } else {
        find_from(s, p, i + 1)
    }
}

/// The first position where `p` occurs in `s`, as `str::find` reports it.
pub open spec fn find(s: Seq<char>, p: Seq<char>) -> Option<int> {
    find_from(s, p, 0)
}

pub open spec fn contains(s: Seq<char>, p: Seq<char>) -> bool {
    find(s, p) is Some
}

/// `s` with the prefix `p` removed, when it starts with it.
pub open spec fn strip_prefix(s: Seq<char>, p: Seq<char>) -> Option<Seq<char>> {
    if starts_with(s, p) {
        Some(s.skip(p.len() as int))
    } else {
        None
    }
}

pub proof fn lemma_find_from(s: Seq<char>, p: Seq<char>, i: int)
    requires
        0 <= i,
    ensures
        find_from(s, p, i) matches Some(k) ==> i <= k && occurs_at(s, k, p) && forall|j: int|
            i <= j < k ==> !occurs_at(s, j, p),
        find_from(s, p, i) is None ==> forall|j: int| i <= j ==> !occurs_at(s, j, p),
    decreases s.len() + 1 - i,
{
    if i < 0 || i + p.len() > s.len() {
    } else if occurs_at(s, i, p) {
    } else {
        lemma_find_from(s, p, i + 1);
    }
}

pub fn occurs_at_exec(s: &Vec<char>, i: usize, p: &Vec<char>) -> (r: bool)
    ensures
        r == occurs_at(s@, i as int, p@),
{
    if i > s.len() || p.len() > s.len() - i {
        return false;
    }
    let mut k: usize = 0;
    while k < p.len()
        invariant
            i + p.len() <= s.len(),
            k <= p.len(),
            forall|j: int| 0 <= j < k ==> s@[i + j] == p@[j],
        decreases p.len() - k,
    {
        if s[i + k] != p[k] {
            assert(s@.subrange(i as int, i + p.len())[k as int] != p@[k as int]);
            return false;
        }
        k += 1;
    }
    assert(s@.subrange(i as int, i + p.len()) =~= p@);
    true
}

pub fn starts_with_lit(s: &Vec<char>, lit: &str) -> (r: bool)
    ensures
        r == starts_with(s@, lit@),
{
    let p = chars_of(lit);
    occurs_at_exec(s, 0, &p)
}

pub fn ends_with_char(s: &Vec<char>, c: char) -> (r: bool)
    ensures
        r == ends_with(s@, seq![c]),
{
    if s.len() == 0 {
        false
    } else {
        let r = s[s.len() - 1] == c;
        assert(s@.subrange(s.len() - 1, s.len() as int) =~= seq![s@[s.len() - 1]]);
        assert(seq![s@[s.len() - 1]][0] == s@[s.len() - 1]);
        assert(seq![c][0] == c);
        r
    }
}

pub fn ends_with_lit(s: &Vec<char>, lit: &str) -> (r: bool)
    ensures
        r == ends_with(s@, lit@),
{
    let p = chars_of(lit);
    if p.len() > s.len() {
        return false;
    }
    occurs_at_exec(s, s.len() - p.len(), &p)
}

pub fn eq_lit(s: &Vec<char>, lit: &str) -> (r: bool)
    ensures
        r == (s@ == lit@),
{
    let p = chars_of(lit);
    if s.len() != p.len() {
        return false;
    }
    let r = occurs_at_exec(s, 0, &p);
    assert(s@.subrange(0, s.len() as int) =~= s@);
    r
}

pub fn find_exec(s: &Vec<char>, p: &Vec<char>) -> (r: Option<usize>)
    ensures
        match r {
            Some(k) => find(s@, p@) == Some(k as int),
            None => find(s@, p@) is None,
        },
{
    if p.len() > s.len() {
        proof {
            lemma_find_from(s@, p@, 0);
        }
        return None;
    }
    if p.len() == 0 {
        assert(s@.subrange(0, 0) =~= p@);
        return Some(0);
    }
    let mut i: usize = 0;
    while i <= s.len() - p.len()
        invariant
            p.len() <= s.len(),
            i <= s.len() - p.len() + 1,
            p.len() >= 1,
            find(s@, p@) == find_from(s@, p@, i as int),
        decreases s.len() - i,
    {
        if occurs_at_exec(s, i, p) {
            return Some(i);
        }
        i += 1;
    }
    proof {
        lemma_find_from(s@, p@, i as int);
    }
    None
}

pub fn find_lit(s: &Vec<char>, lit: &str) -> (r: Option<usize>)
    ensures
        match r {
            Some(k) => find(s@, lit@) == Some(k as int),
            None => find(s@, lit@) is None,
        },
{
    let p = chars_of(lit);
    find_exec(s, &p)
}

pub fn contains_lit(s: &Vec<char>, lit: &str) -> (r: bool)
    ensures
        r == contains(s@, lit@),
{
    find_lit(s, lit).is_some()
}

pub fn strip_prefix_lit(s: &Vec<char>, lit: &str) -> (r: Option<Vec<char>>)
    ensures
        match r {
            Some(v) => strip_prefix(s@, lit@) == Some(v@),
            None => strip_prefix(s@, lit@) is None,
        },
{
    let p = chars_of(lit);
    if occurs_at_exec(s, 0, &p) {
        let v = slice(s, p.len(), s.len());
        assert(v@ =~= s@.skip(p.len() as int));
        Some(v)
    } else {
        None
    }
}

/// `count` spaces.
pub open spec fn spaces(count: nat) -> Seq<char> {
    Seq::new(count, |i: int| ' ')
}

pub fn push_spaces(out: &mut Vec<char>, count: usize)
    ensures
        final(out)@ == old(out)@ + spaces(count as nat),
{
    let mut k: usize = 0;
    while k < count
        invariant
            k <= count,
            out@ == old(out)@ + spaces(k as nat),
        decreases count - k,
    {
        out.push(' ');
        k += 1;
        assert(out@ =~= old(out)@ + spaces(k as nat));
    }
}

pub fn push_lit(out: &mut Vec<char>, lit: &str)
    ensures
        final(out)@ == old(out)@ + lit@,
{
    let p = chars_of(lit);
    push_all(out, &p);
}

pub fn push_all(out: &mut Vec<char>, p: &Vec<char>)
    ensures
        final(out)@ == old(out)@ + p@,
{
    let mut k: usize = 0;
    while k < p.len()
        invariant
            k <= p.len(),
            out@ == old(out)@ + p@.take(k as int),
        decreases p.len() - k,
    {
        out.push(p[k]);
        k += 1;
        assert(out@ =~= old(out)@ + p@.take(k as int));
    }
    assert(p@.take(p.len() as int) =~= p@);
}

} // verus!
