//! Document symbols and diagnostic ranges for the language server.
use vstd::prelude::*;
use crate::json::{decimal};
use crate::layout::{copy_chars, lemma_split_lines_len, raw_lines, split_lines};
use crate::model::{SourceMapNode, SpecMapNode, TranspileOutput, map_node_view, map_nodes_view};
use crate::text::{chars_of, eq_lit, find, find_exec, ident_continue, is_ident_continue, lemma_find_from, occurs_at, push_all, slice, string_of, strip_prefix, strip_prefix_lit, trim, trim_exec, trim_start, trim_start_exec};
use crate::{spec_transpile, transpile};
use vstd::utf8::encode_utf8;

verus! {

/// The symbol kinds that the language server reports.
#[derive(Debug, Clone, Copy, PartialEq, Eq, Structural)]
pub enum SymbolCategory {
    Struct,
    Enum,
    Interface,
    Object,
    Module,
    Function,
    Field,
}

/// A range on one line: the line index and the start and end columns.
#[derive(Debug, Clone, Copy, PartialEq, Eq, Structural)]
pub struct Span {
    pub line: u32,
    pub start: u32,
    pub end: u32,
}

/// A document symbol: name, detail (the source-tree kind), kind, range and children.
#[derive(Debug)]
pub struct DocSymbol {
    pub name: String,
    pub detail: String,
    pub kind: SymbolCategory,
    pub range: Span,
    pub children: Vec<DocSymbol>,
}

pub struct SpecSymbol {
    pub name: Seq<char>,
    pub detail: Seq<char>,
    pub kind: SymbolCategory,
    pub range: Span,
    pub children: Seq<SpecSymbol>,
}

pub open spec fn symbol_view(s: DocSymbol) -> SpecSymbol
    decreases s,
{
    SpecSymbol {
        name: s.name@,
        detail: s.detail@,
        kind: s.kind,
        range: s.range,
        children: Seq::new(
            s.children@.len(),
            |i: int|
                if 0 <= i < s.children@.len() {
                    symbol_view(s.children@[i])
                } else {
                    arbitrary()
                },
        ),
    }
}

pub open spec fn symbols_view(v: Seq<DocSymbol>) -> Seq<SpecSymbol> {
    Seq::new(v.len(), |i: int| symbol_view(v[i]))
}

/// `symbol_kind`: the symbol kind for a source-tree kind, if it is one that is reported.
pub open spec fn spec_symbol_kind(kind: Seq<char>) -> Option<SymbolCategory> {
    if kind == "struct"@ {
        Some(SymbolCategory::Struct)
    } else if kind == "enum"@ {
        Some(SymbolCategory::Enum)
    } else if kind == "trait"@ {
        Some(SymbolCategory::Interface)
    } else if kind == "impl"@ {
        Some(SymbolCategory::Object)
    } else if kind == "module"@ {
        Some(SymbolCategory::Module)
    } else if kind == "function"@ {
        Some(SymbolCategory::Function)
    } else if kind == "member"@ || kind == "field"@ {
        Some(SymbolCategory::Field)
    } else {
        None
    }
}

pub fn symbol_kind(kind: &str) -> (r: Option<SymbolCategory>)
    ensures
        r == spec_symbol_kind(kind@),
{
    let k = chars_of(kind);
    if eq_lit(&k, "struct") {
        Some(SymbolCategory::Struct)
    } else if eq_lit(&k, "enum") {
        Some(SymbolCategory::Enum)
    } else if eq_lit(&k, "trait") {
        Some(SymbolCategory::Interface)
    } else if eq_lit(&k, "impl") {
        Some(SymbolCategory::Object)
    } else if eq_lit(&k, "module") {
        Some(SymbolCategory::Module)
    } else if eq_lit(&k, "function") {
        Some(SymbolCategory::Function)
    } else if eq_lit(&k, "member") || eq_lit(&k, "field") {
        Some(SymbolCategory::Field)
    } else {
        None
    }
}

/// Number of leading characters that satisfy (`want`) or fail (`!want`) `is_ident_continue`.
pub open spec fn ident_run(s: Seq<char>, want: bool) -> nat
    decreases s.len(),
{
    if s.len() > 0 && is_ident_continue(s[0]) == want {
        1 + ident_run(s.drop_first(), want)
    } else {
        0
    }
}

/// The first maximal run of identifier characters (`_`, ASCII letters and digits).
pub open spec fn first_ident_run(s: Seq<char>) -> Option<Seq<char>> {
    let r = s.skip(ident_run(s, false) as int);
    if r.len() == 0 {
        None
    } else {
        Some(r.take(ident_run(r, true) as int))
    }
}

/// `item_name`: the first identifier after the first occurrence of `keyword`.
pub open spec fn spec_item_name(text: Seq<char>, keyword: Seq<char>) -> Option<Seq<char>> {
    match find(text, keyword) {
        None => None,
        Some(i) => first_ident_run(trim_start(text.skip(i + keyword.len()))),
    }
}

fn count_run(s: &Vec<char>, from: usize, want: bool) -> (n: usize)
    requires
        from <= s.len(),
    ensures
        from + n <= s.len(),
        n as nat == ident_run(s@.skip(from as int), want),
{
    let mut n: usize = 0;
    assert(s@.skip(from as int).skip(0) =~= s@.skip(from as int));
    while from + n < s.len() && ident_continue(s[from + n]) == want
        invariant
            from + n <= s.len(),
            ident_run(s@.skip(from as int), want) == n + ident_run(s@.skip(from + n), want),
        decreases s.len() - from - n,
    {
        assert(s@.skip(from + n).drop_first() =~= s@.skip(from + n + 1));
        n += 1;
    }
    n
}

fn first_ident(s: &Vec<char>) -> (r: Option<Vec<char>>)
    ensures
        match r {
            Some(v) => first_ident_run(s@) == Some(v@),
            None => first_ident_run(s@) is None,
        },
{
    assert(s@.skip(0) =~= s@);
    let i = count_run(s, 0, false);
    if i == s.len() {
        return None;
    }
    let n = count_run(s, i, true);
    let r = slice(s, i, i + n);
    assert(r@ =~= s@.skip(i as int).take(n as int));
    Some(r)
}

fn item_name_chars(t: &Vec<char>, keyword: &str) -> (r: Option<Vec<char>>)
    ensures
        match r {
            Some(n) => spec_item_name(t@, keyword@) == Some(n@),
            None => spec_item_name(t@, keyword@) is None,
        },
{
    let k = chars_of(keyword);
    let i = match find_exec(t, &k) {
        Some(i) => i,
        None => return None,
    };
    proof {
        lemma_find_from(t@, k@, 0);
        assert(occurs_at(t@, i as int, k@));
    }
    assert(i + k.len() <= t.len());
    let after = slice(t, i + k.len(), t.len());
    assert(after@ =~= t@.skip(i + k@.len()));
    let rest = trim_start_exec(&after);
    first_ident(&rest)
}

pub fn item_name(text: &str, keyword: &str) -> (r: Option<String>)
    ensures
        match r {
            Some(n) => spec_item_name(text@, keyword@) == Some(n@),
            None => spec_item_name(text@, keyword@) is None,
        },
{
    let t = chars_of(text);
    match item_name_chars(&t, keyword) {
        Some(name) => Some(string_of(&name)),
        None => None,
    }
}

/// Position of the first `:`, `=`, `(` or space from `k` on, or the length when there is none.
pub open spec fn name_end(t: Seq<char>, k: int) -> int
    decreases t.len() - k,
{
    if k < 0 || k >= t.len() {
        t.len() as int
    } else if t[k] == ':' || t[k] == '=' || t[k] == '(' || t[k] == ' ' {
        k
    } else {
        name_end(t, k + 1)
    }
}

/// `symbol_name`: the declared name of an item, `impl ..` for an impl, and otherwise the
/// text up to the first `:`, `=`, `(` or space.
pub open spec fn spec_symbol_name(text: Seq<char>) -> Seq<char> {
    let t = trim(text);
    match spec_item_name(t, "struct"@) {
        Some(n) => n,
        None => match spec_item_name(t, "enum"@) {
            Some(n) => n,
            None => match spec_item_name(t, "trait"@) {
                Some(n) => n,
                None => match spec_item_name(t, "mod"@) {
                    Some(n) => n,
                    None => match spec_item_name(t, "fn"@) {
                        Some(n) => n,
                        None => match strip_prefix(t, "impl"@) {
                            Some(rest) => "impl"@ + rest,
                            None => t.take(name_end(t, 0)),
                        },
                    },
                },
            },
        },
    }
}

pub fn symbol_name(text: &str) -> (r: String)
    ensures
        r@ == spec_symbol_name(text@),
{
    let raw = chars_of(text);
    let t = trim_exec(&raw);
    if let Some(n) = item_name_chars(&t, "struct") {
        return string_of(&n);
    }
    if let Some(n) = item_name_chars(&t, "enum") {
        return string_of(&n);
    }
    if let Some(n) = item_name_chars(&t, "trait") {
        return string_of(&n);
    }
    if let Some(n) = item_name_chars(&t, "mod") {
        return string_of(&n);
    }
    if let Some(n) = item_name_chars(&t, "fn") {
        return string_of(&n);
    }
    if let Some(rest) = strip_prefix_lit(&t, "impl") {
        let mut out = chars_of("impl");
        push_all(&mut out, &rest);
        return string_of(&out);
    }
    let mut k: usize = 0;
    while k < t.len() && !(t[k] == ':' || t[k] == '=' || t[k] == '(' || t[k] == ' ')
        invariant
            k <= t.len(),
            name_end(t@, 0) == name_end(t@, k as int),
        decreases t.len() - k,
    {
        k += 1;
    }
    let head = slice(&t, 0, k);
    string_of(&head)
}

/// `node_range`: the source line of a node (0-based), from its indentation to the end of
/// its text (in bytes), each number cut to 32 bits.
pub open spec fn spec_node_range(n: SpecMapNode) -> Span {
    Span {
        line: (if n.line > 0 {
            n.line - 1
        } else {
            0
        }) as u32,
        start: n.indent as u32,
        end: (n.indent + (encode_utf8(n.text).len() as usize)) as u32,
    }
}

pub fn node_range(node: &SourceMapNode) -> (r: Span)
    ensures
        r == spec_node_range(map_node_view(*node)),
{
    let line = if node.source_line > 0 {
        node.source_line - 1
    } else {
        0
    };
    let len = node.source_text.as_str().len();
    let end = (node.source_indent as u128 + len as u128) as u32;
    Span { line: line as u32, start: node.source_indent as u32, end }
}

pub open spec fn strip_cr(l: Seq<char>) -> Seq<char> {
    if l.len() > 0 && l.last() == '\r' {
        l.drop_last()
    } else {
        l
    }
}

/// The lines of a text as `str::lines` yields them: split at `\n`, a `\r` before the
/// `\n` dropped, and no final empty line.
pub open spec fn text_lines(s: Seq<char>) -> Seq<Seq<char>> {
    let p = split_lines(s);
    let inner = Seq::new((p.len() - 1) as nat, |k: int| strip_cr(p[k]));
    if p.last().len() > 0 {
        inner.push(p.last())
    } else {
        inner
    }
}

/// `line_range`: the whole of the 1-based `line` of `text` (0-based line index, end at the
/// line's length in bytes, or 0 past the last line).
pub open spec fn spec_line_range(text: Seq<char>, line: usize) -> Span {
    let index: int = if line > 0 {
        line - 1
    } else {
        0
    };
    let lines = text_lines(text);
    let len: int = if index < lines.len() {
        (encode_utf8(lines[index]).len() as usize) as int
    } else {
        0
    };
    Span { line: index as u32, start: 0, end: len as u32 }
}

/// Length in bytes of the UTF-8 encoding of a character sequence.
fn byte_len(v: &Vec<char>) -> (n: usize)
    ensures
        n == encode_utf8(v@).len() as usize,
{
    let s = string_of(v);
    s.as_str().len()
}

pub fn line_range(text: &str, line: usize) -> (r: Span)
    ensures
        r == spec_line_range(text@, line),
{
    let index: usize = if line > 0 {
        line - 1
    } else {
        0
    };
    let chars = chars_of(text);
    let pieces = raw_lines(&chars);
    let ghost p = pieces@.map_values(|v: Vec<char>| v@);
    proof {
        lemma_split_lines_len(chars@);
    }
    let count = pieces.len();
    let ghost lines = text_lines(text@);
    let last_nonempty = pieces[count - 1].len() > 0;
    assert(p.last() == pieces@[count - 1]@);
    let len: usize = if index < count - 1 {
        let l = &pieces[index];
        let stripped = if l.len() > 0 && l[l.len() - 1] == '\r' {
            slice(l, 0, l.len() - 1)
        } else {
            copy_chars(l)
        };
        assert(p[index as int] == l@);
        assert(stripped@ =~= strip_cr(p[index as int]));
        assert(lines[index as int] == strip_cr(p[index as int]));
        byte_len(&stripped)
    } else if index == count - 1 && last_nonempty {
        assert(lines[index as int] == p.last());
        byte_len(&pieces[index])
    } else {
        0
    };
    Span { line: index as u32, start: 0, end: len as u32 }
}

/// `symbol_from_node`: the document symbol of a source-tree node whose kind is reported,
/// with the symbols of its children.
pub open spec fn spec_symbol(n: SpecMapNode) -> Option<SpecSymbol>
    decreases n, 1int,
{
    match spec_symbol_kind(n.kind) {
        None => None,
        Some(k) => Some(
            SpecSymbol {
                name: spec_symbol_name(n.text),
                detail: n.kind,
                kind: k,
                range: spec_node_range(n),
                children: spec_symbols(n.children),
            },
        ),
    }
}

/// The symbols of the nodes that have one, in order.
pub open spec fn spec_symbols(nodes: Seq<SpecMapNode>) -> Seq<SpecSymbol>
    decreases nodes, 0int,
{
    if nodes.len() == 0 {
        Seq::empty()
    } else {
        spec_symbols(nodes.drop_last()) + match spec_symbol(nodes.last()) {
            Some(s) => seq![s],
            None => Seq::empty(),
        }
    }
}

pub fn symbol_from_node(node: &SourceMapNode) -> (r: Option<DocSymbol>)
    ensures
        match r {
            Some(s) => spec_symbol(map_node_view(*node)) == Some(symbol_view(s)),
            None => spec_symbol(map_node_view(*node)) is None,
        },
    decreases node, 1int,
{
    let ghost nv = map_node_view(*node);
    let kind = match symbol_kind(node.kind.as_str()) {
        Some(k) => k,
        None => return None,
    };
    let name = symbol_name(node.source_text.as_str());
    let detail = string_of(&chars_of(node.kind.as_str()));
    let range = node_range(node);
    assert(nv.children =~= map_nodes_view(node.children@));
    let children = symbols_from_nodes(&node.children);
    let s = DocSymbol { name, detail, kind, range, children };
    assert(symbol_view(s).children =~= symbols_view(s.children@));
    Some(s)
}

/// The symbols of those nodes that have one (`filter_map(symbol_from_node)`).
pub fn symbols_from_nodes(nodes: &Vec<SourceMapNode>) -> (r: Vec<DocSymbol>)
    ensures
        symbols_view(r@) == spec_symbols(map_nodes_view(nodes@)),
    decreases nodes, 0int,
{
    let ghost nv = map_nodes_view(nodes@);
    let mut out: Vec<DocSymbol> = Vec::new();
    let mut i: usize = 0;
    assert(nv.take(0) =~= Seq::<SpecMapNode>::empty());
    assert(symbols_view(out@) =~= Seq::<SpecSymbol>::empty());
    while i < nodes.len()
        invariant
            i <= nodes.len(),
            nv == map_nodes_view(nodes@),
            symbols_view(out@) == spec_symbols(nv.take(i as int)),
        decreases nodes.len() - i,
    {
        let ghost before = symbols_view(out@);
        let r = symbol_from_node(&nodes[i]);
        match r {
            Some(s) => {
                out.push(s);
            },
            None => {},
        }
        i += 1;
        proof {
            let t = nv.take(i as int);
            assert(t.drop_last() =~= nv.take(i - 1));
            assert(t.last() == map_node_view(nodes@[i - 1]));
            assert(symbols_view(out@) =~= spec_symbols(t));
        }
    }
    assert(nv.take(nodes.len() as int) =~= nv);
    out
}

/// The document symbols of a transpiled source.
pub fn document_symbols(output: &TranspileOutput) -> (r: Vec<DocSymbol>)
    ensures
        symbols_view(r@) == spec_symbols(map_nodes_view(output.source_tree@)),
{
    symbols_from_nodes(&output.source_tree)
}


/// `publish_diagnostics`: no diagnostic for a source that transpiles; otherwise one on
/// the offending line, carrying the error text.
pub fn diagnostic(text: &str) -> (r: Option<(Span, String)>)
    requires
        text@.len() <= usize::MAX / 4,
    ensures
        match (r, spec_transpile(text@)) {
            (None, Ok(_)) => true,
            (Some((span, m)), Err(e)) => span == spec_line_range(text@, e.line as usize) && m@
                == "line "@ + decimal(e.line as nat) + ": "@ + e.message,
            _ => false,
        },
{
    match transpile(text) {
        Ok(_) => None,
        Err(error) => Some((line_range(text, error.line), error.to_string())),
    }
}

} // verus!
