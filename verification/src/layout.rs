//! Splitting the source into lines and building the indentation tree.
use vstd::prelude::*;
use crate::model::{SpecError, TranspileError, error_view};
use crate::text::{contains, contains_lit, lemma_trim_end, slice, trim, trim_end, trim_end_exec, trim_exec, trim_start, trim_start_exec};

verus! {

/// A non-blank source line: its 1-based number, its indentation and its trimmed text.
pub struct SourceLine {
    pub line: usize,
    pub indent: usize,
    pub text: Vec<char>,
}

pub struct SpecLine {
    pub line: int,
    pub indent: int,
    pub text: Seq<char>,
}

pub open spec fn line_view(l: SourceLine) -> SpecLine {
    SpecLine { line: l.line as int, indent: l.indent as int, text: l.text@ }
}

pub open spec fn lines_view(v: Seq<SourceLine>) -> Seq<SpecLine> {
    v.map_values(|l: SourceLine| line_view(l))
}

/// A source line with the lines indented below it.
pub struct Node {
    pub line: usize,
    pub indent: usize,
    pub text: Vec<char>,
    pub children: Vec<Node>,
}

pub struct SpecNode {
    pub line: int,
    pub indent: int,
    pub text: Seq<char>,
    pub children: Seq<SpecNode>,
}

pub open spec fn node_view(n: Node) -> SpecNode
    decreases n,
{
    SpecNode {
        line: n.line as int,
        indent: n.indent as int,
        text: n.text@,
        children: Seq::new(
            n.children@.len(),
            |i: int|
                if 0 <= i < n.children@.len() {
                    node_view(n.children@[i])
                } else {
                    arbitrary()
                },
        ),
    }
}

pub open spec fn nodes_view(v: Seq<Node>) -> Seq<SpecNode> {
    Seq::new(v.len(), |i: int| node_view(v[i]))
}

// ---------------------------------------------------------------- lines

/// The pieces of `s` between line feeds.
pub open spec fn split_lines(s: Seq<char>) -> Seq<Seq<char>>
    decreases s.len(),
{
    if s.len() == 0 {
        seq![Seq::<char>::empty()]
    } else {
        let r = split_lines(s.drop_last());
        if s.last() == '\n' {
            r.push(Seq::<char>::empty())
        } else {
            r.update(r.len() - 1, r.last().push(s.last()))
        }
    }
}

pub proof fn lemma_split_lines_len(s: Seq<char>)
    ensures
        1 <= split_lines(s).len() <= s.len() + 1,
    decreases s.len(),
{
    if s.len() > 0 {
        lemma_split_lines_len(s.drop_last());
    }
}

/// Number of leading spaces.
pub open spec fn leading_spaces(s: Seq<char>) -> nat
    decreases s.len(),
{
    if s.len() > 0 && s[0] == ' ' {
        1 + leading_spaces(s.drop_first())
    } else {
        0
    }
}

/// The non-blank lines among the first `n` raw lines, or the first line with a tab.
pub open spec fn lines_upto(raw: Seq<Seq<char>>, n: int) -> Result<Seq<SpecLine>, SpecError>
    decreases n,
{
    if n <= 0 {
        Ok(Seq::empty())
    } else {
        match lines_upto(raw, n - 1) {
            Err(e) => Err(e),
            Ok(ls) => {
                let t = trim_end(raw[n - 1]);
                if trim(t).len() == 0 {
                    Ok(ls)
                } else if contains(t, seq!['\t']) {
                    Err(SpecError { line: n, message: "tabs are not supported; use spaces"@ })
                } else {
                    Ok(
                        ls.push(
                            SpecLine { line: n, indent: leading_spaces(t) as int, text: trim_start(t) },
                        ),
                    )
                }
            },
        }
    }
}

/// `source_lines`: the numbered, non-blank lines of the source, or the error for the
/// first line that holds a tab.
pub open spec fn spec_source_lines(s: Seq<char>) -> Result<Seq<SpecLine>, SpecError> {
    lines_upto(split_lines(s), split_lines(s).len() as int)
}

pub proof fn lemma_lines_upto(raw: Seq<Seq<char>>, n: int)
    requires
        0 <= n <= raw.len(),
    ensures
        lines_upto(raw, n) matches Ok(ls) ==> ls.len() <= n && forall|k: int|
            0 <= k < ls.len() ==> 1 <= (#[trigger] ls[k]).line <= n && ls[k].indent
                <= raw[ls[k].line - 1].len(),
    decreases n,
{
    if n > 0 {
        lemma_lines_upto(raw, n - 1);
        let t = trim_end(raw[n - 1]);
        lemma_trim_end(raw[n - 1]);
        lemma_leading_spaces(t);
    }
}

pub proof fn lemma_lines_upto_err(raw: Seq<Seq<char>>, n: int, m: int)
    requires
        0 <= n <= m,
        lines_upto(raw, n) is Err,
    ensures
        lines_upto(raw, m) == lines_upto(raw, n),
    decreases m - n,
{
    if m > n {
        lemma_lines_upto_err(raw, n, m - 1);
    }
}

pub proof fn lemma_leading_spaces(s: Seq<char>)
    ensures
        leading_spaces(s) <= s.len(),
    decreases s.len(),
{
    if s.len() > 0 && s[0] == ' ' {
        lemma_leading_spaces(s.drop_first());
    }
}

fn count_leading_spaces(t: &Vec<char>) -> (n: usize)
    ensures
        n as nat == leading_spaces(t@),
{
    let mut n: usize = 0;
    assert(t@.skip(0) =~= t@);
    while n < t.len() && t[n] == ' '
        invariant
            n <= t.len(),
            leading_spaces(t@) == n + leading_spaces(t@.skip(n as int)),
        decreases t.len() - n,
    {
        assert(t@.skip(n as int).drop_first() =~= t@.skip(n + 1));
        n += 1;
    }
    assert(t@.skip(0) =~= t@);
    n
}

pub fn raw_lines(s: &Vec<char>) -> (raw: Vec<Vec<char>>)
    ensures
        raw@.map_values(|v: Vec<char>| v@) == split_lines(s@),
{
    let mut raw: Vec<Vec<char>> = Vec::new();
    let mut current: Vec<char> = Vec::new();
    let mut i: usize = 0;
    assert(s@.take(0) =~= Seq::<char>::empty());
    while i < s.len()
        invariant
            i <= s.len(),
            raw@.map_values(|v: Vec<char>| v@).push(current@) == split_lines(s@.take(i as int)),
        decreases s.len() - i,
    {
        let c = s[i];
        let ghost before = raw@.map_values(|v: Vec<char>| v@).push(current@);
        assert(s@.take(i + 1).drop_last() =~= s@.take(i as int));
        assert(s@.take(i + 1).last() == c);
        if c == '\n' {
            let done = current;
            raw.push(done);
            current = Vec::new();
            proof {
                assert(raw@.map_values(|v: Vec<char>| v@).push(current@) =~= before.push(
                    Seq::<char>::empty(),
                ));
            }
        } else {
            current.push(c);
            proof {
                assert(raw@.map_values(|v: Vec<char>| v@).push(current@) =~= before.update(
                    before.len() - 1,
                    before.last().push(c),
                ));
            }
        }
        i += 1;
    }
    assert(s@.take(s.len() as int) =~= s@);
    raw.push(current);
    raw
}

/// `source_lines`.
pub fn source_lines(s: &Vec<char>) -> (res: Result<Vec<SourceLine>, TranspileError>)
    requires
        s@.len() < usize::MAX,
    ensures
        match (res, spec_source_lines(s@)) {
            (Ok(v), Ok(w)) => lines_view(v@) == w,
            (Err(e), Err(f)) => error_view(e) == f,
            _ => false,
        },
{
    let raw = raw_lines(s);
    let ghost rv = raw@.map_values(|v: Vec<char>| v@);
    proof {
        lemma_split_lines_len(s@);
    }
    let mut lines: Vec<SourceLine> = Vec::new();
    let mut n: usize = 0;
    assert(lines_view(lines@) =~= Seq::<SpecLine>::empty());
    while n < raw.len()
        invariant
            n <= raw.len(),
            raw.len() <= s@.len() + 1,
            rv == raw@.map_values(|v: Vec<char>| v@),
            rv == split_lines(s@),
            lines_upto(rv, n as int) == Ok::<Seq<SpecLine>, SpecError>(lines_view(lines@)),
        decreases raw.len() - n,
    {
        let t = trim_end_exec(&raw[n]);
        assert(t@ == trim_end(rv[n as int]));
        let tt = trim_start_exec(&t);
        let blank = trim_exec(&t);
        n += 1;
        if blank.len() == 0 {
        } else if contains_lit(&t, "\t") {
            proof {
                reveal_strlit("\t");
            }
            assert("\t"@ =~= seq!['\t']);
            proof {
                lemma_lines_upto_err(rv, n as int, rv.len() as int);
            }
            return Err(
                TranspileError { line: n, message: "tabs are not supported; use spaces".to_owned() },
            );
        } else {
            proof {
                reveal_strlit("\t");
            }
            assert("\t"@ =~= seq!['\t']);
            let indent = count_leading_spaces(&t);
            let ghost before = lines_view(lines@);
            lines.push(SourceLine { line: n, indent, text: tt });
            assert(lines_view(lines@) =~= before.push(
                SpecLine { line: n as int, indent: indent as int, text: trim_start(t@) },
            ));
        }
    }
    Ok(lines)
}

// ---------------------------------------------------------------- indentation tree

/// `parse_nodes`: the nodes at indentation `indent` from line `index` on, each with the
/// more indented lines below it as children, and the index where this level ends.
pub open spec fn spec_parse_nodes(lines: Seq<SpecLine>, index: int, indent: int) -> Result<
    (Seq<SpecNode>, int),
    SpecError,
>
    decreases lines.len() - index,
{
    if index < 0 || index >= lines.len() {
        Ok((Seq::empty(), index))
    } else if lines[index].indent < indent {
        Ok((Seq::empty(), index))
    } else if lines[index].indent > indent {
        Err(
            SpecError {
                line: lines[index].line,
                message: "indentation must belong to the previous line"@,
            },
        )
    } else {
        let next = index + 1;
        let child = if next < lines.len() && lines[next].indent > indent {
            spec_parse_nodes(lines, next, lines[next].indent)
        } else {
            Ok((Seq::empty(), next))
        };
        match child {
            Err(e) => Err(e),
            Ok((children, after)) => {
                let resume = if index < after <= lines.len() {
                    after
                } else {
                    lines.len() as int
                };
                match spec_parse_nodes(lines, resume, indent) {
                    Err(e) => Err(e),
                    Ok((rest, end)) => Ok(
                        (
                            seq![
                                SpecNode {
                                    line: lines[index].line,
                                    indent: lines[index].indent,
                                    text: lines[index].text,
                                    children,
                                },
                            ] + rest,
                            end,
                        ),
                    ),
                }
            },
        }
    }
}

/// The lines of a forest in the order they appear: each node, then its children.
pub open spec fn flatten(nodes: Seq<SpecNode>) -> Seq<SpecLine>
    decreases nodes, 0int,
{
    if nodes.len() == 0 {
        Seq::empty()
    } else {
        flatten_node(nodes[0]) + flatten(nodes.drop_first())
    }
}

pub open spec fn flatten_node(n: SpecNode) -> Seq<SpecLine>
    decreases n, 1int,
{
    seq![SpecLine { line: n.line, indent: n.indent, text: n.text }] + flatten(n.children)
}

pub proof fn lemma_parse_nodes(lines: Seq<SpecLine>, index: int, indent: int)
    requires
        0 <= index <= lines.len(),
    ensures
        spec_parse_nodes(lines, index, indent) matches Ok((nodes, end)) ==> index <= end
            <= lines.len() && flatten(nodes) == lines.subrange(index, end),
    decreases lines.len() - index,
{
    if index >= lines.len() || lines[index].indent < indent {
        assert(lines.subrange(index, index) =~= Seq::<SpecLine>::empty());
    } else if lines[index].indent > indent {
    } else {
        let next = index + 1;
        if next < lines.len() && lines[next].indent > indent {
            lemma_parse_nodes(lines, next, lines[next].indent);
        } else {
            assert(lines.subrange(next, next) =~= Seq::<SpecLine>::empty());
        }
        let child = if next < lines.len() && lines[next].indent > indent {
            spec_parse_nodes(lines, next, lines[next].indent)
        } else {
            Ok((Seq::empty(), next))
        };
        if let Ok((children, after)) = child {
            lemma_parse_nodes(lines, after, indent);
            if let Ok((rest, end)) = spec_parse_nodes(lines, after, indent) {
                let node = SpecNode {
                    line: lines[index].line,
                    indent: lines[index].indent,
                    text: lines[index].text,
                    children,
                };
                let all = seq![node] + rest;
                assert(all[0] == node);
                assert(all.drop_first() =~= rest);
                assert(flatten_node(node) =~= lines.subrange(index, after)) by {
                    assert(SpecLine {
                        line: lines[index].line,
                        indent: lines[index].indent,
                        text: lines[index].text,
                    } == lines[index]);
                }
                assert(flatten(all) =~= lines.subrange(index, end));
            }
        }
    }
}

fn node_from(l: &SourceLine, children: Vec<Node>) -> (n: Node)
    ensures
        node_view(n) == (SpecNode {
            line: l.line as int,
            indent: l.indent as int,
            text: l.text@,
            children: nodes_view(children@),
        }),
{
    let n = Node { line: l.line, indent: l.indent, text: copy_chars(&l.text), children };
    assert(node_view(n).children =~= nodes_view(children@));
    n
}

pub fn copy_chars(v: &Vec<char>) -> (r: Vec<char>)
    ensures
        r@ == v@,
{
    slice(v, 0, v.len())
}

/// `parse_nodes`.
pub fn parse_nodes(lines: &Vec<SourceLine>, index: usize, indent: usize) -> (res: Result<
    (Vec<Node>, usize),
    TranspileError,
>)
    requires
        index <= lines.len(),
    ensures
        match (res, spec_parse_nodes(lines_view(lines@), index as int, indent as int)) {
            (Ok((v, k)), Ok((w, j))) => nodes_view(v@) == w && k as int == j,
            (Err(e), Err(f)) => error_view(e) == f,
            _ => false,
        },
    decreases lines.len() - index,
{
    let ghost lv = lines_view(lines@);
    let ghost target = spec_parse_nodes(lv, index as int, indent as int);
    let mut nodes: Vec<Node> = Vec::new();
    let ghost start = index;
    let mut pos = index;
    while pos < lines.len()
        invariant
            start <= pos <= lines.len(),
            start == index,
            lv == lines_view(lines@),
            target == spec_parse_nodes(lv, start as int, indent as int),
            target == match spec_parse_nodes(lv, pos as int, indent as int) {
                Ok((rest, end)) => Ok((nodes_view(nodes@) + rest, end)),
                Err(e) => Err(e),
            },
        ensures
            start <= pos <= lines.len(),
            target == spec_parse_nodes(lv, start as int, indent as int),
            pos < lines.len() ==> lv[pos as int].indent < indent,
            target == match spec_parse_nodes(lv, pos as int, indent as int) {
                Ok((rest, end)) => Ok((nodes_view(nodes@) + rest, end)),
                Err(e) => Err(e),
            },
        decreases lines.len() - pos,
    {
        let line = &lines[pos];
        let ghost at = pos as int;
        assert(lv[at] == line_view(lines@[at]));
        if line.indent < indent {
            break ;
        }
        if line.indent > indent {
            let e = TranspileError {
                line: line.line,
                message: "indentation must belong to the previous line".to_owned(),
            };
            assert(spec_parse_nodes(lv, at, indent as int) == Err::<(Seq<SpecNode>, int), SpecError>(error_view(e)));
            return Err(e);
        }
        pos += 1;
        let mut children: Vec<Node> = Vec::new();
        let ghost child_spec = if (pos as int) < lv.len() && lv[pos as int].indent > indent {
            spec_parse_nodes(lv, pos as int, lv[pos as int].indent)
        } else {
            Ok((Seq::<SpecNode>::empty(), pos as int))
        };
        if pos < lines.len() && lines[pos].indent > indent {
            let child_indent = lines[pos].indent;
            assert(lv[pos as int] == line_view(lines@[pos as int]));
            proof {
                lemma_parse_nodes(lv, pos as int, child_indent as int);
            }
            match parse_nodes(lines, pos, child_indent) {
                Ok((c, after)) => {
                    children = c;
                    pos = after;
                },
                Err(e) => {
                    return Err(e);
                },
            }
        } else {
            assert(nodes_view(children@) =~= Seq::<SpecNode>::empty());
        }
        assert(child_spec == Ok::<(Seq<SpecNode>, int), SpecError>((nodes_view(children@), pos as int)));
        let ghost before = nodes_view(nodes@);
        let node = node_from(line, children);
        nodes.push(node);
        proof {
            assert(nodes_view(nodes@) =~= before.push(node_view(node)));
            let spec_node = node_view(node);
            assert(spec_node == SpecNode {
                line: lv[at].line,
                indent: lv[at].indent,
                text: lv[at].text,
                children: nodes_view(children@),
            });
            match spec_parse_nodes(lv, pos as int, indent as int) {
                Ok((rest, end)) => {
                    assert(before + (seq![spec_node] + rest) =~= before.push(spec_node) + rest);
                },
                Err(e) => {},
            }
        }
    }
    proof {
        assert(nodes_view(nodes@) + Seq::<SpecNode>::empty() =~= nodes_view(nodes@));
    }
    Ok((nodes, pos))
}

} // verus!
