//! The public results of transpiling and their mathematical counterparts.
use vstd::prelude::*;
use crate::json::{decimal, push_decimal};
use crate::text::{chars_of, push_all, push_lit, string_of};

verus! {

/// One source line and the generated line its own output begins on (both 1-based).
#[derive(Debug, Clone, Copy, PartialEq, Eq)]
pub struct SourceMapEntry {
    pub source_line: usize,
    pub generated_line: usize,
}

/// A node of the source tree together with the generated lines that it produced.
#[derive(Debug, PartialEq, Eq)]
pub struct SourceMapNode {
    pub kind: String,
    pub source_line: usize,
    pub source_indent: usize,
    pub source_text: String,
    pub generated_start_line: usize,
    pub generated_end_line: usize,
    pub children: Vec<SourceMapNode>,
}

/// The generated Rust text and its source maps.
#[derive(Debug, Clone, PartialEq, Eq)]
pub struct TranspileOutput {
    pub rust: String,
    pub source_map: Vec<SourceMapEntry>,
    pub source_tree: Vec<SourceMapNode>,
}

/// A refused input: the 1-based source line and what is wrong with it.
#[derive(Debug, Clone, PartialEq, Eq)]
pub struct TranspileError {
    pub line: usize,
    pub message: String,
}

/// A source map entry as a pair of numbers: (source line, generated line).
pub type SpecEntry = (int, int);

/// The mathematical value of a `SourceMapNode`.
pub struct SpecMapNode {
    pub kind: Seq<char>,
    pub line: int,
    pub indent: int,
    pub text: Seq<char>,
    pub start: int,
    pub end: int,
    pub children: Seq<SpecMapNode>,
}

/// The mathematical value of a `TranspileError`.
pub struct SpecError {
    pub line: int,
    pub message: Seq<char>,
}

/// The mathematical value of a `TranspileOutput`.
pub struct SpecOutput {
    pub rust: Seq<char>,
    pub map: Seq<SpecEntry>,
    pub tree: Seq<SpecMapNode>,
}

pub open spec fn entry_view(e: SourceMapEntry) -> SpecEntry {
    (e.source_line as int, e.generated_line as int)
}

pub open spec fn entries_view(v: Seq<SourceMapEntry>) -> Seq<SpecEntry> {
    v.map_values(|e: SourceMapEntry| entry_view(e))
}

pub open spec fn map_node_view(n: SourceMapNode) -> SpecMapNode
    decreases n,
{
    SpecMapNode {
        kind: n.kind@,
        line: n.source_line as int,
        indent: n.source_indent as int,
        text: n.source_text@,
        start: n.generated_start_line as int,
        end: n.generated_end_line as int,
        children: Seq::new(
            n.children@.len(),
            |i: int|
                if 0 <= i < n.children@.len() {
                    map_node_view(n.children@[i])
                } else {
                    arbitrary()
                },
        ),
    }
}

pub open spec fn map_nodes_view(v: Seq<SourceMapNode>) -> Seq<SpecMapNode> {
    Seq::new(v.len(), |i: int| map_node_view(v[i]))
}

pub open spec fn error_view(e: TranspileError) -> SpecError {
    SpecError { line: e.line as int, message: e.message@ }
}

pub open spec fn output_view(o: TranspileOutput) -> SpecOutput {
    SpecOutput {
        rust: o.rust@,
        map: entries_view(o.source_map@),
        tree: map_nodes_view(o.source_tree@),
    }
}

impl TranspileError {
    /// The message as it is shown to users: `line N: message`.
    pub fn to_string(&self) -> (s: String)
        ensures
            s@ == "line "@ + crate::json::decimal(self.line as nat) + ": "@ + self.message@,
    {
        let mut out = crate::text::chars_of("line ");
        crate::json::push_decimal(&mut out, self.line);
        crate::text::push_lit(&mut out, ": ");
        let m = crate::text::chars_of(self.message.as_str());
        crate::text::push_all(&mut out, &m);
        crate::text::string_of(&out)
    }
}


/// A copy of a source-tree node and all the nodes below it.
pub fn copy_node(n: &SourceMapNode) -> (r: SourceMapNode)
    ensures
        map_node_view(r) == map_node_view(*n),
    decreases n,
{
    let mut children: Vec<SourceMapNode> = Vec::new();
    let mut i: usize = 0;
    while i < n.children.len()
        invariant
            i <= n.children.len(),
            children@.len() == i,
            forall|k: int| 0 <= k < i ==> map_node_view(#[trigger] children@[k]) == map_node_view(
                n.children@[k],
            ),
        decreases n.children.len() - i,
    {
        children.push(copy_node(&n.children[i]));
        i += 1;
    }
    let r = SourceMapNode {
        kind: crate::text::string_of(&crate::text::chars_of(n.kind.as_str())),
        source_line: n.source_line,
        source_indent: n.source_indent,
        source_text: crate::text::string_of(&crate::text::chars_of(n.source_text.as_str())),
        generated_start_line: n.generated_start_line,
        generated_end_line: n.generated_end_line,
        children,
    };
    assert(map_node_view(r).children =~= map_node_view(*n).children);
    r
}

impl Clone for SourceMapNode {
    fn clone(&self) -> (r: Self) {
        copy_node(self)
    }
}

} // verus!
