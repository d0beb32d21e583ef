//! Transpiler from an indentation-based Rust dialect to Rust.
use vstd::prelude::*;

pub mod text;
pub mod lower;
pub mod expr;
pub mod model;
pub mod json;
pub mod layout;
pub mod classify;
pub mod emit;
pub mod render;
pub mod web;
pub mod symbols;
pub mod cli;
pub mod editor;
pub mod laws;
pub mod json_reading;
pub mod rules;

pub use crate::model::{SourceMapEntry, SourceMapNode, TranspileError, TranspileOutput};
pub use crate::json::source_map_json;
use crate::model::{SpecError, SpecOutput, output_view, error_view, entries_view, map_nodes_view};
use crate::text::{chars_of, string_of, push_all, ends_with};
use crate::layout::{SpecLine, spec_source_lines, spec_parse_nodes, source_lines, parse_nodes, lines_view, nodes_view, flatten, split_lines, lemma_split_lines_len, lemma_lines_upto, lemma_parse_nodes};
use crate::classify::Context;
use crate::emit::spec_emit_nodes;
use crate::render::{Emitter, emit_nodes, em_lines, em_map};
use crate::json::{decimal, spec_source_map_json};

verus! {

/// The lines joined with line feeds between them.
pub open spec fn join_lines(lines: Seq<Seq<char>>) -> Seq<char>
    decreases lines.len(),
{
    if lines.len() == 0 {
        Seq::empty()
    } else if lines.len() == 1 {
        lines[0]
    } else {
        join_lines(lines.drop_last()) + seq!['\n'] + lines.last()
    }
}

/// The text with a line feed added unless it already ends with one.
pub open spec fn ensure_trailing_newline(t: Seq<char>) -> Seq<char> {
    if ends_with(t, seq!['\n']) {
        t
    } else {
        t.push('\n')
    }
}

/// What `transpile` produces for a source text: the Rust text, its line source map and
/// its source tree, or the error for the first offending line.
pub open spec fn spec_transpile(s: Seq<char>) -> Result<SpecOutput, SpecError> {
    match spec_source_lines(s) {
        Err(e) => Err(e),
        Ok(lines) => match spec_parse_nodes(lines, 0, 0) {
            Err(e) => Err(e),
            Ok((nodes, index)) => if index != lines.len() {
                Err(SpecError { line: lines[index].line, message: "unexpected indentation"@ })
            } else {
                let em = spec_emit_nodes(nodes, Context::Root, nodes.len() as int, 0);
                Ok(
                    SpecOutput {
                        rust: ensure_trailing_newline(join_lines(em.lines)),
                        map: em.map,
                        tree: em.tree,
                    },
                )
            },
        },
    }
}

fn join_and_terminate(lines: &Vec<Vec<char>>) -> (r: Vec<char>)
    ensures
        r@ == ensure_trailing_newline(join_lines(lines@.map_values(|l: Vec<char>| l@))),
{
    let ghost lv = lines@.map_values(|l: Vec<char>| l@);
    let mut out: Vec<char> = Vec::new();
    let mut i: usize = 0;
    assert(lv.take(0) =~= Seq::<Seq<char>>::empty());
    while i < lines.len()
        invariant
            i <= lines.len(),
            lv == lines@.map_values(|l: Vec<char>| l@),
            out@ == join_lines(lv.take(i as int)),
        decreases lines.len() - i,
    {
        if i > 0 {
            out.push('\n');
        }
        push_all(&mut out, &lines[i]);
        i += 1;
        proof {
            let t = lv.take(i as int);
            assert(t.drop_last() =~= lv.take(i - 1));
            assert(t.last() == lines@[i - 1]@);
            if i == 1 {
                assert(t[0] == t.last());
                assert(lv.take(0) =~= Seq::<Seq<char>>::empty());
            }
            assert(out@ =~= join_lines(t));
        }
    }
    assert(lv.take(lines.len() as int) =~= lv);
    if out.len() == 0 || out[out.len() - 1] != '\n' {
        let ghost before = out@;
        out.push('\n');
        proof {
            if before.len() > 0 {
                assert(before.subrange(before.len() - 1, before.len() as int)[0] == before.last());
            }
        }
    } else {
        assert(out@.subrange(out.len() - 1, out.len() as int) =~= seq!['\n']);
    }
    out
}

/// Transpiles a source text of the indentation-based dialect to Rust.
///
/// The result is the Rust text (ending with a line feed), the line source map (one entry
/// per non-blank source line, in order) and the source tree; or the error for the first
/// line that holds a tab or is indented without belonging to the line above.
pub fn transpile(source: &str) -> (res: Result<TranspileOutput, TranspileError>)
    requires
        source@.len() <= usize::MAX / 4,
    ensures
        match (res, spec_transpile(source@)) {
            (Ok(out), Ok(o)) => output_view(out) == o,
            (Err(e), Err(f)) => error_view(e) == f,
            _ => false,
        },
{
    let chars = chars_of(source);
    let lines = match source_lines(&chars) {
        Ok(l) => l,
        Err(e) => return Err(e),
    };
    proof {
        lemma_split_lines_len(chars@);
        lemma_lines_upto(split_lines(chars@), split_lines(chars@).len() as int);
        lemma_parse_nodes(lines_view(lines@), 0, 0);
    }
    let (nodes, index) = match parse_nodes(&lines, 0, 0) {
        Ok(p) => p,
        Err(e) => return Err(e),
    };
    if index != lines.len() {
        assert(lines_view(lines@)[index as int] == crate::layout::line_view(lines@[index as int]));
        return Err(
            TranspileError { line: lines[index].line, message: "unexpected indentation".to_owned() },
        );
    }
    let mut emitter = Emitter { lines: Vec::new(), source_map: Vec::new() };
    proof {
        assert(lines_view(lines@).subrange(0, lines@.len() as int) =~= lines_view(lines@));
        assert(em_lines(emitter) =~= Seq::<Seq<char>>::empty());
        assert(em_map(emitter) =~= Seq::<(int, int)>::empty());
    }
    let tree = emit_nodes(&nodes, Context::Root, &mut emitter);
    let rust = join_and_terminate(&emitter.lines);
    let out = TranspileOutput {
        rust: string_of(&rust),
        source_map: emitter.source_map,
        source_tree: tree,
    };
    proof {
        let em = spec_emit_nodes(nodes_view(nodes@), Context::Root, nodes@.len() as int, 0);
        assert(em_lines(emitter) =~= em.lines);
        assert(em_map(emitter) =~= em.map);
    }
    Ok(out)
}

/// The Rust text for a source, or the error message (`line N: message`).
pub fn transpile_to_rust(source: &str) -> (res: Result<String, String>)
    requires
        source@.len() <= usize::MAX / 4,
    ensures
        match (res, spec_transpile(source@)) {
            (Ok(r), Ok(o)) => r@ == o.rust,
            (Err(m), Err(f)) => m@ == "line "@ + decimal(f.line as nat) + ": "@ + f.message,
            _ => false,
        },
{
    match transpile(source) {
        Ok(output) => Ok(output.rust),
        Err(error) => Err(error.to_string()),
    }
}

/// The JSON source tree for a source, or the error message (`line N: message`).
pub fn transpile_syntax_tree_json(source: &str) -> (res: Result<String, String>)
    requires
        source@.len() <= usize::MAX / 4,
    ensures
        match (res, spec_transpile(source@)) {
            (Ok(r), Ok(o)) => r@ == spec_source_map_json(o.tree),
            (Err(m), Err(f)) => m@ == "line "@ + decimal(f.line as nat) + ": "@ + f.message,
            _ => false,
        },
{
    match transpile(source) {
        Ok(output) => Ok(source_map_json(&output)),
        Err(error) => Err(error.to_string()),
    }
}

} // verus!
