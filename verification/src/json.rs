//! Decimal numbers, JSON string escaping and the JSON form of the source tree.
use vstd::prelude::*;
use crate::layout::{copy_chars};
use crate::model::{SourceMapNode, SpecMapNode, TranspileOutput, map_node_view, map_nodes_view};
use crate::text::{chars_of, control, is_cc, push_all, push_lit, push_spaces, spaces, string_of};

verus! {

/// The decimal digit for `d < 10`.
pub open spec fn digit(d: nat) -> char {
    if d == 0 {
        '0'
    } else if d == 1 {
        '1'
    } else if d == 2 {
        '2'
    } else if d == 3 {
        '3'
    } else if d == 4 {
        '4'
    } else if d == 5 {
        '5'
    } else if d == 6 {
        '6'
    } else if d == 7 {
        '7'
    } else if d == 8 {
        '8'
    } else {
        '9'
    }
}

/// The decimal form of `n`, as `{}` formats an unsigned integer.
pub open spec fn decimal(n: nat) -> Seq<char>
    decreases n,
{
    if n < 10 {
        seq![digit(n)]
    } else {
        decimal(n / 10) + seq![digit(n % 10)]
    }
}

fn digit_exec(d: usize) -> (c: char)
    requires
        d < 10,
    ensures
        c == digit(d as nat),
{
    if d == 0 {
        '0'
    } else if d == 1 {
        '1'
    } else if d == 2 {
        '2'
    } else if d == 3 {
        '3'
    } else if d == 4 {
        '4'
    } else if d == 5 {
        '5'
    } else if d == 6 {
        '6'
    } else if d == 7 {
        '7'
    } else if d == 8 {
        '8'
    } else {
        '9'
    }
}

/// Appends the decimal form of `n`.
pub fn push_decimal(out: &mut Vec<char>, n: usize)
    ensures
        final(out)@ == old(out)@ + decimal(n as nat),
    decreases n,
{
    if n < 10 {
        out.push(digit_exec(n));
    } else {
        push_decimal(out, n / 10);
        out.push(digit_exec(n % 10));
        assert(out@ =~= old(out)@ + decimal(n as nat));
    }
}

} // verus!

verus! {

/// The lower-case hexadecimal digit for `d < 16`.
pub open spec fn hex_digit(d: nat) -> char {
    if d < 10 {
        digit(d)
    } else if d == 10 {
        'a'
    } else if d == 11 {
        'b'
    } else if d == 12 {
        'c'
    } else if d == 13 {
        'd'
    } else if d == 14 {
        'e'
    } else {
        'f'
    }
}

/// The lower-case hexadecimal form of `n`.
pub open spec fn hex(n: nat) -> Seq<char>
    decreases n,
{
    if n < 16 {
        seq![hex_digit(n)]
    } else {
        hex(n / 16) + seq![hex_digit(n % 16)]
    }
}

/// `{:04x}`: hexadecimal, padded with zeros to at least four digits.
pub open spec fn hex4(n: nat) -> Seq<char> {
    let h = hex(n);
    if h.len() < 4 {
        Seq::new((4 - h.len()) as nat, |i: int| '0') + h
    } else {
        h
    }
}

/// How one character is written inside a JSON string.
pub open spec fn escape_char(c: char) -> Seq<char> {
    if c == '\\' {
        seq!['\\', '\\']
    } else if c == '"' {
        seq!['\\', '"']
    } else if c == '\n' {
        seq!['\\', 'n']
    } else if c == '\r' {
        seq!['\\', 'r']
    } else if c == '\t' {
        seq!['\\', 't']
    } else if is_cc(c) {
        seq!['\\', 'u'] + hex4(c as nat)
    } else {
        seq![c]
    }
}

/// `escape_json`: each character escaped in turn.
pub open spec fn escape_json(s: Seq<char>) -> Seq<char>
    decreases s.len(),
{
    if s.len() == 0 {
        Seq::empty()
    } else {
        escape_json(s.drop_last()) + escape_char(s.last())
    }
}

fn hex_digit_exec(d: u32) -> (c: char)
    requires
        d < 16,
    ensures
        c == hex_digit(d as nat),
{
    if d < 10 {
        digit_exec(d as usize)
    } else if d == 10 {
        'a'
    } else if d == 11 {
        'b'
    } else if d == 12 {
        'c'
    } else if d == 13 {
        'd'
    } else if d == 14 {
        'e'
    } else {
        'f'
    }
}

fn push_hex(out: &mut Vec<char>, n: u32)
    ensures
        final(out)@ == old(out)@ + hex(n as nat),
    decreases n,
{
    if n < 16 {
        out.push(hex_digit_exec(n));
    } else {
        push_hex(out, n / 16);
        out.push(hex_digit_exec(n % 16));
        assert(out@ =~= old(out)@ + hex(n as nat));
    }
}

fn push_hex4(out: &mut Vec<char>, n: u32)
    ensures
        final(out)@ == old(out)@ + hex4(n as nat),
{
    let mut h: Vec<char> = Vec::new();
    push_hex(&mut h, n);
    assert(h@ =~= hex(n as nat));
    let mut k = h.len();
    let ghost start = out@;
    while k < 4
        invariant
            h.len() <= k <= 4 || (h.len() >= 4 && k == h.len()),
            h@ == hex(n as nat),
            out@ == start + Seq::new((k - h.len()) as nat, |i: int| '0'),
        decreases 4 - k,
    {
        out.push('0');
        k += 1;
        assert(out@ =~= start + Seq::new((k - h.len()) as nat, |i: int| '0'));
    }
    let ghost pad = out@;
    push_all(out, &h);
    proof {
        if h.len() < 4 {
            assert(out@ =~= start + (Seq::new((4 - h.len()) as nat, |i: int| '0') + hex(n as nat)));
        } else {
            assert(out@ =~= start + hex(n as nat));
        }
    }
}

fn push_escaped_char(out: &mut Vec<char>, c: char)
    ensures
        final(out)@ == old(out)@ + escape_char(c),
{
    let ghost start = out@;
    if c == '\\' {
        out.push('\\');
        out.push('\\');
    } else if c == '"' {
        out.push('\\');
        out.push('"');
    } else if c == '\n' {
        out.push('\\');
        out.push('n');
    } else if c == '\r' {
        out.push('\\');
        out.push('r');
    } else if c == '\t' {
        out.push('\\');
        out.push('t');
    } else if control(c) {
        out.push('\\');
        out.push('u');
        push_hex4(out, c as u32);
    } else {
        out.push(c);
    }
    assert(out@ =~= start + escape_char(c));
}

/// Appends `escape_json(s)`.
pub fn push_escaped(out: &mut Vec<char>, s: &Vec<char>)
    ensures
        final(out)@ == old(out)@ + escape_json(s@),
{
    let mut i: usize = 0;
    let ghost start = out@;
    assert(s@.take(0) =~= Seq::<char>::empty());
    while i < s.len()
        invariant
            i <= s.len(),
            out@ == start + escape_json(s@.take(i as int)),
        decreases s.len() - i,
    {
        push_escaped_char(out, s[i]);
        assert(s@.take(i + 1).drop_last() =~= s@.take(i as int));
        i += 1;
        assert(out@ =~= start + escape_json(s@.take(i as int)));
    }
    assert(s@.take(s.len() as int) =~= s@);
}

/// `source_map_nodes_json`: the nodes, each in its JSON form, separated by `,\n`.
pub open spec fn nodes_json(nodes: Seq<SpecMapNode>, indent: nat) -> Seq<char>
    decreases nodes, 0int,
{
    if nodes.len() == 0 {
        Seq::empty()
    } else if nodes.len() == 1 {
        node_json(nodes[0], indent)
    } else {
        nodes_json(nodes.drop_last(), indent) + ",\n"@ + node_json(nodes.last(), indent)
    }
}

pub open spec fn kind_json(n: SpecMapNode, child_pad: Seq<char>) -> Seq<char> {
    child_pad + "\"kind\": \""@ + escape_json(n.kind) + "\",\n"@
}

pub open spec fn source_json(n: SpecMapNode, child_pad: Seq<char>) -> Seq<char> {
    child_pad + "\"source\": { \"line\": "@ + decimal(n.line as nat) + ", \"indent\": "@ + decimal(
        n.indent as nat,
    ) + ", \"text\": \""@ + escape_json(n.text) + "\" },\n"@
}

pub open spec fn generated_json(n: SpecMapNode, child_pad: Seq<char>) -> Seq<char> {
    child_pad + "\"generated\": { \"start_line\": "@ + decimal(n.start as nat) + ", \"end_line\": "@
        + decimal(n.end as nat) + " },\n"@
}

pub open spec fn children_json(n: SpecMapNode, indent: nat) -> Seq<char>
    decreases n, 0int,
{
    if n.children.len() == 0 {
        "[]"@
    } else {
        "[\n"@ + nodes_json(n.children, indent + 2) + "\n"@ + spaces(2 * indent + 2) + "]"@
    }
}

/// `source_map_node_json`: one node as a JSON object, indented by `2 * indent` spaces.
pub open spec fn node_json(n: SpecMapNode, indent: nat) -> Seq<char>
    decreases n, 1int,
{
    let pad = spaces(2 * indent);
    let child_pad = spaces(2 * indent + 2);
    pad + "{\n"@ + kind_json(n, child_pad) + source_json(n, child_pad) + generated_json(n, child_pad)
        + child_pad + "\"children\": "@ + children_json(n, indent) + "\n"@ + pad + "}"@
}

/// `source_map_json`: the source tree as a JSON document.
pub open spec fn spec_source_map_json(tree: Seq<SpecMapNode>) -> Seq<char> {
    "{\n  \"version\": 2,\n  \"format\": \"rusk.syntax-tree\",\n  \"tree\": [\n"@ + nodes_json(tree, 2)
        + "\n  ]\n}\n"@
}

pub proof fn lemma_spaces_add(a: nat, b: nat)
    ensures
        spaces(a) + spaces(b) == spaces(a + b),
{
    assert(spaces(a) + spaces(b) =~= spaces(a + b));
}

fn push_nodes_json(out: &mut Vec<char>, nodes: &Vec<SourceMapNode>, pad: &Vec<char>, indent: Ghost<nat>)
    requires
        pad@ == spaces(2 * indent@),
    ensures
        final(out)@ == old(out)@ + nodes_json(map_nodes_view(nodes@), indent@),
    decreases nodes, 0int,
{
    let ghost nv = map_nodes_view(nodes@);
    let ghost start = out@;
    let mut i: usize = 0;
    assert(nv.take(0) =~= Seq::<SpecMapNode>::empty());
    while i < nodes.len()
        invariant
            i <= nodes.len(),
            nv == map_nodes_view(nodes@),
            pad@ == spaces(2 * indent@),
            out@ == start + nodes_json(nv.take(i as int), indent@),
        decreases nodes.len() - i,
    {
        let ghost before = out@;
        if i > 0 {
            push_lit(out, ",\n");
        }
        push_node_json(out, &nodes[i], pad, indent);
        i += 1;
        proof {
            let t = nv.take(i as int);
            assert(t.last() == map_node_view(nodes@[i - 1]));
            assert(t.drop_last() =~= nv.take(i - 1));
            if i == 1 {
                assert(t[0] == t.last());
                assert(nv.take(0) =~= Seq::<SpecMapNode>::empty());
            }
            assert(out@ =~= start + nodes_json(t, indent@));
        }
    }
    assert(nv.take(nodes.len() as int) =~= nv);
}

fn push_kind_json(out: &mut Vec<char>, node: &SourceMapNode, child_pad: &Vec<char>)
    ensures
        final(out)@ == old(out)@ + kind_json(map_node_view(*node), child_pad@),
{
    let ghost start = out@;
    push_all(out, child_pad);
    push_lit(out, "\"kind\": \"");
    let kind = chars_of(node.kind.as_str());
    push_escaped(out, &kind);
    push_lit(out, "\",\n");
    assert(out@ =~= start + kind_json(map_node_view(*node), child_pad@));
}

fn push_source_json(out: &mut Vec<char>, node: &SourceMapNode, child_pad: &Vec<char>)
    ensures
        final(out)@ == old(out)@ + source_json(map_node_view(*node), child_pad@),
{
    let ghost start = out@;
    push_all(out, child_pad);
    push_lit(out, "\"source\": { \"line\": ");
    push_decimal(out, node.source_line);
    push_lit(out, ", \"indent\": ");
    push_decimal(out, node.source_indent);
    push_lit(out, ", \"text\": \"");
    let text = chars_of(node.source_text.as_str());
    push_escaped(out, &text);
    push_lit(out, "\" },\n");
    assert(out@ =~= start + source_json(map_node_view(*node), child_pad@));
}

fn push_generated_json(out: &mut Vec<char>, node: &SourceMapNode, child_pad: &Vec<char>)
    ensures
        final(out)@ == old(out)@ + generated_json(map_node_view(*node), child_pad@),
{
    let ghost start = out@;
    push_all(out, child_pad);
    push_lit(out, "\"generated\": { \"start_line\": ");
    push_decimal(out, node.generated_start_line);
    push_lit(out, ", \"end_line\": ");
    push_decimal(out, node.generated_end_line);
    push_lit(out, " },\n");
    assert(out@ =~= start + generated_json(map_node_view(*node), child_pad@));
}

fn push_children_json(out: &mut Vec<char>, node: &SourceMapNode, child_pad: &Vec<char>, indent: Ghost<nat>)
    requires
        child_pad@ == spaces(2 * indent@ + 2),
    ensures
        final(out)@ == old(out)@ + children_json(map_node_view(*node), indent@),
    decreases node, 0int,
{
    let ghost nv = map_node_view(*node);
    let ghost start = out@;
    assert(nv.children =~= map_nodes_view(node.children@));
    if node.children.len() == 0 {
        push_lit(out, "[]");
    } else {
        push_lit(out, "[\n");
        let mut grand_pad = copy_chars(child_pad);
        grand_pad.push(' ');
        grand_pad.push(' ');
        proof {
            lemma_spaces_add(2 * indent@ + 2, 2);
            assert(grand_pad@ =~= spaces(2 * indent@ + 2) + spaces(2));
            assert(2 * (indent@ + 2) == 2 * indent@ + 4);
        }
        push_nodes_json(out, &node.children, &grand_pad, Ghost(indent@ + 2));
        push_lit(out, "\n");
        push_all(out, child_pad);
        push_lit(out, "]");
        assert(out@ =~= start + children_json(nv, indent@));
    }
}

fn push_node_json(out: &mut Vec<char>, node: &SourceMapNode, pad: &Vec<char>, indent: Ghost<nat>)
    requires
        pad@ == spaces(2 * indent@),
    ensures
        final(out)@ == old(out)@ + node_json(map_node_view(*node), indent@),
    decreases node, 1int,
{
    let ghost nv = map_node_view(*node);
    let ghost start = out@;
    let mut child_pad = copy_chars(pad);
    child_pad.push(' ');
    child_pad.push(' ');
    proof {
        lemma_spaces_add(2 * indent@, 2);
        assert(child_pad@ =~= spaces(2 * indent@) + spaces(2));
    }
    push_all(out, pad);
    push_lit(out, "{\n");
    push_kind_json(out, node, &child_pad);
    push_source_json(out, node, &child_pad);
    push_generated_json(out, node, &child_pad);
    push_all(out, &child_pad);
    push_lit(out, "\"children\": ");
    push_children_json(out, node, &child_pad, indent);
    push_lit(out, "\n");
    push_all(out, pad);
    push_lit(out, "}");
    assert(out@ =~= start + node_json(nv, indent@));
}

/// `source_map_json`.
pub fn source_map_json(output: &TranspileOutput) -> (json: String)
    ensures
        json@ == spec_source_map_json(map_nodes_view(output.source_tree@)),
{
    let mut out = chars_of("{\n  \"version\": 2,\n  \"format\": \"rusk.syntax-tree\",\n  \"tree\": [\n");
    let mut pad: Vec<char> = Vec::new();
    push_spaces(&mut pad, 4);
    assert(spaces(2 * 2) =~= spaces(4));
    push_nodes_json(&mut out, &output.source_tree, &pad, Ghost(2));
    push_lit(&mut out, "\n  ]\n}\n");
    string_of(&out)
}

} // verus!
