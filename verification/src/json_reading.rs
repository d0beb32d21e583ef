//! Reading JSON text back into values, and what reading gives for the source tree's JSON.
use vstd::prelude::*;
use crate::emit::{ind};
use crate::json::{children_json, decimal, digit, escape_char, escape_json, generated_json, hex4, kind_json, node_json, nodes_json, source_json, spec_source_map_json};
use crate::laws::{json_escape_at, law_escaped_text_decodes_back, lemma_escape_front, lemma_hex4_small};
use crate::model::{SpecMapNode};
use crate::text::{is_ascii_digit, is_cc, spaces};
use crate::web::{digits_value};

verus! {

/// A JSON value of the kinds the source tree's JSON holds.
pub enum JsonValue {
    Number(nat),
    Str(Seq<char>),
    Array(Seq<JsonValue>),
    Object(Seq<(Seq<char>, JsonValue)>),
}

/// JSON white space.
pub open spec fn is_json_ws(c: char) -> bool {
    c == ' ' || c == '\t' || c == '\n' || c == '\r'
}

/// The text after its leading white space.
pub open spec fn skip_ws(t: Seq<char>) -> Seq<char>
    decreases t.len(),
{
    if t.len() > 0 && is_json_ws(t[0]) {
        skip_ws(t.drop_first())
    } else {
        t
    }
}

pub proof fn lemma_skip_ws_len(t: Seq<char>)
    ensures
        skip_ws(t).len() <= t.len(),
    decreases t.len(),
{
    if t.len() > 0 && is_json_ws(t[0]) {
        lemma_skip_ws_len(t.drop_first());
    }
}

/// The characters of a string body up to its closing quote, and what follows the quote.
pub open spec fn read_chars(e: Seq<char>) -> Option<(Seq<char>, Seq<char>)>
    decreases e.len(),
{
    if e.len() == 0 {
        None
    } else if e[0] == '"' {
        Some((Seq::empty(), e.drop_first()))
    } else if e[0] == '\\' {
        match json_escape_at(e) {
            Some((c, k)) => if 2 <= k <= e.len() {
                match read_chars(e.skip(k)) {
                    Some((s, r)) => Some((seq![c] + s, r)),
                    None => None,
                }
            } else {
                None
            },
            None => None,
        }
    } else if (e[0] as u32) < 32 {
        None
    } else {
        match read_chars(e.drop_first()) {
            Some((s, r)) => Some((seq![e[0]] + s, r)),
            None => None,
        }
    }
}

/// A JSON string: its decoded characters and what follows it.
pub open spec fn read_string(t: Seq<char>) -> Option<(Seq<char>, Seq<char>)> {
    if t.len() > 0 && t[0] == '"' {
        read_chars(t.drop_first())
    } else {
        None
    }
}

/// Number of leading ASCII digits.
pub open spec fn digit_run(t: Seq<char>) -> nat
    decreases t.len(),
{
    if t.len() > 0 && is_ascii_digit(t[0]) {
        1 + digit_run(t.drop_first())
    } else {
        0
    }
}

/// A non-negative JSON integer (no leading zeros) and what follows it.
pub open spec fn read_number(t: Seq<char>) -> Option<(nat, Seq<char>)> {
    let k = digit_run(t);
    if k == 0 || (t[0] == '0' && k > 1) {
        None
    } else {
        Some((digits_value(t.take(k as int)), t.skip(k as int)))
    }
}

/// A JSON value after optional white space, and what follows it.
pub open spec fn read_value(t: Seq<char>) -> Option<(JsonValue, Seq<char>)>
    decreases t.len(), 0int,
{
    let u = skip_ws(t);
    proof {
        lemma_skip_ws_len(t);
    }
    if u.len() == 0 {
        None
    } else if u[0] == '{' {
        read_members(u.drop_first())
    } else if u[0] == '[' {
        read_elements(u.drop_first())
    } else if u[0] == '"' {
        match read_string(u) {
            Some((s, r)) => Some((JsonValue::Str(s), r)),
            None => None,
        }
    } else {
        match read_number(u) {
            Some((n, r)) => Some((JsonValue::Number(n), r)),
            None => None,
        }
    }
}

/// The rest of an array after its `[`.
pub open spec fn read_elements(t: Seq<char>) -> Option<(JsonValue, Seq<char>)>
    decreases t.len(), 3int,
{
    let u = skip_ws(t);
    if u.len() > 0 && u[0] == ']' {
        Some((JsonValue::Array(Seq::empty()), u.drop_first()))
    } else {
        match read_items(t) {
            Some((vs, r)) => Some((JsonValue::Array(vs), r)),
            None => None,
        }
    }
}

/// Array elements separated by `,` and the closing `]`.
pub open spec fn read_items(t: Seq<char>) -> Option<(Seq<JsonValue>, Seq<char>)>
    decreases t.len(), 2int,
{
    match read_value(t) {
        Some((v, r)) => if r.len() < t.len() {
            let r2 = skip_ws(r);
            proof {
                lemma_skip_ws_len(r);
            }
            if r2.len() > 0 && r2[0] == ',' {
                match read_items(r2.drop_first()) {
                    Some((vs, rest)) => Some((seq![v] + vs, rest)),
                    None => None,
                }
            } else if r2.len() > 0 && r2[0] == ']' {
                Some((seq![v], r2.drop_first()))
            } else {
                None
            }
        } else {
            None
        },
        None => None,
    }
}

/// The rest of an object after its `{`.
pub open spec fn read_members(t: Seq<char>) -> Option<(JsonValue, Seq<char>)>
    decreases t.len(), 3int,
{
    let u = skip_ws(t);
    if u.len() > 0 && u[0] == '}' {
        Some((JsonValue::Object(Seq::empty()), u.drop_first()))
    } else {
        match read_pairs(t) {
            Some((ps, r)) => Some((JsonValue::Object(ps), r)),
            None => None,
        }
    }
}

/// Object members `"key": value` separated by `,` and the closing `}`.
pub open spec fn read_pairs(t: Seq<char>) -> Option<(Seq<(Seq<char>, JsonValue)>, Seq<char>)>
    decreases t.len(), 2int,
{
    let u = skip_ws(t);
    proof {
        lemma_skip_ws_len(t);
    }
    match read_string(u) {
        Some((key, r)) => if r.len() < t.len() {
            let r2 = skip_ws(r);
            proof {
                lemma_skip_ws_len(r);
            }
            if r2.len() > 0 && r2[0] == ':' {
                match read_value(r2.drop_first()) {
                    Some((v, r3)) => if r3.len() < t.len() {
                        let r4 = skip_ws(r3);
                        proof {
                            lemma_skip_ws_len(r3);
                        }
                        if r4.len() > 0 && r4[0] == ',' {
                            match read_pairs(r4.drop_first()) {
                                Some((ps, rest)) => Some((seq![(key, v)] + ps, rest)),
                                None => None,
                            }
                        } else if r4.len() > 0 && r4[0] == '}' {
                            Some((seq![(key, v)], r4.drop_first()))
                        } else {
                            None
                        }
                    } else {
                        None
                    },
                    None => None,
                }
            } else {
                None
            }
        } else {
            None
        },
        None => None,
    }
}

/// A whole JSON text: one value with white space around it.
pub open spec fn read_json(t: Seq<char>) -> Option<JsonValue> {
    match read_value(t) {
        Some((v, r)) => if skip_ws(r).len() == 0 {
            Some(v)
        } else {
            None
        },
        None => None,
    }
}


/// Every character is JSON white space.
pub open spec fn all_ws(w: Seq<char>) -> bool {
    forall|k: int| 0 <= k < w.len() ==> is_json_ws(#[trigger] w[k])
}

/// No character needs escaping: no `"`, no `\` and no control character.
pub open spec fn plain(s: Seq<char>) -> bool {
    forall|k: int| 0 <= k < s.len() ==> #[trigger] s[k] != '"' && s[k] != '\\' && !is_cc(s[k])
}

pub proof fn lemma_skip_ws_cat(w: Seq<char>, b: Seq<char>)
    requires
        all_ws(w),
    ensures
        skip_ws(w + b) == skip_ws(b),
    decreases w.len(),
{
    if w.len() > 0 {
        assert((w + b)[0] == w[0]);
        assert((w + b).drop_first() =~= w.drop_first() + b);
        lemma_skip_ws_cat(w.drop_first(), b);
    } else {
        assert(w + b =~= b);
    }
}

proof fn lemma_read_chars_step(c: char, x: Seq<char>)
    ensures
        read_chars(escape_char(c) + x) == match read_chars(x) {
            Some((s, r)) => Some((seq![c] + s, r)),
            None => None::<(Seq<char>, Seq<char>)>,
        },
{
    let e = escape_char(c) + x;
    let k = escape_char(c).len() as int;
    assert(e.skip(k) =~= x);
    if c == '\\' || c == '"' || c == '\n' || c == '\r' || c == '\t' {
        assert(e[0] == '\\');
    } else if is_cc(c) {
        lemma_hex4_small(c as nat);
        assert(e.subrange(2, 6) =~= hex4(c as nat));
        assert((c as nat) as char == c);
    } else {
        assert(e[0] == c);
        assert(e.drop_first() =~= x);
    }
}

/// A string body written by `escape_json` and closed by `"` reads back as the text.
pub proof fn lemma_read_escaped(s: Seq<char>, b: Seq<char>)
    ensures
        read_chars(escape_json(s) + seq!['"'] + b) == Some((s, b)),
    decreases s.len(),
{
    if s.len() == 0 {
        assert(escape_json(s) =~= Seq::<char>::empty());
        assert(escape_json(s) + seq!['"'] + b =~= seq!['"'] + b);
        assert((seq!['"'] + b).drop_first() =~= b);
        assert(s =~= Seq::<char>::empty());
    } else {
        lemma_read_escaped(s.drop_first(), b);
        lemma_escape_front(s);
        let x = escape_json(s.drop_first()) + seq!['"'] + b;
        lemma_read_chars_step(s[0], x);
        assert(escape_json(s) + seq!['"'] + b =~= escape_char(s[0]) + x);
        assert(seq![s[0]] + s.drop_first() =~= s);
    }
}

/// A quoted string written by `escape_json`, after white space, reads as that text.
pub proof fn lemma_read_str_value(w: Seq<char>, s: Seq<char>, z: Seq<char>)
    requires
        all_ws(w),
    ensures
        read_value(w + (seq!['"'] + escape_json(s) + seq!['"']) + z) == Some((JsonValue::Str(s), z)),
{
    let q = seq!['"'] + escape_json(s) + seq!['"'];
    lemma_skip_ws_cat(w, q + z);
    assert(w + q + z =~= w + (q + z));
    assert((q + z)[0] == '"');
    assert((q + z).drop_first() =~= escape_json(s) + seq!['"'] + z);
    lemma_read_escaped(s, z);
}

proof fn lemma_digit_value(d: nat)
    requires
        d < 10,
    ensures
        is_ascii_digit(digit(d)),
        digit(d) as int - 48 == d,
        d > 0 ==> digit(d) != '0',
{
    assert(d == 0 || d == 1 || d == 2 || d == 3 || d == 4 || d == 5 || d == 6 || d == 7 || d == 8
        || d == 9);
}

proof fn lemma_decimal_digits(n: nat)
    ensures
        decimal(n).len() >= 1,
        forall|k: int| 0 <= k < decimal(n).len() ==> is_ascii_digit(#[trigger] decimal(n)[k]),
        digits_value(decimal(n)) == n,
        n > 0 ==> decimal(n)[0] != '0',
        decimal(n).len() > 1 ==> n > 0,
    decreases n,
{
    if n < 10 {
        lemma_digit_value(n);
        let d = decimal(n);
        assert(d.drop_last() =~= Seq::<char>::empty());
        assert(digits_value(Seq::<char>::empty()) == 0);
        assert(d.last() == digit(n));
    } else {
        lemma_decimal_digits(n / 10);
        lemma_digit_value(n % 10);
        let d = decimal(n);
        let p = decimal(n / 10);
        assert(d.drop_last() =~= p);
        assert(d[0] == p[0]);
        assert(d.last() == digit(n % 10));
        assert(digits_value(d) == digits_value(p) * 10 + (n % 10));
        assert((n / 10) * 10 + n % 10 == n);
        assert forall|k: int| 0 <= k < d.len() implies is_ascii_digit(#[trigger] d[k]) by {
            if k < p.len() {
                assert(d[k] == p[k]);
            }
        }
    }
}

proof fn lemma_digit_run(p: Seq<char>, b: Seq<char>)
    requires
        forall|k: int| 0 <= k < p.len() ==> is_ascii_digit(#[trigger] p[k]),
        b.len() == 0 || !is_ascii_digit(b[0]),
    ensures
        digit_run(p + b) == p.len(),
    decreases p.len(),
{
    if p.len() > 0 {
        assert((p + b)[0] == p[0]);
        assert((p + b).drop_first() =~= p.drop_first() + b);
        lemma_digit_run(p.drop_first(), b);
    } else {
        assert(p + b =~= b);
    }
}

/// A number written by `decimal`, after white space, reads as that number.
pub proof fn lemma_read_number_value(w: Seq<char>, n: nat, z: Seq<char>)
    requires
        all_ws(w),
        z.len() == 0 || !is_ascii_digit(z[0]),
    ensures
        read_value(w + decimal(n) + z) == Some((JsonValue::Number(n), z)),
{
    let d = decimal(n);
    lemma_decimal_digits(n);
    lemma_skip_ws_cat(w, d + z);
    assert(w + d + z =~= w + (d + z));
    lemma_digit_run(d, z);
    assert((d + z).take(d.len() as int) =~= d);
    assert((d + z).skip(d.len() as int) =~= z);
    assert((d + z)[0] == d[0]);
}


/// `"key"` as JSON writes a key that needs no escaping.
pub open spec fn quoted(key: Seq<char>) -> Seq<char> {
    seq!['"'] + key + seq!['"']
}

proof fn lemma_read_key(key: Seq<char>, rest: Seq<char>)
    requires
        plain(key),
    ensures
        read_string(quoted(key) + rest) == Some((key, rest)),
{
    law_escaped_text_decodes_back(key);
    lemma_read_escaped(key, rest);
    let t = quoted(key) + rest;
    assert(t[0] == '"');
    assert(t.drop_first() =~= escape_json(key) + seq!['"'] + rest);
}

/// White space, `"key"`, `:`, the value's text, and what follows it.
#[verifier::opaque]
pub open spec fn pair_text(w1: Seq<char>, key: Seq<char>, vt: Seq<char>, next: Seq<char>) -> Seq<char> {
    w1 + (quoted(key) + (seq![':'] + (vt + next)))
}

/// A member `"key": value` followed by `,` and more members.
pub proof fn lemma_read_pair_more(
    t: Seq<char>,
    w1: Seq<char>,
    key: Seq<char>,
    vt: Seq<char>,
    v: JsonValue,
    after: Seq<char>,
)
    requires
        all_ws(w1),
        plain(key),
        t == pair_text(w1, key, vt, seq![','] + after),
        read_value(vt + (seq![','] + after)) == Some((v, seq![','] + after)),
    ensures
        read_pairs(t) == match read_pairs(after) {
            Some((ps, r)) => Some((seq![(key, v)] + ps, r)),
            None => None::<(Seq<(Seq<char>, JsonValue)>, Seq<char>)>,
        },
{
    reveal(pair_text);
    let rest = seq![':'] + (vt + (seq![','] + after));
    lemma_skip_ws_cat(w1, quoted(key) + rest);
    assert((quoted(key) + rest)[0] == '"');
    lemma_read_key(key, rest);
    assert(rest[0] == ':');
    assert(rest.drop_first() =~= vt + (seq![','] + after));
    assert((seq![','] + after).drop_first() =~= after);
    assert((seq![','] + after)[0] == ',');
}

/// The last member `"key": value`, white space, and the closing `}`.
pub proof fn lemma_read_pair_last(
    t: Seq<char>,
    w1: Seq<char>,
    key: Seq<char>,
    vt: Seq<char>,
    v: JsonValue,
    w3: Seq<char>,
    after: Seq<char>,
)
    requires
        all_ws(w1),
        all_ws(w3),
        plain(key),
        t == pair_text(w1, key, vt, w3 + (seq!['}'] + after)),
        read_value(vt + (w3 + (seq!['}'] + after))) == Some((v, w3 + (seq!['}'] + after))),
    ensures
        read_pairs(t) == Some((seq![(key, v)], after)),
{
    reveal(pair_text);
    let rest = seq![':'] + (vt + (w3 + (seq!['}'] + after)));
    lemma_skip_ws_cat(w1, quoted(key) + rest);
    assert((quoted(key) + rest)[0] == '"');
    lemma_read_key(key, rest);
    assert(rest[0] == ':');
    assert(rest.drop_first() =~= vt + (w3 + (seq!['}'] + after)));
    lemma_skip_ws_cat(w3, seq!['}'] + after);
    assert((seq!['}'] + after)[0] == '}');
    assert((seq!['}'] + after).drop_first() =~= after);
}

/// An object: white space, `{`, and members that read as `ps`.
pub proof fn lemma_read_object(t: Seq<char>, w: Seq<char>, m: Seq<char>, ps: Seq<(Seq<char>, JsonValue)>, after: Seq<char>)
    requires
        all_ws(w),
        t == w + (seq!['{'] + m),
        skip_ws(m).len() > 0 && skip_ws(m)[0] != '}',
        read_pairs(m) == Some((ps, after)),
    ensures
        read_value(t) == Some((JsonValue::Object(ps), after)),
{
    lemma_skip_ws_cat(w, seq!['{'] + m);
    assert((seq!['{'] + m)[0] == '{');
    assert((seq!['{'] + m).drop_first() =~= m);
}


/// The JSON value that `node_json` writes for a node.
pub open spec fn node_value(n: SpecMapNode) -> JsonValue
    decreases n, 1int,
{
    JsonValue::Object(
        seq![
            ("kind"@, JsonValue::Str(n.kind)),
            (
                "source"@,
                JsonValue::Object(
                    seq![
                        ("line"@, JsonValue::Number(n.line as nat)),
                        ("indent"@, JsonValue::Number(n.indent as nat)),
                        ("text"@, JsonValue::Str(n.text)),
                    ],
                ),
            ),
            (
                "generated"@,
                JsonValue::Object(
                    seq![
                        ("start_line"@, JsonValue::Number(n.start as nat)),
                        ("end_line"@, JsonValue::Number(n.end as nat)),
                    ],
                ),
            ),
            ("children"@, JsonValue::Array(nodes_value(n.children))),
        ],
    )
}

/// The JSON values of nodes, in order.
pub open spec fn nodes_value(ns: Seq<SpecMapNode>) -> Seq<JsonValue>
    decreases ns, 0int,
{
    Seq::new(
        ns.len(),
        |i: int|
            if 0 <= i < ns.len() {
                node_value(ns[i])
            } else {
                JsonValue::Number(0)
            },
    )
}

/// The JSON value that `source_map_json` writes for a source tree.
pub open spec fn document_value(tree: Seq<SpecMapNode>) -> JsonValue {
    JsonValue::Object(
        seq![
            ("version"@, JsonValue::Number(2)),
            ("format"@, JsonValue::Str("rusk.syntax-tree"@)),
            ("tree"@, JsonValue::Array(nodes_value(tree))),
        ],
    )
}

proof fn lemma_nodes_front(ns: Seq<SpecMapNode>, ind: nat)
    requires
        ns.len() >= 2,
    ensures
        nodes_json(ns, ind) == node_json(ns[0], ind) + (",\n"@ + nodes_json(ns.drop_first(), ind)),
    decreases ns.len(),
{
    let a = ns.drop_last();
    let b = ns.drop_first();
    if ns.len() == 2 {
        assert(a.len() == 1 && a[0] == ns[0]);
        assert(b.len() == 1 && b[0] == ns[1]);
        assert(nodes_json(a, ind) == node_json(ns[0], ind));
        assert(nodes_json(b, ind) == node_json(ns[1], ind));
        assert(nodes_json(ns, ind) =~= node_json(ns[0], ind) + (",\n"@ + nodes_json(b, ind)));
    } else {
        lemma_nodes_front(a, ind);
        assert(a.drop_first() =~= b.drop_last());
        assert(b.last() == ns.last());
        assert(a[0] == ns[0]);
        assert(nodes_json(b, ind) == nodes_json(b.drop_last(), ind) + ",\n"@ + node_json(b.last(), ind));
        assert(nodes_json(ns, ind) == nodes_json(a, ind) + ",\n"@ + node_json(ns.last(), ind));
        assert(nodes_json(ns, ind) =~= node_json(ns[0], ind) + (",\n"@ + nodes_json(b, ind)));
    }
}

proof fn lemma_ws_facts(k: nat)
    ensures
        all_ws(spaces(k)),
        all_ws(seq![' ']),
        all_ws(seq!['\n']),
        all_ws(Seq::<char>::empty()),
{
}

proof fn lemma_ws_cat(a: Seq<char>, b: Seq<char>)
    requires
        all_ws(a),
        all_ws(b),
    ensures
        all_ws(a + b),
{
    assert forall|k: int| 0 <= k < (a + b).len() implies is_json_ws(#[trigger] (a + b)[k]) by {
        if k < a.len() {
            assert((a + b)[k] == a[k]);
        } else {
            assert((a + b)[k] == b[k - a.len()]);
        }
    }
}

proof fn lemma_keys_plain()
    ensures
        plain("kind"@),
        plain("source"@),
        plain("line"@),
        plain("indent"@),
        plain("text"@),
        plain("generated"@),
        plain("start_line"@),
        plain("end_line"@),
        plain("children"@),
        plain("version"@),
        plain("format"@),
        plain("tree"@),
        plain("rusk.syntax-tree"@),
{
    reveal_strlit("kind");
    reveal_strlit("source");
    reveal_strlit("line");
    reveal_strlit("indent");
    reveal_strlit("text");
    reveal_strlit("generated");
    reveal_strlit("start_line");
    reveal_strlit("end_line");
    reveal_strlit("children");
    reveal_strlit("version");
    reveal_strlit("format");
    reveal_strlit("tree");
    reveal_strlit("rusk.syntax-tree");
}

/// The text of a JSON string written by `escape_json`.
pub open spec fn string_text(s: Seq<char>) -> Seq<char> {
    seq!['"'] + escape_json(s) + seq!['"']
}


/// The members of the `generated` object, its closing `}` and what follows it.
#[verifier::opaque]
pub open spec fn gen_members(n: SpecMapNode, x: Seq<char>) -> Seq<char> {
    pair_text(
        seq![' '],
        "start_line"@,
        seq![' '] + decimal(n.start as nat),
        seq![','] + pair_text(
            seq![' '],
            "end_line"@,
            seq![' '] + decimal(n.end as nat),
            seq![' '] + (seq!['}'] + x),
        ),
    )
}

/// The members of the `source` object, its closing `}` and what follows it.
#[verifier::opaque]
pub open spec fn src_members(n: SpecMapNode, x: Seq<char>) -> Seq<char> {
    pair_text(
        seq![' '],
        "line"@,
        seq![' '] + decimal(n.line as nat),
        seq![','] + pair_text(
            seq![' '],
            "indent"@,
            seq![' '] + decimal(n.indent as nat),
            seq![','] + pair_text(
                seq![' '],
                "text"@,
                seq![' '] + string_text(n.text),
                seq![' '] + (seq!['}'] + x),
            ),
        ),
    )
}

proof fn lemma_read_gen(n: SpecMapNode, x: Seq<char>)
    requires
        x.len() > 0 && x[0] == ',',
    ensures
        read_value(seq![' '] + (seq!['{'] + gen_members(n, x))) == Some(
            (
                JsonValue::Object(
                    seq![
                        ("start_line"@, JsonValue::Number(n.start as nat)),
                        ("end_line"@, JsonValue::Number(n.end as nat)),
                    ],
                ),
                x,
            ),
        ),
{
    reveal(gen_members);
    reveal(pair_text);
    let sp = seq![' '];
    lemma_keys_plain();
    lemma_ws_facts(0);
    let tail = sp + (seq!['}'] + x);
    let g2 = pair_text(sp, "end_line"@, sp + decimal(n.end as nat), tail);
    lemma_read_number_value(sp, n.end as nat, tail);
    assert((sp + decimal(n.end as nat)) + tail == sp + decimal(n.end as nat) + tail);
    lemma_read_pair_last(g2, sp, "end_line"@, sp + decimal(n.end as nat), JsonValue::Number(n.end as nat), sp, x);
    lemma_read_number_value(sp, n.start as nat, seq![','] + g2);
    lemma_read_pair_more(gen_members(n, x), sp, "start_line"@, sp + decimal(n.start as nat), JsonValue::Number(n.start as nat), g2);
    let m = gen_members(n, x);
    lemma_skip_ws_cat(sp, quoted("start_line"@) + (seq![':'] + (sp + decimal(n.start as nat) + (seq![','] + g2))));
    assert(m == sp + (quoted("start_line"@) + (seq![':'] + (sp + decimal(n.start as nat) + (seq![','] + g2)))));
    assert(seq![("start_line"@, JsonValue::Number(n.start as nat))] + seq![("end_line"@, JsonValue::Number(n.end as nat))] =~= seq![("start_line"@, JsonValue::Number(n.start as nat)), ("end_line"@, JsonValue::Number(n.end as nat))]);
    assert(read_pairs(g2) == Some((seq![("end_line"@, JsonValue::Number(n.end as nat))], x)));
    assert(read_pairs(m) == Some((seq![("start_line"@, JsonValue::Number(n.start as nat)), ("end_line"@, JsonValue::Number(n.end as nat))], x)));
    lemma_read_object(sp + (seq!['{'] + m), sp, m, seq![("start_line"@, JsonValue::Number(n.start as nat)), ("end_line"@, JsonValue::Number(n.end as nat))], x);
}


proof fn lemma_read_src(n: SpecMapNode, x: Seq<char>)
    requires
        x.len() > 0 && x[0] == ',',
    ensures
        read_value(seq![' '] + (seq!['{'] + src_members(n, x))) == Some(
            (
                JsonValue::Object(
                    seq![
                        ("line"@, JsonValue::Number(n.line as nat)),
                        ("indent"@, JsonValue::Number(n.indent as nat)),
                        ("text"@, JsonValue::Str(n.text)),
                    ],
                ),
                x,
            ),
        ),
{
    reveal(src_members);
    reveal(pair_text);
    let sp = seq![' '];
    lemma_keys_plain();
    lemma_ws_facts(0);
    let tail = sp + (seq!['}'] + x);
    let s3 = pair_text(sp, "text"@, sp + string_text(n.text), tail);
    lemma_read_str_value(sp, n.text, tail);
    lemma_read_pair_last(s3, sp, "text"@, sp + string_text(n.text), JsonValue::Str(n.text), sp, x);
    let s2 = pair_text(sp, "indent"@, sp + decimal(n.indent as nat), seq![','] + s3);
    lemma_read_number_value(sp, n.indent as nat, seq![','] + s3);
    lemma_read_pair_more(s2, sp, "indent"@, sp + decimal(n.indent as nat), JsonValue::Number(n.indent as nat), s3);
    let m = src_members(n, x);
    lemma_read_number_value(sp, n.line as nat, seq![','] + s2);
    lemma_read_pair_more(m, sp, "line"@, sp + decimal(n.line as nat), JsonValue::Number(n.line as nat), s2);
    lemma_skip_ws_cat(sp, quoted("line"@) + (seq![':'] + (sp + decimal(n.line as nat) + (seq![','] + s2))));
    assert(m == sp + (quoted("line"@) + (seq![':'] + (sp + decimal(n.line as nat) + (seq![','] + s2)))));
    let ps = seq![
        ("line"@, JsonValue::Number(n.line as nat)),
        ("indent"@, JsonValue::Number(n.indent as nat)),
        ("text"@, JsonValue::Str(n.text)),
    ];
    assert(read_pairs(s3) == Some((seq![("text"@, JsonValue::Str(n.text))], x)));
    assert(seq![("indent"@, JsonValue::Number(n.indent as nat))] + seq![("text"@, JsonValue::Str(n.text))] =~= ps.drop_first());
    assert(seq![("line"@, JsonValue::Number(n.line as nat))] + ps.drop_first() =~= ps);
    assert(read_pairs(m) == Some((ps, x)));
    lemma_read_object(sp + (seq!['{'] + m), sp, m, ps, x);
}


/// The members of a node's object, its closing `}` and what follows it.
/// The members of a node's object, its closing `}` and what follows it.
#[verifier::opaque]
pub open spec fn node_members(n: SpecMapNode, ind: nat, b: Seq<char>) -> Seq<char> {
    pair_text(
        seq!['\n'] + spaces(2 * ind + 2),
        "kind"@,
        seq![' '] + string_text(n.kind),
        seq![','] + m_source(n, ind, b),
    )
}

#[verifier::rlimit(60)]
proof fn lemma_kind_text(n: SpecMapNode, cp: Seq<char>)
    ensures
        kind_json(n, cp) == cp + quoted("kind"@) + seq![':'] + seq![' '] + string_text(n.kind)
            + seq![','] + seq!['\n'],
{
    reveal_strlit("\"kind\": \"");
    reveal_strlit("\",\n");
    reveal_strlit("kind");
    assert("\"kind\": \""@ =~= quoted("kind"@) + seq![':'] + seq![' '] + seq!['"']);
    assert("\",\n"@ =~= seq!['"'] + seq![','] + seq!['\n']);
    assert(kind_json(n, cp) =~= cp + quoted("kind"@) + seq![':'] + seq![' '] + string_text(n.kind)
        + seq![','] + seq!['\n']);
}

#[verifier::rlimit(60)]
proof fn lemma_source_text(n: SpecMapNode, cp: Seq<char>)
    ensures
        source_json(n, cp) == cp + quoted("source"@) + seq![':'] + (seq![' '] + (seq!['{'] + src_members(n, Seq::empty()))) + seq![','] + seq!['\n'],
{
    reveal(src_members);
    reveal(pair_text);
    reveal_strlit("\"source\": { \"line\": ");
    reveal_strlit(", \"indent\": ");
    reveal_strlit(", \"text\": \"");
    reveal_strlit("\" },\n");
    reveal_strlit("source");
    reveal_strlit("line");
    reveal_strlit("indent");
    reveal_strlit("text");
    let sp = seq![' '];
    let l1 = quoted("source"@) + seq![':'] + sp + seq!['{'] + sp + quoted("line"@) + seq![':'] + sp;
    let l2 = seq![','] + sp + quoted("indent"@) + seq![':'] + sp;
    let l3 = seq![','] + sp + quoted("text"@) + seq![':'] + sp + seq!['"'];
    let l4 = seq!['"'] + sp + seq!['}'] + seq![','] + seq!['\n'];
    assert("\"source\": { \"line\": "@ =~= l1);
    assert(", \"indent\": "@ =~= l2);
    assert(", \"text\": \""@ =~= l3);
    assert("\" },\n"@ =~= l4);
    let d1 = decimal(n.line as nat);
    let d2 = decimal(n.indent as nat);
    let e = escape_json(n.text);
    assert(source_json(n, cp) == cp + l1 + d1 + l2 + d2 + l3 + e + l4);
    assert(cp + l1 + d1 + l2 + d2 + l3 + e + l4 =~= cp + quoted("source"@) + seq![':'] + (sp + (
    seq!['{'] + src_members(n, Seq::empty()))) + seq![','] + seq!['\n']);
}

#[verifier::rlimit(60)]
proof fn lemma_gen_text(n: SpecMapNode, cp: Seq<char>)
    ensures
        generated_json(n, cp) == cp + quoted("generated"@) + seq![':'] + (seq![' '] + (seq!['{'] + gen_members(n, Seq::empty()))) + seq![','] + seq!['\n'],
{
    reveal(gen_members);
    reveal(pair_text);
    reveal_strlit("\"generated\": { \"start_line\": ");
    reveal_strlit(", \"end_line\": ");
    reveal_strlit(" },\n");
    reveal_strlit("generated");
    reveal_strlit("start_line");
    reveal_strlit("end_line");
    let sp = seq![' '];
    let l1 = quoted("generated"@) + seq![':'] + sp + seq!['{'] + sp + quoted("start_line"@) + seq![':'] + sp;
    let l2 = seq![','] + sp + quoted("end_line"@) + seq![':'] + sp;
    let l3 = sp + seq!['}'] + seq![','] + seq!['\n'];
    assert("\"generated\": { \"start_line\": "@ =~= l1);
    assert(", \"end_line\": "@ =~= l2);
    assert(" },\n"@ =~= l3);
    let d1 = decimal(n.start as nat);
    let d2 = decimal(n.end as nat);
    assert(generated_json(n, cp) == cp + l1 + d1 + l2 + d2 + l3);
    assert(cp + l1 + d1 + l2 + d2 + l3 =~= cp + quoted("generated"@) + seq![':'] + (sp + (seq!['{']
        + gen_members(n, Seq::empty()))) + seq![','] + seq!['\n']);
}

/// The text after a node's `generated` member: the `children` member and the closing `}`.
pub open spec fn children_tail(n: SpecMapNode, ind: nat, b: Seq<char>) -> Seq<char> {
    spaces(2 * ind + 2) + "\"children\": "@ + children_json(n, ind) + "\n"@ + spaces(2 * ind) + "}"@ + b
}

proof fn lemma_text_children(n: SpecMapNode, ind: nat, b: Seq<char>)
    ensures
        seq!['\n'] + children_tail(n, ind, b) == m_children(n, ind, b),
{
    reveal(m_children);
    reveal(pair_text);
    reveal_strlit("\"children\": ");
    reveal_strlit("children");
    reveal_strlit("\n");
    reveal_strlit("}");
    assert("\"children\": "@ =~= quoted("children"@) + seq![':'] + seq![' ']);
    assert("\n"@ =~= seq!['\n']);
    assert("}"@ =~= seq!['}']);
    assert(seq!['\n'] + children_tail(n, ind, b) =~= m_children(n, ind, b));
}

proof fn lemma_text_generated(n: SpecMapNode, ind: nat, b: Seq<char>)
    ensures
        seq!['\n'] + (generated_json(n, spaces(2 * ind + 2)) + children_tail(n, ind, b)) == m_generated(n, ind, b),
{
    lemma_text_children(n, ind, b);
    lemma_gen_text(n, spaces(2 * ind + 2));
    reveal(m_generated);
    reveal(pair_text);
    assert(seq!['\n'] + (generated_json(n, spaces(2 * ind + 2)) + children_tail(n, ind, b)) =~= m_generated(n, ind, b));
}

proof fn lemma_text_source(n: SpecMapNode, ind: nat, b: Seq<char>)
    ensures
        seq!['\n'] + (source_json(n, spaces(2 * ind + 2)) + (generated_json(n, spaces(2 * ind + 2)) + children_tail(n, ind, b))) == m_source(n, ind, b),
{
    lemma_text_generated(n, ind, b);
    lemma_source_text(n, spaces(2 * ind + 2));
    reveal(m_source);
    reveal(pair_text);
    assert(seq!['\n'] + (source_json(n, spaces(2 * ind + 2)) + (generated_json(n, spaces(2 * ind + 2)) + children_tail(n, ind, b))) =~= m_source(n, ind, b));
}

proof fn lemma_text_kind(n: SpecMapNode, ind: nat, b: Seq<char>)
    ensures
        seq!['\n'] + (kind_json(n, spaces(2 * ind + 2)) + (source_json(n, spaces(2 * ind + 2)) + (generated_json(n, spaces(2 * ind + 2)) + children_tail(n, ind, b)))) == node_members(n, ind, b),
{
    lemma_text_source(n, ind, b);
    lemma_kind_text(n, spaces(2 * ind + 2));
    reveal(node_members);
    reveal(pair_text);
    assert(seq!['\n'] + (kind_json(n, spaces(2 * ind + 2)) + (source_json(n, spaces(2 * ind + 2)) + (generated_json(n, spaces(2 * ind + 2)) + children_tail(n, ind, b)))) =~= node_members(n, ind, b));
}

#[verifier::rlimit(60)]
proof fn lemma_node_text(n: SpecMapNode, ind: nat, w: Seq<char>, b: Seq<char>)
    ensures
        node_json(n, ind).len() > 0,
        w + node_json(n, ind) + b == (w + spaces(2 * ind)) + (seq!['{'] + node_members(n, ind, b)),
{
    let cp = spaces(2 * ind + 2);
    let pad = spaces(2 * ind);
    lemma_text_kind(n, ind, b);
    reveal_strlit("{\n");
    let k = kind_json(n, cp);
    let s = source_json(n, cp);
    let g = generated_json(n, cp);
    let ct = children_tail(n, ind, b);
    assert("{\n"@ =~= seq!['{'] + seq!['\n']);
    assert(node_json(n, ind) + b =~= pad + "{\n"@ + (k + (s + (g + ct))));
    assert(w + node_json(n, ind) + b =~= (w + pad) + (seq!['{'] + (seq!['\n'] + (k + (s + (g + ct))))));
}

/// The pairs of a node's object, its children's value given.
pub open spec fn node_pairs(n: SpecMapNode, cv: JsonValue) -> Seq<(Seq<char>, JsonValue)> {
    seq![
        ("kind"@, JsonValue::Str(n.kind)),
        (
            "source"@,
            JsonValue::Object(
                seq![
                    ("line"@, JsonValue::Number(n.line as nat)),
                    ("indent"@, JsonValue::Number(n.indent as nat)),
                    ("text"@, JsonValue::Str(n.text)),
                ],
            ),
        ),
        (
            "generated"@,
            JsonValue::Object(
                seq![
                    ("start_line"@, JsonValue::Number(n.start as nat)),
                    ("end_line"@, JsonValue::Number(n.end as nat)),
                ],
            ),
        ),
        ("children"@, cv),
    ]
}

/// The `children` member of a node, `}` and what follows.
#[verifier::opaque]
pub open spec fn m_children(n: SpecMapNode, ind: nat, b: Seq<char>) -> Seq<char> {
    pair_text(
        seq!['\n'] + spaces(2 * ind + 2),
        "children"@,
        seq![' '] + children_json(n, ind),
        (seq!['\n'] + spaces(2 * ind)) + (seq!['}'] + b),
    )
}

/// The `generated` member of a node and the members after it.
#[verifier::opaque]
pub open spec fn m_generated(n: SpecMapNode, ind: nat, b: Seq<char>) -> Seq<char> {
    pair_text(
        seq!['\n'] + spaces(2 * ind + 2),
        "generated"@,
        seq![' '] + (seq!['{'] + gen_members(n, Seq::empty())),
        seq![','] + m_children(n, ind, b),
    )
}

/// The `source` member of a node and the members after it.
#[verifier::opaque]
pub open spec fn m_source(n: SpecMapNode, ind: nat, b: Seq<char>) -> Seq<char> {
    pair_text(
        seq!['\n'] + spaces(2 * ind + 2),
        "source"@,
        seq![' '] + (seq!['{'] + src_members(n, Seq::empty())),
        seq![','] + m_generated(n, ind, b),
    )
}

#[verifier::spinoff_prover]
#[verifier::rlimit(60)]
proof fn lemma_read_m_generated(n: SpecMapNode, ind: nat, b: Seq<char>, cv: JsonValue)
    requires
        read_value((seq![' '] + children_json(n, ind)) + ((seq!['\n'] + spaces(2 * ind)) + (seq!['}'] + b)))
            == Some((cv, (seq!['\n'] + spaces(2 * ind)) + (seq!['}'] + b))),
    ensures
        read_pairs(m_generated(n, ind, b)) == Some((node_pairs(n, cv).subrange(2, 4), b)),
{
    let pad = spaces(2 * ind);
    let cp = spaces(2 * ind + 2);
    let nl = seq!['\n'];
    let sp = seq![' '];
    lemma_keys_plain();
    lemma_ws_facts(2 * ind);
    lemma_ws_facts(2 * ind + 2);
    lemma_ws_cat(nl, cp);
    lemma_ws_cat(nl, pad);
    let a4 = m_children(n, ind, b);
    reveal(m_children);
    reveal(m_generated);
    lemma_read_pair_last(a4, nl + cp, "children"@, sp + children_json(n, ind), cv, nl + pad, b);
    let vt_gen = sp + (seq!['{'] + gen_members(n, Seq::empty()));
    assert(vt_gen + (seq![','] + a4) == sp + (seq!['{'] + gen_members(n, seq![','] + a4))) by {
        reveal(gen_members);
        reveal(pair_text);
        assert(vt_gen + (seq![','] + a4) =~= sp + (seq!['{'] + gen_members(n, seq![','] + a4)));
    }
    lemma_read_gen(n, seq![','] + a4);
    let ps = node_pairs(n, cv);
    lemma_read_pair_more(m_generated(n, ind, b), nl + cp, "generated"@, vt_gen, ps[2].1, a4);
    assert(seq![ps[2]] + seq![ps[3]] =~= ps.subrange(2, 4));
}

#[verifier::spinoff_prover]
#[verifier::rlimit(60)]
proof fn lemma_read_m_source(n: SpecMapNode, ind: nat, b: Seq<char>, cv: JsonValue)
    requires
        read_pairs(m_generated(n, ind, b)) == Some((node_pairs(n, cv).subrange(2, 4), b)),
    ensures
        read_pairs(m_source(n, ind, b)) == Some((node_pairs(n, cv).subrange(1, 4), b)),
{
    let cp = spaces(2 * ind + 2);
    let nl = seq!['\n'];
    let sp = seq![' '];
    lemma_keys_plain();
    lemma_ws_facts(2 * ind + 2);
    lemma_ws_cat(nl, cp);
    let a3 = m_generated(n, ind, b);
    reveal(m_source);
    let vt_src = sp + (seq!['{'] + src_members(n, Seq::empty()));
    assert(vt_src + (seq![','] + a3) == sp + (seq!['{'] + src_members(n, seq![','] + a3))) by {
        reveal(src_members);
        reveal(pair_text);
        assert(vt_src + (seq![','] + a3) =~= sp + (seq!['{'] + src_members(n, seq![','] + a3)));
    }
    lemma_read_src(n, seq![','] + a3);
    let ps = node_pairs(n, cv);
    lemma_read_pair_more(m_source(n, ind, b), nl + cp, "source"@, vt_src, ps[1].1, a3);
    assert(seq![ps[1]] + ps.subrange(2, 4) =~= ps.subrange(1, 4));
}

#[verifier::spinoff_prover]
#[verifier::rlimit(60)]
proof fn lemma_read_members(n: SpecMapNode, ind: nat, b: Seq<char>, cv: JsonValue)
    requires
        read_value((seq![' '] + children_json(n, ind)) + ((seq!['\n'] + spaces(2 * ind)) + (seq!['}'] + b)))
            == Some((cv, (seq!['\n'] + spaces(2 * ind)) + (seq!['}'] + b))),
    ensures
        read_pairs(node_members(n, ind, b)) == Some((node_pairs(n, cv), b)),
        skip_ws(node_members(n, ind, b)).len() > 0,
        skip_ws(node_members(n, ind, b))[0] != '}',
{
    let cp = spaces(2 * ind + 2);
    let nl = seq!['\n'];
    let sp = seq![' '];
    lemma_keys_plain();
    lemma_ws_facts(2 * ind + 2);
    lemma_ws_cat(nl, cp);
    lemma_read_m_generated(n, ind, b, cv);
    lemma_read_m_source(n, ind, b, cv);
    let a2 = m_source(n, ind, b);
    lemma_read_str_value(sp, n.kind, seq![','] + a2);
    let a1 = node_members(n, ind, b);
    assert(a1 == pair_text(nl + cp, "kind"@, sp + string_text(n.kind), seq![','] + a2)) by {
        reveal(node_members);
    }
    let ps = node_pairs(n, cv);
    lemma_read_pair_more(a1, nl + cp, "kind"@, sp + string_text(n.kind), ps[0].1, a2);
    assert(seq![ps[0]] + ps.subrange(1, 4) =~= ps);
    assert(skip_ws(a1).len() > 0 && skip_ws(a1)[0] == '"') by {
        reveal(pair_text);
        lemma_skip_ws_cat(nl + cp, quoted("kind"@) + (seq![':'] + ((sp + string_text(n.kind)) + (seq![','] + a2))));
    }
}

proof fn lemma_read_children(n: SpecMapNode, ind: nat, b: Seq<char>)
    ensures
        read_value((seq![' '] + children_json(n, ind)) + ((seq!['\n'] + spaces(2 * ind)) + (seq!['}'] + b)))
            == Some((JsonValue::Array(nodes_value(n.children)), (seq!['\n'] + spaces(2 * ind)) + (seq!['}'] + b))),
    decreases n, 0int,
{
    let sp = seq![' '];
    let nl = seq!['\n'];
    let cj = children_json(n, ind);
    let z4 = (nl + spaces(2 * ind)) + (seq!['}'] + b);
    lemma_ws_facts(0);
    if n.children.len() == 0 {
        reveal_strlit("[]");
        let inner = seq!['['] + (seq![']'] + z4);
        assert((sp + cj) + z4 =~= sp + inner);
        lemma_skip_ws_cat(sp, inner);
        assert(inner.drop_first() =~= seq![']'] + z4);
        assert((seq![']'] + z4).drop_first() =~= z4);
        assert(nodes_value(n.children) =~= Seq::<JsonValue>::empty());
    } else {
        reveal_strlit("[\n");
        reveal_strlit("\n");
        reveal_strlit("]");
        let k = (2 * ind + 2) as nat;
        let nj = nodes_json(n.children, ind + 2);
        let inner = nl + (nj + (seq!['\n'] + (spaces(k) + (seq![']'] + z4))));
        assert((sp + cj) + z4 =~= sp + (seq!['['] + inner));
        lemma_read_items(n.children, ind + 2, nl, k, z4);
        lemma_skip_ws_cat(sp, seq!['['] + inner);
        assert((seq!['['] + inner).drop_first() =~= inner);
    }
}

proof fn lemma_read_node(n: SpecMapNode, ind: nat, w: Seq<char>, b: Seq<char>)
    requires
        all_ws(w),
    ensures
        read_value(w + node_json(n, ind) + b) == Some((node_value(n), b)),
        skip_ws(w + node_json(n, ind) + b).len() > 0,
        skip_ws(w + node_json(n, ind) + b)[0] == '{',
    decreases n, 1int,
{
    let pad = spaces(2 * ind);
    lemma_ws_facts(2 * ind);
    lemma_ws_cat(w, pad);
    lemma_read_children(n, ind, b);
    let cv = JsonValue::Array(nodes_value(n.children));
    lemma_read_members(n, ind, b, cv);
    lemma_node_text(n, ind, w, b);
    let a1 = node_members(n, ind, b);
    lemma_read_object(w + node_json(n, ind) + b, w + pad, a1, node_pairs(n, cv), b);
    lemma_skip_ws_cat(w + pad, seq!['{'] + a1);
    assert(node_value(n) == JsonValue::Object(node_pairs(n, cv)));
}

proof fn lemma_read_items(ns: Seq<SpecMapNode>, ind: nat, w: Seq<char>, k: nat, z: Seq<char>)
    requires
        ns.len() > 0,
        all_ws(w),
    ensures
        read_items(w + (nodes_json(ns, ind) + (seq!['\n'] + (spaces(k) + (seq![']'] + z)))))
            == Some((nodes_value(ns), z)),
        skip_ws(w + (nodes_json(ns, ind) + (seq!['\n'] + (spaces(k) + (seq![']'] + z))))).len() > 0,
        skip_ws(w + (nodes_json(ns, ind) + (seq!['\n'] + (spaces(k) + (seq![']'] + z)))))[0] == '{',
    decreases ns, 0int,
{
    let tail = seq!['\n'] + (spaces(k) + (seq![']'] + z));
    let t = w + (nodes_json(ns, ind) + tail);
    lemma_ws_facts(k);
    lemma_ws_cat(seq!['\n'], spaces(k));
    if ns.len() == 1 {
        assert(nodes_json(ns, ind) == node_json(ns[0], ind));
        lemma_read_node(ns[0], ind, w, tail);
        lemma_node_text(ns[0], ind, w, tail);
        assert(t =~= w + node_json(ns[0], ind) + tail);
        assert(tail =~= (seq!['\n'] + spaces(k)) + (seq![']'] + z));
        lemma_skip_ws_cat(seq!['\n'] + spaces(k), seq![']'] + z);
        assert((seq![']'] + z).drop_first() =~= z);
        assert(nodes_value(ns) =~= seq![node_value(ns[0])]);
    } else {
        lemma_nodes_front(ns, ind);
        reveal_strlit(",\n");
        let rest = ns.drop_first();
        let after = seq!['\n'] + (nodes_json(rest, ind) + tail);
        let b = seq![','] + after;
        assert(t =~= w + node_json(ns[0], ind) + b);
        lemma_read_node(ns[0], ind, w, b);
        lemma_node_text(ns[0], ind, w, b);
        lemma_read_items(rest, ind, seq!['\n'], k, z);
        assert(b.drop_first() =~= after);
        assert(nodes_value(ns) =~= seq![node_value(ns[0])] + nodes_value(rest));
    }
}


/// The `tree` array as `source_map_json` writes it.
pub open spec fn tree_array(tree: Seq<SpecMapNode>) -> Seq<char> {
    seq!['['] + (seq!['\n'] + (nodes_json(tree, 2) + (seq!['\n'] + (spaces(2) + seq![']']))))
}

/// The members of the document object, its closing `}` and the final line feed.
#[verifier::opaque]
pub open spec fn doc_members(tree: Seq<SpecMapNode>) -> Seq<char> {
    let w = seq!['\n'] + spaces(2);
    pair_text(
        w,
        "version"@,
        seq![' '] + decimal(2),
        seq![','] + pair_text(
            w,
            "format"@,
            seq![' '] + string_text("rusk.syntax-tree"@),
            seq![','] + pair_text(w, "tree"@, seq![' '] + tree_array(tree), seq!['\n'] + (seq!['}'] + seq!['\n'])),
        ),
    )
}

#[verifier::rlimit(60)]
proof fn lemma_doc_text(tree: Seq<SpecMapNode>)
    ensures
        spec_source_map_json(tree) == seq!['{'] + doc_members(tree),
{
    reveal(doc_members);
    reveal(pair_text);
    reveal_strlit("{\n  \"version\": 2,\n  \"format\": \"rusk.syntax-tree\",\n  \"tree\": [\n");
    reveal_strlit("\n  ]\n}\n");
    reveal_strlit("version");
    reveal_strlit("format");
    reveal_strlit("tree");
    reveal_strlit("rusk.syntax-tree");
    lemma_keys_plain();
    law_escaped_text_decodes_back("rusk.syntax-tree"@);
    assert(decimal(2) == seq!['2']);
    assert(spaces(2) =~= seq![' ', ' ']);
    assert(spec_source_map_json(tree) =~= seq!['{'] + doc_members(tree));
}

proof fn lemma_read_tree_array(tree: Seq<SpecMapNode>, z: Seq<char>)
    ensures
        read_value((seq![' '] + tree_array(tree)) + z) == Some((JsonValue::Array(nodes_value(tree)), z)),
{
    let sp = seq![' '];
    let nl = seq!['\n'];
    lemma_ws_facts(2);
    let inner = nl + (nodes_json(tree, 2) + (nl + (spaces(2) + (seq![']'] + z))));
    assert((sp + tree_array(tree)) + z =~= sp + (seq!['['] + inner));
    lemma_skip_ws_cat(sp, seq!['['] + inner);
    assert((seq!['['] + inner).drop_first() =~= inner);
    if tree.len() == 0 {
        assert(nodes_json(tree, 2) =~= Seq::<char>::empty());
        lemma_ws_cat(nl, nl);
        lemma_ws_cat(nl + nl, spaces(2));
        assert(inner =~= (nl + nl + spaces(2)) + (seq![']'] + z));
        lemma_skip_ws_cat(nl + nl + spaces(2), seq![']'] + z);
        assert((seq![']'] + z).drop_first() =~= z);
        assert(nodes_value(tree) =~= Seq::<JsonValue>::empty());
    } else {
        lemma_read_items(tree, 2, nl, 2, z);
    }
}

/// The JSON text that `source_map_json` writes reads back, as JSON, as the document
/// object: `version` 2, `format` `"rusk.syntax-tree"`, and `tree` the array of the nodes,
/// each an object of its `kind`, its `source` line, indentation and text, its
/// `generated` start and end lines, and its `children` in the same form.
pub proof fn law_source_map_json_reads_back(tree: Seq<SpecMapNode>)
    ensures
        read_json(spec_source_map_json(tree)) == Some(document_value(tree)),
{
    let sp = seq![' '];
    let w = seq!['\n'] + spaces(2);
    let end = seq!['\n'] + (seq!['}'] + seq!['\n']);
    lemma_keys_plain();
    lemma_ws_facts(2);
    lemma_ws_cat(seq!['\n'], spaces(2));
    lemma_doc_text(tree);
    let p3 = pair_text(w, "tree"@, sp + tree_array(tree), end);
    lemma_read_tree_array(tree, end);
    lemma_read_pair_last(p3, w, "tree"@, sp + tree_array(tree), JsonValue::Array(nodes_value(tree)), seq!['\n'], seq!['\n']);
    let p2 = pair_text(w, "format"@, sp + string_text("rusk.syntax-tree"@), seq![','] + p3);
    lemma_read_str_value(sp, "rusk.syntax-tree"@, seq![','] + p3);
    lemma_read_pair_more(p2, w, "format"@, sp + string_text("rusk.syntax-tree"@), JsonValue::Str("rusk.syntax-tree"@), p3);
    let m = doc_members(tree);
    assert(m == pair_text(w, "version"@, sp + decimal(2), seq![','] + p2)) by {
        reveal(doc_members);
    }
    lemma_read_number_value(sp, 2, seq![','] + p2);
    lemma_read_pair_more(m, w, "version"@, sp + decimal(2), JsonValue::Number(2), p2);
    let ps = seq![
        ("version"@, JsonValue::Number(2)),
        ("format"@, JsonValue::Str("rusk.syntax-tree"@)),
        ("tree"@, JsonValue::Array(nodes_value(tree))),
    ];
    assert(seq![ps[1]] + seq![ps[2]] =~= ps.subrange(1, 3));
    assert(seq![ps[0]] + ps.subrange(1, 3) =~= ps);
    assert(skip_ws(m).len() > 0 && skip_ws(m)[0] == '"') by {
        reveal(doc_members);
        reveal(pair_text);
        lemma_skip_ws_cat(w, quoted("version"@) + (seq![':'] + ((sp + decimal(2)) + (seq![','] + p2))));
    }
    lemma_ws_facts(0);
    assert(spec_source_map_json(tree) == Seq::<char>::empty() + (seq!['{'] + m));
    lemma_read_object(spec_source_map_json(tree), Seq::<char>::empty(), m, ps, seq!['\n']);
    assert(skip_ws(seq!['\n']) == skip_ws(seq!['\n'].drop_first()));
    assert(seq!['\n'].drop_first() =~= Seq::<char>::empty());
}

} // verus!
