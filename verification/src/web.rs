//! The decisions of the playground web server: connection and run limits,
//! request heads, routing, static file paths, content types and HTTP responses.
use vstd::prelude::*;
use crate::json::{decimal, hex_digit, push_decimal};
use crate::json_reading::{quoted};
use crate::layout::{copy_chars, lemma_split_lines_len, raw_lines, split_lines};
use crate::lower::{all_ascii_digits};
use crate::symbols::{strip_cr, text_lines};
use crate::text::{ascii_digit, chars_of, eq_lit, find, find_exec, is_ascii_digit, is_ws, lemma_find_from, occurs_at, push_all, push_lit, slice, starts_with, starts_with_lit, string_of, trim, trim_exec, whitespace};
use vstd::utf8::encode_utf8;

verus! {

/// Largest Rust source the playground compiles and runs, in bytes.
pub const MAX_RUN_SOURCE_BYTES: usize = 65536;

/// Largest request body accepted, in bytes (twice the source limit, for JSON quoting).
pub const MAX_BODY_BYTES: usize = 131072;

/// `try_acquire`: with `current` holders of a counter limited to `max`, the count after
/// taking one more, or `None` when the limit is reached.
pub fn try_acquire(current: usize, max: usize) -> (r: Option<usize>)
    ensures
        r == (if current < max {
            Some((current + 1) as usize)
        } else {
            None::<usize>
        }),
{
    if current >= max {
        None
    } else {
        Some(current + 1)
    }
}

/// `kill_process_tree`: the target that `kill` is sent to for the process group of `pid`.
pub fn kill_process_tree(pid: u32) -> (pgid: i32)
    requires
        pid != 0x8000_0000u32,
    ensures
        pgid as int == -((pid as i32) as int),
{
    let p = pid as i32;
    assert(p != i32::MIN) by (bit_vector)
        requires
            pid != 0x8000_0000u32,
            p == pid as i32,
    ;
    -p
}

/// `\r\n\r\n` occurs in `b` at `i`.
pub open spec fn blank_line_at(b: Seq<u8>, i: int) -> bool {
    0 <= i && i + 4 <= b.len() && b[i] == 13 && b[i + 1] == 10 && b[i + 2] == 13 && b[i + 3]
        == 10
}

/// `find_header_end`: the first position where `\r\n\r\n` starts.
pub fn find_header_end(buffer: &[u8]) -> (r: Option<usize>)
    ensures
        match r {
            Some(i) => blank_line_at(buffer@, i as int) && forall|j: int|
                0 <= j < i ==> !blank_line_at(buffer@, j),
            None => forall|j: int| 0 <= j ==> !blank_line_at(buffer@, j),
        },
{
    if buffer.len() < 4 {
        return None;
    }
    let mut i: usize = 0;
    while i <= buffer.len() - 4
        invariant
            buffer.len() >= 4,
            forall|j: int| 0 <= j < i ==> !blank_line_at(buffer@, j),
        decreases buffer.len() - i,
    {
        if buffer[i] == 13 && buffer[i + 1] == 10 && buffer[i + 2] == 13 && buffer[i + 3] == 10 {
            return Some(i);
        }
        i += 1;
    }
    None
}

// ---------------------------------------------------------------- routes

/// `route_path`: the file a request path names under the static root.
pub open spec fn spec_route_path(path: Seq<char>) -> Seq<char> {
    if path == "/"@ {
        "index.html"@
    } else {
        path.skip(leading_slashes(path) as int)
    }
}

/// Number of leading `/` characters.
pub open spec fn leading_slashes(s: Seq<char>) -> nat
    decreases s.len(),
{
    if s.len() > 0 && s[0] == '/' {
        1 + leading_slashes(s.drop_first())
    } else {
        0
    }
}

pub fn route_path(path: &str) -> (r: String)
    ensures
        r@ == spec_route_path(path@),
{
    let p = chars_of(path);
    if eq_lit(&p, "/") {
        return "index.html".to_owned();
    }
    let mut n: usize = 0;
    assert(p@.skip(0) =~= p@);
    while n < p.len() && p[n] == '/'
        invariant
            n <= p.len(),
            leading_slashes(p@) == n + leading_slashes(p@.skip(n as int)),
        decreases p.len() - n,
    {
        assert(p@.skip(n as int).drop_first() =~= p@.skip(n + 1));
        n += 1;
    }
    let rest = slice(&p, n, p.len());
    assert(rest@ =~= p@.skip(n as int));
    string_of(&rest)
}

/// `is_app_route`: paths served by the single-page app.
pub open spec fn spec_is_app_route(path: Seq<char>) -> bool {
    ||| path == "/"@
    ||| starts_with(path, "/examples/"@)
    ||| starts_with(path, "/ruk-examples/"@)
    ||| starts_with(path, "/rust-examples/"@)
}

pub fn is_app_route(path: &str) -> (r: bool)
    ensures
        r == spec_is_app_route(path@),
{
    let p = chars_of(path);
    eq_lit(&p, "/") || starts_with_lit(&p, "/examples/") || starts_with_lit(&p, "/ruk-examples/")
        || starts_with_lit(&p, "/rust-examples/")
}

/// What the server does with a request.
#[derive(Debug, Clone, Copy, PartialEq, Eq, Structural)]
pub enum Route {
    /// Compile and run the posted program.
    Run,
    /// Serve a static file; `head_only` for `HEAD`.
    Static { head_only: bool },
    /// Answer 405.
    MethodNotAllowed,
}

/// The routing of `handle_connection`: `POST /api/run` runs, `GET` and `HEAD` serve
/// files, anything else is refused.
pub open spec fn spec_route_request(method: Seq<char>, path: Seq<char>) -> Route {
    if method == "POST"@ && path == "/api/run"@ {
        Route::Run
    } else if method == "GET"@ || method == "HEAD"@ {
        Route::Static { head_only: method == "HEAD"@ }
    } else {
        Route::MethodNotAllowed
    }
}

pub fn route_request(method: &str, path: &str) -> (r: Route)
    ensures
        r == spec_route_request(method@, path@),
{
    let m = chars_of(method);
    let p = chars_of(path);
    if eq_lit(&m, "POST") && eq_lit(&p, "/api/run") {
        Route::Run
    } else if eq_lit(&m, "GET") || eq_lit(&m, "HEAD") {
        Route::Static { head_only: eq_lit(&m, "HEAD") }
    } else {
        Route::MethodNotAllowed
    }
}

// ---------------------------------------------------------------- paths

/// The pieces of `s` between `/` separators.
pub open spec fn split_slash(s: Seq<char>) -> Seq<Seq<char>>
    decreases s.len(),
{
    if s.len() == 0 {
        seq![Seq::<char>::empty()]
    } else {
        let r = split_slash(s.drop_last());
        if s.last() == '/' {
            r.push(Seq::<char>::empty())
        } else {
            r.update(r.len() - 1, r.last().push(s.last()))
        }
    }
}

/// A piece that names no component: empty (repeated separators) or `.`.
pub open spec fn skipped_piece(p: Seq<char>) -> bool {
    p.len() == 0 || p == seq!['.']
}

/// Whether `Path::components` of a relative path yields something other than plain
/// names: a root, a leading `.`, or a `..`.
pub open spec fn has_special_component(rel: Seq<char>) -> bool {
    ||| (rel.len() > 0 && rel[0] == '/')
    ||| rel == seq!['.']
    ||| starts_with(rel, seq!['.', '/'])
    ||| exists|k: int| 0 <= k < split_slash(rel).len() && #[trigger] split_slash(rel)[k] == seq!['.', '.']
}

/// `PathBuf::push` of a plain name: a separator first unless the path is empty or
/// already ends with one.
pub open spec fn push_name(root: Seq<char>, name: Seq<char>) -> Seq<char> {
    if root.len() > 0 && root.last() != '/' {
        root + seq!['/'] + name
    } else {
        root + name
    }
}

/// `root` with the plain names among `pieces[..k]` pushed in turn.
pub open spec fn push_names(root: Seq<char>, pieces: Seq<Seq<char>>, k: int) -> Seq<char>
    decreases k,
{
    if k <= 0 {
        root
    } else {
        let r = push_names(root, pieces, k - 1);
        if skipped_piece(pieces[k - 1]) {
            r
        } else {
            push_name(r, pieces[k - 1])
        }
    }
}

/// `safe_join`: the root with the relative path's names pushed, or `None` when the
/// relative path has a root, a leading `.` or a `..`.
pub open spec fn spec_safe_join(root: Seq<char>, rel: Seq<char>) -> Option<Seq<char>> {
    if has_special_component(rel) {
        None
    } else {
        Some(push_names(root, split_slash(rel), split_slash(rel).len() as int))
    }
}

fn split_slash_exec(s: &Vec<char>) -> (r: Vec<Vec<char>>)
    ensures
        r@.map_values(|v: Vec<char>| v@) == split_slash(s@),
{
    let mut raw: Vec<Vec<char>> = Vec::new();
    let mut current: Vec<char> = Vec::new();
    let mut i: usize = 0;
    assert(s@.take(0) =~= Seq::<char>::empty());
    while i < s.len()
        invariant
            i <= s.len(),
            raw@.map_values(|v: Vec<char>| v@).push(current@) == split_slash(s@.take(i as int)),
        decreases s.len() - i,
    {
        let c = s[i];
        let ghost before = raw@.map_values(|v: Vec<char>| v@).push(current@);
        assert(s@.take(i + 1).drop_last() =~= s@.take(i as int));
        assert(s@.take(i + 1).last() == c);
        if c == '/' {
            let done = current;
            raw.push(done);
            current = Vec::new();
            proof {
                assert(raw@.map_values(|v: Vec<char>| v@).push(current@) =~= before.push(
                    Seq::<char>::empty(),
                ));
            }
        } else {
            current.push(c);
            proof {
                assert(raw@.map_values(|v: Vec<char>| v@).push(current@) =~= before.update(
                    before.len() - 1,
                    before.last().push(c),
                ));
            }
        }
        i += 1;
    }
    assert(s@.take(s.len() as int) =~= s@);
    raw.push(current);
    raw
}

fn is_skipped_piece(p: &Vec<char>) -> (r: bool)
    ensures
        r == skipped_piece(p@),
{
    let r = p.len() == 0 || (p.len() == 1 && p[0] == '.');
    proof {
        if p@ == seq!['.'] {
            assert(seq!['.'][0] == '.');
        }
        if p.len() == 1 && p[0] == '.' {
            assert(p@ =~= seq!['.']);
        }
    }
    r
}

fn is_parent_piece(p: &Vec<char>) -> (r: bool)
    ensures
        r == (p@ == seq!['.', '.']),
{
    let r = p.len() == 2 && p[0] == '.' && p[1] == '.';
    proof {
        if p@ == seq!['.', '.'] {
            assert(seq!['.', '.'][0] == '.');
            assert(seq!['.', '.'][1] == '.');
        }
        if r {
            assert(p@ =~= seq!['.', '.']);
        }
    }
    r
}

pub fn safe_join(root: &str, relative: &str) -> (r: Option<String>)
    ensures
        match r {
            Some(p) => spec_safe_join(root@, relative@) == Some(p@),
            None => spec_safe_join(root@, relative@) is None,
        },
{
    let rel = chars_of(relative);
    let pieces = split_slash_exec(&rel);
    let ghost pv = pieces@.map_values(|v: Vec<char>| v@);
    if rel.len() > 0 && rel[0] == '/' {
        return None;
    }
    if rel.len() == 1 && rel[0] == '.' {
        assert(rel@ =~= seq!['.']);
        return None;
    }
    if rel.len() >= 2 && rel[0] == '.' && rel[1] == '/' {
        assert(rel@.subrange(0, 2) =~= seq!['.', '/']);
        return None;
    }
    proof {
        if rel@ == seq!['.'] {
            assert(seq!['.'][0] == '.');
        }
        if starts_with(rel@, seq!['.', '/']) {
            assert(rel@.subrange(0, 2)[0] == '.');
            assert(rel@.subrange(0, 2)[1] == '/');
        }
    }
    let mut k: usize = 0;
    while k < pieces.len()
        invariant
            k <= pieces.len(),
            pv == pieces@.map_values(|v: Vec<char>| v@),
            pv == split_slash(rel@),
            rel@ == relative@,
            forall|j: int| 0 <= j < k ==> pv[j] != seq!['.', '.'],
        decreases pieces.len() - k,
    {
        if is_parent_piece(&pieces[k]) {
            assert(pv[k as int] == seq!['.', '.']);
            assert(split_slash(rel@)[k as int] == seq!['.', '.']);
            assert(has_special_component(relative@));
            return None;
        }
        k += 1;
    }
    let mut out = chars_of(root);
    let mut i: usize = 0;
    while i < pieces.len()
        invariant
            i <= pieces.len(),
            pv == pieces@.map_values(|v: Vec<char>| v@),
            pv == split_slash(rel@),
            out@ == push_names(root@, pv, i as int),
        decreases pieces.len() - i,
    {
        if !is_skipped_piece(&pieces[i]) {
            if out.len() > 0 && out[out.len() - 1] != '/' {
                out.push('/');
            }
            push_all(&mut out, &pieces[i]);
        }
        i += 1;
    }
    Some(string_of(&out))
}

/// The last piece of a path that names a component (neither empty nor `.`), if any.
pub open spec fn last_component(pieces: Seq<Seq<char>>, k: int) -> Option<Seq<char>>
    decreases k,
{
    if k <= 0 {
        None
    } else if skipped_piece(pieces[k - 1]) {
        last_component(pieces, k - 1)
    } else {
        Some(pieces[k - 1])
    }
}

/// `Path::file_name`: the last component when it is a plain name.
pub open spec fn file_name(path: Seq<char>) -> Option<Seq<char>> {
    match last_component(split_slash(path), split_slash(path).len() as int) {
        Some(c) => if c == seq!['.', '.'] {
            None
        } else {
            Some(c)
        },
        None => None,
    }
}

/// `Path::extension`: what follows the last `.` of the file name, unless the name has
/// no `.` other than a leading one (or is `..`).
pub open spec fn extension(path: Seq<char>) -> Option<Seq<char>> {
    match file_name(path) {
        None => None,
        Some(name) => match last_dot(name, name.len() as int) {
            Some(d) => if d == 0 {
                None
            } else {
                Some(name.skip(d + 1))
            },
            None => None,
        },
    }
}

/// The position of the last `.` in `s[..k]`.
pub open spec fn last_dot(s: Seq<char>, k: int) -> Option<int>
    decreases k,
{
    if k <= 0 {
        None
    } else if s[k - 1] == '.' {
        Some(k - 1)
    } else {
        last_dot(s, k - 1)
    }
}

pub proof fn lemma_last_dot(s: Seq<char>, k: int)
    requires
        k <= s.len(),
    ensures
        last_dot(s, k) matches Some(d) ==> 0 <= d < k,
    decreases k,
{
    if k > 0 && s[k - 1] != '.' {
        lemma_last_dot(s, k - 1);
    }
}

/// `content_type`: the media type served for a file, by its extension.
pub open spec fn spec_content_type(path: Seq<char>) -> Seq<char> {
    match extension(path) {
        Some(e) => if e == "html"@ {
            "text/html; charset=utf-8"@
        } else if e == "js"@ {
            "text/javascript; charset=utf-8"@
        } else if e == "css"@ {
            "text/css; charset=utf-8"@
        } else if e == "wasm"@ {
            "application/wasm"@
        } else if e == "json"@ {
            "application/json; charset=utf-8"@
        } else if e == "svg"@ {
            "image/svg+xml"@
        } else if e == "png"@ {
            "image/png"@
        } else if e == "jpg"@ || e == "jpeg"@ {
            "image/jpeg"@
        } else if e == "webp"@ {
            "image/webp"@
        } else {
            "application/octet-stream"@
        },
        None => "application/octet-stream"@,
    }
}

fn file_extension(path: &Vec<char>) -> (r: Option<Vec<char>>)
    ensures
        match r {
            Some(e) => extension(path@) == Some(e@),
            None => extension(path@) is None,
        },
{
    let pieces = split_slash_exec(path);
    let ghost pv = pieces@.map_values(|v: Vec<char>| v@);
    let mut k = pieces.len();
    while k > 0 && is_skipped_piece(&pieces[k - 1])
        invariant
            k <= pieces.len(),
            pv == pieces@.map_values(|v: Vec<char>| v@),
            last_component(pv, pieces.len() as int) == last_component(pv, k as int),
        decreases k,
    {
        k -= 1;
    }
    if k == 0 {
        return None;
    }
    let name = &pieces[k - 1];
    assert(pv[k - 1] == name@);
    if is_parent_piece(name) {
        return None;
    }
    let mut d = name.len();
    while d > 0 && name[d - 1] != '.'
        invariant
            d <= name.len(),
            last_dot(name@, name.len() as int) == last_dot(name@, d as int),
        decreases d,
    {
        d -= 1;
    }
    if d <= 1 {
        return None;
    }
    let ext = slice(name, d, name.len());
    assert(ext@ =~= name@.skip(d as int));
    Some(ext)
}

pub fn content_type(path: &str) -> (r: &'static str)
    ensures
        r@ == spec_content_type(path@),
{
    let p = chars_of(path);
    match file_extension(&p) {
        Some(e) => if eq_lit(&e, "html") {
            "text/html; charset=utf-8"
        } else if eq_lit(&e, "js") {
            "text/javascript; charset=utf-8"
        } else if eq_lit(&e, "css") {
            "text/css; charset=utf-8"
        } else if eq_lit(&e, "wasm") {
            "application/wasm"
        } else if eq_lit(&e, "json") {
            "application/json; charset=utf-8"
        } else if eq_lit(&e, "svg") {
            "image/svg+xml"
        } else if eq_lit(&e, "png") {
            "image/png"
        } else if eq_lit(&e, "jpg") || eq_lit(&e, "jpeg") {
            "image/jpeg"
        } else if eq_lit(&e, "webp") {
            "image/webp"
        } else {
            "application/octet-stream"
        },
        None => "application/octet-stream",
    }
}

// ---------------------------------------------------------------- responses

/// The reason phrase sent with a status code.
pub open spec fn status_text(status: u16) -> Seq<char> {
    if status == 200 {
        "OK"@
    } else if status == 400 {
        "Bad Request"@
    } else if status == 404 {
        "Not Found"@
    } else if status == 405 {
        "Method Not Allowed"@
    } else if status == 413 {
        "Payload Too Large"@
    } else if status == 503 {
        "Service Unavailable"@
    } else if status == 500 {
        "Internal Server Error"@
    } else {
        "OK"@
    }
}

fn status_text_exec(status: u16) -> (r: &'static str)
    ensures
        r@ == status_text(status),
{
    if status == 200 {
        "OK"
    } else if status == 400 {
        "Bad Request"
    } else if status == 404 {
        "Not Found"
    } else if status == 405 {
        "Method Not Allowed"
    } else if status == 413 {
        "Payload Too Large"
    } else if status == 503 {
        "Service Unavailable"
    } else if status == 500 {
        "Internal Server Error"
    } else {
        "OK"
    }
}

/// The header block of a response with a body of `len` bytes.
pub open spec fn response_head(status: u16, content_type: Seq<char>, len: nat) -> Seq<char> {
    "HTTP/1.1 "@ + decimal(status as nat) + " "@ + status_text(status) + "\r\nContent-Type: "@
        + content_type + "\r\nContent-Length: "@ + decimal(len) + "\r\nConnection: close\r\n\r\n"@
}

/// `http_response`: the UTF-8 header block, followed by the body unless `head_only`.
pub open spec fn spec_http_response(
    status: u16,
    content_type: Seq<char>,
    body: Seq<u8>,
    head_only: bool,
) -> Seq<u8> {
    let head = encode_utf8(response_head(status, content_type, body.len()));
    if head_only {
        head
    } else {
        head + body
    }
}

pub fn http_response(status: u16, content_type: &str, body: &[u8], head_only: bool) -> (r: Vec<u8>)
    ensures
        r@ == spec_http_response(status, content_type@, body@, head_only),
{
    let mut head = chars_of("HTTP/1.1 ");
    push_decimal(&mut head, status as usize);
    push_lit(&mut head, " ");
    push_lit(&mut head, status_text_exec(status));
    push_lit(&mut head, "\r\nContent-Type: ");
    push_lit(&mut head, content_type);
    push_lit(&mut head, "\r\nContent-Length: ");
    push_decimal(&mut head, body.len());
    push_lit(&mut head, "\r\nConnection: close\r\n\r\n");
    let text = string_of(&head);
    let bytes = text.as_str().as_bytes();
    let mut response = vstd::slice::slice_to_vec(bytes);
    assert(response@ == encode_utf8(response_head(status, content_type@, body@.len())));
    if !head_only {
        let mut i: usize = 0;
        let ghost start = response@;
        while i < body.len()
            invariant
                i <= body@.len(),
                response@ == start + body@.take(i as int),
            decreases body.len() - i,
        {
            response.push(body[i]);
            i += 1;
            assert(response@ =~= start + body@.take(i as int));
        }
        assert(body@.take(body@.len() as int) =~= body@);
    }
    response
}

// ---------------------------------------------------------------- settings

/// `u64::from_str` on an unsigned decimal: an optional `+`, then one or more digits, with
/// the value in range.
pub open spec fn parse_unsigned(s: Seq<char>, max: nat) -> Option<nat> {
    let digits = if s.len() > 0 && s[0] == '+' {
        s.drop_first()
    } else {
        s
    };
    if digits.len() > 0 && all_ascii_digits(digits) && digits_value(digits) <= max {
        Some(digits_value(digits))
    } else {
        None
    }
}

/// The value of a string of decimal digits.
pub open spec fn digits_value(s: Seq<char>) -> nat
    decreases s.len(),
{
    if s.len() == 0 {
        0
    } else {
        digits_value(s.drop_last()) * 10 + (s.last() as int - 48) as nat
    }
}

/// `read_u64_env` and `read_usize_env`: a setting's value when it parses as a positive
/// number not above `max`, the default otherwise.
pub open spec fn spec_read_setting(value: Option<Seq<char>>, max: nat, default: nat) -> nat {
    match value {
        Some(v) => match parse_unsigned(v, max) {
            Some(n) => if n > 0 {
                n
            } else {
                default
            },
            None => default,
        },
        None => default,
    }
}

/// Parses an unsigned decimal no larger than `max`.
pub fn parse_unsigned_exec(s: &Vec<char>, max: u64) -> (r: Option<u64>)
    ensures
        match r {
            Some(n) => parse_unsigned(s@, max as nat) == Some(n as nat),
            None => parse_unsigned(s@, max as nat) is None,
        },
{
    let start: usize = if s.len() > 0 && s[0] == '+' {
        1
    } else {
        0
    };
    let ghost digits = if s@.len() > 0 && s@[0] == '+' {
        s@.drop_first()
    } else {
        s@
    };
    assert(digits =~= s@.skip(start as int));
    if start >= s.len() {
        return None;
    }
    let mut value: u64 = 0;
    let mut i = start;
    let mut in_range = true;
    assert(s@.subrange(start as int, start as int) =~= Seq::<char>::empty());
    while i < s.len()
        invariant
            start <= i <= s.len(),
            digits == (if s@.len() > 0 && s@[0] == '+' {
                s@.drop_first()
            } else {
                s@
            }),
            digits =~= s@.skip(start as int),
            all_ascii_digits(s@.subrange(start as int, i as int)),
            in_range ==> value as nat == digits_value(s@.subrange(start as int, i as int)),
            in_range ==> value <= max,
            !in_range ==> digits_value(s@.subrange(start as int, i as int)) > max,
        decreases s.len() - i,
    {
        let c = s[i];
        let ghost prefix = s@.subrange(start as int, i as int);
        let ghost next = s@.subrange(start as int, i + 1);
        assert(next.drop_last() =~= prefix);
        assert(next.last() == c);
        if !ascii_digit(c) {
            assert(!is_ascii_digit(digits[i - start]));
            assert(!all_ascii_digits(digits));
            return None;
        }
        let d = (c as u32 - '0' as u32) as u64;
        assert(d <= 9 && d as int == c as int - 48);
        if in_range {
            if d > max {
                in_range = false;
                assert(digits_value(next) > max) by (nonlinear_arith)
                    requires
                        digits_value(next) == value * 10 + d,
                        d > max,
                ;
            } else if value > (max - d) / 10 {
                in_range = false;
                assert(digits_value(next) > max) by (nonlinear_arith)
                    requires
                        digits_value(next) == value * 10 + d,
                        value > (max - d) / 10,
                        d <= 9,
                        d <= max,
                ;
            } else {
                value = value * 10 + d;
            }
        } else {
            assert(digits_value(next) >= digits_value(prefix)) by (nonlinear_arith)
                requires
                    digits_value(next) == digits_value(prefix) * 10 + d,
            ;
        }
        i += 1;
        assert forall|k: int| 0 <= k < next.len() implies is_ascii_digit(#[trigger] next[k]) by {
            if k < next.len() - 1 {
                assert(next[k] == prefix[k]);
            }
        }
    }
    assert(s@.subrange(start as int, s.len() as int) =~= digits);
    if in_range {
        Some(value)
    } else {
        None
    }
}

/// `read_u64_env`: the value of a setting, or `default` when it is absent, not a number,
/// or zero.
pub fn read_u64_setting(value: Option<&str>, default: u64) -> (r: u64)
    ensures
        r as nat == spec_read_setting(
            match value {
                Some(v) => Some(v@),
                None => None,
            },
            u64::MAX as nat,
            default as nat,
        ),
{
    match value {
        None => default,
        Some(v) => {
            let s = chars_of(v);
            match parse_unsigned_exec(&s, u64::MAX) {
                Some(n) => if n > 0 {
                    n
                } else {
                    default
                },
                None => default,
            }
        },
    }
}

/// `read_usize_env`: the value of a setting, or `default` when it is absent, not a number,
/// or zero.
pub fn read_usize_setting(value: Option<&str>, default: usize) -> (r: usize)
    ensures
        r as nat == spec_read_setting(
            match value {
                Some(v) => Some(v@),
                None => None,
            },
            usize::MAX as nat,
            default as nat,
        ),
{
    match value {
        None => default,
        Some(v) => {
            let s = chars_of(v);
            match parse_unsigned_exec(&s, usize::MAX as u64) {
                Some(n) => if n > 0 {
                    n as usize
                } else {
                    default
                },
                None => default,
            }
        },
    }
}

} // verus!

verus! {

// ---------------------------------------------------------------- request heads

/// The method, path (without query) and declared body length of a request.
#[derive(Debug, Clone)]
pub struct RequestHead {
    pub method: String,
    pub path: String,
    pub content_length: usize,
}

/// First position from `i` on whose white-space status is `ws`, or the length.
pub open spec fn next_with(s: Seq<char>, i: int, ws: bool) -> int
    decreases s.len() - i,
{
    if i < 0 || i >= s.len() {
        s.len() as int
    } else if is_ws(s[i]) == ws {
        i
    } else {
        next_with(s, i + 1, ws)
    }
}

/// The first word (maximal run of non-white-space) starting at or after `i`, with the
/// position after it.
pub open spec fn word_from(s: Seq<char>, i: int) -> Option<(Seq<char>, int)> {
    let a = next_with(s, i, false);
    if a >= s.len() {
        None
    } else {
        let b = next_with(s, a, true);
        Some((s.subrange(a, b), b))
    }
}

pub proof fn lemma_next_with(s: Seq<char>, i: int, ws: bool)
    requires
        0 <= i,
    ensures
        i <= next_with(s, i, ws) <= s.len() || (i > s.len() && next_with(s, i, ws) == s.len()),
    decreases s.len() - i,
{
    if i < s.len() && is_ws(s[i]) != ws {
        lemma_next_with(s, i + 1, ws);
    }
}

/// ASCII lower case of a character.
pub open spec fn ascii_lower(c: char) -> char {
    if 'A' <= c && c <= 'Z' {
        ((c as u32) + 32) as char
    } else {
        c
    }
}

/// `str::eq_ignore_ascii_case`.
pub open spec fn eq_ignore_ascii_case(a: Seq<char>, b: Seq<char>) -> bool {
    a.len() == b.len() && forall|k: int| 0 <= k < a.len() ==> ascii_lower(#[trigger] a[k]) == ascii_lower(b[k])
}

/// The first `Content-Length` header among `lines[k..]`: its name matched without regard
/// to ASCII case, its trimmed value parsed; 0 when absent or not a number.
pub open spec fn content_length_from(lines: Seq<Seq<char>>, k: int) -> nat
    decreases lines.len() - k,
{
    if k < 0 || k >= lines.len() {
        0
    } else {
        match find(lines[k], seq![':']) {
            Some(c) => if eq_ignore_ascii_case(lines[k].take(c), "content-length"@) {
                match parse_unsigned(trim(lines[k].skip(c + 1)), usize::MAX as nat) {
                    Some(n) => n,
                    None => 0,
                }
            } else {
                content_length_from(lines, k + 1)
            },
            None => content_length_from(lines, k + 1),
        }
    }
}

/// The text before the first `?`.
pub open spec fn before_query(p: Seq<char>) -> Seq<char> {
    match find(p, seq!['?']) {
        Some(q) => p.take(q),
        None => p,
    }
}

pub struct SpecRequestHead {
    pub method: Seq<char>,
    pub path: Seq<char>,
    pub content_length: nat,
}

/// The parsing done by `read_request` on the header text (up to the blank line).
pub open spec fn spec_parse_request_head(header: Seq<char>) -> Result<SpecRequestHead, Seq<char>> {
    let lines = text_lines(header);
    if lines.len() == 0 {
        Err("missing request line"@)
    } else {
        match word_from(lines[0], 0) {
            None => Err("missing method"@),
            Some((method, after)) => match word_from(lines[0], after) {
                None => Err("missing path"@),
                Some((raw_path, _)) => {
                    let n = content_length_from(lines, 1);
                    if n > MAX_BODY_BYTES {
                        Err("request body too large"@)
                    } else {
                        Ok(SpecRequestHead { method, path: before_query(raw_path), content_length: n })
                    }
                },
            },
        }
    }
}

fn next_with_exec(s: &Vec<char>, i: usize, ws: bool) -> (r: usize)
    requires
        i <= s.len(),
    ensures
        r as int == next_with(s@, i as int, ws),
        i <= r <= s.len(),
{
    let mut j = i;
    while j < s.len() && whitespace(s[j]) != ws
        invariant
            i <= j <= s.len(),
            next_with(s@, i as int, ws) == next_with(s@, j as int, ws),
        decreases s.len() - j,
    {
        j += 1;
    }
    j
}

fn word_from_exec(s: &Vec<char>, i: usize) -> (r: Option<(Vec<char>, usize)>)
    requires
        i <= s.len(),
    ensures
        match r {
            Some((w, e)) => word_from(s@, i as int) == Some((w@, e as int)) && e <= s.len(),
            None => word_from(s@, i as int) is None,
        },
{
    let a = next_with_exec(s, i, false);
    if a >= s.len() {
        return None;
    }
    let b = next_with_exec(s, a, true);
    Some((slice(s, a, b), b))
}

fn lower_ascii(c: char) -> (r: char)
    ensures
        r == ascii_lower(c),
{
    if 'A' <= c && c <= 'Z' {
        let v = (c as u32) + 32;
        assert(65 + 32 <= v <= 90 + 32);
        let r = (v as u8) as char;
        r
    } else {
        c
    }
}

fn eq_ignore_case_exec(a: &Vec<char>, b: &Vec<char>) -> (r: bool)
    ensures
        r == eq_ignore_ascii_case(a@, b@),
{
    if a.len() != b.len() {
        return false;
    }
    let mut k: usize = 0;
    while k < a.len()
        invariant
            a.len() == b.len(),
            k <= a.len(),
            forall|j: int| 0 <= j < k ==> ascii_lower(#[trigger] a@[j]) == ascii_lower(b@[j]),
        decreases a.len() - k,
    {
        if lower_ascii(a[k]) != lower_ascii(b[k]) {
            return false;
        }
        k += 1;
    }
    true
}

fn header_content_length(lines: &Vec<Vec<char>>) -> (n: usize)
    requires
        lines.len() >= 1,
    ensures
        n as nat == content_length_from(lines@.map_values(|v: Vec<char>| v@), 1),
{
    let ghost lv = lines@.map_values(|v: Vec<char>| v@);
    let name = chars_of("content-length");
    let colon = vec![':'];
    assert(colon@ =~= seq![':']);
    let mut k: usize = 1;
    while k < lines.len()
        invariant
            1 <= k <= lines.len(),
            lv == lines@.map_values(|v: Vec<char>| v@),
            name@ == "content-length"@,
            colon@ == seq![':'],
            content_length_from(lv, 1) == content_length_from(lv, k as int),
        decreases lines.len() - k,
    {
        let line = &lines[k];
        assert(lv[k as int] == line@);
        match find_exec(line, &colon) {
            Some(c) => {
                proof {
                    lemma_find_from(line@, colon@, 0);
                    assert(find(line@, colon@) == Some(c as int));
                    assert(occurs_at(line@, c as int, colon@));
                }
                assert(c + 1 <= line.len());
                let before = slice(line, 0, c);
                if eq_ignore_case_exec(&before, &name) {
                    let after = slice(line, c + 1, line.len());
                    assert(after@ =~= line@.skip(c + 1));
                    let value = trim_exec(&after);
                    return match parse_unsigned_exec(&value, usize::MAX as u64) {
                        Some(n) => n as usize,
                        None => 0,
                    };
                }
            },
            None => {},
        }
        k += 1;
    }
    0
}

/// Splits a text into lines as `str::lines` does.
pub fn std_lines(text: &Vec<char>) -> (r: Vec<Vec<char>>)
    ensures
        r@.map_values(|v: Vec<char>| v@) == text_lines(text@),
{
    let pieces = raw_lines(text);
    let ghost p = pieces@.map_values(|v: Vec<char>| v@);
    proof {
        lemma_split_lines_len(text@);
    }
    let mut out: Vec<Vec<char>> = Vec::new();
    let mut k: usize = 0;
    while k + 1 < pieces.len()
        invariant
            k < pieces.len(),
            p == pieces@.map_values(|v: Vec<char>| v@),
            p == split_lines(text@),
            out@.map_values(|v: Vec<char>| v@) =~= Seq::new(k as nat, |j: int| strip_cr(p[j])),
        decreases pieces.len() - k,
    {
        let l = &pieces[k];
        assert(p[k as int] == l@);
        let stripped = if l.len() > 0 && l[l.len() - 1] == '\r' {
            slice(l, 0, l.len() - 1)
        } else {
            copy_chars(l)
        };
        assert(stripped@ =~= strip_cr(p[k as int]));
        let ghost before = out@.map_values(|v: Vec<char>| v@);
        out.push(stripped);
        k += 1;
        assert(out@.map_values(|v: Vec<char>| v@) =~= before.push(strip_cr(p[k - 1])));
    }
    let last = &pieces[pieces.len() - 1];
    assert(p.last() == last@);
    if last.len() > 0 {
        out.push(copy_chars(last));
        assert(out@.map_values(|v: Vec<char>| v@) =~= text_lines(text@));
    }
    out
}

/// `read_request`'s parsing of the header text.
pub fn parse_request_head(header: &str) -> (r: Result<RequestHead, String>)
    ensures
        match (r, spec_parse_request_head(header@)) {
            (Ok(h), Ok(g)) => h.method@ == g.method && h.path@ == g.path && h.content_length
                == g.content_length,
            (Err(m), Err(n)) => m@ == n,
            _ => false,
        },
{
    let text = chars_of(header);
    let lines = std_lines(&text);
    let ghost lv = lines@.map_values(|v: Vec<char>| v@);
    if lines.len() == 0 {
        return Err("missing request line".to_owned());
    }
    let first = &lines[0];
    assert(lv[0] == first@);
    let (method, after) = match word_from_exec(first, 0) {
        Some(w) => w,
        None => return Err("missing method".to_owned()),
    };
    let (raw_path, _) = match word_from_exec(first, after) {
        Some(w) => w,
        None => return Err("missing path".to_owned()),
    };
    let q = vec!['?'];
    assert(q@ =~= seq!['?']);
    let path = match find_exec(&raw_path, &q) {
        Some(i) => {
            proof {
                lemma_find_from(raw_path@, q@, 0);
                assert(find(raw_path@, q@) == Some(i as int));
                assert(occurs_at(raw_path@, i as int, q@));
            }
            assert(i <= raw_path.len());
            slice(&raw_path, 0, i)
        },
        None => copy_chars(&raw_path),
    };
    let n = header_content_length(&lines);
    assert(path@ == before_query(raw_path@));
    assert(lv == text_lines(header@));
    if n > MAX_BODY_BYTES {
        return Err("request body too large".to_owned());
    }
    Ok(RequestHead { method: string_of(&method), path: string_of(&path), content_length: n })
}

/// `handle_run_request`'s size check on the posted source.
pub open spec fn spec_check_run_source(len: nat) -> Result<(), Seq<char>> {
    if len > MAX_RUN_SOURCE_BYTES {
        Err("rust source exceeds 64 KiB run limit"@)
    } else {
        Ok(())
    }
}

pub fn check_run_source(rust: &str) -> (r: Result<(), String>)
    ensures
        match (r, spec_check_run_source((encode_utf8(rust@).len() as usize) as nat)) {
            (Ok(()), Ok(())) => true,
            (Err(m), Err(n)) => m@ == n,
            _ => false,
        },
{
    let len = rust.len();
    if len > MAX_RUN_SOURCE_BYTES {
        Err("rust source exceeds 64 KiB run limit".to_owned())
    } else {
        Ok(())
    }
}

/// The file `serve_static` falls back to when the requested one is missing: the app's
/// `index.html` for app routes, nothing otherwise.
pub open spec fn spec_fallback_file(dist: Seq<char>, path: Seq<char>) -> Option<Seq<char>> {
    if spec_is_app_route(path) {
        Some(push_name(dist, "index.html"@))
    } else {
        None
    }
}

pub fn fallback_file(dist: &str, path: &str) -> (r: Option<String>)
    ensures
        match r {
            Some(f) => spec_fallback_file(dist@, path@) == Some(f@),
            None => spec_fallback_file(dist@, path@) is None,
        },
{
    if is_app_route(path) {
        let mut out = chars_of(dist);
        if out.len() > 0 && out[out.len() - 1] != '/' {
            out.push('/');
        }
        push_lit(&mut out, "index.html");
        Some(string_of(&out))
    } else {
        None
    }
}


// ---------------------------------------------------------------- JSON bodies

/// What serde_json makes of a request body: `None` when `from_slice::<Value>` refuses the
/// bytes, otherwise what `Value::get(key)` followed by `Value::as_str` gives.
pub uninterp spec fn json_str_member(body: Seq<u8>, key: Seq<char>) -> Option<Option<Seq<char>>>;

/// How serde_json writes one character inside a string: `"` and `\` escaped, U+0008,
/// U+0009, U+000A, U+000C and U+000D as `\b \t \n \f \r`, the other characters below
/// U+0020 as `\u00xx` in lower-case hexadecimal, every other character as it is.
pub open spec fn serde_escape_char(c: char) -> Seq<char> {
    if c == '"' {
        seq!['\\', '"']
    } else if c == '\\' {
        seq!['\\', '\\']
    } else if c == '\u{8}' {
        seq!['\\', 'b']
    } else if c == '\t' {
        seq!['\\', 't']
    } else if c == '\n' {
        seq!['\\', 'n']
    } else if c == '\u{C}' {
        seq!['\\', 'f']
    } else if c == '\r' {
        seq!['\\', 'r']
    } else if (c as u32) < 32 {
        seq!['\\', 'u', '0', '0', hex_digit((c as nat) / 16), hex_digit((c as nat) % 16)]
    } else {
        seq![c]
    }
}

/// serde_json's escaping of a text, character by character.
pub open spec fn serde_escape(s: Seq<char>) -> Seq<char>
    decreases s.len(),
{
    if s.len() == 0 {
        Seq::empty()
    } else {
        serde_escape(s.drop_last()) + serde_escape_char(s.last())
    }
}

/// The JSON string literal that `serde_json::to_string` writes for a text.
pub open spec fn json_string_literal(text: Seq<char>) -> Seq<char> {
    seq!['"'] + serde_escape(text) + seq!['"']
}

/// Calls `serde_json::from_slice::<serde_json::Value>` on `body` and, when that succeeds,
/// `get(key)` and `as_str` on the value; the answer is the named `json_str_member`.
#[verifier::external_body]
fn json_member(body: &[u8], key: &str) -> (r: Option<Option<String>>)
    ensures
        match r {
            None => json_str_member(body@, key@) is None,
            Some(None) => json_str_member(body@, key@) == Some(None::<Seq<char>>),
            Some(Some(s)) => json_str_member(body@, key@) == Some(Some(s@)),
        },
{
    match serde_json::from_slice::<serde_json::Value>(body) {
        Ok(value) => Some(value.get(key).and_then(serde_json::Value::as_str).map(str::to_owned)),
        Err(_) => None,
    }
}

/// Calls `serde_json::to_string` on a text: its JSON string literal, the text between
/// `"` quotes with each character escaped as `format_escaped_str` does. The call cannot
/// fail on a `str` (its serializer writes into a vector), so the empty string of the
/// error arm is never returned.
#[verifier::external_body]
fn json_quoted(text: &str) -> (r: String)
    ensures
        r@ == json_string_literal(text@),
{
    match serde_json::to_string(text) {
        Ok(s) => s,
        Err(_) => String::new(),
    }
}

/// `json!({ "error": message }).to_string()`: a one-member object in compact form.
pub open spec fn spec_json_error_body(message: Seq<char>) -> Seq<char> {
    "{\"error\":"@ + json_string_literal(message) + "}"@
}

pub fn json_error_body(message: &str) -> (r: String)
    ensures
        r@ == spec_json_error_body(message@),
{
    let mut out = chars_of("{\"error\":");
    let quoted = json_quoted(message);
    let q = chars_of(quoted.as_str());
    push_all(&mut out, &q);
    push_lit(&mut out, "}");
    string_of(&out)
}

/// `json_response(status, json!({ "error": message }))`: an error answered as JSON.
pub fn json_error_response(status: u16, message: &str) -> (r: Vec<u8>)
    ensures
        r@ == spec_http_response(
            status,
            "application/json"@,
            encode_utf8(spec_json_error_body(message@)),
            false,
        ),
{
    let body = json_error_body(message);
    http_response(status, "application/json", body.as_str().as_bytes(), false)
}

/// `handle_run_request`'s checks on the parsed body: the `rust` member must be a string
/// no longer than the run limit; otherwise the status and message of the refusal.
pub open spec fn spec_run_source(parsed: Option<Option<Seq<char>>>) -> Result<Seq<char>, (u16, Seq<char>)> {
    match parsed {
        None => Err((400u16, "invalid json"@)),
        Some(None) => Err((400u16, "rust must be a string"@)),
        Some(Some(rust)) => match spec_check_run_source((encode_utf8(rust).len() as usize) as nat) {
            Ok(()) => Ok(rust),
            Err(m) => Err((413u16, m)),
        },
    }
}

/// The decision on an already parsed body (see `json_str_member`).
pub fn decide_run_source(parsed: Option<Option<String>>) -> (r: Result<String, (u16, String)>)
    ensures
        match (
            r,
            spec_run_source(
                match parsed {
                    None => None,
                    Some(None) => Some(None),
                    Some(Some(s)) => Some(Some(s@)),
                },
            ),
        ) {
            (Ok(s), Ok(t)) => s@ == t,
            (Err((code, m)), Err((c, n))) => code == c && m@ == n,
            _ => false,
        },
{
    match parsed {
        None => Err((400, "invalid json".to_owned())),
        Some(None) => Err((400, "rust must be a string".to_owned())),
        Some(Some(rust)) => match check_run_source(rust.as_str()) {
            Ok(()) => Ok(rust),
            Err(m) => Err((413, m)),
        },
    }
}

/// `handle_run_request` from the raw body to the source to run, or the refusal.
pub fn run_request_source(body: &[u8]) -> (r: Result<String, (u16, String)>)
    ensures
        match (r, spec_run_source(json_str_member(body@, "rust"@))) {
            (Ok(s), Ok(t)) => s@ == t,
            (Err((code, m)), Err((c, n))) => code == c && m@ == n,
            _ => false,
        },
{
    let parsed = json_member(body, "rust");
    decide_run_source(parsed)
}


// ---------------------------------------------------------------- reading and running

/// `read_request`'s step after one read of the head: `read` bytes came in, and `buffer`
/// holds everything read so far. An empty read ends the request; a buffer past the body
/// limit is refused; otherwise the head ends at the first blank line, or more is read.
pub fn header_read_step(read: usize, buffer: &[u8]) -> (r: Result<Option<usize>, String>)
    ensures
        read == 0 ==> (r matches Err(m) && m@ == "empty request"@),
        read != 0 && buffer@.len() > MAX_BODY_BYTES ==> (r matches Err(m) && m@ == "request too large"@),
        read != 0 && buffer@.len() <= MAX_BODY_BYTES ==> match r {
            Ok(Some(i)) => blank_line_at(buffer@, i as int) && forall|j: int|
                0 <= j < i ==> !blank_line_at(buffer@, j),
            Ok(None) => forall|j: int| 0 <= j ==> !blank_line_at(buffer@, j),
            Err(_) => false,
        },
{
    if read == 0 {
        return Err("empty request".to_owned());
    }
    if buffer.len() > MAX_BODY_BYTES {
        return Err("request too large".to_owned());
    }
    Ok(find_header_end(buffer))
}

/// `read_request` reads on while the body is shorter than its declared length.
pub fn needs_more_body(len: usize, content_length: usize) -> (r: bool)
    ensures
        r == (len < content_length),
{
    len < content_length
}

/// `read_request`'s last step: the body cut to its declared length.
pub fn cut_body(body: Vec<u8>, content_length: usize) -> (r: Vec<u8>)
    ensures
        r@ == (if body@.len() > content_length {
            body@.take(content_length as int)
        } else {
            body@
        }),
{
    let mut body = body;
    body.truncate(content_length);
    body
}

/// What waiting on a child process found.
#[derive(Debug, Clone, Copy, PartialEq, Eq, Structural)]
pub enum WaitOutcome {
    /// The child has exited.
    Exited,
    /// The child still runs.
    Running,
    /// Waiting failed.
    Failed,
}

/// What `run_command` does next with a child process.
#[derive(Debug, Clone, Copy, PartialEq, Eq, Structural)]
pub enum PollAction {
    /// Kill what is left of its process group and collect its output.
    Collect,
    /// The run timed out: kill the child and its group, then collect its output.
    KillAndCollect,
    /// Sleep a little and wait again.
    Wait,
    /// Kill its process group and report the failure to wait.
    KillAndFail,
}

/// `run_command`'s poll loop: an exited child is collected; a running one is killed once
/// the time is up (the run then counts as timed out) and waited on otherwise; a failed
/// wait kills the group and fails.
pub fn poll_step(wait: WaitOutcome, elapsed_ms: u64, timeout_ms: u64) -> (a: PollAction)
    ensures
        a == (match wait {
            WaitOutcome::Exited => PollAction::Collect,
            WaitOutcome::Running => if elapsed_ms >= timeout_ms {
                PollAction::KillAndCollect
            } else {
                PollAction::Wait
            },
            WaitOutcome::Failed => PollAction::KillAndFail,
        }),
{
    match wait {
        WaitOutcome::Exited => PollAction::Collect,
        WaitOutcome::Running => if elapsed_ms >= timeout_ms {
            PollAction::KillAndCollect
        } else {
            PollAction::Wait
        },
        WaitOutcome::Failed => PollAction::KillAndFail,
    }
}

/// `compile_and_run_rust` runs the program only when the compiler exited with status 0
/// within the time limit.
pub fn runs_after_compile(status: Option<i32>, timed_out: bool) -> (r: bool)
    ensures
        r == (status == Some(0i32) && !timed_out),
{
    match status {
        Some(code) => code == 0 && !timed_out,
        None => false,
    }
}

/// A run is reported `ok` when the program exited with status 0 within the time limit.
pub fn run_ok(status: Option<i32>, timed_out: bool) -> (r: bool)
    ensures
        r == (status == Some(0i32) && !timed_out),
{
    match status {
        Some(code) => code == 0 && !timed_out,
        None => false,
    }
}

} // verus!
