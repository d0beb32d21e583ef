use rusk::web::header_read_step;
use rusk::web::{cut_body, needs_more_body};
use rusk::web::{poll_step, PollAction, WaitOutcome};
use rusk::web::{run_ok, runs_after_compile};
use rusk::text::control;
use rusk::web::{decide_run_source, run_request_source};
use rusk::web::{
    check_run_source, content_type, fallback_file, find_header_end, is_app_route,
    kill_process_tree, parse_request_head, parse_unsigned_exec, read_u64_setting,
    read_usize_setting, route_request, std_lines, try_acquire, Route, MAX_BODY_BYTES,
    MAX_RUN_SOURCE_BYTES,
};

#[test]
fn acquiring_stops_at_the_limit() {
    assert_eq!(try_acquire(0, 2), Some(1));
    assert_eq!(try_acquire(1, 2), Some(2));
    assert_eq!(try_acquire(2, 2), None);
    assert_eq!(try_acquire(5, 2), None);
    assert_eq!(try_acquire(0, 0), None);
}

#[test]
fn process_group_target_is_negated_pid() {
    assert_eq!(kill_process_tree(1234), -1234);
    assert_eq!(kill_process_tree(1), -1);
    assert_eq!(kill_process_tree(0xffff_ffff), 1);
}

#[test]
fn header_end_is_first_blank_line() {
    assert_eq!(find_header_end(b"GET / HTTP/1.1\r\nHost: x\r\n\r\nbody"), Some(23));
    assert_eq!(find_header_end(b"\r\n\r\n\r\n\r\n"), Some(0));
    assert_eq!(find_header_end(b"GET / HTTP/1.1\r\n\r"), None);
    assert_eq!(find_header_end(b""), None);
}

#[test]
fn app_routes() {
    assert!(is_app_route("/"));
    assert!(is_app_route("/examples/hello"));
    assert!(is_app_route("/ruk-examples/a"));
    assert!(is_app_route("/rust-examples/b"));
    assert!(!is_app_route("/examples"));
    assert!(!is_app_route("/assets/app.js"));
    assert!(!is_app_route(""));
}

#[test]
fn requests_are_routed_by_method_and_path() {
    assert_eq!(route_request("POST", "/api/run"), Route::Run);
    assert_eq!(route_request("GET", "/api/run"), Route::Static { head_only: false });
    assert_eq!(route_request("HEAD", "/"), Route::Static { head_only: true });
    assert_eq!(route_request("POST", "/other"), Route::MethodNotAllowed);
    assert_eq!(route_request("PUT", "/"), Route::MethodNotAllowed);
    assert_eq!(route_request("get", "/"), Route::MethodNotAllowed);
}

#[test]
fn content_types_by_extension() {
    assert_eq!(content_type("/dist/index.html"), "text/html; charset=utf-8");
    assert_eq!(content_type("app.js"), "text/javascript; charset=utf-8");
    assert_eq!(content_type("a/b.css"), "text/css; charset=utf-8");
    assert_eq!(content_type("rusk.wasm"), "application/wasm");
    assert_eq!(content_type("x.json"), "application/json; charset=utf-8");
    assert_eq!(content_type("logo.svg"), "image/svg+xml");
    assert_eq!(content_type("p.png"), "image/png");
    assert_eq!(content_type("p.jpg"), "image/jpeg");
    assert_eq!(content_type("p.jpeg"), "image/jpeg");
    assert_eq!(content_type("p.webp"), "image/webp");
    assert_eq!(content_type("P.JPG"), "application/octet-stream");
    assert_eq!(content_type("archive.tar.gz"), "application/octet-stream");
    assert_eq!(content_type("/home/.bashrc"), "application/octet-stream");
    assert_eq!(content_type("README"), "application/octet-stream");
}

#[test]
fn status_lines_of_responses() {
    let text = |status: u16| {
        let bytes = rusk::web::http_response(status, "application/json", b"{}", false);
        String::from_utf8(bytes).unwrap()
    };
    assert!(text(404).starts_with("HTTP/1.1 404 Not Found\r\n"));
    assert!(text(405).starts_with("HTTP/1.1 405 Method Not Allowed\r\n"));
    assert!(text(413).starts_with("HTTP/1.1 413 Payload Too Large\r\n"));
    assert!(text(500).starts_with("HTTP/1.1 500 Internal Server Error\r\n"));
    assert!(text(503).starts_with("HTTP/1.1 503 Service Unavailable\r\n"));
    assert!(text(400).starts_with("HTTP/1.1 400 Bad Request\r\n"));
    assert!(text(418).starts_with("HTTP/1.1 418 OK\r\n"));
    assert!(text(200).ends_with("Content-Length: 2\r\nConnection: close\r\n\r\n{}"));
}

#[test]
fn request_heads_are_parsed() {
    let head = parse_request_head("POST /api/run?x=1 HTTP/1.1\r\nHost: a\r\ncontent-LENGTH:  17 \r\n").unwrap();
    assert_eq!(head.method, "POST");
    assert_eq!(head.path, "/api/run");
    assert_eq!(head.content_length, 17);
    let head = parse_request_head("GET  /  HTTP/1.1\r\nContent-Length: abc").unwrap();
    assert_eq!(head.path, "/");
    assert_eq!(head.content_length, 0);
    assert_eq!(parse_request_head("").unwrap_err(), "missing request line");
    assert_eq!(parse_request_head("   \r\nHost: a").unwrap_err(), "missing method");
    assert_eq!(parse_request_head("GET").unwrap_err(), "missing path");
    assert_eq!(
        parse_request_head("POST / HTTP/1.1\r\nContent-Length: 131073").unwrap_err(),
        "request body too large"
    );
    assert_eq!(
        parse_request_head("POST / HTTP/1.1\r\nContent-Length: 131072").unwrap().content_length,
        MAX_BODY_BYTES
    );
}

#[test]
fn lines_split_like_std() {
    let text: Vec<char> = "a\r\nb\n\nc\r".chars().collect();
    let lines: Vec<String> = std_lines(&text).into_iter().map(|l| l.into_iter().collect()).collect();
    assert_eq!(lines, vec!["a", "b", "", "c\r"]);
    let text: Vec<char> = "x\n".chars().collect();
    assert_eq!(std_lines(&text).len(), 1);
}

#[test]
fn settings_fall_back_to_defaults() {
    assert_eq!(read_u64_setting(Some("250"), 5000), 250);
    assert_eq!(read_u64_setting(Some("+7"), 5000), 7);
    assert_eq!(read_u64_setting(Some("0"), 5000), 5000);
    assert_eq!(read_u64_setting(Some("-3"), 5000), 5000);
    assert_eq!(read_u64_setting(Some(" 7"), 5000), 5000);
    assert_eq!(read_u64_setting(Some(""), 5000), 5000);
    assert_eq!(read_u64_setting(None, 5000), 5000);
    assert_eq!(read_u64_setting(Some("18446744073709551615"), 1), u64::MAX);
    assert_eq!(read_u64_setting(Some("18446744073709551616"), 1), 1);
    assert_eq!(read_usize_setting(Some("64"), 2), 64);
    assert_eq!(read_usize_setting(Some("sixty"), 2), 2);
}

#[test]
fn unsigned_numbers_within_a_bound() {
    let chars = |s: &str| s.chars().collect::<Vec<char>>();
    assert_eq!(parse_unsigned_exec(&chars("42"), 100), Some(42));
    assert_eq!(parse_unsigned_exec(&chars("100"), 100), Some(100));
    assert_eq!(parse_unsigned_exec(&chars("101"), 100), None);
    assert_eq!(parse_unsigned_exec(&chars("007"), 100), Some(7));
    assert_eq!(parse_unsigned_exec(&chars("+"), 100), None);
    assert_eq!(parse_unsigned_exec(&chars("1_0"), 100), None);
    assert_eq!(parse_unsigned_exec(&chars("5"), 3), None);
    assert_eq!(parse_unsigned_exec(&chars("3"), 3), Some(3));
    assert_eq!(parse_unsigned_exec(&chars("00"), 0), Some(0));
}

#[test]
fn run_source_size_limit() {
    assert_eq!(check_run_source("fn main() {}"), Ok(()));
    let at_limit = "a".repeat(MAX_RUN_SOURCE_BYTES);
    assert_eq!(check_run_source(&at_limit), Ok(()));
    let over = "a".repeat(MAX_RUN_SOURCE_BYTES + 1);
    assert_eq!(check_run_source(&over), Err("rust source exceeds 64 KiB run limit".to_string()));
    let wide = "é".repeat(MAX_RUN_SOURCE_BYTES / 2 + 1);
    assert!(check_run_source(&wide).is_err());
}

#[test]
fn missing_files_fall_back_for_app_routes() {
    assert_eq!(
        fallback_file("/app/web/dist", "/examples/a"),
        Some("/app/web/dist/index.html".to_string())
    );
    assert_eq!(fallback_file("/d/", "/"), Some("/d/index.html".to_string()));
    assert_eq!(fallback_file("/d", "/x.js"), None);
}

#[test]
fn error_bodies_are_compact_json() {
    assert_eq!(rusk::web::json_error_body("invalid json"), "{\"error\":\"invalid json\"}");
    assert_eq!(
        rusk::web::json_error_body("a \"quoted\"\nline\\"),
        "{\"error\":\"a \\\"quoted\\\"\\nline\\\\\"}"
    );
    let response = rusk::web::json_error_response(503, "too many connections");
    let text = String::from_utf8(response).unwrap();
    assert_eq!(
        text,
        "HTTP/1.1 503 Service Unavailable\r\nContent-Type: application/json\r\nContent-Length: 32\r\nConnection: close\r\n\r\n{\"error\":\"too many connections\"}"
    );
}

#[test]
fn run_bodies_are_checked() {
    assert_eq!(
        run_request_source(b"{\"rust\": \"fn main() {}\", \"other\": 1}"),
        Ok("fn main() {}".to_string())
    );
    assert_eq!(
        run_request_source(b"{\"rust\": \"a\\nb\\u0041\"}"),
        Ok("a\nbA".to_string())
    );
    assert_eq!(run_request_source(b"not json"), Err((400, "invalid json".to_string())));
    assert_eq!(run_request_source(b""), Err((400, "invalid json".to_string())));
    assert_eq!(
        run_request_source(b"{\"rust\": 1}"),
        Err((400, "rust must be a string".to_string()))
    );
    assert_eq!(
        run_request_source(b"[\"rust\"]"),
        Err((400, "rust must be a string".to_string()))
    );
    let big = format!("{{\"rust\": \"{}\"}}", "a".repeat(MAX_RUN_SOURCE_BYTES + 1));
    assert_eq!(
        run_request_source(big.as_bytes()),
        Err((413, "rust source exceeds 64 KiB run limit".to_string()))
    );
    assert_eq!(decide_run_source(None), Err((400, "invalid json".to_string())));
    assert_eq!(decide_run_source(Some(None)), Err((400, "rust must be a string".to_string())));
    assert_eq!(decide_run_source(Some(Some("x".to_string()))), Ok("x".to_string()));
}

#[test]
fn head_reads_step_until_the_blank_line() {
    assert_eq!(header_read_step(0, b"GET"), Err("empty request".to_string()));
    assert_eq!(header_read_step(3, b"GET"), Ok(None));
    assert_eq!(header_read_step(4, b"GET /\r\n\r\n"), Ok(Some(5)));
    let big = vec![b'a'; MAX_BODY_BYTES + 1];
    assert_eq!(header_read_step(1, &big), Err("request too large".to_string()));
    let full = vec![b'a'; MAX_BODY_BYTES];
    assert_eq!(header_read_step(1, &full), Ok(None));
}

#[test]
fn bodies_are_read_to_their_declared_length() {
    assert!(needs_more_body(3, 5));
    assert!(!needs_more_body(5, 5));
    assert!(!needs_more_body(6, 5));
    assert_eq!(cut_body(b"abcdef".to_vec(), 4), b"abcd".to_vec());
    assert_eq!(cut_body(b"ab".to_vec(), 4), b"ab".to_vec());
    assert_eq!(cut_body(b"ab".to_vec(), 0), Vec::<u8>::new());
}

#[test]
fn child_processes_are_polled() {
    assert_eq!(poll_step(WaitOutcome::Exited, 9000, 5000), PollAction::Collect);
    assert_eq!(poll_step(WaitOutcome::Running, 5000, 5000), PollAction::KillAndCollect);
    assert_eq!(poll_step(WaitOutcome::Running, 4999, 5000), PollAction::Wait);
    assert_eq!(poll_step(WaitOutcome::Failed, 0, 5000), PollAction::KillAndFail);
}

#[test]
fn runs_follow_exit_status() {
    assert!(runs_after_compile(Some(0), false));
    assert!(!runs_after_compile(Some(0), true));
    assert!(!runs_after_compile(Some(1), false));
    assert!(!runs_after_compile(None, false));
    assert!(run_ok(Some(0), false));
    assert!(!run_ok(Some(101), false));
    assert!(!run_ok(None, true));
}

#[test]
fn error_bodies_escape_control_characters() {
    assert_eq!(
        rusk::web::json_error_body("\u{1}\u{8}\u{c}\t\r\u{1f}\u{7f}é"),
        "{\"error\":\"\\u0001\\b\\f\\t\\r\\u001f\u{7f}é\"}"
    );
}

#[test]
fn control_characters_are_category_cc() {
    assert!(control('\u{0}'));
    assert!(control('\n'));
    assert!(control('\u{1f}'));
    assert!(!control(' '));
    assert!(!control('~'));
    assert!(control('\u{7f}'));
    assert!(control('\u{9f}'));
    assert!(!control('\u{a0}'));
    assert!(!control('é'));
}
