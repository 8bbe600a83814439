use rustyproxy::coordinator::{RunCoordinator, RunResult};
use rustyproxy::request::{curl_command, Request};

fn s(x: &str) -> String {
    x.to_string()
}

#[test]
fn parse_start_line_headers_and_body() {
    let t = "POST /api/x?a=1 HTTP/1.1\r\nHost: example.org\r\nX-Test: a: b\r\n\r\nname=value";
    let r = Request::from_strings(vec![s(t)], true, s("example.org"));
    assert_eq!(r.len(), 1);
    assert_eq!(r[0].idx, 0);
    assert_eq!(r[0].method, "POST");
    assert_eq!(r[0].url, "https://example.org/api/x?a=1");
    assert_eq!(r[0].body, "name=value");
    assert_eq!(
        r[0].headers,
        vec![(s("Host"), s("example.org")), (s("X-Test"), s("a: b"))]
    );
}

#[test]
fn plain_http_scheme_without_ssl() {
    let r = Request::from_strings(vec![s("GET / HTTP/1.1\r\n\r\n")], false, s("h:8080"));
    assert_eq!(r[0].url, "http://h:8080/");
}

#[test]
fn no_blank_line_gives_empty_body() {
    let r = Request::from_strings(vec![s("GET /a HTTP/1.1\r\nHost: h")], false, s("h"));
    assert_eq!(r[0].body, "");
    assert_eq!(r[0].headers, vec![(s("Host"), s("h"))]);
}

#[test]
fn header_line_without_colon_space_is_skipped() {
    let t = "GET /a HTTP/1.1\r\nbroken\r\nAccept: */*\r\n\r\n";
    let r = Request::from_strings(vec![s(t)], false, s("h"));
    assert_eq!(r[0].headers, vec![(s("Accept"), s("*/*"))]);
}

#[test]
fn body_keeps_later_blank_lines() {
    let t = "PUT /f HTTP/1.1\r\n\r\nline1\r\n\r\nline2";
    let r = Request::from_strings(vec![s(t)], false, s("h"));
    assert_eq!(r[0].body, "line1\r\n\r\nline2");
}

#[test]
fn transcript_without_space_is_all_method() {
    let r = Request::from_strings(vec![s("GARBAGE")], false, s("h"));
    assert_eq!(r[0].method, "GARBAGE");
    assert_eq!(r[0].url, "http://h");
    assert!(r[0].headers.is_empty());
}

#[test]
fn placeholder_replaced_in_every_place() {
    let t = "GET /login?u=$[PAYLOAD]$ HTTP/1.1\r\nX-User: $[PAYLOAD]$\r\n\r\nuser=$[PAYLOAD]$&x=1";
    let r = Request::from_template(t, &vec![s("admin"), s("guest")], true, "x");
    assert_eq!(r.len(), 2);
    assert_eq!(r[0].url, "https://x/login?u=admin");
    assert_eq!(r[0].headers, vec![(s("X-User"), s("admin"))]);
    assert_eq!(r[0].body, "user=admin&x=1");
    assert_eq!(r[1].idx, 1);
    assert_eq!(r[1].url, "https://x/login?u=guest");
    assert_eq!(r[1].body, "user=guest&x=1");
}

#[test]
fn round_trip_recovers_method_uri_and_body() {
    let t = "DELETE /items/7 HTTP/1.1\r\nHost: x\r\n\r\npayload-free body";
    let r = Request::from_template(t, &vec![s("anything")], false, "x");
    let prefix = "http://x";
    assert!(r[0].url.starts_with(prefix));
    assert_eq!(&r[0].url[prefix.len()..], "/items/7");
    assert_eq!(r[0].method, "DELETE");
    assert_eq!(r[0].body.as_bytes(), "payload-free body".as_bytes());
}

#[test]
fn templating_with_placeholder_as_payload_recovers_template() {
    let t = "GET /q?$[PAYLOAD]$ HTTP/1.1\r\n\r\n$[PAYLOAD]$";
    let a = Request::from_template(t, &vec![s("$[PAYLOAD]$")], false, "x");
    let b = Request::from_strings(vec![s(t)], false, s("x"));
    assert_eq!(a[0].url, b[0].url);
    assert_eq!(a[0].body, b[0].body);
}

#[test]
fn end_to_end_login_scenario() {
    let t = "GET /login HTTP/1.1\r\nHost: x\r\n\r\n";
    let reqs = Request::from_template(t, &vec![s("admin"), s("guest")], false, "x");
    assert_eq!(reqs.len(), 2);
    assert_eq!(reqs[0].idx, 0);
    assert_eq!(reqs[1].idx, 1);
    assert_eq!(reqs[0].method, reqs[1].method);
    assert_eq!(reqs[0].url, reqs[1].url);
    assert_eq!(reqs[0].body, reqs[1].body);
    assert_eq!(reqs[0].headers, reqs[1].headers);
    assert_eq!(reqs[0].url, "http://x/login");

    let mut c = RunCoordinator::new();
    let tasks = c.dispatch(&reqs).unwrap();
    assert_eq!(tasks.len(), 1);
    let (task, chunk) = &tasks[0];
    assert_eq!(chunk.len(), 2);
    let results = vec![
        RunResult::success(0, s("HTTP/1.1"), "200", "OK", &vec![], s("welcome")),
        RunResult::failure(1, s("connection refused")),
    ];
    assert!(c.drain(*task, results));
    assert_eq!(c.results().len(), 2);
    let first = c.result_for(0).unwrap();
    let second = c.result_for(1).unwrap();
    match &c.results()[first] {
        RunResult::Success { index, status, .. } => {
            assert_eq!(*index, 0);
            assert_eq!(status, "200 OK");
        }
        RunResult::Failure { .. } => panic!("request 0 should have succeeded"),
    }
    match &c.results()[second] {
        RunResult::Failure { index, error } => {
            assert_eq!(*index, 1);
            assert_eq!(error, "connection refused");
        }
        RunResult::Success { .. } => panic!("request 1 should have failed"),
    }
    assert!(c.result_for(2).is_none());
}

#[test]
fn copy_request_keeps_every_field() {
    let r = Request::from_strings(vec![s("GET /a HTTP/1.1\r\nA: 1\r\n\r\nb")], true, s("h"));
    let c = Request::from(&r[0]);
    assert_eq!(c.idx, r[0].idx);
    assert_eq!(c.url, r[0].url);
    assert_eq!(c.method, r[0].method);
    assert_eq!(c.body, r[0].body);
    assert_eq!(c.headers, r[0].headers);
}

#[test]
fn curl_command_line() {
    let t = "POST /p HTTP/1.1\r\nHost: h\r\nA: b\r\n\r\nk=v";
    assert_eq!(
        curl_command(t, true, "h"),
        "curl 'https://h/p' -X 'POST' --data 'k=v' -H 'Host: h' -H 'A: b'"
    );
    assert_eq!(
        curl_command("GET / HTTP/1.1", false, "h"),
        "curl 'http://h/' -X 'GET' --data ''"
    );
}

#[test]
fn start_line_recovered_after_substitution() {
    let t = "P$[PAYLOAD]$T /a/$[PAYLOAD]$/b HTTP/1.1\r\nHost: x\r\n\r\n";
    let r = Request::from_template(t, &vec![s("OS")], true, "x");
    assert_eq!(r[0].method, "POST");
    assert_eq!(r[0].url, "https://x/a/OS/b");
}
