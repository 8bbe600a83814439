use rustyproxy::coordinator::{header_block_of, RunCoordinator, RunResult};
use rustyproxy::request::Request;

fn requests(n: usize) -> Vec<Request> {
    let mut v = Vec::new();
    for i in 0..n {
        v.push(Request {
            idx: i,
            url: "http://h/".to_string(),
            method: "GET".to_string(),
            body: String::new(),
            headers: vec![],
        });
    }
    v
}

#[test]
fn dispatch_gives_each_chunk_a_fresh_task() {
    let mut c = RunCoordinator::new();
    assert!(c.is_idle());
    let tasks = c.dispatch(&requests(600)).unwrap();
    assert_eq!(tasks.len(), 3);
    assert_eq!(tasks[0].0, 0);
    assert_eq!(tasks[1].0, 1);
    assert_eq!(tasks[2].0, 2);
    assert_eq!(tasks[2].1.len(), 100);
    assert!(c.is_pending(0) && c.is_pending(1) && c.is_pending(2));
    let more = c.dispatch(&requests(1)).unwrap();
    assert_eq!(more[0].0, 3);
    assert!(!c.is_idle());
}

#[test]
fn drain_is_idempotent() {
    let mut c = RunCoordinator::new();
    let tasks = c.dispatch(&requests(2)).unwrap();
    let t = tasks[0].0;
    assert!(c.drain(t, vec![RunResult::failure(0, "e".to_string())]));
    assert_eq!(c.results().len(), 1);
    assert!(!c.drain(t, vec![RunResult::failure(0, "e".to_string())]));
    assert_eq!(c.results().len(), 1);
    assert!(!c.is_pending(t));
    assert!(c.is_idle());
}

#[test]
fn drain_of_unknown_task_is_ignored() {
    let mut c = RunCoordinator::new();
    assert!(!c.drain(42, vec![RunResult::failure(0, "e".to_string())]));
    assert!(c.results().is_empty());
}

#[test]
fn chunks_finishing_out_of_order_keep_their_indices() {
    let mut c = RunCoordinator::new();
    let tasks = c.dispatch(&requests(300)).unwrap();
    assert_eq!(tasks.len(), 2);
    assert!(c.drain(tasks[1].0, vec![RunResult::failure(250, "late".to_string())]));
    assert!(c.drain(tasks[0].0, vec![RunResult::failure(0, "early".to_string())]));
    assert_eq!(c.results()[0].index(), 250);
    assert_eq!(c.results()[1].index(), 0);
    assert_eq!(c.result_for(0), Some(1));
    assert_eq!(c.result_for(250), Some(0));
}

#[test]
fn header_block_format() {
    let hs = vec![
        ("content-type".to_string(), "text/html".to_string()),
        ("x-a".to_string(), "1".to_string()),
    ];
    assert_eq!(header_block_of(&hs), "content-type: text/html\r\nx-a: 1\r\n");
    assert_eq!(header_block_of(&vec![]), "");
}

#[test]
fn success_and_response_text() {
    let hs = vec![("server".to_string(), "t".to_string())];
    let r = RunResult::success(4, "HTTP/1.1".to_string(), "404", "Not Found", &hs, "nope".to_string());
    assert_eq!(r.index(), 4);
    assert!(!r.is_failure());
    assert_eq!(r.response_text(), "HTTP/1.1 404 Not Found\r\nserver: t\r\n\r\nnope");
    let f = RunResult::failure(5, "timed out".to_string());
    assert!(f.is_failure());
    assert_eq!(f.response_text(), "timed out");
}
