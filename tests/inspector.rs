use rustyproxy::coordinator::RunResult;
use rustyproxy::history::HistLine;
use rustyproxy::inspector::{
    escape_request, payloads_from_text, unescape_request, ActiveInspectorMenu, Inspector,
};

fn recorded() -> HistLine {
    HistLine::new(
        3,
        "10.0.0.9".to_string(),
        "/login".to_string(),
        "GET".to_string(),
        false,
        200,
        5,
        "GET /login?u=$[PAYLOAD]$ HTTP/1.1\r\nHost: x\r\n\r\n".to_string(),
        true,
        "HTTP/1.1 200 OK\r\n\r\nhi".to_string(),
        "2ms".to_string(),
        "x".to_string(),
    )
}

#[test]
fn payload_list_lines() {
    assert_eq!(payloads_from_text("admin\r\nguest \nroot\n\n"), vec!["admin", "guest", "root"]);
    assert_eq!(payloads_from_text("a\n\nb"), vec!["a", "", "b"]);
    assert_eq!(payloads_from_text(""), vec![""]);
}

#[test]
fn editor_escaping() {
    assert_eq!(escape_request("a\r\nb"), "a\\r\\n\nb");
    assert_eq!(unescape_request("a\\r\\n\nb"), "a\r\nb");
    assert_eq!(unescape_request(&escape_request("GET / HTTP/1.1\r\n\r\n")), "GET / HTTP/1.1\r\n\r\n");
}

#[test]
fn inspector_of_a_recorded_line() {
    let i = Inspector::from_histline(&recorded());
    assert_eq!(i.id, 3);
    assert_eq!(i.source, "10.0.0.9");
    assert_eq!(i.target, "x");
    assert!(i.ssl);
    assert!(i.is_active);
    assert_eq!(i.active_window, ActiveInspectorMenu::Default);
    assert_eq!(ActiveInspectorMenu::default(), ActiveInspectorMenu::Default);
}

#[test]
fn panes_switch_on_request() {
    let mut i = Inspector::from_histline(&recorded());
    i.switch_to(ActiveInspectorMenu::Intruder);
    assert_eq!(i.active_window, ActiveInspectorMenu::Intruder);
    i.switch_to(ActiveInspectorMenu::Repeater);
    assert_eq!(i.active_window, ActiveInspectorMenu::Repeater);
}

#[test]
fn repeater_sends_edited_request() {
    let mut i = Inspector::from_histline(&recorded());
    i.reset_repeater();
    assert_eq!(i.modified_request, "GET /login?u=$[PAYLOAD]$ HTTP/1.1\\r\\n\nHost: x\\r\\n\n\\r\\n\n");
    i.modified_request = "POST /a HTTP/1.1\\r\\n\nHost: x\\r\\n\n\\r\\n\nbody".to_string();
    let r = i.repeater_request();
    assert_eq!(r.method, "POST");
    assert_eq!(r.url, "https://x/a");
    assert_eq!(r.body, "body");
}

#[test]
fn intruder_run_and_result_inspection() {
    let mut i = Inspector::from_histline(&recorded());
    i.load_payloads("admin\nguest\n");
    assert_eq!(i.bf_payload, vec!["admin", "guest"]);
    let reqs = i.intruder_requests();
    assert_eq!(reqs[0].url, "https://x/login?u=admin");
    assert_eq!(reqs[1].url, "https://x/login?u=guest");
    let tasks = i.send_intruder().unwrap();
    assert_eq!(tasks.len(), 1);
    let res = vec![
        RunResult::success(1, "HTTP/1.1".to_string(), "200", "OK", &vec![], "ok".to_string()),
        RunResult::failure(0, "refused".to_string()),
    ];
    assert!(i.bf_runs.drain(tasks[0].0, res));
    assert_eq!(i.visible_results(), vec![0, 1]);
    assert_eq!(i.filtered_results(), 2);
    assert_eq!(i.payload_for(1), Some("guest".to_string()));
    assert_eq!(i.payload_for(2), None);
    let child = i.from_result(&i.bf_runs.results()[0]).unwrap();
    assert_eq!(child.id, 1);
    assert_eq!(child.source, "RustyProxy");
    assert_eq!(child.request, "GET /login?u=guest HTTP/1.1\r\nHost: x\r\n\r\n");
    assert_eq!(child.response, "HTTP/1.1 200 OK\r\n\r\nok");
    assert!(i.from_result(&RunResult::failure(9, "e".to_string())).is_none());
}

#[test]
fn results_paging() {
    let mut i = Inspector::from_histline(&recorded());
    i.results_next_page();
    assert_eq!(i.bf_current_page, 0);
    i.set_results_per_page(1);
    assert_eq!(i.bf_items_per_page, 10);
    i.results_previous_page();
    assert_eq!(i.bf_current_page, 0);
}

#[test]
fn inspector_description() {
    let mut i = Inspector::from_histline(&recorded());
    assert_eq!(
        i.describe(),
        "Inspector #3 source: 10.0.0.9 is_active: true is_minimized: false active_window: Default "
    );
    i.switch_to(ActiveInspectorMenu::Intruder);
    i.is_minimized = true;
    assert!(i.describe().ends_with("is_minimized: true active_window: Intruder "));
}

#[test]
fn intruder_results_filter_before_paging() {
    let mut i = Inspector::from_histline(&recorded());
    let mut payloads = String::new();
    for k in 0..25 {
        payloads.push_str(&format!("user{}\n", k));
    }
    i.load_payloads(&payloads);
    let tasks = i.send_intruder().unwrap();
    let mut res = Vec::new();
    for k in 0..25usize {
        if k % 2 == 0 {
            res.push(RunResult::success(k, "HTTP/1.1".to_string(), "200", "OK", &vec![], String::new()));
        } else {
            res.push(RunResult::failure(k, "refused".to_string()));
        }
    }
    assert!(i.bf_runs.drain(tasks[0].0, res));
    i.bf_filter = Some("200".to_string());
    assert_eq!(i.filtered_results(), 13);
    assert_eq!(i.visible_results(), vec![0, 2, 4, 6, 8, 10, 12, 14, 16, 18]);
    i.results_next_page();
    assert_eq!(i.visible_results(), vec![20, 22, 24]);
    i.bf_filter = Some("user7".to_string());
    i.results_previous_page();
    assert_eq!(i.visible_results(), vec![7]);
    i.bf_filter = Some("refused".to_string());
    assert_eq!(i.filtered_results(), 12);
}
