use rustyproxy::filter::{matches_filter, FilterCat};
use rustyproxy::history::{host_from_raw, HistLine, History};

fn line(id: usize, host: &str) -> HistLine {
    HistLine::new(
        id,
        "10.0.0.1".to_string(),
        format!("/r{}", id),
        "GET".to_string(),
        false,
        200,
        10,
        String::new(),
        false,
        String::new(),
        "1ms".to_string(),
        host.to_string(),
    )
}

#[test]
fn merge_puts_new_lines_first_in_source_order() {
    let mut h = History::new();
    h.merge(vec![line(1, "a"), line(2, "b")]);
    h.merge(vec![line(3, "c"), line(4, "d")]);
    let ids: Vec<usize> = h.history().iter().map(|l| l.id()).collect();
    assert_eq!(ids, vec![3, 4, 1, 2]);
    assert_eq!(h.last_id(), 4);
}

#[test]
fn cursor_takes_the_maximum_and_never_regresses() {
    let mut h = History::new();
    h.set_last_id(10);
    h.merge(vec![line(12, "a"), line(11, "b")]);
    assert_eq!(h.last_id(), 12);
    h.merge(vec![line(3, "c")]);
    assert_eq!(h.last_id(), 12);
    h.merge(vec![]);
    assert_eq!(h.last_id(), 12);
}

#[test]
fn one_fetch_at_a_time() {
    let mut h = History::new();
    assert!(h.begin_fetch());
    assert!(!h.begin_fetch());
    assert!(h.is_fetching());
    h.reset_promise();
    assert!(!h.is_fetching());
    assert_eq!(h.last_id(), 0);
    assert!(h.begin_fetch());
    h.merge(vec![line(5, "a")]);
    assert!(!h.is_fetching());
    assert!(h.begin_fetch());
}

#[test]
fn host_read_from_raw_request() {
    assert_eq!(host_from_raw("GET / HTTP/1.1\r\nHost: example.org\r\nA: b\r\n\r\n"), "example.org");
    assert_eq!(host_from_raw("GET / HTTP/1.1\r\nA: b\r\n\r\n"), "");
    assert_eq!(host_from_raw("GET / HTTP/1.1\r\nHost: h1"), "h1");
}

#[test]
fn row_flags_and_host() {
    let l = HistLine::from_row(
        7,
        "1.2.3.4".to_string(),
        "/x".to_string(),
        "POST".to_string(),
        1,
        302,
        55,
        "POST /x HTTP/1.1\r\nHost: site\r\n\r\n".to_string(),
        0,
        "resp".to_string(),
        "3ms".to_string(),
    );
    assert_eq!(l.id(), 7);
    assert!(l.params);
    assert!(!l.ssl());
    assert_eq!(l.status(), 302);
    assert_eq!(l.size(), 55);
    assert_eq!(l.host(), "site");
    assert_eq!(l.remote_addr(), "1.2.3.4");
    assert_eq!(l.uri(), "/x");
    assert_eq!(l.method(), "POST");
    assert_eq!(l.raw(), "POST /x HTTP/1.1\r\nHost: site\r\n\r\n");
    assert_eq!(l.response(), "resp");
    assert_eq!(l.response_time(), "3ms");
    let c = l.copy();
    assert_eq!(c.id, 7);
    assert_eq!(c.host, "site");
}

#[test]
fn filter_by_each_category() {
    let l = line(1, "shop.example");
    let f = Some("shop".to_string());
    assert!(matches_filter(&l, &f, &None));
    assert!(matches_filter(&l, &f, &Some(FilterCat::Host)));
    assert!(!matches_filter(&l, &f, &Some(FilterCat::Path)));
    assert!(matches_filter(&l, &Some("/r1".to_string()), &Some(FilterCat::Path)));
    assert!(matches_filter(&l, &Some("10.0".to_string()), &Some(FilterCat::Source)));
    assert!(matches_filter(&l, &Some("200".to_string()), &Some(FilterCat::Code)));
    assert!(!matches_filter(&l, &Some("404".to_string()), &Some(FilterCat::Code)));
    assert!(!matches_filter(&l, &Some("abc".to_string()), &Some(FilterCat::Code)));
    assert!(matches_filter(&l, &None, &Some(FilterCat::Code)));
}

#[test]
fn filtercat_copies() {
    assert_eq!(FilterCat::from_filtercat(&FilterCat::Code), FilterCat::Code);
    assert_eq!(FilterCat::from_filtercat_opt(&Some(FilterCat::Path)), Some(FilterCat::Path));
    assert_eq!(FilterCat::from_filtercat_opt(&None), None);
}

#[test]
fn pagination_filters_before_slicing() {
    let mut h = History::new();
    let mut rows = Vec::new();
    for i in 0..25 {
        rows.push(line(i, if i % 2 == 0 { "match.example" } else { "other" }));
    }
    h.merge(rows);
    h.filter = Some("match".to_string());
    h.filter_cat = Some(FilterCat::Host);
    assert_eq!(h.items_per_page, 10);
    assert_eq!(h.filtered_count(), 13);
    let page0 = h.visible();
    assert_eq!(page0, vec![0, 2, 4, 6, 8, 10, 12, 14, 16, 18]);
    h.next_page();
    assert_eq!(h.current_page, 1);
    let page1 = h.visible();
    assert_eq!(page1, vec![20, 22, 24]);
    h.next_page();
    assert_eq!(h.current_page, 1);
    h.previous_page();
    assert_eq!(h.current_page, 0);
    h.previous_page();
    assert_eq!(h.current_page, 0);
}

#[test]
fn items_per_page_is_clamped() {
    let mut h = History::new();
    let mut rows = Vec::new();
    for i in 0..40 {
        rows.push(line(i, "h"));
    }
    h.merge(rows);
    h.set_items_per_page(3);
    assert_eq!(h.items_per_page, 10);
    h.set_items_per_page(100);
    assert_eq!(h.items_per_page, 40);
    h.set_items_per_page(25);
    assert_eq!(h.items_per_page, 25);
}

#[test]
fn copy_keeps_data_but_not_selection_or_fetch() {
    let mut h = History::new();
    h.merge(vec![line(1, "a"), line(2, "b")]);
    h.filter = Some("a".to_string());
    h.selected = Some(line(9, "z"));
    assert!(h.begin_fetch());
    let c = h.copy();
    assert_eq!(c.last_id(), 2);
    assert_eq!(c.history().len(), 2);
    assert_eq!(c.history()[1].id(), 2);
    assert_eq!(c.filter, Some("a".to_string()));
    assert!(c.selected().is_none());
    assert!(!c.is_fetching());
}

#[test]
fn set_last_id_changes_only_the_cursor() {
    let mut h = History::new();
    assert!(h.filter_input.is_empty());
    h.merge(vec![line(1, "a")]);
    h.current_page = 2;
    h.set_last_id(40);
    assert_eq!(h.last_id(), 40);
    assert_eq!(h.current_page, 2);
    assert_eq!(h.history().len(), 1);
}
