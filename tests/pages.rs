use rustyproxy::page::{clamp_items_per_page, next_page, page_range, previous_page, visible_indices};

#[test]
fn page_range_clamps_to_total() {
    assert_eq!(page_range(0, 10, 25), (0, 10));
    assert_eq!(page_range(2, 10, 25), (20, 25));
    assert_eq!(page_range(5, 10, 25), (25, 25));
    assert_eq!(page_range(usize::MAX, 2, 7), (7, 7));
}

#[test]
fn visible_indices_of_a_filtered_page() {
    let m: Vec<bool> = (0..25).map(|i| i % 2 == 0).collect();
    assert_eq!(visible_indices(&m, 0, 10), vec![0, 2, 4, 6, 8, 10, 12, 14, 16, 18]);
    assert_eq!(visible_indices(&m, 1, 10), vec![20, 22, 24]);
    assert!(visible_indices(&m, 2, 10).is_empty());
    assert!(visible_indices(&vec![], 0, 10).is_empty());
}

#[test]
fn next_and_previous() {
    assert_eq!(next_page(0, 10, 25), 1);
    assert_eq!(next_page(1, 10, 25), 2);
    assert_eq!(next_page(2, 10, 25), 2);
    assert_eq!(next_page(0, 10, 10), 0);
    assert_eq!(previous_page(0), 0);
    assert_eq!(previous_page(3), 2);
}

#[test]
fn clamp_page_size() {
    assert_eq!(clamp_items_per_page(5, 100), 10);
    assert_eq!(clamp_items_per_page(50, 30), 30);
    assert_eq!(clamp_items_per_page(50, 4), 10);
    assert_eq!(clamp_items_per_page(20, 30), 20);
}
