use rustyproxy::partition::BatchRequest;
use rustyproxy::request::Request;

fn requests(n: usize) -> Vec<Request> {
    let mut v = Vec::new();
    for i in 0..n {
        v.push(Request {
            idx: i,
            url: format!("http://h/{}", i),
            method: "GET".to_string(),
            body: String::new(),
            headers: vec![],
        });
    }
    v
}

fn check_partition(n: usize, k: usize) -> Vec<Vec<Request>> {
    let p = requests(n);
    let chunks = BatchRequest::split(&p, k);
    let total: usize = chunks.iter().map(|c| c.len()).sum();
    assert_eq!(total, n);
    let flat: Vec<usize> = chunks.iter().flat_map(|c| c.iter().map(|r| r.idx)).collect();
    assert_eq!(flat, (0..n).collect::<Vec<usize>>());
    chunks
}

#[test]
fn batch_size_below_a_thousand() {
    assert_eq!(BatchRequest::batch_size(0), 250);
    assert_eq!(BatchRequest::batch_size(500), 250);
    assert_eq!(BatchRequest::batch_size(999), 250);
}

#[test]
fn batch_size_from_a_thousand() {
    assert_eq!(BatchRequest::batch_size(1000), 1);
    assert_eq!(BatchRequest::batch_size(1001), 2);
    assert_eq!(BatchRequest::batch_size(2500), 3);
}

#[test]
fn five_hundred_requests_make_two_chunks() {
    let chunks = BatchRequest::partition(&requests(500));
    assert_eq!(chunks.len(), 2);
    assert_eq!(chunks[0].len(), 250);
    assert_eq!(chunks[1].len(), 250);
}

#[test]
fn twenty_five_hundred_requests_make_chunks_of_three() {
    let chunks = BatchRequest::partition(&requests(2500));
    assert_eq!(chunks.len(), 834);
    assert!(chunks[..833].iter().all(|c| c.len() == 3));
    assert_eq!(chunks[833].len(), 1);
    assert_eq!(chunks[833][0].idx, 2499);
}

#[test]
fn empty_input_makes_no_chunk() {
    assert!(check_partition(0, 250).is_empty());
}

#[test]
fn partition_sizes_sum_and_order() {
    let chunks = check_partition(10, 3);
    let sizes: Vec<usize> = chunks.iter().map(|c| c.len()).collect();
    assert_eq!(sizes, vec![3, 3, 3, 1]);
    check_partition(9, 3);
    check_partition(1, 5);
    check_partition(7, 1);
}
