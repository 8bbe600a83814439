use rustyproxy::api::{api_authority, api_requests_url, db_file_path, ApiSettings, AUTH_HEADER, DEFAULT_API_PORT};

#[test]
fn remote_requests_url() {
    assert_eq!(api_requests_url("10.0.0.2:8443", 0), "https://10.0.0.2:8443/api/requests/0");
    assert_eq!(api_requests_url("h:1", 1234), "https://h:1/api/requests/1234");
    assert_eq!(api_authority("proxy.local", 8443), "proxy.local:8443");
    assert_eq!(AUTH_HEADER, "rp_auth");
}

#[test]
fn store_path_of_project() {
    assert_eq!(db_file_path("/tmp/proj"), "/tmp/proj/hist.db");
}

#[test]
fn settings_from_inputs() {
    let s = ApiSettings::from_inputs("h", "9000", "k");
    assert_eq!(s.addr, Some("h".to_string()));
    assert_eq!(s.port, Some(9000));
    assert_eq!(s.secret, Some("k".to_string()));
    assert!(s.is_complete());
    let d = ApiSettings::from_inputs("h", "not a port", "k");
    assert_eq!(d.port, Some(DEFAULT_API_PORT));
    assert_eq!(d.port, Some(8443));
    let e = ApiSettings::from_inputs("", "", "k");
    assert_eq!(e.addr, None);
    assert_eq!(e.port, None);
    assert!(!e.is_complete());
}
