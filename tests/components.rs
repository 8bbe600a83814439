use rustyproxy::components::{set_open, Components};

#[test]
fn open_and_close_windows() {
    let mut c = Components::from_components(vec!["History".to_string(), "Proxy".to_string()]);
    assert_eq!(c.get_component_by_name("Proxy"), Some(1));
    assert_eq!(c.get_component_by_name("Nope"), None);
    assert!(!c._is_component_open("History"));
    c.open("History", true);
    c.open("History", true);
    assert!(c._is_component_open("History"));
    assert_eq!(c.open.len(), 1);
    c.open("History", false);
    assert!(!c._is_component_open("History"));
}

#[test]
fn set_open_on_a_name_list() {
    let mut open = vec!["a".to_string()];
    set_open(&mut open, "b", true);
    assert_eq!(open, vec!["a", "b"]);
    set_open(&mut open, "a", false);
    assert_eq!(open, vec!["b"]);
    set_open(&mut open, "zz", false);
    assert_eq!(open, vec!["b"]);
}
