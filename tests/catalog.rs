use batch_detect::catalog::ClassCatalog;

#[test]
fn load_two_names_and_look_up() {
    let c = ClassCatalog::from_text("cat\ndog");
    assert_eq!(c.names(), &vec!["cat".to_string(), "dog".to_string()]);
    assert_eq!(c.label(0), Some("cat".to_string()));
    assert_eq!(c.label(1), Some("dog".to_string()));
}

#[test]
fn final_newline_adds_no_line() {
    let c = ClassCatalog::from_text("cat\ndog\n");
    assert_eq!(c.names(), &vec!["cat".to_string(), "dog".to_string()]);
    assert_eq!(c.len(), 2);
}

#[test]
fn blank_lines_are_kept() {
    let c = ClassCatalog::from_text("a\n\nb\n\n");
    assert_eq!(
        c.names(),
        &vec!["a".to_string(), "".to_string(), "b".to_string(), "".to_string()]
    );
}

#[test]
fn carriage_returns_are_removed() {
    let c = ClassCatalog::from_text("person\r\nbicycle\r\ncar");
    assert_eq!(
        c.names(),
        &vec!["person".to_string(), "bicycle".to_string(), "car".to_string()]
    );
}

#[test]
fn empty_text_has_no_names() {
    let c = ClassCatalog::from_text("");
    assert_eq!(c.len(), 0);
    assert_eq!(c.label(0), None);
}

#[test]
fn out_of_range_ids_have_no_label() {
    let c = ClassCatalog::new(vec!["cat".to_string(), "dog".to_string()]);
    assert_eq!(c.label(2), None);
    assert_eq!(c.label(-1), None);
    assert_eq!(c.label(i32::MAX), None);
}

#[test]
fn carriage_return_without_newline_is_kept() {
    let c = ClassCatalog::from_text("a\r");
    assert_eq!(c.names(), &vec!["a\r".to_string()]);
    let d = ClassCatalog::from_text("x\r\ny\r");
    assert_eq!(d.names(), &vec!["x".to_string(), "y\r".to_string()]);
}
