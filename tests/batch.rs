use batch_detect::batch::{select_images, BatchCollector, DirEntry};

fn entry(path: &str, is_file: bool) -> DirEntry {
    DirEntry { path: path.to_string(), is_file }
}

fn s(v: &[&str]) -> Vec<String> {
    v.iter().map(|x| x.to_string()).collect()
}

#[test]
fn only_regular_files_are_selected() {
    let entries = vec![
        entry("in/a.jpg", true),
        entry("in/outputs", false),
        entry("in\\b.png", true),
        entry("in/link", false),
    ];
    assert_eq!(select_images(&entries), s(&["in/a.jpg", "in/b.png"]));
}

#[test]
fn one_entry_per_file_even_on_failure() {
    let entries = vec![entry("d/1.jpg", true), entry("d/sub", false), entry("d/2.jpg", true), entry("d/3.txt", true)];
    let paths = select_images(&entries);
    let mut c = BatchCollector::new(paths);
    assert_eq!(c.len(), 3);
    c.record(0, Some(s(&["cat"])));
    c.record(2, None);
    c.record(1, Some(vec![]));
    assert!(c.is_complete());
    let r = c.finish();
    assert_eq!(r.len(), 3);
    assert_eq!(r[0], ("d/1.jpg".to_string(), s(&["cat"])));
    assert_eq!(r[1], ("d/2.jpg".to_string(), vec![]));
    assert_eq!(r[2], ("d/3.txt".to_string(), vec![]));
}

#[test]
fn failed_image_has_empty_labels() {
    let mut c = BatchCollector::new(s(&["bad.jpg"]));
    c.record(0, None);
    assert_eq!(c.finish(), vec![("bad.jpg".to_string(), vec![])]);
}

#[test]
fn unreported_image_has_empty_labels() {
    let mut c = BatchCollector::new(s(&["a.jpg", "b.jpg"]));
    c.record(1, Some(s(&["dog", "dog"])));
    assert!(!c.is_complete());
    assert_eq!(
        c.finish(),
        vec![("a.jpg".to_string(), vec![]), ("b.jpg".to_string(), s(&["dog", "dog"]))]
    );
}

#[test]
fn report_order_does_not_change_the_result() {
    let paths = s(&["p/1.jpg", "p/2.jpg", "p/3.jpg"]);
    let mut in_order = BatchCollector::new(paths.clone());
    in_order.record(0, Some(s(&["cat"])));
    in_order.record(1, None);
    in_order.record(2, Some(s(&["dog", "bird"])));
    let mut shuffled = BatchCollector::new(paths);
    shuffled.record(2, Some(s(&["dog", "bird"])));
    shuffled.record(0, Some(s(&["cat"])));
    shuffled.record(1, None);
    assert_eq!(in_order.finish(), shuffled.finish());
}

#[test]
fn empty_directory_gives_empty_result() {
    let paths = select_images(&vec![entry("d/sub", false)]);
    let c = BatchCollector::new(paths);
    assert!(c.is_complete());
    assert!(c.finish().is_empty());
}
