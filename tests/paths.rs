use batch_detect::paths::{normalize_separators, resolve_output};

#[test]
fn resolve_nested_path() {
    let r = resolve_output("a/b/c.jpg");
    assert_eq!(r.directory, "a/b/outputs");
    assert_eq!(r.file_path, "a/b/outputs/c.jpg");
}

#[test]
fn resolve_path_without_directory_keeps_file_name() {
    let r = resolve_output("c.jpg");
    assert_eq!(r.directory, "output");
    assert_eq!(r.file_path, "output/c.jpg");
}

#[test]
fn resolve_absolute_path() {
    let r = resolve_output("/data/images/cat.png");
    assert_eq!(r.directory, "/data/images/outputs");
    assert_eq!(r.file_path, "/data/images/outputs/cat.png");
}

#[test]
fn resolve_file_at_root() {
    let r = resolve_output("/x.png");
    assert_eq!(r.directory, "/outputs");
    assert_eq!(r.file_path, "/outputs/x.png");
}

#[test]
fn resolve_non_ascii_path() {
    let r = resolve_output("fotos/été/ünï.jpg");
    assert_eq!(r.directory, "fotos/été/outputs");
    assert_eq!(r.file_path, "fotos/été/outputs/ünï.jpg");
}

#[test]
fn resolve_twice_gives_the_same_location() {
    let a = resolve_output("in/img.jpg");
    let b = resolve_output("in/img.jpg");
    assert_eq!(a.directory, b.directory);
    assert_eq!(a.file_path, b.file_path);
}

#[test]
fn normalize_backslashes() {
    assert_eq!(normalize_separators("C:\\data\\img.jpg"), "C:/data/img.jpg");
    assert_eq!(normalize_separators("a\\\\b"), "a//b");
}

#[test]
fn normalize_leaves_forward_slashes() {
    assert_eq!(normalize_separators("a/b/c.jpg"), "a/b/c.jpg");
    assert_eq!(normalize_separators(""), "");
}
