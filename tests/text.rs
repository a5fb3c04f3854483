use batch_detect::text::{split_first, split_last};

#[test]
fn split_at_last_slash() {
    assert_eq!(split_last("a/b/c.jpg", '/'), Some(("a/b", "c.jpg")));
    assert_eq!(split_last("/x", '/'), Some(("", "x")));
    assert_eq!(split_last("dir/", '/'), Some(("dir", "")));
    assert_eq!(split_last("plain", '/'), None);
}

#[test]
fn split_at_first_newline() {
    assert_eq!(split_first("cat\ndog\n", '\n'), Some(("cat", "dog\n")));
    assert_eq!(split_first("\n", '\n'), Some(("", "")));
    assert_eq!(split_first("no newline", '\n'), None);
}

#[test]
fn split_around_multibyte_text() {
    assert_eq!(split_last("ä/ö/ü", '/'), Some(("ä/ö", "ü")));
    assert_eq!(split_first("日本\n語", '\n'), Some(("日本", "語")));
}
