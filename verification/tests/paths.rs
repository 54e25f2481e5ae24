use fuxi::pathname::extract_last_normal_component;

#[test]
fn absolute_file_path_yields_its_name() {
    assert_eq!(extract_last_normal_component("/etc/hosts"), "hosts");
}

#[test]
fn relative_path_yields_its_last_segment() {
    assert_eq!(extract_last_normal_component("a/b/c"), "c");
}

#[test]
fn trailing_separator_is_skipped() {
    assert_eq!(extract_last_normal_component("./foo/"), "foo");
}

#[test]
fn doubled_separators_are_skipped() {
    assert_eq!(extract_last_normal_component("a//b"), "b");
}

#[test]
fn dot_and_dotdot_segments_are_not_normal() {
    assert_eq!(extract_last_normal_component("a/b/.."), "b");
    assert_eq!(extract_last_normal_component("a/b/."), "b");
    assert_eq!(extract_last_normal_component("x/../."), "x");
}

#[test]
fn root_alone_has_no_normal_component() {
    assert_eq!(extract_last_normal_component("/"), "");
}

#[test]
fn empty_path_has_no_normal_component() {
    assert_eq!(extract_last_normal_component(""), "");
}

#[test]
fn parent_only_path_has_no_normal_component() {
    assert_eq!(extract_last_normal_component("/.."), "");
    assert_eq!(extract_last_normal_component("./.."), "");
}

#[test]
fn extraction_is_idempotent_on_samples() {
    for p in [
        "/etc/hosts",
        "a/b/c",
        "./foo/",
        "a//b",
        "a/b/..",
        "/",
        "",
        "/..",
        "work stuff/notes.txt",
    ] {
        let once = extract_last_normal_component(p);
        let twice = extract_last_normal_component(&once);
        assert_eq!(once, twice);
    }
}

#[test]
fn name_with_spaces_is_kept_whole() {
    assert_eq!(
        extract_last_normal_component("/home/me/work stuff"),
        "work stuff"
    );
}
