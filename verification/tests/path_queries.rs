use pathutil::PathText;

fn pt(s: &str) -> PathText {
    PathText::new(s.to_string())
}

#[test]
fn parent_of_root_fails_exactly() {
    let res = pt("/").pe_parent();
    let err = res.err().unwrap();
    assert_eq!(err.render(), "no parent path\n-with path: /");
}

#[test]
fn file_name_of_dot_dot_fails_exactly() {
    let res = pt("/tmp/..").pe_file_name();
    let err = res.err().unwrap();
    assert_eq!(err.render(), "no file name\n-with path: /tmp/..");
}

#[test]
fn extension_without_suffix_fails_exactly() {
    let res = pt("/tmp/no_extension").pe_extension();
    let err = res.err().unwrap();
    assert_eq!(
        err.render(),
        "no file name or no extension\n-with path: /tmp/no_extension"
    );
}

#[test]
fn strip_prefix_mismatch_fails_exactly() {
    let path = pt("/tmp/foo.txt");
    let prefix = pt("/temp/");
    let res = path.pe_strip_prefix(&prefix);
    let err = res.err().unwrap();
    assert_eq!(
        err.render(),
        "prefix mismatch\n-with prefix: /temp/\n-with path: /tmp/foo.txt"
    );
}

#[test]
fn parent_successes() {
    assert_eq!(pt("/tmp/foo.txt").pe_parent().unwrap().as_str(), "/tmp");
    assert_eq!(pt("/foo").pe_parent().unwrap().as_str(), "/");
    assert_eq!(pt("foo").pe_parent().unwrap().as_str(), "");
    assert_eq!(pt("a//b").pe_parent().unwrap().as_str(), "a");
    assert_eq!(pt("foo/..").pe_parent().unwrap().as_str(), "foo");
    assert_eq!(pt("./foo").pe_parent().unwrap().as_str(), ".");
    assert_eq!(pt(".").pe_parent().unwrap().as_str(), "");
    assert_eq!(pt("..").pe_parent().unwrap().as_str(), "");
    assert_eq!(pt("/tmp/a/b/").pe_parent().unwrap().as_str(), "/tmp/a");
    assert_eq!(pt("foo/./bar").pe_parent().unwrap().as_str(), "foo");
}

#[test]
fn parent_failures() {
    assert!(pt("/").pe_parent().is_err());
    assert!(pt("").pe_parent().is_err());
    assert!(pt("//").pe_parent().is_err());
    let err = pt("").pe_parent().err().unwrap();
    assert_eq!(err.render(), "no parent path\n-with path: ");
}

#[test]
fn file_name_successes() {
    assert_eq!(pt("/tmp/foo.txt").pe_file_name().unwrap(), "foo.txt");
    assert_eq!(pt("foo/bar").pe_file_name().unwrap(), "bar");
    assert_eq!(pt("foo/.").pe_file_name().unwrap(), "foo");
    assert_eq!(pt("/tmp/a/").pe_file_name().unwrap(), "a");
    assert_eq!(pt("name").pe_file_name().unwrap(), "name");
}

#[test]
fn file_name_failures() {
    assert!(pt("/").pe_file_name().is_err());
    assert!(pt(".").pe_file_name().is_err());
    assert!(pt("..").pe_file_name().is_err());
    assert!(pt("").pe_file_name().is_err());
    assert!(pt("a/..").pe_file_name().is_err());
    assert!(pt("./").pe_file_name().is_err());
}

#[test]
fn file_stem_successes() {
    assert_eq!(pt("/tmp/foo.tar.gz").pe_file_stem().unwrap(), "foo.tar");
    assert_eq!(pt(".bashrc").pe_file_stem().unwrap(), ".bashrc");
    assert_eq!(pt("x/foo.").pe_file_stem().unwrap(), "foo");
    assert_eq!(pt("x/noext").pe_file_stem().unwrap(), "noext");
}

#[test]
fn file_stem_of_dot_dot_fails_exactly() {
    let err = pt("/tmp/..").pe_file_stem().err().unwrap();
    assert_eq!(err.render(), "no file name\n-with path: /tmp/..");
}

#[test]
fn extension_successes() {
    assert_eq!(pt("/tmp/foo.tar.gz").pe_extension().unwrap(), "gz");
    assert_eq!(pt("x/foo.").pe_extension().unwrap(), "");
    assert_eq!(pt("a/b.c").pe_extension().unwrap(), "c");
}

#[test]
fn extension_failures() {
    assert!(pt(".bashrc").pe_extension().is_err());
    assert!(pt("/tmp/..").pe_extension().is_err());
    assert!(pt("/").pe_extension().is_err());
}

#[test]
fn strip_prefix_successes() {
    assert_eq!(
        pt("/a/b/c").pe_strip_prefix(&pt("/a/b")).unwrap().as_str(),
        "c"
    );
    assert_eq!(
        pt("/a/b/c").pe_strip_prefix(&pt("/a/b/")).unwrap().as_str(),
        "c"
    );
    assert_eq!(
        pt("/a/b/").pe_strip_prefix(&pt("/a")).unwrap().as_str(),
        "b"
    );
    assert_eq!(pt("a/b").pe_strip_prefix(&pt("")).unwrap().as_str(), "a/b");
    assert_eq!(pt("/").pe_strip_prefix(&pt("/")).unwrap().as_str(), "");
    assert_eq!(pt("./x").pe_strip_prefix(&pt(".")).unwrap().as_str(), "x");
    assert_eq!(
        pt("/a//b/c").pe_strip_prefix(&pt("/a/b")).unwrap().as_str(),
        "c"
    );
}

#[test]
fn strip_prefix_of_empty_prefix_trims_trailing_separators() {
    assert_eq!(pt("/a/").pe_strip_prefix(&pt("")).unwrap().as_str(), "/a");
    assert_eq!(pt("a/b/").pe_strip_prefix(&pt("")).unwrap().as_str(), "a/b");
}

#[test]
fn strip_prefix_consuming_the_whole_path() {
    assert_eq!(pt("x").pe_strip_prefix(&pt("x")).unwrap().as_str(), "");
    assert_eq!(pt("x/").pe_strip_prefix(&pt("x")).unwrap().as_str(), "");
    assert_eq!(
        pt("/a/b").pe_strip_prefix(&pt("/a/b")).unwrap().as_str(),
        ""
    );
}

#[test]
fn strip_prefix_failures() {
    assert!(pt("/a/bc").pe_strip_prefix(&pt("/a/b")).is_err());
    assert!(pt("a/b").pe_strip_prefix(&pt("/a")).is_err());
    assert!(pt("/a").pe_strip_prefix(&pt("a")).is_err());
    assert!(pt("/a").pe_strip_prefix(&pt("/a/b")).is_err());
}

#[test]
fn to_str_always_succeeds() {
    assert_eq!(pt("/tmp/foo").pe_to_str().unwrap(), "/tmp/foo");
    assert_eq!(pt("").pe_to_str().unwrap(), "");
}

#[test]
fn str_variants_agree() {
    assert_eq!(pt("/tmp/foo.txt").pe_file_name_str().unwrap(), "foo.txt");
    assert_eq!(pt("/tmp/foo.txt").pe_file_stem_str().unwrap(), "foo");
    assert_eq!(pt("/tmp/foo.txt").pe_extension_str().unwrap(), "txt");
    assert!(pt("/").pe_file_name_str().is_err());
}

#[test]
fn repeated_queries_return_equal_values() {
    let p = pt("/tmp/foo.tar.gz");
    assert_eq!(p.pe_file_name().unwrap(), p.pe_file_name().unwrap());
    assert_eq!(
        p.pe_parent().unwrap().as_str(),
        p.pe_parent().unwrap().as_str()
    );
    assert_eq!(p.pe_extension().unwrap(), p.pe_extension().unwrap());
}

#[test]
fn stem_and_extension_reassemble_file_name() {
    let p = pt("/tmp/foo.tar.gz");
    let name = p.pe_file_name().unwrap();
    let stem = p.pe_file_stem().unwrap();
    let ext = p.pe_extension().unwrap();
    assert_eq!(format!("{}.{}", stem, ext), name);
}

#[test]
fn parent_is_leading_part_of_path() {
    let p = pt("/tmp/foo.txt");
    let parent = p.pe_parent().unwrap();
    assert!(p.as_str().starts_with(parent.as_str()));
    assert_eq!(parent.as_str(), "/tmp");
}
