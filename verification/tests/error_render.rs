use pathutil::FileTypeEnum;
use pathutil::PathError;
use pathutil::PathExtPriv;
use pathutil::PathMetadata;
use pathutil::PathText;
use pathutil::o2r;

fn pt(s: &str) -> PathText {
    PathText::new(s.to_string())
}

#[test]
fn render_without_annotations_is_the_description() {
    let e = PathError::new("boom".to_string());
    assert_eq!(e.render(), "boom");
}

#[test]
fn with_appends_annotations_in_attachment_order() {
    let e = PathError::new("boom".to_string())
        .with("first".to_string(), "1".to_string())
        .with("second".to_string(), "2".to_string());
    assert_eq!(e.render(), "boom\n-with first: 1\n-with second: 2");
}

#[test]
fn annotating_an_annotated_error_appends() {
    let once = PathError::new("cause".to_string()).with("path".to_string(), "/x".to_string());
    let twice = once.with("to".to_string(), "/y".to_string());
    assert_eq!(twice.render(), "cause\n-with path: /x\n-with to: /y");
}

#[test]
fn native_message_is_kept_unmodified() {
    let e = PathError::new("No such file or directory (os error 2)".to_string())
        .with("path".to_string(), "/this/path/does/not/exist".to_string());
    assert_eq!(
        e.render(),
        "No such file or directory (os error 2)\n-with path: /this/path/does/not/exist"
    );
}

#[test]
fn into_io_error_preserves_the_rendered_text() {
    let e = PathError::new("no parent path".to_string())
        .with("path".to_string(), "/".to_string());
    let rendered = e.render();
    let ioe = e.into_io_error();
    assert_eq!(ioe.to_string(), rendered);
    assert_eq!(ioe.to_string(), "no parent path\n-with path: /");
}

#[test]
fn o2r_passes_a_present_value_through() {
    let p = pt("/tmp");
    let r: Result<u32, PathError> = o2r(&p, Some(7), "missing");
    assert_eq!(r.unwrap(), 7);
}

#[test]
fn o2r_names_the_path_on_absence() {
    let p = pt("/tmp");
    let r: Result<u32, PathError> = o2r(&p, None, "missing");
    assert_eq!(r.err().unwrap().render(), "missing\n-with path: /tmp");
}

#[test]
fn pep_display_shows_the_path() {
    let p = pt("/var/log");
    assert_eq!(p.pep_display(), "/var/log");
}

#[test]
fn trait_o2r_matches_the_free_function() {
    let p = pt("/var/log");
    let r: Result<u32, PathError> = p.o2r(None, "gone");
    assert_eq!(r.err().unwrap().render(), "gone\n-with path: /var/log");
    let ok: Result<u32, PathError> = p.o2r(Some(3), "gone");
    assert_eq!(ok.unwrap(), 3);
}

#[test]
fn metadata_accessors_report_the_model() {
    let md = PathMetadata::new(pt("/tmp/f"), FileTypeEnum::File, 12);
    assert!(md.is_file());
    assert!(!md.is_dir());
    assert!(!md.is_symlink());
    assert_eq!(md.len(), 12);
    assert!(!md.is_empty());
    assert_eq!(md.path().as_str(), "/tmp/f");
    assert_eq!(md.file_type(), FileTypeEnum::File);
}

#[test]
fn empty_metadata_is_empty() {
    let md = PathMetadata::new(pt("/tmp/e"), FileTypeEnum::Dir, 0);
    assert!(md.is_empty());
    assert!(md.is_dir());
}

#[test]
fn require_file_type_accepts_a_match() {
    let md = PathMetadata::new(pt("/tmp/f"), FileTypeEnum::File, 1);
    assert!(md.require_file_type(FileTypeEnum::File).is_ok());
}

#[test]
fn require_file_type_names_both_discriminants() {
    let md = PathMetadata::new(pt("/tmp/f"), FileTypeEnum::File, 1);
    let err = md.require_file_type(FileTypeEnum::Dir).err().unwrap();
    assert_eq!(err.render(), "found File, expected Dir");
    let md2 = PathMetadata::new(pt("/tmp/d"), FileTypeEnum::Symlink, 1);
    let err2 = md2.require_file_type(FileTypeEnum::File).err().unwrap();
    assert_eq!(err2.render(), "found Symlink, expected File");
}

#[test]
fn file_type_labels() {
    assert_eq!(FileTypeEnum::Dir.label(), "Dir");
    assert_eq!(FileTypeEnum::File.label(), "File");
    assert_eq!(FileTypeEnum::Symlink.label(), "Symlink");
}
