use score_cli::storage::{resolve_path, FileWrapperOptions};
use score_cli::strutil::is_blank;

#[test]
fn default_options_read_write_create() {
    let options = FileWrapperOptions::default();
    assert!(options.read);
    assert!(options.write);
    assert!(options.create);
}

#[test]
fn resolve_path_appends_each_segment() {
    let segments = vec!["subfolder".to_string(), "file.json".to_string()];
    let path = resolve_path("/tmp/test_dir", &segments);
    assert_eq!(path, "/tmp/test_dir/subfolder/file.json");
}

#[test]
fn resolve_path_with_no_segments_is_the_base() {
    let segments: Vec<String> = vec![];
    let path = resolve_path("/tmp/test_dir", &segments);
    assert_eq!(path, "/tmp/test_dir");
}

#[test]
fn blank_documents_are_whitespace_only() {
    assert!(is_blank(""));
    assert!(is_blank("  \t\r\n"));
    assert!(!is_blank("  {}\n"));
}
