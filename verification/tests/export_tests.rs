use log_export::errors::ExportError;
use log_export::fs_model::FsModel;

#[test]
fn export_creates_directory_chain() {
    let mut fs = FsModel::new();
    let r = fs.export_log_for_profile("hello\nworld\n", "/tmp/exports/session1/log.txt");
    assert!(r.is_ok());
    assert_eq!(
        fs.read_file("/tmp/exports/session1/log.txt"),
        Some(String::from("hello\nworld\n"))
    );
    assert!(fs.dir_exists("/"));
    assert!(fs.dir_exists("/tmp"));
    assert!(fs.dir_exists("/tmp/exports"));
    assert!(fs.dir_exists("/tmp/exports/session1"));
}

#[test]
fn export_overwrites_existing_file() {
    let mut fs = FsModel::new();
    let first = fs.export_log_for_profile("old-content-longer-than-new", "/tmp/existing.txt");
    assert!(first.is_ok());
    let second = fs.export_log_for_profile("new", "/tmp/existing.txt");
    assert!(second.is_ok());
    assert_eq!(fs.read_file("/tmp/existing.txt"), Some(String::from("new")));
}

#[test]
fn export_fails_when_parent_segment_is_file() {
    let mut fs = FsModel::new();
    assert!(fs.export_log_for_profile("data", "/tmp/a").is_ok());
    let r = fs.export_log_for_profile("log", "/tmp/a/log.txt");
    match r {
        Err(ExportError::DirCreate(_)) => {}
        _ => panic!("expected a directory-creation failure"),
    }
    assert_eq!(fs.read_file("/tmp/a/log.txt"), None);
    assert_eq!(fs.read_file("/tmp/a"), Some(String::from("data")));
}

#[test]
fn export_twice_same_as_once() {
    let mut once = FsModel::new();
    assert!(once.export_log_for_profile("abc", "/d/e.txt").is_ok());
    let mut twice = FsModel::new();
    assert!(twice.export_log_for_profile("abc", "/d/e.txt").is_ok());
    assert!(twice.export_log_for_profile("abc", "/d/e.txt").is_ok());
    assert_eq!(once.read_file("/d/e.txt"), twice.read_file("/d/e.txt"));
    assert_eq!(once.dir_exists("/d"), twice.dir_exists("/d"));
}

#[test]
fn export_fails_when_destination_is_directory() {
    let mut fs = FsModel::new();
    assert!(fs.export_log_for_profile("x", "/d/inner.txt").is_ok());
    let r = fs.export_log_for_profile("y", "/d");
    match r {
        Err(ExportError::FileCreate(_)) => {}
        _ => panic!("expected a file-creation failure"),
    }
    assert_eq!(fs.read_file("/d"), None);
    assert_eq!(fs.read_file("/d/inner.txt"), Some(String::from("x")));
}

#[test]
fn export_bare_filename_needs_no_directory() {
    let mut fs = FsModel::new();
    assert!(fs.export_log_for_profile("m", "log.txt").is_ok());
    assert_eq!(fs.read_file("log.txt"), Some(String::from("m")));
}

#[test]
fn export_empty_content_leaves_empty_file() {
    let mut fs = FsModel::new();
    assert!(fs.export_log_for_profile("full", "/n/f.txt").is_ok());
    assert!(fs.export_log_for_profile("", "/n/f.txt").is_ok());
    assert_eq!(fs.read_file("/n/f.txt"), Some(String::new()));
}

#[test]
fn dir_failure_message_from_failed_export() {
    let mut fs = FsModel::new();
    assert!(fs.export_log_for_profile("data", "/tmp/a").is_ok());
    let e = fs
        .export_log_for_profile("log", "/tmp/a/log.txt")
        .unwrap_err();
    assert_eq!(
        e.message(),
        "Failed to create directory: a path segment is an existing file"
    );
}

#[test]
fn file_failure_message_from_failed_export() {
    let mut fs = FsModel::new();
    assert!(fs.export_log_for_profile("x", "/d/inner.txt").is_ok());
    let e = fs.export_log_for_profile("y", "/d").unwrap_err();
    assert_eq!(
        e.message(),
        "Failed to create file: the path is an existing directory"
    );
}
