use log_export::errors::ExportError;
use log_export::fs_model::FsModel;
use log_export::paths::parent_of;

#[test]
fn parent_of_nested_path() {
    assert_eq!(parent_of("a/b/c.txt"), Some(String::from("a/b")));
}

#[test]
fn parent_of_bare_filename() {
    assert_eq!(parent_of("log.txt"), None);
}

#[test]
fn parent_of_path_under_root() {
    assert_eq!(parent_of("/x"), Some(String::from("/")));
}

#[test]
fn parent_of_root() {
    assert_eq!(parent_of("/"), None);
}

#[test]
fn parent_of_empty_path() {
    assert_eq!(parent_of(""), None);
}

#[test]
fn parent_of_keeps_spelling() {
    assert_eq!(parent_of("a//b"), Some(String::from("a/")));
    assert_eq!(parent_of("a/"), Some(String::from("a")));
}

#[test]
fn create_dir_all_existing_chain_is_no_op() {
    let mut fs = FsModel::new();
    assert!(fs.create_dir_all("/a/b").is_ok());
    assert!(fs.create_dir_all("/a/b").is_ok());
    assert!(fs.dir_exists("/a"));
    assert!(fs.dir_exists("/a/b"));
    assert!(!fs.dir_exists("/a/b/c"));
}

#[test]
fn create_dir_all_fails_on_file_in_chain() {
    let mut fs = FsModel::new();
    assert!(fs.create_dir_all("/a").is_ok());
    assert!(fs.write_file("/a/f", "x").is_ok());
    assert!(fs.create_dir_all("/a/f/g").is_err());
    assert!(!fs.dir_exists("/a/f"));
    assert!(!fs.dir_exists("/a/f/g"));
}

#[test]
fn write_file_requires_parent_directory() {
    let mut fs = FsModel::new();
    assert!(fs.write_file("/a/f.txt", "x").is_err());
    assert!(fs.create_dir_all("/a").is_ok());
    assert!(fs.write_file("/a/f.txt", "x").is_ok());
    assert!(fs.file_exists("/a/f.txt"));
    assert!(!fs.file_exists("/a/g.txt"));
}

#[test]
fn error_messages_have_fixed_prefixes() {
    let dir = ExportError::DirCreate(String::from("permission denied"));
    assert_eq!(
        dir.message(),
        "Failed to create directory: permission denied"
    );
    let file = ExportError::FileCreate(String::from("is a directory"));
    assert_eq!(file.message(), "Failed to create file: is a directory");
    let write = ExportError::Write(String::from("disk full"));
    assert_eq!(write.message(), "Failed to write to file: disk full");
}
