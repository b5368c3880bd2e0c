//! Tests of the two stores: metadata rows, payload objects, naming,
//! MIME detection and the text utilities they rest on.

use collaboard::config::{shard_subdir, FileManagerConfig};
use collaboard::database::DatabaseService;
use collaboard::filesystem::FileSystemService;
use collaboard::error::FileManagerError;
use collaboard::text::{
    contains_sub, decimal_string, extension_of, join_path, starts_with, str_eq, str_le,
    timestamp_text_ok, trim_slashes,
};

fn test_config() -> FileManagerConfig {
    FileManagerConfig {
        app_data_dir: String::new(),
        database_path: String::new(),
        storage_path: String::new(),
        max_file_size: 1024,
        supported_file_types: vec!["jpg".to_string(), "png".to_string()],
    }
}

#[test]
fn test_create_and_get_directory() {
    let mut db = DatabaseService::new().unwrap();

    let dir = db.create_directory("test", None, "/test").unwrap();
    assert_eq!(dir.name, "test");
    assert_eq!(dir.path, "/test");
    assert!(dir.parent_id.is_none());

    let retrieved = db.get_directory(&dir.id).unwrap().unwrap();
    assert_eq!(retrieved.id, dir.id);
    assert_eq!(retrieved.name, dir.name);
}

#[test]
fn test_create_and_get_file() {
    let mut db = DatabaseService::new().unwrap();

    let dir = db.create_directory("test", None, "/test").unwrap();
    let file = db
        .create_file(
            "unique_name.jpg",
            "original.jpg",
            &dir.id,
            "/path/to/file.jpg",
            1024,
            "image/jpeg",
        )
        .unwrap();

    assert_eq!(file.name, "unique_name.jpg");
    assert_eq!(file.original_name, "original.jpg");
    assert_eq!(file.file_size, 1024);

    let retrieved = db.get_file(&file.id).unwrap().unwrap();
    assert_eq!(retrieved.id, file.id);
    assert_eq!(retrieved.name, file.name);
}

#[test]
fn test_directory_tree() {
    let mut db = DatabaseService::new().unwrap();

    let root = db.create_directory("root", None, "/root").unwrap();
    let child = db
        .create_directory("child", Some(&root.id), "/root/child")
        .unwrap();

    let tree = db.get_directory_tree().unwrap();
    assert_eq!(tree.len(), 2);

    let children = db.get_child_directories(Some(&root.id)).unwrap();
    assert_eq!(children.len(), 1);
    assert_eq!(children[0].id, child.id);
}

#[test]
fn test_duplicate_path_conflicts() {
    let mut db = DatabaseService::new().unwrap();
    db.create_directory("a", None, "/a").unwrap();
    let second = db.create_directory("a", None, "/a");
    assert!(second.is_err());
    assert!(matches!(
        second.unwrap_err(),
        FileManagerError::Conflict { .. }
    ));
}

#[test]
fn test_missing_parent_is_not_found() {
    let mut db = DatabaseService::new().unwrap();
    let r = db.create_directory("a", Some("no-such-id"), "/a");
    assert!(matches!(
        r.unwrap_err(),
        FileManagerError::DirectoryNotFound { .. }
    ));
}

#[test]
fn test_children_sorted_by_name() {
    let mut db = DatabaseService::new().unwrap();
    db.create_directory("zeta", None, "/zeta").unwrap();
    db.create_directory("alpha", None, "/alpha").unwrap();
    db.create_directory("mid", None, "/mid").unwrap();
    let roots = db.get_child_directories(None).unwrap();
    let names: Vec<&str> = roots.iter().map(|d| d.name.as_str()).collect();
    assert_eq!(names, vec!["alpha", "mid", "zeta"]);
}

#[test]
fn test_save_file() {
    let mut service = FileSystemService::new("store").unwrap();

    let file_data = b"Hello, World!";
    let result = service
        .save_file(file_data, "test.txt", "uploads")
        .unwrap();

    assert_eq!(result.original_name, "test.txt");
    assert_eq!(result.file_size, 13);
    assert!(service.file_exists(&result.saved_path));
    assert!(result.unique_name.ends_with(".txt"));
    assert_eq!(result.unique_name.len(), 40);
    assert_eq!(result.mime_type, "text/plain");
}

#[test]
fn test_save_large_file() {
    let mut service = FileSystemService::new("store").unwrap();

    let mut chunks: Vec<Vec<u8>> = Vec::new();
    for _ in 0..16 {
        chunks.push(vec![0u8; 65536]);
    }
    let total = 16 * 65536u64;

    let (result, events) = service
        .save_large_file(&chunks, "large.bin", "uploads", total)
        .unwrap();

    assert_eq!(result.file_size, total);
    assert!(events.len() > 0);
    assert!(service.file_exists(&result.saved_path));
    let mut last = 0u64;
    for (written, expected) in &events {
        assert!(*written >= last);
        assert_eq!(*expected, total);
        last = *written;
    }
    assert_eq!(last, total);
}

#[test]
fn test_create_and_delete_directory() {
    let mut service = FileSystemService::new("store").unwrap();

    service.create_directory("test_dir").unwrap();
    assert!(service.directory_exists("test_dir"));

    service.delete_directory("test_dir").unwrap();
    assert!(!service.directory_exists("test_dir"));
}

#[test]
fn test_mime_type_detection() {
    let service = FileSystemService::new("store").unwrap();

    let jpeg_data = vec![0xFF, 0xD8, 0xFF, 0xE0];
    let mime_type = service.detect_mime_from_content(&jpeg_data);
    assert_eq!(mime_type, "image/jpeg");

    let png_data = vec![0x89, 0x50, 0x4E, 0x47, 0x0D, 0x0A, 0x1A, 0x0A];
    let mime_type = service.detect_mime_from_content(&png_data);
    assert_eq!(mime_type, "image/png");
}

#[test]
fn test_mime_signatures() {
    let service = FileSystemService::new("store").unwrap();
    assert_eq!(service.detect_mime_from_content(b"GIF87a...."), "image/gif");
    assert_eq!(service.detect_mime_from_content(b"GIF89a...."), "image/gif");
    assert_eq!(
        service.detect_mime_from_content(b"%PDF-1.7"),
        "application/pdf"
    );
    assert_eq!(
        service.detect_mime_from_content(&[0x50, 0x4B, 0x03, 0x04, 9, 9]),
        "application/zip"
    );
    assert_eq!(
        service.detect_mime_from_content(b"plain words"),
        "application/octet-stream"
    );
    assert_eq!(
        service.detect_mime_from_content(&[]),
        "application/octet-stream"
    );
}

#[test]
fn test_file_operations() {
    let mut service = FileSystemService::new("store").unwrap();

    let file_data = b"Test content";
    let upload_info = service
        .save_file(file_data, "test.txt", "uploads")
        .unwrap();

    assert!(service.file_exists(&upload_info.saved_path));

    let size = service.get_file_size(&upload_info.saved_path).unwrap();
    assert_eq!(size, file_data.len() as u64);

    let content = service.read_file(&upload_info.saved_path).unwrap();
    assert_eq!(content, file_data);

    service.delete_file(&upload_info.saved_path).unwrap();
    assert!(!service.file_exists(&upload_info.saved_path));
}

#[test]
fn test_move_and_copy() {
    let mut service = FileSystemService::new("store").unwrap();
    let info = service.save_file(b"abc", "m.txt", "uploads").unwrap();

    service.copy_file(&info.saved_path, "elsewhere/copy.txt").unwrap();
    assert!(service.file_exists(&info.saved_path));
    assert_eq!(service.read_file("elsewhere/copy.txt").unwrap(), b"abc");

    service.move_file(&info.saved_path, "elsewhere/moved.txt").unwrap();
    assert!(!service.file_exists(&info.saved_path));
    assert_eq!(service.read_file("elsewhere/moved.txt").unwrap(), b"abc");
}

#[test]
fn test_empty_payload_rejected() {
    let mut service = FileSystemService::new("store").unwrap();
    let r = service.save_file(b"", "x.txt", "uploads");
    assert!(matches!(
        r.unwrap_err(),
        FileManagerError::General { .. }
    ));
}

#[test]
fn test_file_type_support() {
    let config = test_config();

    assert!(config.is_file_type_supported("test.jpg"));
    assert!(config.is_file_type_supported("test.PNG"));
    assert!(!config.is_file_type_supported("test.exe"));
}

#[test]
fn config_test_file_size_validation() {
    let config = FileManagerConfig {
        app_data_dir: String::new(),
        database_path: String::new(),
        storage_path: String::new(),
        max_file_size: 1024,
        supported_file_types: vec![],
    };

    assert!(config.is_file_size_valid(512));
    assert!(config.is_file_size_valid(1024));
    assert!(!config.is_file_size_valid(2048));
}

#[test]
fn test_unique_filename_generation() {
    let config = FileManagerConfig {
        app_data_dir: String::new(),
        database_path: String::new(),
        storage_path: String::new(),
        max_file_size: 1024,
        supported_file_types: vec![],
    };

    let filename1 = config.generate_unique_filename("test.jpg");
    let filename2 = config.generate_unique_filename("test.jpg");

    assert_ne!(filename1, filename2);
    assert!(filename1.ends_with(".jpg"));
    assert!(filename2.ends_with(".jpg"));
}

#[test]
fn test_shard_formatting() {
    assert_eq!(shard_subdir(2026, 10, 3), "2026/10/03");
    assert_eq!(shard_subdir(987, 1, 12), "0987/01/12");
    assert_eq!(shard_subdir(12345, 11, 30), "12345/11/30");
}

#[test]
fn test_text_utilities() {
    assert_eq!(decimal_string(0), "0");
    assert_eq!(decimal_string(1234), "1234");
    assert!(str_le("abc", "abd"));
    assert!(str_le("ab", "abc"));
    assert!(!str_le("b", "abc"));
    assert!(str_eq("same", "same"));
    assert!(!str_eq("same", "sane"));
    assert!(starts_with("hello/world", "hello/"));
    assert!(!starts_with("hello", "hello/"));
    assert!(contains_sub("abcdef", "cde"));
    assert!(!contains_sub("abcdef", "ce"));
    assert!(contains_sub("anything", ""));
    assert_eq!(join_path("a", "b"), "a/b");
    assert_eq!(join_path("a/", "b"), "a/b");
    assert_eq!(join_path("a/", "/b"), "a/b");
    assert_eq!(join_path("a", "/b"), "a/b");
    assert_eq!(join_path("", "b"), "b");
    assert_eq!(trim_slashes("a/b//"), "a/b");
    assert_eq!(trim_slashes("/"), "");
    assert_eq!(extension_of("a.tar.gz"), "gz");
    assert_eq!(extension_of(".bashrc"), "");
    assert_eq!(extension_of("noext"), "");
    assert_eq!(extension_of("dir/file.txt"), "txt");
    assert_eq!(extension_of("trailing."), "");
}

#[test]
fn test_error_messages() {
    let e = FileManagerError::FileSizeExceeded {
        size: 2048,
        max_size: 1024,
    };
    assert_eq!(
        e.message(),
        "File size exceeds limit: 2048 bytes (max: 1024 bytes)"
    );
    let e = FileManagerError::FileNotFound {
        path: "abc".to_string(),
    };
    assert_eq!(e.message(), "File not found: abc");
    assert!(FileManagerError::Database {
        message: String::new()
    }
    .is_database_error());
    assert!(FileManagerError::FileSystem {
        message: String::new()
    }
    .is_filesystem_error());
    assert!(FileManagerError::PermissionDenied {
        operation: String::new()
    }
    .is_permission_error());
}

#[test]
fn test_timestamp_encoding_checker() {
    assert!(timestamp_text_ok("2026-10-12T06:49:33.123456789+00:00"));
    assert!(timestamp_text_ok("2026-10-12T06:49:33+05:30"));
    assert!(timestamp_text_ok("-0001-01-01T00:00:00-08:00"));
    assert!(timestamp_text_ok("+12026-10-12T06:49:33.123+00:00"));
    assert!(!timestamp_text_ok(""));
    assert!(!timestamp_text_ok("not a timestamp"));
    assert!(!timestamp_text_ok("2026-10-12 06:49:33"));
    assert!(!timestamp_text_ok("2026-10-12T06:49:33"));
}

#[test]
fn test_malformed_timestamp_is_refused() {
    let mut db = DatabaseService::new().unwrap();
    let r = db.create_directory_with_id("id-1", "a", None, "/a", "yesterday");
    assert!(matches!(
        r.unwrap_err(),
        FileManagerError::Database { .. }
    ));
    let dir = db.create_directory("a", None, "/a").unwrap();
    let r = db.create_file_with_id(
        "id-2",
        "n.txt",
        "n.txt",
        &dir.id,
        "/p/n.txt",
        1,
        "text/plain",
        "not a timestamp",
    );
    assert!(matches!(
        r.unwrap_err(),
        FileManagerError::Database { .. }
    ));
}

#[test]
fn test_stored_timestamps_carry_the_encoding() {
    let mut db = DatabaseService::new().unwrap();
    let dir = db.create_directory("a", None, "/a").unwrap();
    assert!(timestamp_text_ok(&dir.created_at));
    assert!(timestamp_text_ok(&dir.updated_at));
}

#[test]
fn test_no_extension_never_supported() {
    let config = FileManagerConfig {
        app_data_dir: String::new(),
        database_path: String::new(),
        storage_path: String::new(),
        max_file_size: 1024,
        supported_file_types: vec!["".to_string(), "txt".to_string()],
    };
    assert!(!config.is_file_type_supported("noext"));
    assert!(!config.is_file_type_supported("trailing."));
    assert!(config.is_file_type_supported("a.txt"));
}

#[test]
fn test_copy_onto_itself() {
    let mut service = FileSystemService::new("store").unwrap();
    let info = service.save_file(b"self", "s.txt", "uploads").unwrap();
    service.copy_file(&info.saved_path, &info.saved_path).unwrap();
    assert_eq!(service.read_file(&info.saved_path).unwrap(), b"self");
}
