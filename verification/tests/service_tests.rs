//! Tests of the orchestration service: uploads, directory lifecycle,
//! cascade deletion, round trips and the chunked ingestion path.

use collaboard::config::FileManagerConfig;
use collaboard::database::DatabaseService;
use collaboard::error::FileManagerError;
use collaboard::filesystem::FileSystemService;
use collaboard::service::{
    CreateDirectoryRequest, FileManagerService, UploadRequest,
};

fn make_service(max: u64, types: &[&str]) -> FileManagerService {
    let config = FileManagerConfig {
        app_data_dir: String::new(),
        database_path: String::new(),
        storage_path: "files".to_string(),
        max_file_size: max,
        supported_file_types: types.iter().map(|t| t.to_string()).collect(),
    };
    let db_service = DatabaseService::new().unwrap();
    let fs_service = FileSystemService::new("files").unwrap();
    FileManagerService::with_config(config, db_service, fs_service)
}

fn test_service() -> FileManagerService {
    make_service(1024 * 1024, &["txt", "jpg"])
}

#[test]
fn test_upload_file() {
    let mut service = test_service();

    let request = UploadRequest {
        file_data: b"Hello, World!".to_vec(),
        original_name: "test.txt".to_string(),
        directory_id: None,
    };

    let response = service.upload_file(request).unwrap();
    assert_eq!(response.original_name, "test.txt");
    assert_eq!(response.file_size, 13);
}

#[test]
fn test_create_directory() {
    let mut service = test_service();

    let request = CreateDirectoryRequest {
        name: "test_dir".to_string(),
        parent_id: None,
    };

    let response = service.create_directory(request).unwrap();
    assert_eq!(response.name, "test_dir");
    assert_eq!(response.path, "/test_dir");
}

#[test]
fn service_test_file_size_validation() {
    let mut service = test_service();

    let large_data = vec![0u8; 2 * 1024 * 1024];
    let request = UploadRequest {
        file_data: large_data,
        original_name: "large.txt".to_string(),
        directory_id: None,
    };

    let result = service.upload_file(request);
    assert!(result.is_err());
    assert!(matches!(
        result.unwrap_err(),
        FileManagerError::FileSizeExceeded { .. }
    ));
}

#[test]
fn test_unsupported_file_type() {
    let mut service = test_service();

    let request = UploadRequest {
        file_data: b"executable content".to_vec(),
        original_name: "malware.exe".to_string(),
        directory_id: None,
    };

    let result = service.upload_file(request);
    assert!(result.is_err());
    assert!(matches!(
        result.unwrap_err(),
        FileManagerError::UnsupportedFileType { .. }
    ));
}

#[test]
fn test_size_boundary() {
    let mut service = make_service(1024, &["txt"]);
    let at_limit = UploadRequest {
        file_data: vec![7u8; 1024],
        original_name: "edge.txt".to_string(),
        directory_id: None,
    };
    let response = service.upload_file(at_limit).unwrap();
    assert_eq!(response.file_size, 1024);

    let over_limit = UploadRequest {
        file_data: vec![7u8; 1025],
        original_name: "edge.txt".to_string(),
        directory_id: None,
    };
    let err = service.upload_file(over_limit).unwrap_err();
    assert!(matches!(err, FileManagerError::FileSizeExceeded { .. }));
}

#[test]
fn test_type_boundary() {
    let mut service = test_service();
    let bad = UploadRequest {
        file_data: b"anything".to_vec(),
        original_name: "x.exe".to_string(),
        directory_id: None,
    };
    assert!(matches!(
        service.upload_file(bad).unwrap_err(),
        FileManagerError::UnsupportedFileType { .. }
    ));
    let good = UploadRequest {
        file_data: b"anything".to_vec(),
        original_name: "x.txt".to_string(),
        directory_id: None,
    };
    assert!(service.upload_file(good).is_ok());
}

#[test]
fn test_round_trip() {
    let mut service = test_service();
    let payload = b"round trip payload \x00\x01\x02".to_vec();
    let request = UploadRequest {
        file_data: payload.clone(),
        original_name: "bytes.txt".to_string(),
        directory_id: None,
    };
    let response = service.upload_file(request).unwrap();
    let back = service.read_file_content(&response.file_id).unwrap();
    assert_eq!(back, payload);
}

#[test]
fn test_path_conflict() {
    let mut service = test_service();
    let first = service.create_directory(CreateDirectoryRequest {
        name: "docs".to_string(),
        parent_id: None,
    });
    assert!(first.is_ok());
    let second = service.create_directory(CreateDirectoryRequest {
        name: "docs".to_string(),
        parent_id: None,
    });
    assert!(matches!(
        second.unwrap_err(),
        FileManagerError::Conflict { .. }
    ));
}

#[test]
fn test_create_then_get_path_rule() {
    let mut service = test_service();
    let parent = service
        .create_directory(CreateDirectoryRequest {
            name: "outer".to_string(),
            parent_id: None,
        })
        .unwrap();
    let child = service
        .create_directory(CreateDirectoryRequest {
            name: "inner".to_string(),
            parent_id: Some(parent.directory_id.clone()),
        })
        .unwrap();
    assert_eq!(child.path, "/outer/inner");
    let got = service
        .db_service
        .get_directory(&child.directory_id)
        .unwrap()
        .unwrap();
    assert_eq!(got.path, "/outer/inner");
    assert_eq!(got.parent_id.as_deref(), Some(parent.directory_id.as_str()));
}

#[test]
fn test_cascade() {
    let mut service = test_service();
    let a = service
        .create_directory(CreateDirectoryRequest {
            name: "a".to_string(),
            parent_id: None,
        })
        .unwrap();
    let b = service
        .create_directory(CreateDirectoryRequest {
            name: "b".to_string(),
            parent_id: Some(a.directory_id.clone()),
        })
        .unwrap();
    let up = service
        .upload_file(UploadRequest {
            file_data: b"inside".to_vec(),
            original_name: "f.txt".to_string(),
            directory_id: Some(b.directory_id.clone()),
        })
        .unwrap();
    let file_path = service
        .db_service
        .get_file(&up.file_id)
        .unwrap()
        .unwrap()
        .file_path;

    service.delete_directory(&a.directory_id).unwrap();

    assert!(service
        .db_service
        .get_directory(&a.directory_id)
        .unwrap()
        .is_none());
    assert!(service
        .db_service
        .get_directory(&b.directory_id)
        .unwrap()
        .is_none());
    assert!(service.db_service.get_file(&up.file_id).unwrap().is_none());
    assert!(!service.fs_service.file_exists(&file_path));
    assert!(matches!(
        service.read_file_content(&up.file_id).unwrap_err(),
        FileManagerError::FileNotFound { .. }
    ));
}

#[test]
fn test_delete_file() {
    let mut service = test_service();
    let up = service
        .upload_file(UploadRequest {
            file_data: b"to be removed".to_vec(),
            original_name: "gone.txt".to_string(),
            directory_id: None,
        })
        .unwrap();
    service.delete_file(&up.file_id).unwrap();
    assert!(service.db_service.get_file(&up.file_id).unwrap().is_none());
    assert!(matches!(
        service.delete_file(&up.file_id).unwrap_err(),
        FileManagerError::FileNotFound { .. }
    ));
}

#[test]
fn test_chunked_ingestion_matches_single() {
    let mut single = test_service();
    let mut chunked = test_service();

    let payload: Vec<u8> = (0..100000u32).map(|i| (i % 251) as u8).collect();
    let whole = single
        .upload_file(UploadRequest {
            file_data: payload.clone(),
            original_name: "data.txt".to_string(),
            directory_id: None,
        })
        .unwrap();

    let mut chunks: Vec<Vec<u8>> = Vec::new();
    let mut at = 0usize;
    let bounds = [1usize, 7, 100, 4096, 33333, 100000];
    for b in bounds {
        if b > at {
            chunks.push(payload[at..b].to_vec());
            at = b;
        }
    }
    let (streamed, events) = chunked
        .upload_large_file(&chunks, "data.txt", payload.len() as u64, None)
        .unwrap();

    assert_eq!(streamed.file_size, whole.file_size);
    let single_bytes = single.read_file_content(&whole.file_id).unwrap();
    let chunked_bytes = chunked.read_file_content(&streamed.file_id).unwrap();
    assert_eq!(single_bytes, chunked_bytes);

    let mut last = 0u64;
    for (written, expected) in &events {
        assert!(*written >= last);
        assert_eq!(*expected, payload.len() as u64);
        last = *written;
    }
    assert_eq!(last, payload.len() as u64);
}

#[test]
fn test_tree_idempotent() {
    let mut service = test_service();
    let a = service
        .create_directory(CreateDirectoryRequest {
            name: "beta".to_string(),
            parent_id: None,
        })
        .unwrap();
    service
        .create_directory(CreateDirectoryRequest {
            name: "alpha".to_string(),
            parent_id: Some(a.directory_id.clone()),
        })
        .unwrap();
    service
        .upload_file(UploadRequest {
            file_data: b"x".to_vec(),
            original_name: "x.txt".to_string(),
            directory_id: Some(a.directory_id.clone()),
        })
        .unwrap();

    let t1 = service.get_directory_tree().unwrap();
    let t2 = service.get_directory_tree().unwrap();
    assert_eq!(t1, t2);
    assert_eq!(t1.len(), 2);
    assert_eq!(t1[0].path, "/beta");
    assert_eq!(t1[0].file_count, 1);
    assert_eq!(t1[1].path, "/beta/alpha");
}

#[test]
fn test_mime_from_extension() {
    let mut service = test_service();
    let up = service
        .upload_file(UploadRequest {
            file_data: b"just text".to_vec(),
            original_name: "note.txt".to_string(),
            directory_id: None,
        })
        .unwrap();
    assert_eq!(up.mime_type, "text/plain");
}

#[test]
fn test_date_sharded_storage_path() {
    let mut service = test_service();
    let up = service
        .upload_file(UploadRequest {
            file_data: b"shard me".to_vec(),
            original_name: "s.txt".to_string(),
            directory_id: None,
        })
        .unwrap();
    let file_path = service
        .db_service
        .get_file(&up.file_id)
        .unwrap()
        .unwrap()
        .file_path;
    assert!(file_path.starts_with("files/"));
    let relative = &file_path["files/".len()..];
    let slashes = relative.chars().filter(|c| *c == '/').count();
    assert_eq!(slashes, 3);
}

#[test]
fn test_root_bootstrap() {
    let mut service = test_service();
    let root1 = service.ensure_root_directory().unwrap();
    let root2 = service.ensure_root_directory().unwrap();
    assert_eq!(root1, root2);
    let rec = service.db_service.get_directory(&root1).unwrap().unwrap();
    assert_eq!(rec.name, "Root");
    assert_eq!(rec.path, "/");
}
