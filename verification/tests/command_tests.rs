//! Tests of the boundary layer: envelopes, validation, batch uploads,
//! search, statistics and the concrete end-to-end scenario.

use collaboard::commands::{
    create_directory, delete_directory, delete_file, get_directory_files, get_directory_tree,
    get_file_info, get_storage_stats, read_file_content, search_files, upload_file,
    upload_multiple_files, validate_file_type, CommandResponse, CreateDirectoryCommand,
    DeleteDirectoryCommand, DeleteFileCommand, GetDirectoryFilesCommand, GetFileInfoCommand,
    ReadFileContentCommand, UploadFileCommand,
};
use collaboard::config::FileManagerConfig;
use collaboard::database::DatabaseService;
use collaboard::filesystem::FileSystemService;
use collaboard::service::FileManagerService;

fn test_service() -> FileManagerService {
    let config = FileManagerConfig {
        app_data_dir: String::new(),
        database_path: String::new(),
        storage_path: "files".to_string(),
        max_file_size: 1024 * 1024,
        supported_file_types: vec!["txt".to_string(), "jpg".to_string()],
    };
    let db_service = DatabaseService::new().unwrap();
    let fs_service = FileSystemService::new("files").unwrap();
    FileManagerService::with_config(config, db_service, fs_service)
}

#[test]
fn test_command_response_success() {
    let response = CommandResponse::success("test data".to_string());
    assert!(response.success);
    assert_eq!(response.data, Some("test data".to_string()));
    assert!(response.error.is_none());
}

#[test]
fn test_command_response_error() {
    let response: CommandResponse<String> = CommandResponse::error("test error".to_string());
    assert!(!response.success);
    assert!(response.data.is_none());
    assert_eq!(response.error, Some("test error".to_string()));
}

#[test]
fn test_upload_command_validation() {
    let command = UploadFileCommand {
        file_data: vec![],
        original_name: "".to_string(),
        directory_id: None,
    };

    assert!(command.file_data.is_empty());
    assert!(command.original_name.trim().is_empty());
}

#[test]
fn test_directory_name_validation() {
    let invalid_names = vec![
        "test/dir",
        "test\\dir",
        "test:dir",
        "test*dir",
        "test?dir",
        "test\"dir",
        "test<dir",
        "test>dir",
        "test|dir",
    ];

    for name in invalid_names {
        assert!(name.contains(['/', '\\', ':', '*', '?', '"', '<', '>', '|']));
    }
}

#[test]
fn test_upload_command_rejects_empty() {
    let mut service = test_service();
    let r = upload_file(
        UploadFileCommand {
            file_data: vec![],
            original_name: "x.txt".to_string(),
            directory_id: None,
        },
        &mut service,
    );
    assert!(!r.success);
    let r = upload_file(
        UploadFileCommand {
            file_data: b"x".to_vec(),
            original_name: "   ".to_string(),
            directory_id: None,
        },
        &mut service,
    );
    assert!(!r.success);
}

#[test]
fn test_create_directory_command_rejects_illegal_names() {
    let mut service = test_service();
    let r = create_directory(
        CreateDirectoryCommand {
            name: "bad:name".to_string(),
            parent_id: None,
        },
        &mut service,
    );
    assert!(!r.success);
    assert!(r.error.is_some());
    let r = create_directory(
        CreateDirectoryCommand {
            name: "good_name".to_string(),
            parent_id: None,
        },
        &mut service,
    );
    assert!(r.success);
    assert_eq!(r.data.unwrap().path, "/good_name");
}

#[test]
fn test_delete_commands_reject_blank_ids() {
    let mut service = test_service();
    assert!(
        !delete_file(
            DeleteFileCommand {
                file_id: " ".to_string()
            },
            &mut service
        )
        .success
    );
    assert!(
        !delete_directory(
            DeleteDirectoryCommand {
                directory_id: "".to_string()
            },
            &mut service
        )
        .success
    );
}

#[test]
fn test_upload_multiple_files_aggregates_errors() {
    let mut service = test_service();
    let r = upload_multiple_files(vec![], &mut service);
    assert!(!r.success);

    let batch = vec![
        UploadFileCommand {
            file_data: b"one".to_vec(),
            original_name: "one.txt".to_string(),
            directory_id: None,
        },
        UploadFileCommand {
            file_data: vec![],
            original_name: "empty.txt".to_string(),
            directory_id: None,
        },
    ];
    let r = upload_multiple_files(batch, &mut service);
    assert!(!r.success);
    let message = r.error.unwrap();
    assert!(message.contains("File 1"));

    let good = vec![
        UploadFileCommand {
            file_data: b"one".to_vec(),
            original_name: "one.txt".to_string(),
            directory_id: None,
        },
        UploadFileCommand {
            file_data: b"two".to_vec(),
            original_name: "two.txt".to_string(),
            directory_id: None,
        },
    ];
    let r = upload_multiple_files(good, &mut service);
    assert!(r.success);
    assert_eq!(r.data.unwrap().len(), 2);
}

#[test]
fn test_search_files_folds_case() {
    let mut service = test_service();
    upload_file(
        UploadFileCommand {
            file_data: b"hello".to_vec(),
            original_name: "Hello World.txt".to_string(),
            directory_id: None,
        },
        &mut service,
    );
    upload_file(
        UploadFileCommand {
            file_data: b"other".to_vec(),
            original_name: "nothing.txt".to_string(),
            directory_id: None,
        },
        &mut service,
    );

    let r = search_files("HELLO".to_string(), None, &service);
    assert!(r.success);
    let found = r.data.unwrap();
    assert_eq!(found.len(), 1);
    assert_eq!(found[0].original_name, "Hello World.txt");

    let r = search_files("x".to_string(), None, &service);
    assert!(!r.success);
    let r = search_files("  ".to_string(), None, &service);
    assert!(!r.success);
}

#[test]
fn test_validate_file_type_command() {
    let service = test_service();
    let r = validate_file_type("x.pdf".to_string(), &service);
    assert!(r.success);
    assert_eq!(r.data, Some(true));
    let r = validate_file_type("x.exe".to_string(), &service);
    assert_eq!(r.data, Some(false));
    let r = validate_file_type("ARCHIVE.ZIP".to_string(), &service);
    assert_eq!(r.data, Some(true));
    let r = validate_file_type("  ".to_string(), &service);
    assert!(!r.success);
}

#[test]
fn test_storage_stats_extremes() {
    let mut service = test_service();
    upload_file(
        UploadFileCommand {
            file_data: vec![1u8; 100],
            original_name: "small.txt".to_string(),
            directory_id: None,
        },
        &mut service,
    );
    upload_file(
        UploadFileCommand {
            file_data: vec![1u8; 300],
            original_name: "big.txt".to_string(),
            directory_id: None,
        },
        &mut service,
    );
    let r = get_storage_stats(&service);
    assert!(r.success);
    let stats = r.data.unwrap();
    assert_eq!(stats.total_files, 2);
    assert_eq!(stats.total_size, 400);
    assert_eq!(stats.largest_file_size, 300);
    assert!(stats.most_recent_upload.is_some());
}

#[test]
fn test_concrete_scenario() {
    let mut service = test_service();
    let root_id = service.ensure_root_directory().unwrap();

    let created = create_directory(
        CreateDirectoryCommand {
            name: "docs".to_string(),
            parent_id: Some(root_id),
        },
        &mut service,
    );
    assert!(created.success);
    let docs = created.data.unwrap();
    assert_eq!(docs.path, "/docs");

    let uploaded = upload_file(
        UploadFileCommand {
            file_data: b"Hello, World!".to_vec(),
            original_name: "a.txt".to_string(),
            directory_id: Some(docs.directory_id.clone()),
        },
        &mut service,
    );
    assert!(uploaded.success);
    let up = uploaded.data.unwrap();
    assert_eq!(up.file_size, 13);

    let listing = get_directory_files(
        GetDirectoryFilesCommand {
            directory_id: docs.directory_id.clone(),
        },
        &service,
    );
    assert!(listing.success);
    let entries = listing.data.unwrap();
    assert_eq!(entries.len(), 1);
    assert_eq!(entries[0].file_size, 13);
    assert_eq!(entries[0].original_name, "a.txt");

    let info = get_file_info(
        GetFileInfoCommand {
            file_id: up.file_id.clone(),
        },
        &service,
    );
    assert!(info.success);
    assert!(info.data.unwrap().is_some());

    let content = read_file_content(
        ReadFileContentCommand {
            file_id: up.file_id.clone(),
        },
        &service,
    );
    assert!(content.success);
    assert_eq!(content.data.unwrap(), b"Hello, World!");

    let tree = get_directory_tree(&service);
    assert!(tree.success);
    assert_eq!(tree.data.unwrap().len(), 2);

    let stats = get_storage_stats(&service);
    let st = stats.data.unwrap();
    assert_eq!(st.total_files, 1);
    assert_eq!(st.total_directories, 2);
    assert_eq!(st.total_size, 13);
}
