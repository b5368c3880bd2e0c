//! Error kinds of the file manager, one variant per failure class, each
//! carrying the plain values a caller needs to act on it.

use vstd::prelude::*;
use vstd::string::*;
use crate::text::push_decimal;

verus! {

/// Everything that can go wrong across the metadata store, the content
/// store and the orchestration service.
#[derive(Debug, Clone)]
pub enum FileManagerError {
    /// The metadata layer failed; the message describes the fault.
    Database { message: String },
    /// The content layer failed; the message describes the fault.
    FileSystem { message: String },
    /// No file stands at the given identifier or path.
    FileNotFound { path: String },
    /// No directory stands at the given identifier or path.
    DirectoryNotFound { path: String },
    /// The name's extension is not on the allow list.
    UnsupportedFileType { file_type: String },
    /// The payload is larger than the configured limit.
    FileSizeExceeded { size: u64, max_size: u64 },
    /// The operation was refused by the platform.
    PermissionDenied { operation: String },
    /// The configuration is unusable.
    Configuration { message: String },
    /// A path or generated name is already taken.
    Conflict { path: String },
    /// Any other failure.
    General { message: String },
}

/// The crate's result type.
pub type FmResult<T> = Result<T, FileManagerError>;

impl FileManagerError {
    /// Builds a configuration error.
    pub fn config_error(message: &str) -> (r: Self)
        ensures
            r matches FileManagerError::Configuration { message: m } && m@ == message@,
    {
        FileManagerError::Configuration { message: message.to_owned() }
    }

    /// Builds a general error.
    pub fn general_error(message: &str) -> (r: Self)
        ensures
            r matches FileManagerError::General { message: m } && m@ == message@,
    {
        FileManagerError::General { message: message.to_owned() }
    }

    /// Whether this is a metadata-layer error.
    pub fn is_database_error(&self) -> (r: bool)
        ensures
            r == (self matches FileManagerError::Database { .. }),
    {
        matches!(self, FileManagerError::Database { .. })
    }

    /// Whether this is a content-layer error.
    pub fn is_filesystem_error(&self) -> (r: bool)
        ensures
            r == (self matches FileManagerError::FileSystem { .. }),
    {
        matches!(self, FileManagerError::FileSystem { .. })
    }

    /// Whether this is a permission error.
    pub fn is_permission_error(&self) -> (r: bool)
        ensures
            r == (self matches FileManagerError::PermissionDenied { .. }),
    {
        matches!(self, FileManagerError::PermissionDenied { .. })
    }

    /// A human-readable rendering of the error.
    pub fn message(&self) -> (r: String) {
        match self {
            FileManagerError::Database { message } => {
                let mut s = String::from_str("Database error: ");
                s.append(message.as_str());
                s
            },
            FileManagerError::FileSystem { message } => {
                let mut s = String::from_str("File system error: ");
                s.append(message.as_str());
                s
            },
            FileManagerError::FileNotFound { path } => {
                let mut s = String::from_str("File not found: ");
                s.append(path.as_str());
                s
            },
            FileManagerError::DirectoryNotFound { path } => {
                let mut s = String::from_str("Directory not found: ");
                s.append(path.as_str());
                s
            },
            FileManagerError::UnsupportedFileType { file_type } => {
                let mut s = String::from_str("Unsupported file type: ");
                s.append(file_type.as_str());
                s
            },
            FileManagerError::FileSizeExceeded { size, max_size } => {
                let mut s = String::from_str("File size exceeds limit: ");
                push_decimal(&mut s, *size);
                s.append(" bytes (max: ");
                push_decimal(&mut s, *max_size);
                s.append(" bytes)");
                s
            },
            FileManagerError::PermissionDenied { operation } => {
                let mut s = String::from_str("Permission denied: ");
                s.append(operation.as_str());
                s
            },
            FileManagerError::Configuration { message } => {
                let mut s = String::from_str("Configuration error: ");
                s.append(message.as_str());
                s
            },
            FileManagerError::Conflict { path } => {
                let mut s = String::from_str("Already exists: ");
                s.append(path.as_str());
                s
            },
            FileManagerError::General { message } => {
                let mut s = String::from_str("General error: ");
                s.append(message.as_str());
                s
            },
        }
    }
}

} // verus!
