//! The boundary layer: request shapes, their validation, and the wrapping
//! of every outcome in a uniform success/error envelope, as the external
//! command dispatcher consumes it.

use vstd::prelude::*;
use vstd::string::*;
use crate::database::owned_by;
use crate::error::FmResult;
use crate::foreign::{fold_lower, lower_of};
use crate::service::{
    blank_seq, is_blank, item_matches, CreateDirectoryRequest, CreateDirectoryResponse,
    DirectoryTreeNode, FileListItem, FileManagerService, UploadRequest, UploadResponse,
};
use crate::text::{contains_seq, contains_sub, ext_of, join_seq, lex_le, sort_by_key, str_le};

verus! {

broadcast use vstd::seq::Seq::lemma_filter_push, vstd::seq::Seq::lemma_take_succ_push, vstd::seq::Seq::lemma_take_len, vstd::seq_lib::group_filter_ensures;

/// An upload order as the dispatcher hands it over.
#[derive(Debug, Clone)]
pub struct UploadFileCommand {
    pub file_data: Vec<u8>,
    pub original_name: String,
    pub directory_id: Option<String>,
}

/// A directory creation order.
#[derive(Debug, Clone)]
pub struct CreateDirectoryCommand {
    pub name: String,
    pub parent_id: Option<String>,
}

/// A file deletion order.
#[derive(Debug, Clone)]
pub struct DeleteFileCommand {
    pub file_id: String,
}

/// A directory deletion order.
#[derive(Debug, Clone)]
pub struct DeleteDirectoryCommand {
    pub directory_id: String,
}

/// A directory listing order.
#[derive(Debug, Clone)]
pub struct GetDirectoryFilesCommand {
    pub directory_id: String,
}

/// A file information order.
#[derive(Debug, Clone)]
pub struct GetFileInfoCommand {
    pub file_id: String,
}

/// A file content order.
#[derive(Debug, Clone)]
pub struct ReadFileContentCommand {
    pub file_id: String,
}

/// The uniform envelope every command answers with: either a payload or a
/// message, never both.
#[derive(Debug, Clone)]
pub struct CommandResponse<T> {
    pub success: bool,
    pub data: Option<T>,
    pub error: Option<String>,
}

impl<T> CommandResponse<T> {
    /// Wraps a payload.
    pub fn success(data: T) -> (r: Self)
        ensures
            r.success,
            r.data matches Some(d) && d == data,
            r.error is None,
    {
        CommandResponse { success: true, data: Some(data), error: None }
    }

    /// Wraps a failure message.
    pub fn error(error: String) -> (r: Self)
        ensures
            !r.success,
            r.data is None,
            r.error matches Some(m) && m == error,
    {
        CommandResponse { success: false, data: None, error: Some(error) }
    }

    /// Wraps an operation outcome, rendering the error when there is one.
    pub fn from_result(result: FmResult<T>) -> (r: Self)
        ensures
            match result {
                Ok(d) => r.success && (r.data matches Some(x) && x == d) && r.error is None,
                Err(_) => !r.success && r.data is None && r.error is Some,
            },
    {
        match result {
            Ok(data) => Self::success(data),
            Err(e) => Self::error(e.message()),
        }
    }
}

/// The characters a directory name may not carry.
pub open spec fn illegal_name_char(c: char) -> bool {
    c == '/' || c == '\\' || c == ':' || c == '*' || c == '?' || c == '"' || c == '<' || c == '>'
        || c == '|'
}

/// Some character of the name is illegal.
pub open spec fn has_illegal_char(s: Seq<char>) -> bool {
    exists|i: int| 0 <= i < s.len() && illegal_name_char(#[trigger] s[i])
}

/// Decides `has_illegal_char`.
pub fn name_has_illegal_char(s: &str) -> (r: bool)
    ensures
        r == has_illegal_char(s@),
{
    let n = s.unicode_len();
    let mut i: usize = 0;
    while i < n
        invariant
            i <= n,
            n == s@.len(),
            forall|k: int| 0 <= k < i ==> !illegal_name_char(#[trigger] s@[k]),
        decreases n - i,
    {
        let c = s.get_char(i);
        if c == '/' || c == '\\' || c == ':' || c == '*' || c == '?' || c == '"' || c == '<' || c
            == '>' || c == '|' {
            return true;
        }
        i = i + 1;
    }
    false
}

/// Handles an upload order: rejects empty payloads and blank names before
/// the service sees them.
pub fn upload_file(command: UploadFileCommand, service: &mut FileManagerService) -> (r:
    CommandResponse<UploadResponse>)
    requires
        old(service).inv(),
    ensures
        final(service).inv(),
        final(service).config == old(service).config,
        command.file_data@.len() == 0 ==> !r.success && *final(service) == *old(service),
        command.file_data@.len() > 0 && blank_seq(command.original_name@) ==> !r.success
            && *final(service) == *old(service),
        !r.success ==> r.data is None && r.error is Some,
        r.success ==> ({
            let resp = r.data->Some_0;
            let rec = final(service).db_service.file_rec(resp.file_id@);
            &&& r.data is Some
            &&& command.file_data@.len() > 0
            &&& command.file_data@.len() <= old(service).config.max_file_size
            &&& old(service).ext_supported(command.original_name@)
            &&& resp.original_name@ == command.original_name@
            &&& resp.file_size == command.file_data@.len()
            &&& resp.mime_type@ == crate::filesystem::mime_spec(
                command.original_name@,
                command.file_data@,
            )
            &&& final(service).db_service.has_file_id(resp.file_id@)
            &&& final(service).fs_service.has_object(rec.file_path@)
            &&& final(service).fs_service.object_at(rec.file_path@) == command.file_data@
        }),
        command.file_data@.len() > old(service).config.max_file_size ==> !r.success,
        command.file_data@.len() > 0 && command.file_data@.len() <= old(service).config.max_file_size && !old(service).ext_supported(command.original_name@)
            ==> !r.success,
{
    if command.file_data.len() == 0 {
        return CommandResponse::error(String::from_str("File data cannot be empty"));
    }
    if is_blank(command.original_name.as_str()) {
        return CommandResponse::error(String::from_str("Original name cannot be empty"));
    }
    let request = UploadRequest {
        file_data: command.file_data,
        original_name: command.original_name,
        directory_id: command.directory_id,
    };
    CommandResponse::from_result(service.upload_file(request))
}

/// Handles a directory creation order: rejects blank names and names with
/// illegal characters before the service sees them.
pub fn create_directory(command: CreateDirectoryCommand, service: &mut FileManagerService) -> (r:
    CommandResponse<CreateDirectoryResponse>)
    requires
        old(service).inv(),
    ensures
        final(service).inv(),
        final(service).config == old(service).config,
        blank_seq(command.name@) ==> !r.success && *final(service) == *old(service),
        !blank_seq(command.name@) && has_illegal_char(command.name@) ==> !r.success && *final(service) == *old(service),
        !r.success ==> r.data is None && r.error is Some,
        r.success ==> ({
            let resp = r.data->Some_0;
            &&& r.data is Some
            &&& !blank_seq(command.name@)
            &&& !has_illegal_char(command.name@)
            &&& resp.name@ == command.name@
            &&& resp.path@ == crate::service::requested_path(
                *old(service),
                CreateDirectoryRequest { name: command.name, parent_id: command.parent_id },
            )
            &&& final(service).db_service.has_dir_id(resp.directory_id@)
            &&& final(service).db_service.has_dir_path(resp.path@)
        }),
{
    if is_blank(command.name.as_str()) {
        return CommandResponse::error(String::from_str("Directory name cannot be empty"));
    }
    if name_has_illegal_char(command.name.as_str()) {
        return CommandResponse::error(
            String::from_str("Directory name contains invalid characters"),
        );
    }
    let request = CreateDirectoryRequest { name: command.name, parent_id: command.parent_id };
    CommandResponse::from_result(service.create_directory(request))
}

/// Handles a file deletion order: rejects blank identifiers.
pub fn delete_file(command: DeleteFileCommand, service: &mut FileManagerService) -> (r:
    CommandResponse<()>)
    requires
        old(service).inv(),
    ensures
        final(service).inv(),
        blank_seq(command.file_id@) ==> !r.success && *final(service) == *old(service),
        !blank_seq(command.file_id@) ==> r.success == (old(service).db_service.has_file_id(
            command.file_id@,
        ) && old(service).fs_service.has_object(
            old(service).db_service.file_rec(command.file_id@).file_path@,
        )),
        !r.success ==> r.data is None && r.error is Some,
        r.success ==> !blank_seq(command.file_id@) && !final(service).db_service.has_file_id(
            command.file_id@,
        ),
{
    if is_blank(command.file_id.as_str()) {
        return CommandResponse::error(String::from_str("File ID cannot be empty"));
    }
    CommandResponse::from_result(service.delete_file(command.file_id.as_str()))
}

/// Handles a directory deletion order: rejects blank identifiers.
pub fn delete_directory(command: DeleteDirectoryCommand, service: &mut FileManagerService) -> (r:
    CommandResponse<()>)
    requires
        old(service).inv(),
    ensures
        final(service).inv(),
        blank_seq(command.directory_id@) ==> !r.success && *final(service) == *old(service),
        !blank_seq(command.directory_id@) ==> r.success == (old(service).db_service.has_dir_id(
            command.directory_id@,
        ) && old(service).fs_service.has_dir(
            join_seq(
                old(service).fs_service.storage_root@,
                old(service).db_service.dir_rec(command.directory_id@).path@,
            ),
        )),
        !r.success ==> r.data is None && r.error is Some,
        r.success ==> !blank_seq(command.directory_id@) && !final(service).db_service.has_dir_id(command.directory_id@),
{
    if is_blank(command.directory_id.as_str()) {
        return CommandResponse::error(String::from_str("Directory ID cannot be empty"));
    }
    CommandResponse::from_result(service.delete_directory(command.directory_id.as_str()))
}

/// Handles a tree query.
pub fn get_directory_tree(service: &FileManagerService) -> (r: CommandResponse<
    Vec<DirectoryTreeNode>,
>)
    requires
        service.inv(),
    ensures
        r.success,
        r.data matches Some(v) && ({
            let recs = sort_by_key(
                service.db_service.directories@,
                crate::database::dir_path_key(),
            );
            &&& v@.len() == recs.len()
            &&& forall|i: int|
                0 <= i < v@.len() ==> crate::service::node_matches(#[trigger] v@[i], recs[i])
                    && v@[i].file_count == service.db_service.files@.filter(
                    owned_by(recs[i].id@),
                ).len()
        }),
{
    let result = service.get_directory_tree();
    match result {
        Ok(v) => CommandResponse::success(v),
        Err(e) => CommandResponse::error(e.message()),
    }
}

/// Handles a directory listing order: rejects blank identifiers.
pub fn get_directory_files(command: GetDirectoryFilesCommand, service: &FileManagerService) -> (r:
    CommandResponse<Vec<FileListItem>>)
    requires
        service.inv(),
    ensures
        blank_seq(command.directory_id@) == !r.success,
        !r.success ==> r.data is None && r.error is Some,
        r.success ==> (r.data matches Some(v) && ({
            let recs = sort_by_key(
                service.db_service.files@.filter(owned_by(command.directory_id@)),
                crate::database::file_name_key(),
            );
            &&& v@.len() == recs.len()
            &&& forall|i: int| 0 <= i < v@.len() ==> item_matches(#[trigger] v@[i], recs[i])
        })),
{
    if is_blank(command.directory_id.as_str()) {
        return CommandResponse::error(String::from_str("Directory ID cannot be empty"));
    }
    CommandResponse::from_result(service.get_files_in_directory(command.directory_id.as_str()))
}

/// Handles a file information order: rejects blank identifiers.
pub fn get_file_info(command: GetFileInfoCommand, service: &FileManagerService) -> (r:
    CommandResponse<Option<FileListItem>>)
    requires
        service.inv(),
    ensures
        blank_seq(command.file_id@) == !r.success,
        !r.success ==> r.data is None && r.error is Some,
        r.success ==> (r.data matches Some(opt) && (match opt {
            Some(it) => service.db_service.has_file_id(command.file_id@) && item_matches(
                it,
                service.db_service.file_rec(command.file_id@),
            ),
            None => !service.db_service.has_file_id(command.file_id@),
        })),
{
    if is_blank(command.file_id.as_str()) {
        return CommandResponse::error(String::from_str("File ID cannot be empty"));
    }
    CommandResponse::from_result(service.get_file_info(command.file_id.as_str()))
}

/// Handles a file content order: rejects blank identifiers.
pub fn read_file_content(command: ReadFileContentCommand, service: &FileManagerService) -> (r:
    CommandResponse<Vec<u8>>)
    requires
        service.inv(),
    ensures
        blank_seq(command.file_id@) ==> !r.success,
        !blank_seq(command.file_id@) ==> r.success == (service.db_service.has_file_id(
            command.file_id@,
        ) && service.fs_service.has_object(
            service.db_service.file_rec(command.file_id@).file_path@,
        )),
        !r.success ==> r.data is None && r.error is Some,
        r.success ==> (r.data matches Some(d) && service.db_service.has_file_id(
            command.file_id@,
        ) && service.fs_service.has_object(
            service.db_service.file_rec(command.file_id@).file_path@,
        ) && d@ == service.fs_service.object_at(
            service.db_service.file_rec(command.file_id@).file_path@,
        )),
{
    if is_blank(command.file_id.as_str()) {
        return CommandResponse::error(String::from_str("File ID cannot be empty"));
    }
    CommandResponse::from_result(service.read_file_content(command.file_id.as_str()))
}

/// Aggregate numbers over the whole catalog.
#[derive(Debug, Clone, PartialEq)]
pub struct StorageStats {
    pub total_files: usize,
    pub total_directories: usize,
    pub total_size: i64,
    pub largest_file_size: i64,
    pub most_recent_upload: Option<String>,
}

/// A file row counts for the statistics when its owning directory stands.
pub open spec fn counted_pred(db: crate::database::DatabaseService) -> spec_fn(
    crate::database::FileInfo,
) -> bool {
    |f: crate::database::FileInfo| db.has_dir_id(f.directory_id@)
}

/// Signed addition clamped into the 64-bit range.
pub open spec fn sat_add_i64(a: int, b: int) -> int {
    if a + b > 0x7fff_ffff_ffff_ffff {
        0x7fff_ffff_ffff_ffff
    } else if a + b < -0x8000_0000_0000_0000 {
        -0x8000_0000_0000_0000
    } else {
        a + b
    }
}

/// The clamped sum of the sizes of the first `k` counted rows.
pub open spec fn total_size_upto(db: crate::database::DatabaseService, k: int) -> int
    decreases k,
{
    if k <= 0 {
        0
    } else if counted_pred(db)(db.files@[k - 1]) {
        sat_add_i64(total_size_upto(db, k - 1), db.files@[k - 1].file_size as int)
    } else {
        total_size_upto(db, k - 1)
    }
}

/// The largest size among the first `k` counted rows, never below zero.
pub open spec fn largest_upto(db: crate::database::DatabaseService, k: int) -> int
    decreases k,
{
    if k <= 0 {
        0
    } else if counted_pred(db)(db.files@[k - 1]) && db.files@[k - 1].file_size as int
        > largest_upto(db, k - 1) {
        db.files@[k - 1].file_size as int
    } else {
        largest_upto(db, k - 1)
    }
}

/// The latest creation stamp among the first `k` counted rows, in
/// lexicographic order.
pub open spec fn recent_upto(db: crate::database::DatabaseService, k: int) -> Option<Seq<char>>
    decreases k,
{
    if k <= 0 {
        None
    } else if counted_pred(db)(db.files@[k - 1]) {
        match recent_upto(db, k - 1) {
            None => Some(db.files@[k - 1].created_at@),
            Some(rv) => if !lex_le(db.files@[k - 1].created_at@, rv) {
                Some(db.files@[k - 1].created_at@)
            } else {
                Some(rv)
            },
        }
    } else {
        recent_upto(db, k - 1)
    }
}

/// Whether a listing entry's stored or original name carries the folded
/// query.
pub open spec fn query_hit(it: FileListItem, ql: Seq<char>) -> bool {
    contains_seq(lower_of(it.name@), ql) || contains_seq(lower_of(it.original_name@), ql)
}

/// Decides whether the catalog has a directory row with this identifier.
fn dir_id_exists(db: &crate::database::DatabaseService, id: &str) -> (r: bool)
    ensures
        r == db.has_dir_id(id@),
{
    let n = db.directories.len();
    let mut i: usize = 0;
    while i < n
        invariant
            i <= n,
            n == db.directories@.len(),
            forall|k: int| 0 <= k < i ==> db.directories@[k].id@ != id@,
        decreases n - i,
    {
        if crate::text::str_eq(db.directories[i].id.as_str(), id) {
            return true;
        }
        i = i + 1;
    }
    false
}

/// Handles a batch upload: at most fifty items, each validated on its
/// own. On success the answer holds one response per input, in input
/// order; one failure turns the whole answer into a single aggregate
/// message naming each failing item's index, while the items that did
/// succeed remain persisted.
pub fn upload_multiple_files(files: Vec<UploadFileCommand>, service: &mut FileManagerService) -> (
    r: CommandResponse<Vec<UploadResponse>>)
    requires
        old(service).inv(),
    ensures
        final(service).inv(),
        final(service).config == old(service).config,
        files@.len() == 0 ==> !r.success && *final(service) == *old(service),
        files@.len() > 50 ==> !r.success && *final(service) == *old(service),
        !r.success ==> r.data is None && r.error is Some,
        forall|q: Seq<char>|
            old(service).db_service.has_file_id(q) ==> final(service).db_service.has_file_id(q),
        r.success ==> (r.data matches Some(v) && v@.len() == files@.len() && (forall|i: int|
            0 <= i < v@.len() ==> (#[trigger] v@[i]).original_name@ == files@[i].original_name@
                && v@[i].file_size == files@[i].file_data@.len())),
{
    if files.len() == 0 {
        return CommandResponse::error(String::from_str("No files to upload"));
    }
    if files.len() > 50 {
        return CommandResponse::error(
            String::from_str("Too many files, maximum 50 files per batch"),
        );
    }
    let ghost orig = files@;
    let ghost n0 = files@.len();
    let mut pending = files;
    let mut results: Vec<UploadResponse> = Vec::new();
    let mut errors: Vec<String> = Vec::new();
    let mut index: u64 = 0;
    while pending.len() > 0
        invariant
            service.inv(),
            service.config == old(service).config,
            n0 == orig.len(),
            0 < n0 <= 50,
            pending@ == orig.skip(n0 - pending@.len()),
            index == n0 - pending@.len(),
            results@.len() + errors@.len() == n0 - pending@.len(),
            errors@.len() == 0 ==> (results@.len() == n0 - pending@.len() && (forall|k: int|
                0 <= k < results@.len() ==> (#[trigger] results@[k]).original_name@ == orig[
                    k
                ].original_name@ && results@[k].file_size == orig[k].file_data@.len())),
            forall|q: Seq<char>|
                old(service).db_service.has_file_id(q) ==> service.db_service.has_file_id(q),
        decreases pending@.len(),
    {
        let ghost processed = n0 - pending@.len();
        let cmd = pending.remove(0);
        proof {
            assert(cmd == orig[processed as int]);
            assert(pending@ =~= orig.skip(processed as int + 1));
        }
        if cmd.file_data.len() == 0 {
            let mut m = String::from_str("File ");
            crate::text::push_decimal(&mut m, index);
            m.append(" has empty data");
            errors.push(m);
        } else if is_blank(cmd.original_name.as_str()) {
            let mut m = String::from_str("File ");
            crate::text::push_decimal(&mut m, index);
            m.append(" has empty name");
            errors.push(m);
        } else {
            let request = UploadRequest {
                file_data: cmd.file_data,
                original_name: cmd.original_name,
                directory_id: cmd.directory_id,
            };
            let ghost pre_call = *service;
            match service.upload_file(request) {
                Ok(resp) => {
                    results.push(resp);
                },
                Err(e) => {
                    proof {
                        assert forall|q: Seq<char>|
                            pre_call.db_service.has_file_id(q) implies service.db_service.has_file_id(q) by {
                            let i = pre_call.db_service.file_index(q);
                            assert(service.db_service.files@[i].id@ == q);
                        }
                    }
                    let mut m = String::from_str("File ");
                    crate::text::push_decimal(&mut m, index);
                    m.append(": ");
                    m.append(e.message().as_str());
                    errors.push(m);
                },
            }
        }
        index = index + 1;
    }
    if errors.len() > 0 {
        let mut msg = String::from_str("Some files failed to upload: ");
        let en = errors.len();
        let mut k: usize = 0;
        while k < en
            invariant
                k <= en,
                en == errors@.len(),
            decreases en - k,
        {
            if k > 0 {
                msg.append(", ");
            }
            msg.append(errors[k].as_str());
            k = k + 1;
        }
        return CommandResponse::error(msg);
    }
    CommandResponse::success(results)
}

/// A file row's stored or original name carries the folded query.
pub open spec fn rec_hit(f: crate::database::FileInfo, ql: Seq<char>) -> bool {
    contains_seq(lower_of(f.name@), ql) || contains_seq(lower_of(f.original_name@), ql)
}

/// The rows whose names carry the folded query.
pub open spec fn hit_pred(ql: Seq<char>) -> spec_fn(crate::database::FileInfo) -> bool {
    |f: crate::database::FileInfo| rec_hit(f, ql)
}

/// Handles a search order: a case-insensitive substring filter over the
/// stored and original names. Within one directory the answer is exactly
/// the matching rows in name order; over the whole catalog it lists, for
/// every row whose owning directory stands, an entry whenever the row
/// matches.
pub fn search_files(
    query: String,
    directory_id: Option<String>,
    service: &FileManagerService,
) -> (r: CommandResponse<Vec<FileListItem>>)
    requires
        service.inv(),
    ensures
        (blank_seq(query@) || query@.len() < 2) == !r.success,
        !r.success ==> r.data is None && r.error is Some,
        r.success ==> (r.data matches Some(v) && forall|i: int|
            0 <= i < v@.len() ==> query_hit(#[trigger] v@[i], lower_of(query@))),
        r.success ==> (match directory_id {
            Some(did) => r.data matches Some(v) && ({
                let hits = sort_by_key(
                    service.db_service.files@.filter(owned_by(did@)),
                    crate::database::file_name_key(),
                ).filter(hit_pred(lower_of(query@)));
                &&& v@.len() == hits.len()
                &&& forall|i: int| 0 <= i < v@.len() ==> item_matches(#[trigger] v@[i], hits[i])
            }),
            None => r.data matches Some(v) && (forall|q: Seq<char>|
                service.db_service.has_file_id(q) && service.db_service.has_dir_id(
                    service.db_service.file_rec(q).directory_id@,
                ) && rec_hit(service.db_service.file_rec(q), lower_of(query@)) ==> exists|j: int|
                    0 <= j < v@.len() && #[trigger] item_matches(
                        v@[j],
                        service.db_service.file_rec(q),
                    )),
        }),
{
    if is_blank(query.as_str()) {
        return CommandResponse::error(String::from_str("Search query cannot be empty"));
    }
    if query.as_str().unicode_len() < 2 {
        return CommandResponse::error(
            String::from_str("Search query must be at least 2 characters"),
        );
    }
    let ql = fold_lower(query.as_str());
    match &directory_id {
        Some(did) => {
            let candidates = match service.get_files_in_directory(did.as_str()) {
                Ok(v) => v,
                Err(e) => {
                    return CommandResponse::error(e.message());
                },
            };
            let ghost recs = sort_by_key(
                service.db_service.files@.filter(owned_by(did@)),
                crate::database::file_name_key(),
            );
            let ghost pred = hit_pred(lower_of(query@));
            let mut out: Vec<FileListItem> = Vec::new();
            let cn = candidates.len();
            let mut ci: usize = 0;
            proof {
                assert(recs.take(0).filter(pred) =~= Seq::<crate::database::FileInfo>::empty());
            }
            while ci < cn
                invariant
                    ci <= cn,
                    cn == candidates@.len(),
                    cn == recs.len(),
                    forall|k: int|
                        0 <= k < cn ==> item_matches(#[trigger] candidates@[k], recs[k]),
                    ql@ == lower_of(query@),
                    pred == hit_pred(lower_of(query@)),
                    out@.len() == recs.take(ci as int).filter(pred).len(),
                    forall|k: int|
                        0 <= k < out@.len() ==> item_matches(
                            #[trigger] out@[k],
                            recs.take(ci as int).filter(pred)[k],
                        ),
                    forall|k: int|
                        0 <= k < out@.len() ==> query_hit(#[trigger] out@[k], lower_of(query@)),
                decreases cn - ci,
            {
                let it = &candidates[ci];
                let folded_name = fold_lower(it.name.as_str());
                let folded_orig = fold_lower(it.original_name.as_str());
                let is_hit = contains_sub(folded_name.as_str(), ql.as_str()) || contains_sub(
                    folded_orig.as_str(),
                    ql.as_str(),
                );
                proof {
                    assert(candidates@[ci as int].name@ == recs[ci as int].name@);
                    assert(candidates@[ci as int].original_name@ == recs[ci as int].original_name@);
                    assert(is_hit == rec_hit(recs[ci as int], lower_of(query@)));
                    assert(pred(recs[ci as int]) == is_hit);
                    assert(recs.take(ci as int + 1) == recs.take(ci as int).push(
                        recs[ci as int],
                    ));
                }
                if is_hit {
                    let ghost pre_filter = recs.take(ci as int).filter(pred);
                    out.push(
                        FileListItem {
                            id: it.id.clone(),
                            name: it.name.clone(),
                            original_name: it.original_name.clone(),
                            file_size: it.file_size,
                            mime_type: it.mime_type.clone(),
                            created_at: it.created_at.clone(),
                            updated_at: it.updated_at.clone(),
                        },
                    );
                    proof {
                        assert(recs.take(ci as int + 1).filter(pred) == pre_filter.push(
                            recs[ci as int],
                        ));
                        assert(item_matches(out@[out@.len() - 1], recs[ci as int]));
                    }
                }
                ci = ci + 1;
            }
            proof {
                assert(recs.take(cn as int) == recs);
            }
            CommandResponse::success(out)
        },
        None => {
            let tree = match service.get_directory_tree() {
                Ok(t) => t,
                Err(e) => {
                    return CommandResponse::error(e.message());
                },
            };
            let ghost db = service.db_service;
            let ghost dirrecs = sort_by_key(db.directories@, crate::database::dir_path_key());
            let mut all: Vec<FileListItem> = Vec::new();
            let tn = tree.len();
            let mut ti: usize = 0;
            while ti < tn
                invariant
                    ti <= tn,
                    tn == tree@.len(),
                    service.inv(),
                    db == service.db_service,
                    dirrecs == sort_by_key(db.directories@, crate::database::dir_path_key()),
                    tn == dirrecs.len(),
                    forall|w: int|
                        0 <= w < tn ==> crate::service::node_matches(
                            #[trigger] tree@[w],
                            dirrecs[w],
                        ),
                    forall|q: Seq<char>|
                        db.has_file_id(q) && (exists|w: int|
                            0 <= w < ti && (#[trigger] tree@[w]).id@ == db.file_rec(
                                q,
                            ).directory_id@) ==> exists|j: int|
                            0 <= j < all@.len() && #[trigger] item_matches(
                                all@[j],
                                db.file_rec(q),
                            ),
                decreases tn - ti,
            {
                let node = &tree[ti];
                let ghost pre_all = all@;
                match service.get_files_in_directory(node.id.as_str()) {
                    Ok(mut found) => {
                        proof {
                            let frecs = sort_by_key(
                                db.files@.filter(owned_by(node.id@)),
                                crate::database::file_name_key(),
                            );
                            assert(found@.len() == frecs.len());
                        }
                        all.append(&mut found);
                    },
                    Err(_) => {},
                }
                proof {
                    let frecs = sort_by_key(
                        db.files@.filter(owned_by(tree@[ti as int].id@)),
                        crate::database::file_name_key(),
                    );
                    assert forall|q: Seq<char>|
                        db.has_file_id(q) && (exists|w: int|
                            0 <= w < ti + 1 && (#[trigger] tree@[w]).id@ == db.file_rec(
                                q,
                            ).directory_id@) implies exists|j: int|
                            0 <= j < all@.len() && #[trigger] item_matches(
                                all@[j],
                                db.file_rec(q),
                            ) by {
                        let w = choose|w: int|
                            0 <= w < ti + 1 && (#[trigger] tree@[w]).id@ == db.file_rec(
                                q,
                            ).directory_id@;
                        if w < ti {
                            let j = choose|j: int|
                                0 <= j < pre_all.len() && #[trigger] item_matches(
                                    pre_all[j],
                                    db.file_rec(q),
                                );
                            assert(all@[j] == pre_all[j]);
                        } else {
                            let rec = db.file_rec(q);
                            let i0 = db.file_index(q);
                            let filtered = db.files@.filter(owned_by(tree@[ti as int].id@));
                            assert(owned_by(tree@[ti as int].id@)(db.files@[i0]));
                            assert(filtered.contains(db.files@[i0]));
                            let j2 = choose|j2: int|
                                0 <= j2 < filtered.len() && filtered[j2] == db.files@[i0];
                            crate::text::lemma_sort_contains(
                                filtered,
                                crate::database::file_name_key(),
                            );
                            let k = choose|k: int|
                                0 <= k < frecs.len() && frecs[k] == filtered[j2];
                            assert(item_matches(all@[pre_all.len() + k], rec));
                        }
                    }
                }
                ti = ti + 1;
            }
            let mut out: Vec<FileListItem> = Vec::new();
            let cn = all.len();
            let mut ci: usize = 0;
            while ci < cn
                invariant
                    ci <= cn,
                    cn == all@.len(),
                    ql@ == lower_of(query@),
                    forall|k: int|
                        0 <= k < out@.len() ==> query_hit(#[trigger] out@[k], lower_of(query@)),
                    forall|j: int|
                        0 <= j < ci && query_hit(#[trigger] all@[j], lower_of(query@))
                            ==> exists|k: int| 0 <= k < out@.len() && out@[k] == all@[j],
                decreases cn - ci,
            {
                let it = &all[ci];
                let folded_name = fold_lower(it.name.as_str());
                let folded_orig = fold_lower(it.original_name.as_str());
                let is_hit = contains_sub(folded_name.as_str(), ql.as_str()) || contains_sub(
                    folded_orig.as_str(),
                    ql.as_str(),
                );
                proof {
                    assert(is_hit == query_hit(all@[ci as int], lower_of(query@)));
                }
                let ghost pre_out = out@;
                if is_hit {
                    out.push(
                        FileListItem {
                            id: it.id.clone(),
                            name: it.name.clone(),
                            original_name: it.original_name.clone(),
                            file_size: it.file_size,
                            mime_type: it.mime_type.clone(),
                            created_at: it.created_at.clone(),
                            updated_at: it.updated_at.clone(),
                        },
                    );
                    proof {
                        assert(out@[out@.len() - 1] == all@[ci as int]);
                    }
                }
                proof {
                    assert forall|j: int|
                        0 <= j < ci + 1 && query_hit(#[trigger] all@[j], lower_of(query@))
                            implies exists|k: int|
                            0 <= k < out@.len() && out@[k] == all@[j] by {
                        if j < ci {
                            let k = choose|k: int|
                                0 <= k < pre_out.len() && pre_out[k] == all@[j];
                            assert(out@[k] == all@[j]);
                        } else {
                            assert(out@[out@.len() - 1] == all@[j]);
                        }
                    }
                }
                ci = ci + 1;
            }
            proof {
                assert forall|q: Seq<char>|
                    db.has_file_id(q) && db.has_dir_id(db.file_rec(q).directory_id@) && rec_hit(
                        db.file_rec(q),
                        lower_of(query@),
                    ) implies exists|j: int|
                        0 <= j < out@.len() && #[trigger] item_matches(
                            out@[j],
                            db.file_rec(q),
                        ) by {
                    let did = db.file_rec(q).directory_id@;
                    let di = db.dir_index(did);
                    crate::text::lemma_sort_contains(
                        db.directories@,
                        crate::database::dir_path_key(),
                    );
                    let w = choose|w: int|
                        0 <= w < dirrecs.len() && dirrecs[w] == db.directories@[di];
                    assert(tree@[w].id@ == did);
                    let j = choose|j: int|
                        0 <= j < all@.len() && #[trigger] item_matches(all@[j], db.file_rec(q));
                    assert(query_hit(all@[j], lower_of(query@)));
                    let k = choose|k: int| 0 <= k < out@.len() && out@[k] == all@[j];
                    assert(item_matches(out@[k], db.file_rec(q)));
                }
            }
            CommandResponse::success(out)
        },
    }
}

/// Handles a statistics order: one pass over the catalog, counting the
/// rows whose directory stands, with a clamped byte total and the latest
/// upload stamp.
pub fn get_storage_stats(service: &FileManagerService) -> (r: CommandResponse<StorageStats>)
    requires
        service.inv(),
    ensures
        r.success,
        r.data matches Some(st) && ({
            let db = service.db_service;
            &&& st.total_files == db.files@.filter(counted_pred(db)).len()
            &&& st.total_directories == db.directories@.len()
            &&& st.total_size == total_size_upto(db, db.files@.len() as int)
            &&& st.largest_file_size == largest_upto(db, db.files@.len() as int)
            &&& crate::database::opt_view(st.most_recent_upload) == recent_upto(
                db,
                db.files@.len() as int,
            )
        }),
{
    let db = &service.db_service;
    let ghost dbg = service.db_service;
    let n = db.files.len();
    let mut total_files: usize = 0;
    let mut total_size: i64 = 0;
    let mut largest: i64 = 0;
    let mut recent: Option<String> = None;
    let mut i: usize = 0;
    proof {
        assert(dbg.files@.take(0).filter(counted_pred(dbg)) =~= Seq::<
            crate::database::FileInfo,
        >::empty());
    }
    while i < n
        invariant
            i <= n,
            n == dbg.files@.len(),
            db == &service.db_service,
            dbg == service.db_service,
            total_files == dbg.files@.take(i as int).filter(counted_pred(dbg)).len(),
            total_files <= i,
            total_size == total_size_upto(dbg, i as int),
            largest == largest_upto(dbg, i as int),
            crate::database::opt_view(recent) == recent_upto(dbg, i as int),
        decreases n - i,
    {
        let f = &db.files[i];
        let counted = dir_id_exists(db, f.directory_id.as_str());
        proof {
            assert(counted == counted_pred(dbg)(dbg.files@[i as int]));
            assert(dbg.files@.take(i as int + 1) == dbg.files@.take(i as int).push(
                dbg.files@[i as int],
            ));
        }
        if counted {
            total_files = total_files + 1;
            let s128: i128 = total_size as i128 + f.file_size as i128;
            total_size = if s128 > 0x7fff_ffff_ffff_ffff_i128 {
                0x7fff_ffff_ffff_ffff_i64
            } else if s128 < -0x8000_0000_0000_0000_i128 {
                -0x8000_0000_0000_0000_i64
            } else {
                s128 as i64
            };
            if f.file_size > largest {
                largest = f.file_size;
            }
            let replace = match &recent {
                None => true,
                Some(rv) => !str_le(f.created_at.as_str(), rv.as_str()),
            };
            if replace {
                recent = Some(f.created_at.clone());
            }
        }
        i = i + 1;
    }
    proof {
        assert(dbg.files@.take(n as int) == dbg.files@);
    }
    let stats = StorageStats {
        total_files,
        total_directories: db.directories.len(),
        total_size,
        largest_file_size: largest,
        most_recent_upload: recent,
    };
    CommandResponse::success(stats)
}

/// The extension allow list the type-check command answers from.
pub open spec fn dispatcher_types_seq() -> Seq<Seq<char>> {
    seq![
        "jpg"@,
        "jpeg"@,
        "png"@,
        "gif"@,
        "bmp"@,
        "webp"@,
        "svg"@,
        "pdf"@,
        "txt"@,
        "md"@,
        "zip"@,
        "rar"@,
        "7z"@,
        "doc"@,
        "docx"@,
        "xls"@,
        "xlsx"@,
        "ppt"@,
        "pptx"@,
    ]
}

/// Handles a type-check order against the dispatcher's fixed allow list.
pub fn validate_file_type(filename: String, service: &FileManagerService) -> (r: CommandResponse<
    bool,
>)
    ensures
        blank_seq(filename@) == !r.success,
        !r.success ==> r.data is None && r.error is Some,
        r.success ==> (r.data matches Some(b) && b == (ext_of(filename@).len() > 0
            && dispatcher_types_seq().contains(lower_of(ext_of(filename@))))),
{
    if is_blank(filename.as_str()) {
        return CommandResponse::error(String::from_str("Filename cannot be empty"));
    }
    let mut types: Vec<String> = Vec::new();
    types.push(String::from_str("jpg"));
    types.push(String::from_str("jpeg"));
    types.push(String::from_str("png"));
    types.push(String::from_str("gif"));
    types.push(String::from_str("bmp"));
    types.push(String::from_str("webp"));
    types.push(String::from_str("svg"));
    types.push(String::from_str("pdf"));
    types.push(String::from_str("txt"));
    types.push(String::from_str("md"));
    types.push(String::from_str("zip"));
    types.push(String::from_str("rar"));
    types.push(String::from_str("7z"));
    types.push(String::from_str("doc"));
    types.push(String::from_str("docx"));
    types.push(String::from_str("xls"));
    types.push(String::from_str("xlsx"));
    types.push(String::from_str("ppt"));
    types.push(String::from_str("pptx"));
    proof {
        assert(types.deep_view() =~= dispatcher_types_seq());
    }
    let is_supported = service.fs_service.is_file_type_supported(filename.as_str(), &types);
    CommandResponse::success(is_supported)
}

} // verus!
