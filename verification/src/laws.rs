//! The library's laws: properties that span several operations, stated
//! over the same spec functions the operations' contracts use and proved
//! from them. Where an operation borrows its state, the hypothesis is the
//! operation's own contract, taken through `call_ensures`; where it
//! mutates, the hypotheses restate the guaranteed clauses, and the
//! conclusion is what the next operation's contract then forces.

use vstd::prelude::*;
use crate::database::{DatabaseService, DirectoryInfo};
use crate::filesystem::{
    concat_upto, content_of, path_under, stop_index, FileSystemService,
};
use crate::service::{
    child_path, node_matches, requested_path, CreateDirectoryRequest, CreateDirectoryResponse,
    DirectoryTreeNode, FileManagerService, UploadRequest, UploadResponse,
};

verus! {

/// Creating a directory and then looking it up by the returned identifier
/// yields a record whose path follows the deterministic construction
/// rule: the parent's trimmed path, a slash and the name — or a leading
/// slash and the name for a root directory.
pub proof fn lemma_create_then_get_directory(
    pre: FileManagerService,
    post: FileManagerService,
    request: CreateDirectoryRequest,
    resp: CreateDirectoryResponse,
    directory_id: &str,
    got: crate::error::FmResult<Option<DirectoryInfo>>,
)
    requires
        directory_id@ == resp.directory_id@,
        post.db_service.wf(),
        post.db_service.has_dir_id(resp.directory_id@),
        post.db_service.dir_rec(resp.directory_id@).path@ == requested_path(pre, request),
        call_ensures(DatabaseService::get_directory, (&post.db_service, directory_id), got),
    ensures
        got matches Ok(opt) && opt matches Some(d) && d.path@ == (match request.parent_id {
            Some(p) => child_path(pre.db_service.dir_rec(p@).path@, request.name@),
            None => seq!['/'] + request.name@,
        }),
{
}

/// Path uniqueness: once a creation has succeeded, a second creation that
/// resolves to the same computed path is answered with a conflict.
pub proof fn lemma_second_create_conflicts(
    s1: FileManagerService,
    s2: FileManagerService,
    request: CreateDirectoryRequest,
    r2: crate::error::FmResult<CreateDirectoryResponse>,
)
    requires
        s1.db_service.has_dir_path(requested_path(s1, request)),
        !crate::service::blank_seq(request.name@),
        match request.parent_id {
            Some(p) => s1.db_service.has_dir_id(p@),
            None => true,
        },
        !crate::service::blank_seq(request.name@) && (match request.parent_id {
            Some(p) => s1.db_service.has_dir_id(p@),
            None => true,
        }) && s1.db_service.has_dir_path(requested_path(s1, request)) ==> ((r2 matches Err(
            crate::error::FileManagerError::Conflict { .. },
        )) && s2.db_service.directories@ == s1.db_service.directories@),
    ensures
        r2 matches Err(crate::error::FileManagerError::Conflict { .. }),
        s2.db_service.directories@ == s1.db_service.directories@,
{
}

/// Round trip: the bytes an upload stored are exactly the bytes a
/// following content read hands back.
pub proof fn lemma_upload_then_read(
    s1: FileManagerService,
    request: UploadRequest,
    resp: UploadResponse,
    file_id: &str,
    read_result: crate::error::FmResult<Vec<u8>>,
)
    requires
        file_id@ == resp.file_id@,
        s1.db_service.has_file_id(resp.file_id@),
        s1.fs_service.has_object(s1.db_service.file_rec(resp.file_id@).file_path@),
        s1.fs_service.object_at(s1.db_service.file_rec(resp.file_id@).file_path@)
            == request.file_data@,
        call_ensures(FileManagerService::read_file_content, (&s1, file_id), read_result),
    ensures
        read_result matches Ok(d) && d@ == request.file_data@,
{
}

/// Size boundary: a payload of exactly the limit is never refused for its
/// size, and a payload one byte over the limit is refused with the size
/// error and nothing else.
pub proof fn lemma_upload_size_boundary(
    s0: FileManagerService,
    request: UploadRequest,
    r: crate::error::FmResult<UploadResponse>,
)
    requires
        (request.file_data@.len() > s0.config.max_file_size) == (r matches Err(
            crate::error::FileManagerError::FileSizeExceeded { .. },
        )),
    ensures
        request.file_data@.len() <= s0.config.max_file_size ==> !(r matches Err(
            crate::error::FileManagerError::FileSizeExceeded { .. },
        )),
        request.file_data@.len() > s0.config.max_file_size ==> r is Err,
{
}

/// Type boundary: an upload within the size limit is refused with the
/// type error exactly when the name's folded extension is off the allow
/// list.
pub proof fn lemma_upload_type_boundary(
    s0: FileManagerService,
    request: UploadRequest,
    r: crate::error::FmResult<UploadResponse>,
)
    requires
        (request.file_data@.len() <= s0.config.max_file_size && !s0.ext_supported(
            request.original_name@,
        )) == (r matches Err(crate::error::FileManagerError::UnsupportedFileType { .. })),
    ensures
        request.file_data@.len() <= s0.config.max_file_size && !s0.ext_supported(
            request.original_name@,
        ) ==> r is Err,
        request.file_data@.len() <= s0.config.max_file_size && s0.ext_supported(
            request.original_name@,
        ) ==> !(r matches Err(crate::error::FileManagerError::UnsupportedFileType { .. })),
{
}

/// Cascade: deleting a directory that holds a subdirectory that holds a
/// file removes all three records and the file's payload; by the lookup
/// contracts, every later lookup of the three identifiers then answers
/// none or not-found.
pub proof fn lemma_cascade_clears_lookups(
    s0: FileManagerService,
    s1: FileManagerService,
    a: Seq<char>,
    b: Seq<char>,
    f: Seq<char>,
)
    requires
        s0.db_service.has_dir_id(a),
        s0.db_service.has_dir_id(b),
        path_under(s0.db_service.dir_rec(a).path@, s0.db_service.dir_rec(b).path@),
        s0.db_service.has_file_id(f),
        s0.db_service.file_rec(f).directory_id@ == b,
        !s1.db_service.has_dir_id(a),
        forall|q: Seq<char>|
            s0.db_service.has_dir_id(q) && path_under(
                s0.db_service.dir_rec(a).path@,
                s0.db_service.dir_rec(q).path@,
            ) ==> !s1.db_service.has_dir_id(q),
        forall|q: Seq<char>|
            s0.db_service.has_file_id(q) && !crate::database::file_outside_tree(
                s0.db_service.directories@,
                s0.db_service.dir_rec(a).path@,
            )(s0.db_service.file_rec(q)) ==> !s1.db_service.has_file_id(q)
                && !s1.fs_service.has_object(s0.db_service.file_rec(q).file_path@),
    ensures
        !s1.db_service.has_dir_id(a),
        !s1.db_service.has_dir_id(b),
        !s1.db_service.has_file_id(f),
        !s1.fs_service.has_object(s0.db_service.file_rec(f).file_path@),
{
    let base = s0.db_service.dir_rec(a).path@;
    assert(!s1.db_service.has_dir_id(b));
    assert(!crate::database::file_outside_tree(s0.db_service.directories@, base)(
        s0.db_service.file_rec(f),
    )) by {
        let i = s0.db_service.dir_index(b);
        assert(path_under(base, s0.db_service.directories@[i].path@));
        assert(s0.db_service.directories@[i].id@ == s0.db_service.file_rec(f).directory_id@);
    }
}

/// Chunked ingestion matches the single shot: a reader that yields the
/// same bytes in any chunk boundaries leaves byte-identical content of
/// identical reported size.
pub proof fn lemma_chunked_matches_single(
    fs1: FileSystemService,
    fs2: FileSystemService,
    cs: Seq<Seq<u8>>,
    data: Seq<u8>,
    p1: Seq<char>,
    p2: Seq<char>,
    size_chunked: u64,
    size_single: u64,
)
    requires
        content_of(cs) == data,
        fs1.has_object(p1),
        fs1.object_at(p1) == content_of(cs),
        size_chunked == content_of(cs).len(),
        fs2.has_object(p2),
        fs2.object_at(p2) == data,
        size_single == data.len(),
    ensures
        fs1.object_at(p1) == fs2.object_at(p2),
        size_chunked == size_single,
{
}

/// Progress reporting: the chunked save's events carry strictly
/// non-decreasing byte counts, every event names the expected size, and
/// when the reader delivered exactly the expected size the last event
/// ends there.
pub proof fn lemma_progress_events(cs: Seq<Seq<u8>>, expected: u64, events: Seq<(u64, u64)>)
    requires
        content_of(cs).len() <= u64::MAX,
        events.len() == stop_index(cs),
        forall|k: int|
            0 <= k < events.len() ==> #[trigger] events[k] == ((
                concat_upto(cs, k + 1).len() as u64,
                expected,
            )),
    ensures
        forall|k1: int, k2: int|
            0 <= k1 <= k2 < events.len() ==> (#[trigger] events[k1]).0 <= (
            #[trigger] events[k2]).0,
        forall|k: int| 0 <= k < events.len() ==> (#[trigger] events[k]).1 == expected,
        forall|k: int|
            0 <= k < events.len() - 1 ==> (#[trigger] events[k]).0 < (#[trigger] events[k
                + 1]).0,
        events.len() > 0 && content_of(cs).len() == expected ==> events[events.len() - 1].0
            == expected,
{
    crate::filesystem::lemma_stop_index_bounds(cs);
    assert forall|k: int| 0 <= k < events.len() - 1 implies (#[trigger] events[k]).0 < (
    #[trigger] events[k + 1]).0 by {
        assert(cs[k + 1].len() > 0);
        assert(concat_upto(cs, k + 2) == concat_upto(cs, k + 1) + cs[k + 1]);
        crate::filesystem::lemma_concat_upto_mono(cs, k + 2, stop_index(cs));
    }
    assert forall|k1: int, k2: int|
        0 <= k1 <= k2 < events.len() implies (#[trigger] events[k1]).0 <= (
    #[trigger] events[k2]).0 by {
        crate::filesystem::lemma_concat_upto_mono(cs, k1 + 1, k2 + 1);
        crate::filesystem::lemma_concat_upto_mono(cs, k2 + 1, stop_index(cs));
        crate::filesystem::lemma_concat_upto_mono(cs, k1 + 1, stop_index(cs));
    }
    if events.len() > 0 {
        assert(events[events.len() - 1].0 == concat_upto(cs, stop_index(cs)).len() as u64);
    }
}

/// Idempotent read: two directory-tree queries against one unchanged
/// state answer entry-for-entry equal listings.
pub proof fn lemma_tree_query_deterministic(
    s: FileManagerService,
    r1: crate::error::FmResult<Vec<DirectoryTreeNode>>,
    r2: crate::error::FmResult<Vec<DirectoryTreeNode>>,
)
    requires
        s.inv(),
        call_ensures(FileManagerService::get_directory_tree, (&s,), r1),
        call_ensures(FileManagerService::get_directory_tree, (&s,), r2),
    ensures
        r1 matches Ok(v1) && r2 matches Ok(v2) && v1@.len() == v2@.len() && (forall|i: int|
            0 <= i < v1@.len() ==> (#[trigger] v1@[i]).id == (#[trigger] v2@[i]).id
                && v1@[i].name == v2@[i].name && v1@[i].parent_id == v2@[i].parent_id
                && v1@[i].path == v2@[i].path && v1@[i].created_at == v2@[i].created_at
                && v1@[i].file_count == v2@[i].file_count && v1@[i].children@.len()
                == v2@[i].children@.len()),
{
}

} // verus!
