//! The orchestration service: uploads, directory lifecycle and queries,
//! composed from the metadata store and the content store under the
//! physical-first ordering, with explicit compensation when the metadata
//! step fails after the physical step succeeded.

use vstd::prelude::*;
use vstd::string::*;
use crate::config::{shard_subdir, FileManagerConfig};
use crate::database::{
    dir_name_key, dir_path_key, file_name_key, file_outside_tree, opt_view, owned_by,
    same_parent, DatabaseService, DirectoryInfo, FileInfo,
};
use crate::error::{FileManagerError, FmResult};
use crate::filesystem::{mime_spec, path_under, FileSystemService};
use crate::foreign::{lower_of, today_ymd};
use crate::text::{
    ext_of, extension_of, join_seq, sort_by_key, trim_slashes, trim_trailing_slashes,
};

verus! {

broadcast use vstd::seq::Seq::lemma_filter_push, vstd::seq::Seq::lemma_take_succ_push, vstd::seq::Seq::lemma_take_len, vstd::seq_lib::group_filter_ensures;

/// An upload order: raw bytes, the user's name for them, and the target
/// directory (absent for the root).
#[derive(Debug, Clone)]
pub struct UploadRequest {
    pub file_data: Vec<u8>,
    pub original_name: String,
    pub directory_id: Option<String>,
}

/// What a finished upload reports back.
#[derive(Debug, Clone, PartialEq)]
pub struct UploadResponse {
    pub file_id: String,
    pub file_name: String,
    pub original_name: String,
    pub file_size: i64,
    pub mime_type: String,
    pub directory_id: String,
    pub created_at: String,
}

/// A directory creation order.
#[derive(Debug, Clone)]
pub struct CreateDirectoryRequest {
    pub name: String,
    pub parent_id: Option<String>,
}

/// What a finished directory creation reports back.
#[derive(Debug, Clone, PartialEq)]
pub struct CreateDirectoryResponse {
    pub directory_id: String,
    pub name: String,
    pub parent_id: Option<String>,
    pub path: String,
    pub created_at: String,
}

/// One entry of the directory listing: a flat node annotated with its
/// parent, for the caller to assemble into a tree; `children` stays empty.
#[derive(Debug, PartialEq)]
pub struct DirectoryTreeNode {
    pub id: String,
    pub name: String,
    pub parent_id: Option<String>,
    pub path: String,
    pub children: Vec<DirectoryTreeNode>,
    pub file_count: usize,
    pub created_at: String,
}

/// One entry of a file listing.
#[derive(Debug, Clone, PartialEq)]
pub struct FileListItem {
    pub id: String,
    pub name: String,
    pub original_name: String,
    pub file_size: i64,
    pub mime_type: String,
    pub created_at: String,
    pub updated_at: String,
}

/// The orchestration service over the two stores.
pub struct FileManagerService {
    pub config: FileManagerConfig,
    pub db_service: DatabaseService,
    pub fs_service: FileSystemService,
}

/// The path given to a directory created under this parent: the parent's
/// path without trailing slashes, a slash, and the name (a leading slash
/// and the name for a root directory).
pub open spec fn child_path(parent_path: Seq<char>, name: Seq<char>) -> Seq<char> {
    trim_trailing_slashes(parent_path) + seq!['/'] + name
}

/// The path a new directory would take for this request.
pub open spec fn requested_path(s: FileManagerService, req: CreateDirectoryRequest) -> Seq<char> {
    match req.parent_id {
        Some(p) => child_path(s.db_service.dir_rec(p@).path@, req.name@),
        None => seq!['/'] + req.name@,
    }
}

/// Nothing but whitespace: the trimmed form is empty.
pub open spec fn blank_seq(s: Seq<char>) -> bool {
    crate::foreign::trim_of(s).len() == 0
}

/// Decides `blank_seq`.
pub fn is_blank(s: &str) -> (r: bool)
    ensures
        r == blank_seq(s@),
{
    crate::foreign::trimmed(s).unicode_len() == 0
}

impl FileManagerService {
    /// Both stores are well formed and the size limit fits a signed count.
    pub open spec fn inv(self) -> bool {
        self.db_service.wf() && self.fs_service.wf() && self.config.max_file_size
            <= 0x7fff_ffff_ffff_ffff
    }

    /// The name carries an extension whose folded form is on the allow
    /// list; a name without an extension is never supported.
    pub open spec fn ext_supported(self, name: Seq<char>) -> bool {
        ext_of(name).len() > 0 && self.config.supported_file_types.deep_view().contains(
            lower_of(ext_of(name)),
        )
    }

    /// Builds the service around the two stores with the stock
    /// configuration: a 100 MiB limit and the common image, document and
    /// archive extensions.
    pub fn new(db_service: DatabaseService, fs_service: FileSystemService) -> (r: Self)
        ensures
            r.db_service == db_service,
            r.fs_service == fs_service,
            r.config.max_file_size == 104857600,
            r.config.supported_file_types.deep_view() == seq![
                "jpg"@,
                "jpeg"@,
                "png"@,
                "gif"@,
                "bmp"@,
                "webp"@,
                "svg"@,
                "pdf"@,
                "txt"@,
                "md"@,
                "zip"@,
            ],
            db_service.wf() && fs_service.wf() ==> r.inv(),
    {
        let mut types: Vec<String> = Vec::new();
        types.push(String::from_str("jpg"));
        types.push(String::from_str("jpeg"));
        types.push(String::from_str("png"));
        types.push(String::from_str("gif"));
        types.push(String::from_str("bmp"));
        types.push(String::from_str("webp"));
        types.push(String::from_str("svg"));
        types.push(String::from_str("pdf"));
        types.push(String::from_str("txt"));
        types.push(String::from_str("md"));
        types.push(String::from_str("zip"));
        proof {
            assert(types.deep_view() =~= seq![
                "jpg"@,
                "jpeg"@,
                "png"@,
                "gif"@,
                "bmp"@,
                "webp"@,
                "svg"@,
                "pdf"@,
                "txt"@,
                "md"@,
                "zip"@,
            ]);
        }
        let config = FileManagerConfig {
            app_data_dir: String::new(),
            database_path: String::new(),
            storage_path: String::new(),
            max_file_size: 104857600,
            supported_file_types: types,
        };
        FileManagerService { config, db_service, fs_service }
    }

    /// Builds the service around the two stores and an explicit
    /// configuration.
    pub fn with_config(
        config: FileManagerConfig,
        db_service: DatabaseService,
        fs_service: FileSystemService,
    ) -> (r: Self)
        ensures
            r.config == config,
            r.db_service == db_service,
            r.fs_service == fs_service,
    {
        FileManagerService { config, db_service, fs_service }
    }

    /// Computes the path a new directory would take under the given
    /// parent.
    fn build_directory_path(&self, name: &str, parent_id: &Option<String>) -> (r: FmResult<
        String,
    >)
        requires
            self.inv(),
        ensures
            match parent_id {
                None => r matches Ok(s) && s@ == seq!['/'] + name@,
                Some(p) => {
                    &&& self.db_service.has_dir_id(p@) ==> (r matches Ok(s) && s@ == child_path(
                        self.db_service.dir_rec(p@).path@,
                        name@,
                    ))
                    &&& !self.db_service.has_dir_id(p@) ==> (r matches Err(
                        FileManagerError::DirectoryNotFound { path: c },
                    ) && c@ == p@)
                },
            },
    {
        match parent_id {
            Some(pid) => {
                match self.db_service.get_directory(pid.as_str()) {
                    Ok(Some(parent)) => {
                        let mut s = trim_slashes(parent.path.as_str());
                        proof {
                            reveal_strlit("/");
                        }
                        s.append("/");
                        s.append(name);
                        proof {
                            assert(s@ =~= child_path(
                                self.db_service.dir_rec(pid@).path@,
                                name@,
                            ));
                        }
                        Ok(s)
                    },
                    Ok(None) => Err(
                        FileManagerError::DirectoryNotFound { path: pid.clone() },
                    ),
                    Err(e) => Err(e),
                }
            },
            None => {
                proof {
                    reveal_strlit("/");
                }
                let mut s = String::from_str("/");
                s.append(name);
                proof {
                    assert(s@ =~= seq!['/'] + name@);
                }
                Ok(s)
            },
        }
    }

    /// Finds the first root directory in name order, creating the
    /// bootstrap `Root` at path `/` when none stands yet.
    pub fn ensure_root_directory(&mut self) -> (r: FmResult<String>)
        requires
            old(self).inv(),
        ensures
            final(self).inv(),
            final(self).config == old(self).config,
            final(self).db_service.files@ == old(self).db_service.files@,
            final(self).fs_service.objects@ == old(self).fs_service.objects@,
            final(self).fs_service.storage_root == old(self).fs_service.storage_root,
            forall|q: Seq<char>|
                old(self).db_service.has_dir_id(q) ==> final(self).db_service.has_dir_id(q)
                    && final(self).db_service.dir_rec(q) == old(self).db_service.dir_rec(q),
            forall|q: Seq<char>|
                old(self).fs_service.has_dir(q) ==> final(self).fs_service.has_dir(q),
            old(self).db_service.directories@.filter(same_parent(None)).len() > 0 ==> (r
                matches Ok(id) && id@ == sort_by_key(
                old(self).db_service.directories@.filter(same_parent(None)),
                dir_name_key(),
            )[0].id@ && *final(self) == *old(self)),
            old(self).db_service.directories@.filter(same_parent(None)).len() == 0 ==> (match r {
                Ok(id) => {
                    &&& final(self).db_service.has_dir_id(id@)
                    &&& final(self).db_service.dir_rec(id@).name@ == "Root"@
                    &&& final(self).db_service.dir_rec(id@).path@ == "/"@
                    &&& opt_view(final(self).db_service.dir_rec(id@).parent_id) is None
                    &&& final(self).db_service.directories@ == old(self).db_service.directories@.push(final(self).db_service.dir_rec(id@))
                },
                Err(e) => e matches FileManagerError::Conflict { .. },
            }),
            r matches Ok(id) ==> final(self).db_service.has_dir_id(id@) && opt_view(
                final(self).db_service.dir_rec(id@).parent_id,
            ) is None,
            r is Err ==> *final(self) == *old(self),
    {
        let roots = match self.db_service.get_child_directories(None) {
            Ok(v) => v,
            Err(e) => {
                return Err(e);
            },
        };
        if roots.len() > 0 {
            proof {
                let filtered = self.db_service.directories@.filter(same_parent(None));
                let sorted = sort_by_key(filtered, dir_name_key());
                assert(roots@[0] == sorted[0]);
                crate::text::lemma_sort_member(filtered, dir_name_key());
                crate::text::lemma_filter_member(self.db_service.directories@, same_parent(None));
                let w = choose|w: int| 0 <= w < filtered.len() && filtered[w] == sorted[0];
                let j = choose|j: int|
                    0 <= j < self.db_service.directories@.len() && self.db_service.directories@[j]
                        == filtered[w];
                assert(self.db_service.directories@[j].id@ == sorted[0].id@);
                assert(same_parent(None)(filtered[w]));
                assert(self.db_service.dir_rec(sorted[0].id@) == self.db_service.directories@[j])
                    by {
                    let k = self.db_service.dir_index(sorted[0].id@);
                    if k != j {
                        assert(self.db_service.directories@[k].id@
                            == self.db_service.directories@[j].id@);
                        assert(false);
                    }
                }
            }
            let first = &roots[0];
            return Ok(first.id.clone());
        }
        proof {
            crate::text::lemma_sort_len(
                self.db_service.directories@.filter(same_parent(None)),
                dir_name_key(),
            );
        }
        let ghost pre = *self;
        let root = match self.db_service.create_directory("Root", None, "/") {
            Ok(rec) => rec,
            Err(e) => {
                proof {
                    assert(e matches FileManagerError::Conflict { .. }) by {
                        if e matches FileManagerError::DirectoryNotFound { .. } {
                            assert(false);
                        }
                    }
                }
                return Err(e);
            },
        };
        match self.fs_service.create_directory("/") {
            Ok(u) => u,
            Err(e) => {
                return Err(e);
            },
        };
        proof {
            DatabaseService::lemma_dirs_push(pre.db_service, self.db_service, root);
        }
        let rid = root.id.clone();
        Ok(rid)
    }
}

impl FileManagerService {
    /// Uploads a payload: size and type gates, directory resolution with
    /// root bootstrap, physical save into the date shard, then the
    /// metadata row — compensating by removing the saved payload when the
    /// metadata step fails.
    pub fn upload_file(&mut self, request: UploadRequest) -> (r: FmResult<UploadResponse>)
        requires
            old(self).inv(),
        ensures
            final(self).inv(),
            final(self).config == old(self).config,
            final(self).fs_service.storage_root == old(self).fs_service.storage_root,
            (request.file_data@.len() > old(self).config.max_file_size) == (r matches Err(
                FileManagerError::FileSizeExceeded { .. },
            )),
            r matches Err(FileManagerError::FileSizeExceeded { size, max_size }) ==> (size
                == request.file_data@.len() && max_size == old(self).config.max_file_size),
            (request.file_data@.len() <= old(self).config.max_file_size && !old(self).ext_supported(request.original_name@)) == (r matches Err(
                FileManagerError::UnsupportedFileType { .. },
            )),
            r matches Err(e) && (e matches FileManagerError::FileSizeExceeded { .. } || e
                matches FileManagerError::UnsupportedFileType { .. } || e
                matches FileManagerError::DirectoryNotFound { .. }) ==> *final(self) == *old(self),
            (match request.directory_id {
                Some(d) => request.file_data@.len() <= old(self).config.max_file_size && old(self).ext_supported(request.original_name@) && !old(self).db_service.has_dir_id(d@),
                None => false,
            }) == (r matches Err(FileManagerError::DirectoryNotFound { .. })),
            r is Err ==> final(self).fs_service.objects_model() == old(self).fs_service.objects_model(),
            r is Err ==> final(self).db_service.files@ == old(self).db_service.files@,
            r matches Err(e) ==> (e matches FileManagerError::FileSizeExceeded { .. } || e
                matches FileManagerError::UnsupportedFileType { .. } || e
                matches FileManagerError::DirectoryNotFound { .. } || e
                matches FileManagerError::Conflict { .. } || e matches FileManagerError::General {
                ..
            }),
            r matches Err(FileManagerError::DirectoryNotFound { path }) ==> (match request.directory_id {
                Some(d) => path@ == d@,
                None => false,
            }),
            r matches Ok(resp) ==> (request.directory_id is None ==> ({
                let roots = old(self).db_service.directories@.filter(same_parent(None));
                &&& opt_view(final(self).db_service.dir_rec(resp.directory_id@).parent_id)
                    is None
                &&& (roots.len() > 0 ==> final(self).db_service.directories@ == old(self).db_service.directories@ && resp.directory_id@ == sort_by_key(
                    roots,
                    dir_name_key(),
                )[0].id@)
                &&& (roots.len() == 0 ==> final(self).db_service.dir_rec(
                    resp.directory_id@,
                ).name@ == "Root"@ && final(self).db_service.dir_rec(resp.directory_id@).path@
                    == "/"@ && final(self).db_service.directories@ == old(self).db_service.directories@.push(
                    final(self).db_service.dir_rec(resp.directory_id@),
                ))
            })),
            r matches Ok(resp) ==> ({
                let rec = final(self).db_service.file_rec(resp.file_id@);
                &&& request.file_data@.len() > 0
                &&& request.file_data@.len() <= old(self).config.max_file_size
                &&& old(self).ext_supported(request.original_name@)
                &&& resp.original_name@ == request.original_name@
                &&& resp.file_size == request.file_data@.len()
                &&& resp.mime_type@ == mime_spec(request.original_name@, request.file_data@)
                &&& resp.created_at@ == rec.created_at@
                &&& resp.file_name@ == rec.name@
                &&& resp.directory_id@ == rec.directory_id@
                &&& final(self).db_service.has_file_id(resp.file_id@)
                &&& !old(self).db_service.has_file_id(resp.file_id@)
                &&& rec.original_name@ == request.original_name@
                &&& rec.file_size == request.file_data@.len()
                &&& (exists|u: Seq<char>|
                    #[trigger] crate::foreign::uuid_chars(u) && rec.name@
                        == crate::text::with_extension(u, ext_of(request.original_name@)))
                &&& rec.mime_type@ == resp.mime_type@
                &&& final(self).fs_service.has_object(rec.file_path@)
                &&& final(self).fs_service.object_at(rec.file_path@) == request.file_data@
                &&& final(self).db_service.has_dir_id(resp.directory_id@)
                &&& (match request.directory_id {
                    Some(d) => resp.directory_id@ == d@ && old(self).db_service.has_dir_id(d@),
                    None => true,
                })
                &&& (forall|q: Seq<char>|
                    old(self).db_service.has_file_id(q) ==> final(self).db_service.has_file_id(
                        q,
                    ) && final(self).db_service.file_rec(q) == old(self).db_service.file_rec(q))
                &&& (forall|q: Seq<char>|
                    final(self).db_service.has_file_id(q) ==> old(self).db_service.has_file_id(q) || q == resp.file_id@)
                &&& (forall|q: Seq<char>|
                    old(self).db_service.has_dir_id(q) ==> final(self).db_service.has_dir_id(q)
                        && final(self).db_service.dir_rec(q) == old(self).db_service.dir_rec(q))
                &&& (forall|q: Seq<char>|
                    old(self).fs_service.has_object(q) ==> final(self).fs_service.has_object(q))
                &&& (forall|q: Seq<char>|
                    q != rec.file_path@ && old(self).fs_service.has_object(q) ==> final(self).fs_service.object_at(q) == old(self).fs_service.object_at(q))
                &&& !old(self).fs_service.has_object(rec.file_path@)
            }),
    {
        if request.file_data.len() as u64 > self.config.max_file_size {
            return Err(
                FileManagerError::FileSizeExceeded {
                    size: request.file_data.len() as u64,
                    max_size: self.config.max_file_size,
                },
            );
        }
        if !self.config.is_file_type_supported(request.original_name.as_str()) {
            let ext = extension_of(request.original_name.as_str());
            let file_type = if ext.as_str().unicode_len() == 0 {
                String::from_str("unknown")
            } else {
                ext
            };
            return Err(FileManagerError::UnsupportedFileType { file_type });
        }
        let directory_id: String = match &request.directory_id {
            Some(id) => {
                let found = match self.db_service.get_directory(id.as_str()) {
                    Ok(o) => o,
                    Err(e) => {
                        return Err(e);
                    },
                };
                if found.is_none() {
                    return Err(FileManagerError::DirectoryNotFound { path: id.clone() });
                }
                id.clone()
            },
            None => {
                match self.ensure_root_directory() {
                    Ok(rid) => rid,
                    Err(e) => {
                        proof {
                            assert(!(e matches FileManagerError::DirectoryNotFound { .. }));
                        }
                        return Err(e);
                    },
                }
            },
        };
        let ghost mid0 = *self;
        let (y, m, d) = today_ymd();
        let shard = shard_subdir(y, m, d);
        let upload_info = match self.fs_service.save_file(
            request.file_data.as_slice(),
            request.original_name.as_str(),
            shard.as_str(),
        ) {
            Ok(u) => u,
            Err(e) => {
                proof {
                    assert(!(e matches FileManagerError::DirectoryNotFound { .. }));
                    assert(!(e matches FileManagerError::FileSizeExceeded { .. }));
                    assert(!(e matches FileManagerError::UnsupportedFileType { .. }));
                }
                return Err(e);
            },
        };
        let ghost mid1 = *self;
        let created = self.db_service.create_file(
            upload_info.unique_name.as_str(),
            request.original_name.as_str(),
            directory_id.as_str(),
            upload_info.saved_path.as_str(),
            request.file_data.len() as i64,
            upload_info.mime_type.as_str(),
        );
        let file_info = match created {
            Ok(f) => f,
            Err(e) => {
                let _cleanup = self.fs_service.delete_file(upload_info.saved_path.as_str());
                proof {
                    let p = upload_info.saved_path@;
                    let base = mid0.fs_service.objects_model();
                    assert(mid1.fs_service.object_index(p) == base.len()) by {
                        let i = mid1.fs_service.object_index(p);
                        assert(mid1.fs_service.has_object(p));
                        if i < base.len() {
                            assert(mid1.fs_service.objects@[i].path@ == p);
                            assert(mid1.fs_service.objects_model()[i].0 == p);
                            assert(base[i].0 == p);
                            assert(mid0.fs_service.objects@[i].path@ == p);
                            assert(false);
                        }
                    }
                    assert(self.fs_service.objects_model() =~= base);
                    assert(mid0.fs_service.objects_model() == old(self).fs_service.objects_model());
                    assert(!(e matches FileManagerError::DirectoryNotFound { .. }));
                    assert(!(e matches FileManagerError::FileSizeExceeded { .. }));
                    assert(!(e matches FileManagerError::UnsupportedFileType { .. }));
                }
                return Err(e);
            },
        };
        proof {
            DatabaseService::lemma_files_push(mid1.db_service, self.db_service, file_info);
        }
        Ok(
            UploadResponse {
                file_id: file_info.id,
                file_name: file_info.name,
                original_name: file_info.original_name,
                file_size: file_info.file_size,
                mime_type: file_info.mime_type,
                directory_id: file_info.directory_id,
                created_at: file_info.created_at,
            },
        )
    }
}

impl FileManagerService {
    /// Creates a directory: name gate, parent check, deterministic path
    /// construction, path-uniqueness check, then physical directory and
    /// metadata row — compensating by dropping the physical directory
    /// when the metadata step fails.
    pub fn create_directory(&mut self, request: CreateDirectoryRequest) -> (r: FmResult<
        CreateDirectoryResponse,
    >)
        requires
            old(self).inv(),
        ensures
            final(self).inv(),
            final(self).config == old(self).config,
            final(self).db_service.files@ == old(self).db_service.files@,
            final(self).fs_service.objects@ == old(self).fs_service.objects@,
            final(self).fs_service.storage_root == old(self).fs_service.storage_root,
            r is Err ==> final(self).fs_service.dir_views() == old(self).fs_service.dir_views(),
            blank_seq(request.name@) == (r matches Err(FileManagerError::General { .. })),
            r matches Err(e) && (e matches FileManagerError::General { .. } || e
                matches FileManagerError::DirectoryNotFound { .. }) ==> *final(self) == *old(self),
            !blank_seq(request.name@) ==> ((match request.parent_id {
                Some(p) => !old(self).db_service.has_dir_id(p@),
                None => false,
            }) == (r matches Err(FileManagerError::DirectoryNotFound { .. }))),
            !blank_seq(request.name@) && (match request.parent_id {
                Some(p) => old(self).db_service.has_dir_id(p@),
                None => true,
            }) && old(self).db_service.has_dir_path(requested_path(*old(self), request)) ==> ((r
                matches Err(FileManagerError::Conflict { .. })) && final(self).db_service.directories@ == old(self).db_service.directories@),
            r matches Ok(resp) ==> ({
                let path = requested_path(*old(self), request);
                let rec = final(self).db_service.dir_rec(resp.directory_id@);
                &&& !blank_seq(request.name@)
                &&& (match request.parent_id {
                    Some(p) => old(self).db_service.has_dir_id(p@),
                    None => true,
                })
                &&& !old(self).db_service.has_dir_path(path)
                &&& resp.name@ == request.name@
                &&& resp.path@ == path
                &&& opt_view(resp.parent_id) == opt_view(request.parent_id)
                &&& resp.created_at@ == rec.created_at@
                &&& final(self).db_service.has_dir_id(resp.directory_id@)
                &&& !old(self).db_service.has_dir_id(resp.directory_id@)
                &&& rec.name@ == request.name@
                &&& rec.path@ == path
                &&& opt_view(rec.parent_id) == opt_view(request.parent_id)
                &&& final(self).db_service.has_dir_path(path)
                &&& final(self).db_service.directories@ == old(self).db_service.directories@.push(rec)
                &&& final(self).fs_service.has_dir(
                    join_seq(old(self).fs_service.storage_root@, path),
                )
                &&& (forall|q: Seq<char>|
                    old(self).db_service.has_dir_id(q) ==> final(self).db_service.has_dir_id(
                    q,
                    ) && final(self).db_service.dir_rec(q) == old(self).db_service.dir_rec(
                    q,
                    ))
                &&& (forall|q: Seq<char>|
                    final(self).db_service.has_dir_id(q) ==> old(self).db_service.has_dir_id(q)
                        || q == resp.directory_id@)
            }),
            r matches Err(e) ==> (e matches FileManagerError::General { .. } || e
                matches FileManagerError::DirectoryNotFound { .. } || e
                matches FileManagerError::Conflict { .. }),
    {
        if is_blank(request.name.as_str()) {
            return Err(FileManagerError::general_error("Directory name cannot be empty"));
        }
        let path = match self.build_directory_path(request.name.as_str(), &request.parent_id) {
            Ok(p) => p,
            Err(e) => {
                return Err(e);
            },
        };
        let exists_already = match self.db_service.path_exists(path.as_str()) {
            Ok(b) => b,
            Err(e) => {
                return Err(e);
            },
        };
        if exists_already {
            return Err(FileManagerError::Conflict { path });
        }
        let had_dir = self.fs_service.directory_exists(path.as_str());
        match self.fs_service.create_directory(path.as_str()) {
            Ok(u) => u,
            Err(e) => {
                return Err(e);
            },
        };
        let ghost mid1 = *self;
        let parent_ref: Option<&str> = match &request.parent_id {
            Some(p) => Some(p.as_str()),
            None => None,
        };
        let created = self.db_service.create_directory(
            request.name.as_str(),
            parent_ref,
            path.as_str(),
        );
        let directory_info = match created {
            Ok(rec) => rec,
            Err(e) => {
                if !had_dir {
                    proof {
                        assert(mid1.fs_service.dir_views().len() == old(self).fs_service.dir_views().len() + 1);
                        assert(mid1.fs_service.dirs@.len() > 0);
                    }
                    let _dropped = self.fs_service.dirs.pop();
                    proof {
                        assert(self.fs_service.dirs@ == mid1.fs_service.dirs@.drop_last());
                        assert forall|i: int|
                            0 <= i < self.fs_service.dirs@.len() implies #[trigger] self.fs_service.dir_views()[i] == old(self).fs_service.dir_views()[i] by {
                            assert(self.fs_service.dirs@[i] == mid1.fs_service.dirs@[i]);
                            assert(mid1.fs_service.dir_views()[i] == mid1.fs_service.dirs@[i]@);
                            assert(mid1.fs_service.dir_views()[i] == old(self).fs_service.dir_views().push(
                                join_seq(old(self).fs_service.storage_root@, path@),
                            )[i]);
                        }
                        assert(self.fs_service.dir_views() =~= old(self).fs_service.dir_views());
                    }
                }
                proof {
                    assert(!(e matches FileManagerError::DirectoryNotFound { .. }));
                    assert(!(e matches FileManagerError::General { .. }));
                }
                return Err(e);
            },
        };
        proof {
            DatabaseService::lemma_dirs_push(mid1.db_service, self.db_service, directory_info);
        }
        let resp_parent = clone_opt(&request.parent_id);
        Ok(
            CreateDirectoryResponse {
                directory_id: directory_info.id,
                name: directory_info.name,
                parent_id: resp_parent,
                path: directory_info.path,
                created_at: directory_info.created_at,
            },
        )
    }

    /// Deletes one file: the payload first, then the metadata row, so
    /// that a failure can at worst leave a dangling row.
    pub fn delete_file(&mut self, file_id: &str) -> (r: FmResult<()>)
        requires
            old(self).inv(),
        ensures
            final(self).inv(),
            final(self).config == old(self).config,
            final(self).db_service.directories@ == old(self).db_service.directories@,
            final(self).fs_service.dirs@ == old(self).fs_service.dirs@,
            final(self).fs_service.storage_root == old(self).fs_service.storage_root,
            !old(self).db_service.has_file_id(file_id@) ==> ((r matches Err(
                FileManagerError::FileNotFound { path },
            ) && path@ == file_id@) && *final(self) == *old(self)),
            old(self).db_service.has_file_id(file_id@) ==> ({
                let rec = old(self).db_service.file_rec(file_id@);
                &&& (old(self).fs_service.has_object(rec.file_path@) ==> (r is Ok && !final(self).db_service.has_file_id(file_id@) && !final(self).fs_service.has_object(
                    rec.file_path@,
                ) && (forall|q: Seq<char>|
                    q != file_id@ ==> final(self).db_service.has_file_id(q) == old(self).db_service.has_file_id(q)) && (forall|q: Seq<char>|
                    q != file_id@ && old(self).db_service.has_file_id(q) ==> final(self).db_service.file_rec(q) == old(self).db_service.file_rec(q)) && (forall|
                    q: Seq<char>,
                |
                    q != rec.file_path@ ==> final(self).fs_service.has_object(q) == old(self).fs_service.has_object(q)) && (forall|q: Seq<char>|
                    q != rec.file_path@ && old(self).fs_service.has_object(q) ==> final(self).fs_service.object_at(q) == old(self).fs_service.object_at(q))))
                &&& (!old(self).fs_service.has_object(rec.file_path@) ==> ((r matches Err(
                    FileManagerError::FileNotFound { .. },
                )) && *final(self) == *old(self)))
            }),
    {
        let found = match self.db_service.get_file(file_id) {
            Ok(o) => o,
            Err(e) => {
                return Err(e);
            },
        };
        let file_info = match found {
            Some(f) => f,
            None => {
                return Err(FileManagerError::FileNotFound { path: file_id.to_owned() });
            },
        };
        match self.fs_service.delete_file(file_info.file_path.as_str()) {
            Ok(u) => u,
            Err(e) => {
                return Err(e);
            },
        };
        match self.db_service.delete_file(file_id) {
            Ok(u) => u,
            Err(e) => {
                return Err(e);
            },
        };
        Ok(())
    }
}

/// Copies an optional identifier.
fn clone_opt(o: &Option<String>) -> (r: Option<String>)
    ensures
        r == *o,
{
    match o {
        Some(s) => Some(s.clone()),
        None => None,
    }
}

/// A physical path recorded by some file row that the cascade from `base`
/// removes.
pub open spec fn removed_file_path(db: DatabaseService, base: Seq<char>, p: Seq<char>) -> bool {
    exists|i: int|
        0 <= i < db.files@.len() && !file_outside_tree(db.directories@, base)(
            #[trigger] db.files@[i],
        ) && db.files@[i].file_path@ == p
}

impl FileManagerService {
    /// Deletes a directory: the physical subtree first, then the physical
    /// payload of every cascaded file row, then the metadata rows under
    /// the cascade rule.
    pub fn delete_directory(&mut self, directory_id: &str) -> (r: FmResult<()>)
        requires
            old(self).inv(),
        ensures
            final(self).inv(),
            final(self).config == old(self).config,
            final(self).fs_service.storage_root == old(self).fs_service.storage_root,
            !old(self).db_service.has_dir_id(directory_id@) ==> ((r matches Err(
                FileManagerError::DirectoryNotFound { path },
            ) && path@ == directory_id@) && *final(self) == *old(self)),
            old(self).db_service.has_dir_id(directory_id@) && !old(self).fs_service.has_dir(
                join_seq(
                    old(self).fs_service.storage_root@,
                    old(self).db_service.dir_rec(directory_id@).path@,
                ),
            ) ==> ((r matches Err(FileManagerError::DirectoryNotFound { .. })) && *final(self)
                == *old(self)),
            old(self).db_service.has_dir_id(directory_id@) && old(self).fs_service.has_dir(
                join_seq(
                    old(self).fs_service.storage_root@,
                    old(self).db_service.dir_rec(directory_id@).path@,
                ),
            ) ==> ({
                let base = old(self).db_service.dir_rec(directory_id@).path@;
                let full = join_seq(old(self).fs_service.storage_root@, base);
                &&& r is Ok
                &&& !final(self).db_service.has_dir_id(directory_id@)
                &&& (forall|q: Seq<char>|
                    final(self).db_service.has_dir_id(q) ==> old(self).db_service.has_dir_id(q))
                &&& (forall|q: Seq<char>|
                    old(self).db_service.has_dir_id(q) && path_under(
                        base,
                        old(self).db_service.dir_rec(q).path@,
                    ) ==> !final(self).db_service.has_dir_id(q))
                &&& (forall|q: Seq<char>|
                    old(self).db_service.has_dir_id(q) && !path_under(
                        base,
                        old(self).db_service.dir_rec(q).path@,
                    ) ==> final(self).db_service.has_dir_id(q) && final(self).db_service.dir_rec(q) == old(self).db_service.dir_rec(q))
                &&& (forall|q: Seq<char>|
                    final(self).db_service.has_file_id(q) ==> old(self).db_service.has_file_id(
                        q,
                    ))
                &&& (forall|q: Seq<char>|
                    old(self).db_service.has_file_id(q) && !file_outside_tree(
                        old(self).db_service.directories@,
                        base,
                    )(old(self).db_service.file_rec(q)) ==> !final(self).db_service.has_file_id(
                        q,
                    ) && !final(self).fs_service.has_object(
                        old(self).db_service.file_rec(q).file_path@,
                    ))
                &&& (forall|q: Seq<char>|
                    old(self).db_service.has_file_id(q) && file_outside_tree(
                        old(self).db_service.directories@,
                        base,
                    )(old(self).db_service.file_rec(q)) ==> final(self).db_service.has_file_id(
                        q,
                    ) && final(self).db_service.file_rec(q) == old(self).db_service.file_rec(q))
                &&& (forall|q: Seq<char>| path_under(full, q) ==> !final(self).fs_service.has_dir(q))
                &&& (forall|q: Seq<char>| path_under(full, q) ==> !final(self).fs_service.has_object(q))
                &&& (forall|p: Seq<char>|
                    !path_under(full, p) && !removed_file_path(old(self).db_service, base, p)
                        ==> final(self).fs_service.has_object(p) == old(self).fs_service.has_object(p))
                &&& (forall|p: Seq<char>|
                    !path_under(full, p) && !removed_file_path(old(self).db_service, base, p)
                        && old(self).fs_service.has_object(p) ==> final(self).fs_service.object_at(p) == old(self).fs_service.object_at(p))
            }),
    {
        let found = match self.db_service.get_directory(directory_id) {
            Ok(o) => o,
            Err(e) => {
                return Err(e);
            },
        };
        let directory_info = match found {
            Some(d) => d,
            None => {
                return Err(
                    FileManagerError::DirectoryNotFound { path: directory_id.to_owned() },
                );
            },
        };
        let base = directory_info.path;
        match self.fs_service.delete_directory(base.as_str()) {
            Ok(u) => u,
            Err(e) => {
                return Err(e);
            },
        };
        let ghost mid1 = *self;
        let ghost pre = *old(self);
        let ghost full = join_seq(pre.fs_service.storage_root@, base@);
        let fn_total = self.db_service.files.len();
        let mut i: usize = 0;
        while i < fn_total
            invariant
                i <= fn_total,
                fn_total == self.db_service.files@.len(),
                self.db_service == pre.db_service,
                self.config == pre.config,
                self.fs_service.wf(),
                self.fs_service.storage_root == pre.fs_service.storage_root,
                self.fs_service.dirs@ == mid1.fs_service.dirs@,
                base@ == pre.db_service.dir_rec(directory_id@).path@,
                full == join_seq(pre.fs_service.storage_root@, base@),
                forall|k: int|
                    0 <= k < i && !file_outside_tree(pre.db_service.directories@, base@)(
                        #[trigger] pre.db_service.files@[k],
                    ) ==> !self.fs_service.has_object(pre.db_service.files@[k].file_path@),
                forall|q: Seq<char>| path_under(full, q) ==> !self.fs_service.has_object(q),
                forall|p: Seq<char>|
                    !path_under(full, p) && !removed_file_path(pre.db_service, base@, p)
                        ==> self.fs_service.has_object(p) == pre.fs_service.has_object(p),
                forall|p: Seq<char>|
                    !path_under(full, p) && !removed_file_path(pre.db_service, base@, p)
                        && pre.fs_service.has_object(p) ==> self.fs_service.object_at(p)
                        == pre.fs_service.object_at(p),
            decreases fn_total - i,
        {
            let hits = self.db_service.cascade_hits(&base, &self.db_service.files[i].directory_id);
            if hits {
                let fp = self.db_service.files[i].file_path.clone();
                proof {
                    assert(removed_file_path(pre.db_service, base@, fp@));
                }
                if self.fs_service.file_exists(fp.as_str()) {
                    let _removed = self.fs_service.delete_file(fp.as_str());
                }
                proof {
                    assert(!self.fs_service.has_object(fp@));
                }
            }
            proof {
                assert forall|k: int|
                    0 <= k < i + 1 && !file_outside_tree(pre.db_service.directories@, base@)(
                        #[trigger] pre.db_service.files@[k],
                    ) implies !self.fs_service.has_object(
                    pre.db_service.files@[k].file_path@,
                ) by {}
            }
            i = i + 1;
        }
        match self.db_service.delete_directory(directory_id) {
            Ok(u) => u,
            Err(e) => {
                return Err(e);
            },
        };
        Ok(())
    }
}

/// A listing entry carries exactly the fields of the file row.
pub open spec fn item_matches(it: FileListItem, f: FileInfo) -> bool {
    it.id == f.id && it.name == f.name && it.original_name == f.original_name && it.file_size
        == f.file_size && it.mime_type == f.mime_type && it.created_at == f.created_at
        && it.updated_at == f.updated_at
}

/// A tree node carries exactly the fields of the directory row.
pub open spec fn node_matches(n: DirectoryTreeNode, d: DirectoryInfo) -> bool {
    n.id == d.id && n.name == d.name && n.parent_id == d.parent_id && n.path == d.path
        && n.created_at == d.created_at
}

impl FileManagerService {
    /// The files of one directory as listing entries, in name order.
    pub fn get_files_in_directory(&self, directory_id: &str) -> (r: FmResult<Vec<FileListItem>>)
        requires
            self.inv(),
        ensures
            r matches Ok(v) && ({
                let recs = sort_by_key(
                    self.db_service.files@.filter(owned_by(directory_id@)),
                    file_name_key(),
                );
                &&& v@.len() == recs.len()
                &&& forall|i: int| 0 <= i < v@.len() ==> item_matches(#[trigger] v@[i], recs[i])
            }),
    {
        let files = match self.db_service.get_files_in_directory(directory_id) {
            Ok(v) => v,
            Err(e) => {
                return Err(e);
            },
        };
        let mut out: Vec<FileListItem> = Vec::new();
        let n = files.len();
        let mut i: usize = 0;
        while i < n
            invariant
                i <= n,
                n == files@.len(),
                out@.len() == i,
                forall|k: int| 0 <= k < i ==> item_matches(#[trigger] out@[k], files@[k]),
            decreases n - i,
        {
            let f = &files[i];
            out.push(
                FileListItem {
                    id: f.id.clone(),
                    name: f.name.clone(),
                    original_name: f.original_name.clone(),
                    file_size: f.file_size,
                    mime_type: f.mime_type.clone(),
                    created_at: f.created_at.clone(),
                    updated_at: f.updated_at.clone(),
                },
            );
            i = i + 1;
        }
        Ok(out)
    }

    /// The listing entry of one file, when its row stands.
    pub fn get_file_info(&self, file_id: &str) -> (r: FmResult<Option<FileListItem>>)
        requires
            self.inv(),
        ensures
            r matches Ok(opt) && (match opt {
                Some(it) => self.db_service.has_file_id(file_id@) && item_matches(
                    it,
                    self.db_service.file_rec(file_id@),
                ),
                None => !self.db_service.has_file_id(file_id@),
            }),
    {
        let found = match self.db_service.get_file(file_id) {
            Ok(o) => o,
            Err(e) => {
                return Err(e);
            },
        };
        match found {
            Some(f) => Ok(
                Some(
                    FileListItem {
                        id: f.id,
                        name: f.name,
                        original_name: f.original_name,
                        file_size: f.file_size,
                        mime_type: f.mime_type,
                        created_at: f.created_at,
                        updated_at: f.updated_at,
                    },
                ),
            ),
            None => Ok(None),
        }
    }

    /// Every directory as a flat annotated node, in path order, each
    /// counting its directly owned files; nesting is left to the caller.
    pub fn get_directory_tree(&self) -> (r: FmResult<Vec<DirectoryTreeNode>>)
        requires
            self.inv(),
        ensures
            r matches Ok(v) && ({
                let recs = sort_by_key(self.db_service.directories@, dir_path_key());
                &&& v@.len() == recs.len()
                &&& forall|i: int|
                    0 <= i < v@.len() ==> node_matches(#[trigger] v@[i], recs[i]) && v@[i].file_count
                        == self.db_service.files@.filter(owned_by(recs[i].id@)).len()
                        && v@[i].children@.len() == 0
            }),
    {
        let dirs = match self.db_service.get_directory_tree() {
            Ok(v) => v,
            Err(e) => {
                return Err(e);
            },
        };
        let mut out: Vec<DirectoryTreeNode> = Vec::new();
        let n = dirs.len();
        let mut i: usize = 0;
        while i < n
            invariant
                i <= n,
                n == dirs@.len(),
                out@.len() == i,
                dirs@ == sort_by_key(self.db_service.directories@, dir_path_key()),
                forall|k: int|
                    0 <= k < i ==> node_matches(#[trigger] out@[k], dirs@[k]) && out@[k].file_count
                        == self.db_service.files@.filter(owned_by(dirs@[k].id@)).len()
                        && out@[k].children@.len() == 0,
            decreases n - i,
        {
            let d = &dirs[i];
            let ghost pred = owned_by(d.id@);
            let total = self.db_service.files.len();
            let mut count: usize = 0;
            let mut j: usize = 0;
            proof {
                assert(self.db_service.files@.take(0).filter(pred) =~= Seq::<FileInfo>::empty());
            }
            while j < total
                invariant
                    j <= total,
                    total == self.db_service.files@.len(),
                    pred == owned_by(dirs@[i as int].id@),
                    i < n,
                    n == dirs@.len(),
                    d == dirs@[i as int],
                    count == self.db_service.files@.take(j as int).filter(pred).len(),
                    count <= j,
                decreases total - j,
            {
                let is_owned = crate::text::str_eq(
                    self.db_service.files[j].directory_id.as_str(),
                    d.id.as_str(),
                );
                proof {
                    assert(is_owned == pred(self.db_service.files@[j as int]));
                    assert(self.db_service.files@.take(j as int + 1) == self.db_service.files@.take(
                        j as int,
                    ).push(self.db_service.files@[j as int]));
                }
                if is_owned {
                    count = count + 1;
                }
                j = j + 1;
            }
            proof {
                assert(self.db_service.files@.take(total as int) == self.db_service.files@);
            }
            out.push(
                DirectoryTreeNode {
                    id: d.id.clone(),
                    name: d.name.clone(),
                    parent_id: clone_opt(&d.parent_id),
                    path: d.path.clone(),
                    children: Vec::new(),
                    file_count: count,
                    created_at: d.created_at.clone(),
                },
            );
            i = i + 1;
        }
        Ok(out)
    }

    /// The bytes of one file's payload, found through its metadata row.
    pub fn read_file_content(&self, file_id: &str) -> (r: FmResult<Vec<u8>>)
        requires
            self.inv(),
        ensures
            !self.db_service.has_file_id(file_id@) ==> (r matches Err(
                FileManagerError::FileNotFound { path },
            ) && path@ == file_id@),
            self.db_service.has_file_id(file_id@) && self.fs_service.has_object(
                self.db_service.file_rec(file_id@).file_path@,
            ) ==> (r matches Ok(d) && d@ == self.fs_service.object_at(
                self.db_service.file_rec(file_id@).file_path@,
            )),
            self.db_service.has_file_id(file_id@) && !self.fs_service.has_object(
                self.db_service.file_rec(file_id@).file_path@,
            ) ==> (r matches Err(FileManagerError::FileSystem { .. })),
    {
        let found = match self.db_service.get_file(file_id) {
            Ok(o) => o,
            Err(e) => {
                return Err(e);
            },
        };
        let file_info = match found {
            Some(f) => f,
            None => {
                return Err(FileManagerError::FileNotFound { path: file_id.to_owned() });
            },
        };
        self.fs_service.read_file(file_info.file_path.as_str())
    }
}

impl FileManagerService {
    /// Uploads a payload delivered in chunks: the expected size and the
    /// type are gated first, the chunks are then stored as they arrive
    /// with one progress event per chunk, and the metadata row is written
    /// last — compensating by removing the stored payload when the
    /// metadata step fails.
    pub fn upload_large_file(
        &mut self,
        chunks: &Vec<Vec<u8>>,
        original_name: &str,
        expected_size: u64,
        directory_id: Option<&str>,
    ) -> (r: FmResult<(UploadResponse, Vec<(u64, u64)>)>)
        requires
            old(self).inv(),
            crate::filesystem::content_of(chunks.deep_view()).len() <= 0x7fff_ffff_ffff_ffff,
        ensures
            final(self).inv(),
            final(self).config == old(self).config,
            final(self).fs_service.storage_root == old(self).fs_service.storage_root,
            (expected_size > old(self).config.max_file_size) == (r matches Err(
                FileManagerError::FileSizeExceeded { .. },
            )),
            r matches Err(FileManagerError::FileSizeExceeded { size, max_size }) ==> (size
                == expected_size && max_size == old(self).config.max_file_size),
            (expected_size <= old(self).config.max_file_size && !old(self).ext_supported(
                original_name@,
            )) == (r matches Err(FileManagerError::UnsupportedFileType { .. })),
            r matches Err(e) && (e matches FileManagerError::FileSizeExceeded { .. } || e
                matches FileManagerError::UnsupportedFileType { .. } || e
                matches FileManagerError::DirectoryNotFound { .. }) ==> *final(self) == *old(self),
            r is Err ==> final(self).fs_service.objects_model() == old(self).fs_service.objects_model(),
            r is Err ==> final(self).db_service.files@ == old(self).db_service.files@,
            (match directory_id {
                Some(d) => expected_size <= old(self).config.max_file_size && old(self).ext_supported(original_name@) && !old(self).db_service.has_dir_id(d@),
                None => false,
            }) == (r matches Err(FileManagerError::DirectoryNotFound { .. })),
            r matches Err(FileManagerError::DirectoryNotFound { path }) ==> (match directory_id {
                Some(d) => path@ == d@,
                None => false,
            }),
            r matches Err(e) ==> (e matches FileManagerError::FileSizeExceeded { .. } || e
                matches FileManagerError::UnsupportedFileType { .. } || e
                matches FileManagerError::DirectoryNotFound { .. } || e
                matches FileManagerError::Conflict { .. }),
            r matches Ok((resp, events)) ==> (directory_id is None ==> ({
                let roots = old(self).db_service.directories@.filter(same_parent(None));
                &&& opt_view(final(self).db_service.dir_rec(resp.directory_id@).parent_id)
                    is None
                &&& (roots.len() > 0 ==> final(self).db_service.directories@ == old(self).db_service.directories@ && resp.directory_id@ == sort_by_key(
                    roots,
                    dir_name_key(),
                )[0].id@)
                &&& (roots.len() == 0 ==> final(self).db_service.dir_rec(
                    resp.directory_id@,
                ).name@ == "Root"@ && final(self).db_service.dir_rec(resp.directory_id@).path@
                    == "/"@ && final(self).db_service.directories@ == old(self).db_service.directories@.push(
                    final(self).db_service.dir_rec(resp.directory_id@),
                ))
            })),
            r matches Ok((resp, events)) ==> ({
                let cs = chunks.deep_view();
                let rec = final(self).db_service.file_rec(resp.file_id@);
                &&& expected_size <= old(self).config.max_file_size
                &&& old(self).ext_supported(original_name@)
                &&& resp.original_name@ == original_name@
                &&& resp.file_size == crate::filesystem::content_of(cs).len()
                &&& resp.mime_type@ == mime_spec(
                    original_name@,
                    crate::filesystem::first_chunk_of(cs),
                )
                &&& final(self).db_service.has_file_id(resp.file_id@)
                &&& !old(self).db_service.has_file_id(resp.file_id@)
                &&& rec.original_name@ == original_name@
                &&& rec.file_size == crate::filesystem::content_of(cs).len()
                &&& (exists|u: Seq<char>|
                    #[trigger] crate::foreign::uuid_chars(u) && rec.name@
                        == crate::text::with_extension(u, ext_of(original_name@)))
                &&& final(self).fs_service.has_object(rec.file_path@)
                &&& final(self).fs_service.object_at(rec.file_path@)
                    == crate::filesystem::content_of(cs)
                &&& final(self).db_service.has_dir_id(resp.directory_id@)
                &&& (match directory_id {
                    Some(d) => resp.directory_id@ == d@ && old(self).db_service.has_dir_id(d@),
                    None => true,
                })
                &&& events@.len() == crate::filesystem::stop_index(cs)
                &&& (forall|k: int|
                    0 <= k < events@.len() ==> #[trigger] events@[k] == ((
                        crate::filesystem::concat_upto(cs, k + 1).len() as u64,
                        expected_size,
                    )))
                &&& (forall|q: Seq<char>|
                    old(self).db_service.has_file_id(q) ==> final(self).db_service.has_file_id(
                        q,
                    ) && final(self).db_service.file_rec(q) == old(self).db_service.file_rec(q))
                &&& (forall|q: Seq<char>|
                    old(self).fs_service.has_object(q) ==> final(self).fs_service.has_object(q))
                &&& (forall|q: Seq<char>|
                    q != rec.file_path@ && old(self).fs_service.has_object(q) ==> final(self).fs_service.object_at(q) == old(self).fs_service.object_at(q))
            }),
    {
        if expected_size > self.config.max_file_size {
            return Err(
                FileManagerError::FileSizeExceeded {
                    size: expected_size,
                    max_size: self.config.max_file_size,
                },
            );
        }
        if !self.config.is_file_type_supported(original_name) {
            let ext = extension_of(original_name);
            let file_type = if ext.as_str().unicode_len() == 0 {
                String::from_str("unknown")
            } else {
                ext
            };
            return Err(FileManagerError::UnsupportedFileType { file_type });
        }
        let resolved: String = match directory_id {
            Some(id) => {
                let found = match self.db_service.get_directory(id) {
                    Ok(o) => o,
                    Err(e) => {
                        return Err(e);
                    },
                };
                if found.is_none() {
                    return Err(FileManagerError::DirectoryNotFound { path: id.to_owned() });
                }
                id.to_owned()
            },
            None => {
                match self.ensure_root_directory() {
                    Ok(rid) => rid,
                    Err(e) => {
                        return Err(e);
                    },
                }
            },
        };
        let ghost mid0 = *self;
        let (y, m, d) = today_ymd();
        let shard = shard_subdir(y, m, d);
        let saved = match self.fs_service.save_large_file(
            chunks,
            original_name,
            shard.as_str(),
            expected_size,
        ) {
            Ok(u) => u,
            Err(e) => {
                return Err(e);
            },
        };
        let (upload_info, events) = saved;
        let ghost mid1 = *self;
        let created = self.db_service.create_file(
            upload_info.unique_name.as_str(),
            original_name,
            resolved.as_str(),
            upload_info.saved_path.as_str(),
            upload_info.file_size as i64,
            upload_info.mime_type.as_str(),
        );
        let file_info = match created {
            Ok(f) => f,
            Err(e) => {
                let _cleanup = self.fs_service.delete_file(upload_info.saved_path.as_str());
                proof {
                    let p = upload_info.saved_path@;
                    let base = mid0.fs_service.objects_model();
                    assert(mid1.fs_service.object_index(p) == base.len()) by {
                        let i = mid1.fs_service.object_index(p);
                        assert(mid1.fs_service.has_object(p));
                        if i < base.len() {
                            assert(mid1.fs_service.objects@[i].path@ == p);
                            assert(mid1.fs_service.objects_model()[i].0 == p);
                            assert(base[i].0 == p);
                            assert(mid0.fs_service.objects@[i].path@ == p);
                            assert(false);
                        }
                    }
                    assert(self.fs_service.objects_model() =~= base);
                    assert(mid0.fs_service.objects_model() == old(self).fs_service.objects_model());
                }
                return Err(e);
            },
        };
        proof {
            DatabaseService::lemma_files_push(mid1.db_service, self.db_service, file_info);
        }
        Ok(
            (
                UploadResponse {
                    file_id: file_info.id,
                    file_name: file_info.name,
                    original_name: file_info.original_name,
                    file_size: file_info.file_size,
                    mime_type: file_info.mime_type,
                    directory_id: file_info.directory_id,
                    created_at: file_info.created_at,
                },
                events,
            ),
        )
    }
}

} // verus!
