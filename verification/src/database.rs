//! The metadata store: directory and file records, hierarchy pointers and
//! path-uniqueness, with the cascade rule for directory deletion.
//!
//! The store's state is explicit: two record sequences whose identifiers
//! and paths are kept unique. Every operation's contract says exactly how
//! the rows change; the surrounding application decides how the rows are
//! mirrored into a relational database.

use vstd::prelude::*;
use vstd::string::*;
use crate::error::{FileManagerError, FmResult};
use crate::foreign::{fresh_uuid_string, uuid_chars, now_rfc3339};
use crate::text::{
    lex_le, lemma_sorted_insert_splice, sort_by_key, sorted_by_key, sorted_insert, str_eq,
    str_le, timestamp_shape, timestamp_text_ok,
};
use crate::filesystem::path_under;

verus! {

broadcast use vstd::seq::Seq::lemma_filter_push, vstd::seq::Seq::lemma_take_succ_push, vstd::seq::Seq::lemma_take_len, vstd::seq_lib::group_filter_ensures;

/// One directory row.
#[derive(Debug)]
pub struct DirectoryInfo {
    pub id: String,
    pub name: String,
    pub parent_id: Option<String>,
    pub path: String,
    pub created_at: String,
    pub updated_at: String,
}

/// One file row.
#[derive(Debug)]
pub struct FileInfo {
    pub id: String,
    pub name: String,
    pub original_name: String,
    pub directory_id: String,
    pub file_path: String,
    pub file_size: i64,
    pub mime_type: String,
    pub created_at: String,
    pub updated_at: String,
}

/// The view of an optional identifier.
pub open spec fn opt_view(o: Option<String>) -> Option<Seq<char>> {
    match o {
        Some(s) => Some(s@),
        None => None,
    }
}

/// The view of an optional borrowed identifier.
pub open spec fn opt_ref_view(o: Option<&str>) -> Option<Seq<char>> {
    match o {
        Some(s) => Some(s@),
        None => None,
    }
}

/// Copies an optional identifier.
fn clone_opt_string(o: &Option<String>) -> (r: Option<String>)
    ensures
        r == *o,
{
    match o {
        Some(s) => Some(s.clone()),
        None => None,
    }
}

impl Clone for DirectoryInfo {
    fn clone(&self) -> (res: Self)
        ensures
            res == *self,
    {
        DirectoryInfo {
            id: self.id.clone(),
            name: self.name.clone(),
            parent_id: clone_opt_string(&self.parent_id),
            path: self.path.clone(),
            created_at: self.created_at.clone(),
            updated_at: self.updated_at.clone(),
        }
    }
}

impl Clone for FileInfo {
    fn clone(&self) -> (res: Self)
        ensures
            res == *self,
    {
        FileInfo {
            id: self.id.clone(),
            name: self.name.clone(),
            original_name: self.original_name.clone(),
            directory_id: self.directory_id.clone(),
            file_path: self.file_path.clone(),
            file_size: self.file_size,
            mime_type: self.mime_type.clone(),
            created_at: self.created_at.clone(),
            updated_at: self.updated_at.clone(),
        }
    }
}

/// The metadata store.
pub struct DatabaseService {
    pub directories: Vec<DirectoryInfo>,
    pub files: Vec<FileInfo>,
}

impl DatabaseService {
    /// Row identifiers and paths are unique, for directories and files
    /// alike, and every stored timestamp carries the fixed encoding: this
    /// is what makes a read never hand back a row whose timestamp text
    /// would not parse.
    pub open spec fn wf(self) -> bool {
        &&& forall|i: int, j: int|
            0 <= i < j < self.directories@.len() ==> self.directories@[i].id@
                != self.directories@[j].id@
        &&& forall|i: int, j: int|
            0 <= i < j < self.directories@.len() ==> self.directories@[i].path@
                != self.directories@[j].path@
        &&& forall|i: int, j: int|
            0 <= i < j < self.files@.len() ==> self.files@[i].id@ != self.files@[j].id@
        &&& forall|i: int, j: int|
            0 <= i < j < self.files@.len() ==> self.files@[i].file_path@
                != self.files@[j].file_path@
        &&& forall|i: int|
            0 <= i < self.directories@.len() ==> timestamp_shape(
                (#[trigger] self.directories@[i]).created_at@,
            ) && timestamp_shape(self.directories@[i].updated_at@)
        &&& forall|i: int|
            0 <= i < self.files@.len() ==> timestamp_shape(
                (#[trigger] self.files@[i]).created_at@,
            ) && timestamp_shape(self.files@[i].updated_at@)
    }

    /// Some directory row carries this identifier.
    pub open spec fn has_dir_id(self, id: Seq<char>) -> bool {
        exists|i: int|
            0 <= i < self.directories@.len() && #[trigger] self.directories@[i].id@ == id
    }

    /// The index of the directory row with this identifier.
    pub open spec fn dir_index(self, id: Seq<char>) -> int {
        choose|i: int|
            0 <= i < self.directories@.len() && #[trigger] self.directories@[i].id@ == id
    }

    /// The directory row with this identifier.
    pub open spec fn dir_rec(self, id: Seq<char>) -> DirectoryInfo {
        self.directories@[self.dir_index(id)]
    }

    /// Some directory row carries this path.
    pub open spec fn has_dir_path(self, path: Seq<char>) -> bool {
        exists|i: int|
            0 <= i < self.directories@.len() && #[trigger] self.directories@[i].path@ == path
    }

    /// Some file row carries this identifier.
    pub open spec fn has_file_id(self, id: Seq<char>) -> bool {
        exists|i: int| 0 <= i < self.files@.len() && #[trigger] self.files@[i].id@ == id
    }

    /// The index of the file row with this identifier.
    pub open spec fn file_index(self, id: Seq<char>) -> int {
        choose|i: int| 0 <= i < self.files@.len() && #[trigger] self.files@[i].id@ == id
    }

    /// The file row with this identifier.
    pub open spec fn file_rec(self, id: Seq<char>) -> FileInfo {
        self.files@[self.file_index(id)]
    }

    /// Some file row carries this physical path.
    pub open spec fn has_file_path(self, path: Seq<char>) -> bool {
        exists|i: int|
            0 <= i < self.files@.len() && #[trigger] self.files@[i].file_path@ == path
    }

    /// A fresh, empty metadata store.
    pub fn new() -> (r: FmResult<Self>)
        ensures
            r matches Ok(db) && db.directories@.len() == 0 && db.files@.len() == 0 && db.wf(),
    {
        Ok(DatabaseService { directories: Vec::new(), files: Vec::new() })
    }

    /// Finds the directory row with identifier `id`, or the row count.
    fn find_dir(&self, id: &str) -> (r: usize)
        ensures
            r <= self.directories@.len(),
            r < self.directories@.len() ==> self.directories@[r as int].id@ == id@,
            r == self.directories@.len() ==> !self.has_dir_id(id@),
            forall|k: int| 0 <= k < r ==> self.directories@[k].id@ != id@,
    {
        let n = self.directories.len();
        let mut i: usize = 0;
        while i < n
            invariant
                i <= n,
                n == self.directories@.len(),
                forall|k: int| 0 <= k < i ==> self.directories@[k].id@ != id@,
            decreases n - i,
        {
            if str_eq(self.directories[i].id.as_str(), id) {
                return i;
            }
            i = i + 1;
        }
        n
    }

    /// Finds the file row with identifier `id`, or the row count.
    fn find_file(&self, id: &str) -> (r: usize)
        ensures
            r <= self.files@.len(),
            r < self.files@.len() ==> self.files@[r as int].id@ == id@,
            r == self.files@.len() ==> !self.has_file_id(id@),
            forall|k: int| 0 <= k < r ==> self.files@[k].id@ != id@,
    {
        let n = self.files.len();
        let mut i: usize = 0;
        while i < n
            invariant
                i <= n,
                n == self.files@.len(),
                forall|k: int| 0 <= k < i ==> self.files@[k].id@ != id@,
            decreases n - i,
        {
            if str_eq(self.files[i].id.as_str(), id) {
                return i;
            }
            i = i + 1;
        }
        n
    }

    /// Whether some directory row carries the path.
    pub fn path_exists(&self, path: &str) -> (r: FmResult<bool>)
        ensures
            r matches Ok(b) && b == self.has_dir_path(path@),
    {
        let n = self.directories.len();
        let mut i: usize = 0;
        while i < n
            invariant
                i <= n,
                n == self.directories@.len(),
                forall|k: int| 0 <= k < i ==> self.directories@[k].path@ != path@,
            decreases n - i,
        {
            if str_eq(self.directories[i].path.as_str(), path) {
                return Ok(true);
            }
            i = i + 1;
        }
        Ok(false)
    }

    /// Inserts a directory row with a caller-supplied identifier and
    /// timestamp. A timestamp off the fixed encoding is refused as a
    /// store fault; a taken path or identifier is a conflict; a named but
    /// absent parent is not-found.
    pub fn create_directory_with_id(
        &mut self,
        id: &str,
        name: &str,
        parent_id: Option<&str>,
        path: &str,
        timestamp: &str,
    ) -> (r: FmResult<DirectoryInfo>)
        requires
            old(self).wf(),
        ensures
            final(self).wf(),
            final(self).files@ == old(self).files@,
            !timestamp_shape(timestamp@) ==> ((r matches Err(FileManagerError::Database { .. }))
                && *final(self) == *old(self)),
            timestamp_shape(timestamp@) && old(self).has_dir_path(path@) ==> ((r matches Err(
                FileManagerError::Conflict { path: c },
            ) && c@ == path@) && *final(self) == *old(self)),
            timestamp_shape(timestamp@) && !old(self).has_dir_path(path@) ==> (match parent_id {
                Some(p) => !old(self).has_dir_id(p@) ==> ((r matches Err(
                    FileManagerError::DirectoryNotFound { path: c },
                ) && c@ == p@) && *final(self) == *old(self)),
                None => true,
            }),
            timestamp_shape(timestamp@) && !old(self).has_dir_path(path@) && (match parent_id {
                Some(p) => old(self).has_dir_id(p@),
                None => true,
            }) && old(self).has_dir_id(id@) ==> ((r matches Err(FileManagerError::Conflict {
                path: c,
            }) && c@ == id@) && *final(self) == *old(self)),
            timestamp_shape(timestamp@) && !old(self).has_dir_path(path@) && (match parent_id {
                Some(p) => old(self).has_dir_id(p@),
                None => true,
            }) && !old(self).has_dir_id(id@) ==> (r matches Ok(rec) && rec.id@ == id@ && rec.name@
                == name@ && opt_view(rec.parent_id) == opt_ref_view(parent_id) && rec.path@
                == path@ && rec.created_at@ == timestamp@ && rec.updated_at@ == timestamp@
                && final(self).directories@ == old(self).directories@.push(rec) && final(self).has_dir_id(id@) && final(self).has_dir_path(path@)),
    {
        if !timestamp_text_ok(timestamp) {
            return Err(
                FileManagerError::Database {
                    message: String::from_str("timestamp text is not in the stored encoding"),
                },
            );
        }
        let mut conflict_path: bool = false;
        let n = self.directories.len();
        let mut i: usize = 0;
        while i < n
            invariant
                i <= n,
                n == self.directories@.len(),
                conflict_path ==> self.has_dir_path(path@),
                !conflict_path ==> forall|k: int| 0 <= k < i ==> self.directories@[k].path@
                    != path@,
            decreases n - i,
        {
            if str_eq(self.directories[i].path.as_str(), path) {
                conflict_path = true;
            }
            i = i + 1;
        }
        if conflict_path {
            return Err(FileManagerError::Conflict { path: path.to_owned() });
        }
        if let Some(p) = parent_id {
            let pi = self.find_dir(p);
            if pi == self.directories.len() {
                return Err(FileManagerError::DirectoryNotFound { path: p.to_owned() });
            }
        }
        let di = self.find_dir(id);
        if di < self.directories.len() {
            return Err(FileManagerError::Conflict { path: id.to_owned() });
        }
        let parent_owned: Option<String> = match parent_id {
            Some(p) => Some(p.to_owned()),
            None => None,
        };
        let rec = DirectoryInfo {
            id: id.to_owned(),
            name: name.to_owned(),
            parent_id: parent_owned,
            path: path.to_owned(),
            created_at: timestamp.to_owned(),
            updated_at: timestamp.to_owned(),
        };
        let stored = rec.clone();
        let ghost pre = *self;
        self.directories.push(stored);
        proof {
            assert(final(self).directories@ == pre.directories@.push(rec));
            assert(final(self).has_dir_id(id@)) by {
                assert(final(self).directories@[pre.directories@.len() as int].id@ == id@);
            }
            assert(final(self).has_dir_path(path@)) by {
                assert(final(self).directories@[pre.directories@.len() as int].path@ == path@);
            }
            assert forall|a: int, b: int|
                0 <= a < b < final(self).directories@.len() implies final(self).directories@[
                a
            ].id@ != final(self).directories@[b].id@ && final(self).directories@[a].path@
                != final(self).directories@[b].path@ by {
                if b == final(self).directories@.len() - 1 {
                    assert(pre.directories@[a].id@ != id@);
                    assert(pre.directories@[a].path@ != path@);
                }
            }
            assert forall|a: int|
                0 <= a < final(self).directories@.len() implies timestamp_shape(
                (#[trigger] final(self).directories@[a]).created_at@,
            ) && timestamp_shape(final(self).directories@[a].updated_at@) by {
                if a < pre.directories@.len() {
                    assert(final(self).directories@[a] == pre.directories@[a]);
                }
            }
        }
        Ok(rec)
    }

    /// Inserts a directory row under a fresh identifier, stamped with the
    /// current time.
    pub fn create_directory(&mut self, name: &str, parent_id: Option<&str>, path: &str) -> (r:
        FmResult<DirectoryInfo>)
        requires
            old(self).wf(),
        ensures
            final(self).wf(),
            final(self).files@ == old(self).files@,
            r is Err ==> *final(self) == *old(self),
            old(self).has_dir_path(path@) ==> (r matches Err(FileManagerError::Conflict {
                path: c,
            }) && c@ == path@),
            !old(self).has_dir_path(path@) ==> (match parent_id {
                Some(p) => !old(self).has_dir_id(p@) ==> (r matches Err(
                    FileManagerError::DirectoryNotFound { path: c },
                ) && c@ == p@),
                None => true,
            }),
            r matches Err(e) ==> (e matches FileManagerError::Conflict { .. } || e
                matches FileManagerError::DirectoryNotFound { .. }),
            (match parent_id {
                Some(p) => old(self).has_dir_id(p@),
                None => true,
            }) && r is Err ==> (r matches Err(e) && e matches FileManagerError::Conflict {
                ..
            }),
            r matches Ok(rec) ==> (!old(self).has_dir_path(path@) && (match parent_id {
                Some(p) => old(self).has_dir_id(p@),
                None => true,
            }) && rec.name@ == name@ && opt_view(rec.parent_id)
                == opt_ref_view(parent_id) && rec.path@ == path@ && rec.created_at@
                == rec.updated_at@ && uuid_chars(rec.id@) && !old(self).has_dir_id(rec.id@)
                && final(self).directories@ == old(self).directories@.push(rec) && final(self).has_dir_id(rec.id@) && final(self).has_dir_path(path@)),
    {
        let id = fresh_uuid_string();
        let now = now_rfc3339();
        self.create_directory_with_id(id.as_str(), name, parent_id, path, now.as_str())
    }

    /// Looks a directory row up by identifier; under a well-formed store
    /// the returned row's timestamps always carry the stored encoding.
    pub fn get_directory(&self, id: &str) -> (r: FmResult<Option<DirectoryInfo>>)
        requires
            self.wf(),
        ensures
            r matches Ok(opt) && (match opt {
                Some(d) => self.has_dir_id(id@) && d == self.dir_rec(id@) && timestamp_shape(
                    d.created_at@,
                ) && timestamp_shape(d.updated_at@),
                None => !self.has_dir_id(id@),
            }),
    {
        let i = self.find_dir(id);
        if i == self.directories.len() {
            return Ok(None);
        }
        proof {
            assert(self.dir_index(id@) == i) by {
                let w = self.dir_index(id@);
                if w != i {
                    if w < i {
                        assert(self.directories@[w].id@ != id@);
                    } else {
                        assert(false);
                    }
                }
            }
        }
        Ok(Some(self.directories[i].clone()))
    }

    /// Looks a file row up by identifier; under a well-formed store the
    /// returned row's timestamps always carry the stored encoding.
    pub fn get_file(&self, id: &str) -> (r: FmResult<Option<FileInfo>>)
        requires
            self.wf(),
        ensures
            r matches Ok(opt) && (match opt {
                Some(f) => self.has_file_id(id@) && f == self.file_rec(id@) && timestamp_shape(
                    f.created_at@,
                ) && timestamp_shape(f.updated_at@),
                None => !self.has_file_id(id@),
            }),
    {
        let i = self.find_file(id);
        if i == self.files.len() {
            return Ok(None);
        }
        proof {
            assert(self.file_index(id@) == i) by {
                let w = self.file_index(id@);
                if w != i {
                    if w < i {
                        assert(self.files@[w].id@ != id@);
                    } else {
                        assert(false);
                    }
                }
            }
        }
        Ok(Some(self.files[i].clone()))
    }
}

/// Directory rows whose parent pointer equals the given one.
pub open spec fn same_parent(po: Option<Seq<char>>) -> spec_fn(DirectoryInfo) -> bool {
    |d: DirectoryInfo| opt_view(d.parent_id) == po
}

/// File rows owned by the given directory.
pub open spec fn owned_by(did: Seq<char>) -> spec_fn(FileInfo) -> bool {
    |f: FileInfo| f.directory_id@ == did
}

/// Directory rows whose path does not lie under `base`.
pub open spec fn dir_outside_tree(base: Seq<char>) -> spec_fn(DirectoryInfo) -> bool {
    |d: DirectoryInfo| !path_under(base, d.path@)
}

/// File rows whose owning directory, among `dirs`, does not lie under
/// `base`.
pub open spec fn file_outside_tree(dirs: Seq<DirectoryInfo>, base: Seq<char>) -> spec_fn(
    FileInfo,
) -> bool {
    |f: FileInfo|
        !exists|i: int|
            0 <= i < dirs.len() && path_under(base, #[trigger] dirs[i].path@) && dirs[i].id@
                == f.directory_id@
}

/// The sort key of a directory row in name order.
pub open spec fn dir_name_key() -> spec_fn(DirectoryInfo) -> Seq<char> {
    |d: DirectoryInfo| d.name@
}

/// The sort key of a directory row in path order.
pub open spec fn dir_path_key() -> spec_fn(DirectoryInfo) -> Seq<char> {
    |d: DirectoryInfo| d.path@
}

/// The sort key of a file row in name order.
pub open spec fn file_name_key() -> spec_fn(FileInfo) -> Seq<char> {
    |f: FileInfo| f.name@
}

/// Inserts a directory row in front of the first row with a larger name.
fn insert_dir_by_name(v: &mut Vec<DirectoryInfo>, x: DirectoryInfo)
    ensures
        final(v)@ == sorted_insert(old(v)@, x, dir_name_key()),
        sorted_by_key(old(v)@, dir_name_key()) ==> sorted_by_key(final(v)@, dir_name_key()),
{
    let n = v.len();
    let mut idx: usize = 0;
    loop
        invariant_except_break
            idx <= n,
            n == v@.len(),
            forall|k: int|
                0 <= k < idx ==> lex_le(dir_name_key()(#[trigger] v@[k]), dir_name_key()(x)),
        ensures
            idx <= n,
            n == v@.len(),
            forall|k: int|
                0 <= k < idx ==> lex_le(dir_name_key()(#[trigger] v@[k]), dir_name_key()(x)),
            idx < n ==> !lex_le(dir_name_key()(v@[idx as int]), dir_name_key()(x)),
        decreases n - idx,
    {
        if idx == n {
            break ;
        }
        if !str_le(v[idx].name.as_str(), x.name.as_str()) {
            break ;
        }
        idx = idx + 1;
    }
    let ghost pre = v@;
    proof {
        lemma_sorted_insert_splice(pre, x, dir_name_key(), idx as int);
        if sorted_by_key(pre, dir_name_key()) {
            crate::text::lemma_splice_sorted(pre, x, dir_name_key(), idx as int);
        }
    }
    v.insert(idx, x);
    proof {
        assert(v@ =~= pre.take(idx as int) + seq![x] + pre.skip(idx as int));
    }
}

/// Inserts a directory row in front of the first row with a larger path.
fn insert_dir_by_path(v: &mut Vec<DirectoryInfo>, x: DirectoryInfo)
    ensures
        final(v)@ == sorted_insert(old(v)@, x, dir_path_key()),
        sorted_by_key(old(v)@, dir_path_key()) ==> sorted_by_key(final(v)@, dir_path_key()),
{
    let n = v.len();
    let mut idx: usize = 0;
    loop
        invariant_except_break
            idx <= n,
            n == v@.len(),
            forall|k: int|
                0 <= k < idx ==> lex_le(dir_path_key()(#[trigger] v@[k]), dir_path_key()(x)),
        ensures
            idx <= n,
            n == v@.len(),
            forall|k: int|
                0 <= k < idx ==> lex_le(dir_path_key()(#[trigger] v@[k]), dir_path_key()(x)),
            idx < n ==> !lex_le(dir_path_key()(v@[idx as int]), dir_path_key()(x)),
        decreases n - idx,
    {
        if idx == n {
            break ;
        }
        if !str_le(v[idx].path.as_str(), x.path.as_str()) {
            break ;
        }
        idx = idx + 1;
    }
    let ghost pre = v@;
    proof {
        lemma_sorted_insert_splice(pre, x, dir_path_key(), idx as int);
        if sorted_by_key(pre, dir_path_key()) {
            crate::text::lemma_splice_sorted(pre, x, dir_path_key(), idx as int);
        }
    }
    v.insert(idx, x);
    proof {
        assert(v@ =~= pre.take(idx as int) + seq![x] + pre.skip(idx as int));
    }
}

/// Inserts a file row in front of the first row with a larger name.
fn insert_file_by_name(v: &mut Vec<FileInfo>, x: FileInfo)
    ensures
        final(v)@ == sorted_insert(old(v)@, x, file_name_key()),
        sorted_by_key(old(v)@, file_name_key()) ==> sorted_by_key(final(v)@, file_name_key()),
{
    let n = v.len();
    let mut idx: usize = 0;
    loop
        invariant_except_break
            idx <= n,
            n == v@.len(),
            forall|k: int|
                0 <= k < idx ==> lex_le(file_name_key()(#[trigger] v@[k]), file_name_key()(x)),
        ensures
            idx <= n,
            n == v@.len(),
            forall|k: int|
                0 <= k < idx ==> lex_le(file_name_key()(#[trigger] v@[k]), file_name_key()(x)),
            idx < n ==> !lex_le(file_name_key()(v@[idx as int]), file_name_key()(x)),
        decreases n - idx,
    {
        if idx == n {
            break ;
        }
        if !str_le(v[idx].name.as_str(), x.name.as_str()) {
            break ;
        }
        idx = idx + 1;
    }
    let ghost pre = v@;
    proof {
        lemma_sorted_insert_splice(pre, x, file_name_key(), idx as int);
        if sorted_by_key(pre, file_name_key()) {
            crate::text::lemma_splice_sorted(pre, x, file_name_key(), idx as int);
        }
    }
    v.insert(idx, x);
    proof {
        assert(v@ =~= pre.take(idx as int) + seq![x] + pre.skip(idx as int));
    }
}

impl DatabaseService {
    /// The child rows of `parent_id` (of the roots, when it is absent),
    /// in name order.
    pub fn get_child_directories(&self, parent_id: Option<&str>) -> (r: FmResult<
        Vec<DirectoryInfo>,
    >)
        ensures
            r matches Ok(v) && v@ == sort_by_key(
                self.directories@.filter(same_parent(opt_ref_view(parent_id))),
                dir_name_key(),
            ) && sorted_by_key(v@, dir_name_key()),
    {
        let ghost pred = same_parent(opt_ref_view(parent_id));
        let mut out: Vec<DirectoryInfo> = Vec::new();
        let n = self.directories.len();
        let mut i: usize = 0;
        proof {
            assert(self.directories@.take(0).filter(pred) =~= Seq::<DirectoryInfo>::empty());
        }
        while i < n
            invariant
                i <= n,
                n == self.directories@.len(),
                pred == same_parent(opt_ref_view(parent_id)),
                out@ == sort_by_key(self.directories@.take(i as int).filter(pred), dir_name_key()),
                sorted_by_key(out@, dir_name_key()),
            decreases n - i,
        {
            let d = &self.directories[i];
            let is_match = match (parent_id, &d.parent_id) {
                (None, None) => true,
                (Some(p), Some(q)) => str_eq(p, q.as_str()),
                _ => false,
            };
            proof {
                assert(is_match == pred(self.directories@[i as int]));
                assert(self.directories@.take(i as int + 1) == self.directories@.take(
                    i as int,
                ).push(self.directories@[i as int]));
            }
            if is_match {
                let c = d.clone();
                let ghost fpre = self.directories@.take(i as int).filter(pred);
                insert_dir_by_name(&mut out, c);
                proof {
                    assert(fpre.push(self.directories@[i as int]).drop_last() =~= fpre);
                    assert(sort_by_key(fpre.push(self.directories@[i as int]), dir_name_key())
                        == sorted_insert(sort_by_key(fpre, dir_name_key()),
                        self.directories@[i as int], dir_name_key()));
                }
            }
            i = i + 1;
        }
        proof {
            assert(self.directories@.take(n as int) == self.directories@);
        }
        Ok(out)
    }

    /// Every directory row, in path order.
    pub fn get_directory_tree(&self) -> (r: FmResult<Vec<DirectoryInfo>>)
        ensures
            r matches Ok(v) && v@ == sort_by_key(self.directories@, dir_path_key())
                && sorted_by_key(v@, dir_path_key()),
    {
        let mut out: Vec<DirectoryInfo> = Vec::new();
        let n = self.directories.len();
        let mut i: usize = 0;
        while i < n
            invariant
                i <= n,
                n == self.directories@.len(),
                out@ == sort_by_key(self.directories@.take(i as int), dir_path_key()),
                sorted_by_key(out@, dir_path_key()),
            decreases n - i,
        {
            let c = self.directories[i].clone();
            let ghost tpre = self.directories@.take(i as int);
            insert_dir_by_path(&mut out, c);
            proof {
                assert(self.directories@.take(i as int + 1) == tpre.push(
                    self.directories@[i as int],
                ));
                assert(tpre.push(self.directories@[i as int]).drop_last() =~= tpre);
                assert(sort_by_key(tpre.push(self.directories@[i as int]), dir_path_key())
                    == sorted_insert(sort_by_key(tpre, dir_path_key()),
                    self.directories@[i as int], dir_path_key()));
            }
            i = i + 1;
        }
        proof {
            assert(self.directories@.take(n as int) == self.directories@);
        }
        Ok(out)
    }

    /// The file rows owned by `directory_id`, in name order.
    pub fn get_files_in_directory(&self, directory_id: &str) -> (r: FmResult<Vec<FileInfo>>)
        ensures
            r matches Ok(v) && v@ == sort_by_key(
                self.files@.filter(owned_by(directory_id@)),
                file_name_key(),
            ) && sorted_by_key(v@, file_name_key()),
    {
        let ghost pred = owned_by(directory_id@);
        let mut out: Vec<FileInfo> = Vec::new();
        let n = self.files.len();
        let mut i: usize = 0;
        proof {
            assert(self.files@.take(0).filter(pred) =~= Seq::<FileInfo>::empty());
        }
        while i < n
            invariant
                i <= n,
                n == self.files@.len(),
                pred == owned_by(directory_id@),
                out@ == sort_by_key(self.files@.take(i as int).filter(pred), file_name_key()),
                sorted_by_key(out@, file_name_key()),
            decreases n - i,
        {
            let f = &self.files[i];
            let is_match = str_eq(f.directory_id.as_str(), directory_id);
            proof {
                assert(is_match == pred(self.files@[i as int]));
                assert(self.files@.take(i as int + 1) == self.files@.take(i as int).push(
                    self.files@[i as int],
                ));
            }
            if is_match {
                let c = f.clone();
                let ghost fpre = self.files@.take(i as int).filter(pred);
                insert_file_by_name(&mut out, c);
                proof {
                    assert(fpre.push(self.files@[i as int]).drop_last() =~= fpre);
                    assert(sort_by_key(fpre.push(self.files@[i as int]), file_name_key())
                        == sorted_insert(sort_by_key(fpre, file_name_key()),
                        self.files@[i as int], file_name_key()));
                }
            }
            i = i + 1;
        }
        proof {
            assert(self.files@.take(n as int) == self.files@);
        }
        Ok(out)
    }
}

impl DatabaseService {
    /// Inserts a file row with a caller-supplied identifier and timestamp.
    /// A timestamp off the fixed encoding is refused as a store fault; an
    /// absent owning directory is not-found; a taken physical path or
    /// identifier is a conflict.
    pub fn create_file_with_id(
        &mut self,
        id: &str,
        name: &str,
        original_name: &str,
        directory_id: &str,
        file_path: &str,
        file_size: i64,
        mime_type: &str,
        timestamp: &str,
    ) -> (r: FmResult<FileInfo>)
        requires
            old(self).wf(),
        ensures
            final(self).wf(),
            final(self).directories@ == old(self).directories@,
            !timestamp_shape(timestamp@) ==> ((r matches Err(FileManagerError::Database { .. }))
                && *final(self) == *old(self)),
            timestamp_shape(timestamp@) && !old(self).has_dir_id(directory_id@) ==> ((r
                matches Err(FileManagerError::DirectoryNotFound { path: c }) && c@
                == directory_id@) && *final(self) == *old(self)),
            timestamp_shape(timestamp@) && old(self).has_dir_id(directory_id@) && old(self).has_file_path(file_path@) ==> ((r
                matches Err(FileManagerError::Conflict { path: c }) && c@ == file_path@) && *final(self)
                == *old(self)),
            timestamp_shape(timestamp@) && old(self).has_dir_id(directory_id@) && !old(self).has_file_path(file_path@) && old(self).has_file_id(id@) ==> ((r matches Err(FileManagerError::Conflict { path: c }) && c@
                == id@) && *final(self) == *old(self)),
            timestamp_shape(timestamp@) && old(self).has_dir_id(directory_id@) && !old(self).has_file_path(file_path@) && !old(self).has_file_id(id@) ==> (r matches Ok(rec) && rec.id@ == id@ && rec.name@ == name@
                && rec.original_name@ == original_name@ && rec.directory_id@ == directory_id@
                && rec.file_path@ == file_path@ && rec.file_size == file_size && rec.mime_type@
                == mime_type@ && rec.created_at@ == timestamp@ && rec.updated_at@ == timestamp@
                && final(self).files@ == old(self).files@.push(rec) && final(self).has_file_id(
                id@,
            )),
    {
        if !timestamp_text_ok(timestamp) {
            return Err(
                FileManagerError::Database {
                    message: String::from_str("timestamp text is not in the stored encoding"),
                },
            );
        }
        let di = self.find_dir(directory_id);
        if di == self.directories.len() {
            return Err(FileManagerError::DirectoryNotFound { path: directory_id.to_owned() });
        }
        let mut conflict_path: bool = false;
        let n = self.files.len();
        let mut i: usize = 0;
        while i < n
            invariant
                i <= n,
                n == self.files@.len(),
                conflict_path ==> self.has_file_path(file_path@),
                !conflict_path ==> forall|k: int| 0 <= k < i ==> self.files@[k].file_path@
                    != file_path@,
            decreases n - i,
        {
            if str_eq(self.files[i].file_path.as_str(), file_path) {
                conflict_path = true;
            }
            i = i + 1;
        }
        if conflict_path {
            return Err(FileManagerError::Conflict { path: file_path.to_owned() });
        }
        let fi = self.find_file(id);
        if fi < self.files.len() {
            return Err(FileManagerError::Conflict { path: id.to_owned() });
        }
        let rec = FileInfo {
            id: id.to_owned(),
            name: name.to_owned(),
            original_name: original_name.to_owned(),
            directory_id: directory_id.to_owned(),
            file_path: file_path.to_owned(),
            file_size,
            mime_type: mime_type.to_owned(),
            created_at: timestamp.to_owned(),
            updated_at: timestamp.to_owned(),
        };
        let stored = rec.clone();
        let ghost pre = *self;
        self.files.push(stored);
        proof {
            assert(final(self).files@ == pre.files@.push(rec));
            assert(final(self).has_file_id(id@)) by {
                assert(final(self).files@[pre.files@.len() as int].id@ == id@);
            }
            assert forall|a: int, b: int| 0 <= a < b < final(self).files@.len() implies final(self).files@[a].id@ != final(self).files@[b].id@ && final(self).files@[a].file_path@
                != final(self).files@[b].file_path@ by {
                if b == final(self).files@.len() - 1 {
                    assert(pre.files@[a].id@ != id@);
                    assert(pre.files@[a].file_path@ != file_path@);
                }
            }
            assert forall|a: int|
                0 <= a < final(self).files@.len() implies timestamp_shape(
                (#[trigger] final(self).files@[a]).created_at@,
            ) && timestamp_shape(final(self).files@[a].updated_at@) by {
                if a < pre.files@.len() {
                    assert(final(self).files@[a] == pre.files@[a]);
                }
            }
        }
        Ok(rec)
    }

    /// Inserts a file row under a fresh identifier, stamped with the
    /// current time.
    pub fn create_file(
        &mut self,
        name: &str,
        original_name: &str,
        directory_id: &str,
        file_path: &str,
        file_size: i64,
        mime_type: &str,
    ) -> (r: FmResult<FileInfo>)
        requires
            old(self).wf(),
        ensures
            final(self).wf(),
            final(self).directories@ == old(self).directories@,
            r is Err ==> *final(self) == *old(self),
            !old(self).has_dir_id(directory_id@) ==> (r matches Err(
                FileManagerError::DirectoryNotFound { path: c },
            ) && c@ == directory_id@),
            old(self).has_dir_id(directory_id@) && old(self).has_file_path(file_path@) ==> (r
                matches Err(FileManagerError::Conflict { path: c }) && c@ == file_path@),
            r matches Err(e) ==> (e matches FileManagerError::Conflict { .. } || e
                matches FileManagerError::DirectoryNotFound { .. }),
            old(self).has_dir_id(directory_id@) && r is Err ==> (r matches Err(e)
                && e matches FileManagerError::Conflict { .. }),
            r matches Ok(rec) ==> (old(self).has_dir_id(directory_id@) && !old(self).has_file_path(file_path@) && rec.name@ == name@ && rec.original_name@
                == original_name@ && rec.directory_id@ == directory_id@ && rec.file_path@
                == file_path@ && rec.file_size == file_size && rec.mime_type@ == mime_type@
                && rec.created_at@ == rec.updated_at@ && uuid_chars(rec.id@) && !old(self).has_file_id(rec.id@) && final(self).files@ == old(self).files@.push(rec) && final(self).has_file_id(rec.id@) && final(self).file_rec(rec.id@) == rec),
    {
        let id = fresh_uuid_string();
        let now = now_rfc3339();
        let r = self.create_file_with_id(
            id.as_str(),
            name,
            original_name,
            directory_id,
            file_path,
            file_size,
            mime_type,
            now.as_str(),
        );
        proof {
            if r is Ok {
                let rec = r->Ok_0;
                assert(final(self).file_rec(rec.id@) == rec) by {
                    let w = final(self).file_index(rec.id@);
                    assert(0 <= w < final(self).files@.len() && final(self).files@[w].id@
                        == rec.id@);
                    if w != final(self).files@.len() - 1 {
                        assert(old(self).files@[w].id@ == rec.id@);
                        assert(old(self).has_file_id(rec.id@));
                        assert(false);
                    }
                }
            }
        }
        r
    }

    /// Removes the file row with identifier `id`; removing an absent row
    /// changes nothing.
    pub fn delete_file(&mut self, id: &str) -> (r: FmResult<()>)
        requires
            old(self).wf(),
        ensures
            r is Ok,
            final(self).wf(),
            final(self).directories@ == old(self).directories@,
            !old(self).has_file_id(id@) ==> *final(self) == *old(self),
            old(self).has_file_id(id@) ==> final(self).files@ == old(self).files@.remove(
                old(self).file_index(id@),
            ) && !final(self).has_file_id(id@) && (forall|q: Seq<char>|
                q != id@ ==> final(self).has_file_id(q) == old(self).has_file_id(q)) && (forall|
                q: Seq<char>,
            |
                q != id@ && old(self).has_file_id(q) ==> final(self).file_rec(q) == old(self).file_rec(q)),
    {
        let idx = self.find_file(id);
        if idx == self.files.len() {
            return Ok(());
        }
        let ghost pre = *self;
        let removed = self.files.remove(idx);
        proof {
            assert(pre.file_index(id@) == idx) by {
                let i = pre.file_index(id@);
                if i != idx {
                    if i < idx {
                        assert(pre.files@[i].id@ != id@);
                    } else {
                        assert(false);
                    }
                }
            }
            assert forall|i: int, j: int| 0 <= i < j < self.files@.len() implies self.files@[
                i
            ].id@ != self.files@[j].id@ && self.files@[i].file_path@ != self.files@[
                j
            ].file_path@ by {
                let pi: int = if i < idx { i } else { i + 1 };
                let pj: int = if j < idx { j } else { j + 1 };
                assert(self.files@[i] == pre.files@[pi]);
                assert(self.files@[j] == pre.files@[pj]);
            }
            assert forall|q: Seq<char>| q != id@ && pre.has_file_id(q) implies self.has_file_id(
                q,
            ) by {
                let i = pre.file_index(q);
                let ni: int = if i < idx { i } else { i - 1 };
                assert(self.files@[ni] == pre.files@[i]);
            }
            assert forall|q: Seq<char>| self.has_file_id(q) implies q != id@ && pre.has_file_id(
                q,
            ) by {
                let i = self.file_index(q);
                let pi: int = if i < idx { i } else { i + 1 };
                assert(pre.files@[pi] == self.files@[i]);
                if q == id@ {
                    assert(pre.files@[pi].id@ == pre.files@[idx as int].id@);
                }
            }
            assert forall|q: Seq<char>| q != id@ && pre.has_file_id(q) implies self.file_rec(q)
                == pre.file_rec(q) by {
                let i = pre.file_index(q);
                let ni: int = if i < idx { i } else { i - 1 };
                assert(self.files@[ni] == pre.files@[i]);
                let j = self.file_index(q);
                if j != ni {
                    let pj: int = if j < idx { j } else { j + 1 };
                    assert(pre.files@[pj] == self.files@[j]);
                    assert(pre.files@[pj].id@ == pre.files@[i].id@);
                    assert(false);
                }
            }
        }
        Ok(())
    }
}

impl DatabaseService {
    /// Whether some directory row lying under `base` owns the file with
    /// directory pointer `fdid`.
    pub(crate) fn cascade_hits(&self, base: &String, fdid: &String) -> (r: bool)
        ensures
            r == exists|i: int|
                0 <= i < self.directories@.len() && path_under(
                    base@,
                    #[trigger] self.directories@[i].path@,
                ) && self.directories@[i].id@ == fdid@,
    {
        let n = self.directories.len();
        let mut i: usize = 0;
        while i < n
            invariant
                i <= n,
                n == self.directories@.len(),
                forall|k: int|
                    0 <= k < i ==> !(path_under(base@, #[trigger] self.directories@[k].path@)
                        && self.directories@[k].id@ == fdid@),
            decreases n - i,
        {
            let under = crate::filesystem::FileSystemService::path_matches_under(
                self.directories[i].path.as_str(),
                base.as_str(),
            );
            if under && str_eq(self.directories[i].id.as_str(), fdid.as_str()) {
                return true;
            }
            i = i + 1;
        }
        false
    }

    /// Removes the directory row with identifier `id`, every directory row
    /// whose path lies under its path, and every file row owned by one of
    /// the removed directories; removing an absent row changes nothing.
    pub fn delete_directory(&mut self, id: &str) -> (r: FmResult<()>)
        requires
            old(self).wf(),
        ensures
            r is Ok,
            final(self).wf(),
            !old(self).has_dir_id(id@) ==> *final(self) == *old(self),
            old(self).has_dir_id(id@) ==> ({
                let base = old(self).dir_rec(id@).path@;
                &&& final(self).directories@ == old(self).directories@.filter(
                    dir_outside_tree(base),
                )
                &&& final(self).files@ == old(self).files@.filter(
                    file_outside_tree(old(self).directories@, base),
                )
                &&& !final(self).has_dir_id(id@)
                &&& (forall|q: Seq<char>|
                    final(self).has_dir_id(q) ==> old(self).has_dir_id(q))
                &&& (forall|q: Seq<char>|
                    old(self).has_dir_id(q) && !path_under(base, old(self).dir_rec(q).path@)
                        ==> final(self).has_dir_id(q) && final(self).dir_rec(q) == old(
                        self,
                    ).dir_rec(q))
                &&& (forall|q: Seq<char>|
                    old(self).has_dir_id(q) && path_under(base, old(self).dir_rec(q).path@)
                        ==> !final(self).has_dir_id(q))
                &&& (forall|q: Seq<char>|
                    final(self).has_file_id(q) ==> old(self).has_file_id(q))
                &&& (forall|q: Seq<char>|
                    old(self).has_file_id(q) && file_outside_tree(old(self).directories@, base)(
                        old(self).file_rec(q),
                    ) ==> final(self).has_file_id(q) && final(self).file_rec(q) == old(
                        self,
                    ).file_rec(q))
                &&& (forall|q: Seq<char>|
                    old(self).has_file_id(q) && !file_outside_tree(old(self).directories@, base)(
                        old(self).file_rec(q),
                    ) ==> !final(self).has_file_id(q))
            }),
    {
        let idx = self.find_dir(id);
        if idx == self.directories.len() {
            return Ok(());
        }
        let ghost pre = *self;
        proof {
            assert(pre.dir_index(id@) == idx) by {
                let i = pre.dir_index(id@);
                if i != idx {
                    if i < idx {
                        assert(pre.directories@[i].id@ != id@);
                    } else {
                        assert(false);
                    }
                }
            }
        }
        let base = self.directories[idx].path.clone();
        let ghost fpred = file_outside_tree(pre.directories@, base@);
        let ghost dpred = dir_outside_tree(base@);

        let mut kept_files: Vec<FileInfo> = Vec::new();
        let fn_total = self.files.len();
        let mut i: usize = 0;
        proof {
            assert(pre.files@.take(0).filter(fpred) =~= Seq::<FileInfo>::empty());
        }
        while i < fn_total
            invariant
                i <= fn_total,
                fn_total == self.files@.len(),
                *self == pre,
                base@ == pre.dir_rec(id@).path@,
                fpred == file_outside_tree(pre.directories@, base@),
                kept_files@ == pre.files@.take(i as int).filter(fpred),
            decreases fn_total - i,
        {
            let hits = self.cascade_hits(&base, &self.files[i].directory_id);
            proof {
                assert(hits == !fpred(pre.files@[i as int]));
                assert(pre.files@.take(i as int + 1) == pre.files@.take(i as int).push(
                    pre.files@[i as int],
                ));
            }
            if !hits {
                let c = self.files[i].clone();
                kept_files.push(c);
            }
            i = i + 1;
        }
        proof {
            assert(pre.files@.take(fn_total as int) == pre.files@);
        }

        let mut kept_dirs: Vec<DirectoryInfo> = Vec::new();
        let dn_total = self.directories.len();
        let mut k: usize = 0;
        proof {
            assert(pre.directories@.take(0).filter(dpred) =~= Seq::<DirectoryInfo>::empty());
        }
        while k < dn_total
            invariant
                k <= dn_total,
                dn_total == self.directories@.len(),
                *self == pre,
                base@ == pre.dir_rec(id@).path@,
                dpred == dir_outside_tree(base@),
                kept_dirs@ == pre.directories@.take(k as int).filter(dpred),
            decreases dn_total - k,
        {
            let under = crate::filesystem::FileSystemService::path_matches_under(
                self.directories[k].path.as_str(),
                base.as_str(),
            );
            proof {
                assert((!under) == dpred(pre.directories@[k as int]));
                assert(pre.directories@.take(k as int + 1) == pre.directories@.take(
                    k as int,
                ).push(pre.directories@[k as int]));
            }
            if !under {
                let c = self.directories[k].clone();
                kept_dirs.push(c);
            }
            k = k + 1;
        }
        proof {
            assert(pre.directories@.take(dn_total as int) == pre.directories@);
        }
        self.files = kept_files;
        self.directories = kept_dirs;
        proof {
            crate::text::lemma_filter_member(pre.directories@, dpred);
            crate::text::lemma_filter_member(pre.files@, fpred);
            let base_s = base@;
            assert forall|a: int, b: int|
                0 <= a < b < self.directories@.len() implies self.directories@[a].id@
                != self.directories@[b].id@ && self.directories@[a].path@ != self.directories@[
                b
            ].path@ by {
                crate::text::lemma_filter_distinct_by(
                    pre.directories@,
                    dpred,
                    |d: DirectoryInfo| d.id@,
                    a,
                    b,
                );
                crate::text::lemma_filter_distinct_by(
                    pre.directories@,
                    dpred,
                    |d: DirectoryInfo| d.path@,
                    a,
                    b,
                );
            }
            assert forall|a: int, b: int| 0 <= a < b < self.files@.len() implies self.files@[
                a
            ].id@ != self.files@[b].id@ && self.files@[a].file_path@ != self.files@[
                b
            ].file_path@ by {
                crate::text::lemma_filter_distinct_by(
                    pre.files@,
                    fpred,
                    |f: FileInfo| f.id@,
                    a,
                    b,
                );
                crate::text::lemma_filter_distinct_by(
                    pre.files@,
                    fpred,
                    |f: FileInfo| f.file_path@,
                    a,
                    b,
                );
            }
            assert forall|q: Seq<char>| self.has_dir_id(q) implies pre.has_dir_id(q) by {
                let i2 = self.dir_index(q);
                let w = choose|w: int|
                    0 <= w < pre.directories@.len() && pre.directories@[w] == self.directories@[
                    i2
                ];
                assert(pre.directories@[w].id@ == q);
            }
            assert forall|q: Seq<char>|
                pre.has_dir_id(q) && !path_under(base_s, pre.dir_rec(q).path@) implies self
                .has_dir_id(q) && self.dir_rec(q) == pre.dir_rec(q) by {
                let i2 = pre.dir_index(q);
                assert(dpred(pre.directories@[i2]));
                assert(pre.directories@.filter(dpred).contains(pre.directories@[i2]));
                let j2 = choose|j2: int|
                    0 <= j2 < self.directories@.len() && self.directories@[j2]
                        == pre.directories@[i2];
                assert(self.directories@[j2].id@ == q);
                let j3 = self.dir_index(q);
                if j3 != j2 {
                    assert(false);
                }
                let w = choose|w: int|
                    0 <= w < pre.directories@.len() && pre.directories@[w] == self.directories@[
                    j3
                ];
                if w != i2 {
                    assert(pre.directories@[w].id@ == pre.directories@[i2].id@);
                    assert(false);
                }
            }
            assert forall|q: Seq<char>|
                pre.has_dir_id(q) && path_under(base_s, pre.dir_rec(q).path@) implies !self
                .has_dir_id(q) by {
                if self.has_dir_id(q) {
                    let i2 = self.dir_index(q);
                    assert(dpred(self.directories@[i2]));
                    let w = choose|w: int|
                        0 <= w < pre.directories@.len() && pre.directories@[w]
                            == self.directories@[i2];
                    let i3 = pre.dir_index(q);
                    if w != i3 {
                        assert(pre.directories@[w].id@ == pre.directories@[i3].id@);
                        assert(false);
                    }
                }
            }
            assert(!self.has_dir_id(id@)) by {
                assert(path_under(base_s, pre.dir_rec(id@).path@));
            }
            assert forall|q: Seq<char>| self.has_file_id(q) implies pre.has_file_id(q) by {
                let i2 = self.file_index(q);
                let w = choose|w: int|
                    0 <= w < pre.files@.len() && pre.files@[w] == self.files@[i2];
                assert(pre.files@[w].id@ == q);
            }
            assert forall|q: Seq<char>|
                pre.has_file_id(q) && fpred(pre.file_rec(q)) implies self.has_file_id(q)
                && self.file_rec(q) == pre.file_rec(q) by {
                let i2 = pre.file_index(q);
                assert(fpred(pre.files@[i2]));
                assert(pre.files@.filter(fpred).contains(pre.files@[i2]));
                let j2 = choose|j2: int|
                    0 <= j2 < self.files@.len() && self.files@[j2] == pre.files@[i2];
                assert(self.files@[j2].id@ == q);
                let j3 = self.file_index(q);
                if j3 != j2 {
                    assert(false);
                }
                let w = choose|w: int|
                    0 <= w < pre.files@.len() && pre.files@[w] == self.files@[j3];
                if w != i2 {
                    assert(pre.files@[w].id@ == pre.files@[i2].id@);
                    assert(false);
                }
            }
            assert forall|q: Seq<char>|
                pre.has_file_id(q) && !fpred(pre.file_rec(q)) implies !self.has_file_id(q) by {
                if self.has_file_id(q) {
                    let i2 = self.file_index(q);
                    assert(fpred(self.files@[i2]));
                    let w = choose|w: int|
                        0 <= w < pre.files@.len() && pre.files@[w] == self.files@[i2];
                    let i3 = pre.file_index(q);
                    if w != i3 {
                        assert(pre.files@[w].id@ == pre.files@[i3].id@);
                        assert(false);
                    }
                }
            }
        }
        Ok(())
    }
}

impl DatabaseService {
    /// Pushing a fresh directory row preserves and extends the lookups.
    pub proof fn lemma_dirs_push(pre: Self, post: Self, rec: DirectoryInfo)
        requires
            pre.wf(),
            !pre.has_dir_id(rec.id@),
            post.directories@ == pre.directories@.push(rec),
        ensures
            forall|q: Seq<char>|
                pre.has_dir_id(q) ==> post.has_dir_id(q) && post.dir_rec(q) == pre.dir_rec(q),
            forall|q: Seq<char>| post.has_dir_id(q) ==> pre.has_dir_id(q) || q == rec.id@,
            post.has_dir_id(rec.id@),
            post.dir_rec(rec.id@) == rec,
    {
        let n = pre.directories@.len();
        assert(post.directories@[n as int] == rec);
        assert forall|q: Seq<char>| pre.has_dir_id(q) implies post.has_dir_id(q) && post.dir_rec(
            q,
        ) == pre.dir_rec(q) by {
            let i = pre.dir_index(q);
            assert(post.directories@[i].id@ == q);
            let j = post.dir_index(q);
            if j != i {
                if j < n {
                    assert(pre.directories@[j].id@ == pre.directories@[i].id@);
                    assert(false);
                } else {
                    assert(rec.id@ == q);
                    assert(false);
                }
            }
        }
        assert forall|q: Seq<char>| post.has_dir_id(q) implies pre.has_dir_id(q) || q
            == rec.id@ by {
            let i = post.dir_index(q);
            if i < n {
                assert(pre.directories@[i].id@ == q);
            }
        }
        assert(post.dir_rec(rec.id@) == rec) by {
            let i = post.dir_index(rec.id@);
            if i != n {
                assert(pre.directories@[i].id@ == rec.id@);
                assert(false);
            }
        }
    }

    /// Pushing a fresh file row preserves and extends the lookups.
    pub proof fn lemma_files_push(pre: Self, post: Self, rec: FileInfo)
        requires
            pre.wf(),
            !pre.has_file_id(rec.id@),
            post.files@ == pre.files@.push(rec),
        ensures
            forall|q: Seq<char>|
                pre.has_file_id(q) ==> post.has_file_id(q) && post.file_rec(q) == pre.file_rec(
                    q,
                ),
            forall|q: Seq<char>| post.has_file_id(q) ==> pre.has_file_id(q) || q == rec.id@,
            post.has_file_id(rec.id@),
            post.file_rec(rec.id@) == rec,
    {
        let n = pre.files@.len();
        assert(post.files@[n as int] == rec);
        assert forall|q: Seq<char>| pre.has_file_id(q) implies post.has_file_id(q)
            && post.file_rec(q) == pre.file_rec(q) by {
            let i = pre.file_index(q);
            assert(post.files@[i].id@ == q);
            let j = post.file_index(q);
            if j != i {
                if j < n {
                    assert(pre.files@[j].id@ == pre.files@[i].id@);
                    assert(false);
                } else {
                    assert(rec.id@ == q);
                    assert(false);
                }
            }
        }
        assert forall|q: Seq<char>| post.has_file_id(q) implies pre.has_file_id(q) || q
            == rec.id@ by {
            let i = post.file_index(q);
            if i < n {
                assert(pre.files@[i].id@ == q);
            }
        }
        assert(post.file_rec(rec.id@) == rec) by {
            let i = post.file_index(rec.id@);
            if i != n {
                assert(pre.files@[i].id@ == rec.id@);
                assert(false);
            }
        }
    }
}

} // verus!
