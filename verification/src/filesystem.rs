//! The content store: binary payloads addressed by slash-separated paths,
//! with unique-name generation, chunked ingestion with progress events,
//! directory lifecycle and MIME detection.
//!
//! The store's state is explicit: a sequence of stored objects and a
//! sequence of created directories. Every operation's contract says exactly
//! how the state changes; the surrounding application decides how the state
//! is mirrored onto a real disk.

use vstd::prelude::*;
use vstd::string::*;
use vstd::slice::*;
use crate::error::{FileManagerError, FmResult};
use crate::foreign::{fresh_uuid_string, uuid_chars, mime_guess_of, mime_from_name, fold_lower, lower_of};
use crate::text::{
    ext_of, extension_of, filename_with_extension, is_prefix_of, join_path, join_seq, last_pos,
    starts_with, str_eq, with_extension,
};

verus! {

broadcast use vstd::seq::Seq::lemma_filter_push, vstd::seq::Seq::lemma_take_succ_push, vstd::seq::Seq::lemma_take_len, vstd::seq::Seq::lemma_push_map_commute, vstd::seq_lib::group_filter_ensures;

/// One stored payload: its full path and its bytes.
pub struct StoredObject {
    pub path: String,
    pub data: Vec<u8>,
}

/// What a finished save reports back.
#[derive(Debug, Clone)]
pub struct UploadInfo {
    pub original_name: String,
    pub file_size: u64,
    pub mime_type: String,
    pub saved_path: String,
    pub unique_name: String,
}

/// The content store.
pub struct FileSystemService {
    pub storage_root: String,
    pub objects: Vec<StoredObject>,
    pub dirs: Vec<String>,
}

/// `p` lies at or below `prefix` in the path tree: it equals the prefix,
/// or extends it with a slash standing at the boundary.
pub open spec fn path_under(prefix: Seq<char>, p: Seq<char>) -> bool {
    p == prefix || (p.len() > prefix.len() && is_prefix_of(prefix, p) && (prefix.len() == 0
        || prefix.last() == '/' || p[prefix.len() as int] == '/'))
}

/// `p` names an entry directly inside the directory `dirp`.
pub open spec fn direct_child_of(dirp: Seq<char>, p: Seq<char>) -> bool {
    is_prefix_of(dirp + seq!['/'], p) && p.len() > dirp.len() + 1 && last_pos(p, '/') == dirp.len()
}

/// The bytes a JPEG payload opens with.
pub open spec fn jpeg_sig() -> Seq<u8> {
    seq![0xffu8, 0xd8u8, 0xffu8]
}

/// The eight-byte PNG signature.
pub open spec fn png_sig() -> Seq<u8> {
    seq![0x89u8, 0x50u8, 0x4eu8, 0x47u8, 0x0du8, 0x0au8, 0x1au8, 0x0au8]
}

/// The two GIF signatures.
pub open spec fn gif87_sig() -> Seq<u8> {
    seq![0x47u8, 0x49u8, 0x46u8, 0x38u8, 0x37u8, 0x61u8]
}

pub open spec fn gif89_sig() -> Seq<u8> {
    seq![0x47u8, 0x49u8, 0x46u8, 0x38u8, 0x39u8, 0x61u8]
}

/// The `%PDF` marker.
pub open spec fn pdf_sig() -> Seq<u8> {
    seq![0x25u8, 0x50u8, 0x44u8, 0x46u8]
}

/// The ZIP local-file-header marker.
pub open spec fn zip_sig() -> Seq<u8> {
    seq![0x50u8, 0x4bu8, 0x03u8, 0x04u8]
}

/// Content-signature sniffing: the MIME type suggested by the payload's
/// leading bytes, `application/octet-stream` when nothing matches.
pub open spec fn sniff_seq(d: Seq<u8>) -> Seq<char> {
    if d.len() >= 3 && d.subrange(0, 3) == jpeg_sig() {
        "image/jpeg"@
    } else if d.len() >= 8 && d.subrange(0, 8) == png_sig() {
        "image/png"@
    } else if d.len() >= 6 && (d.subrange(0, 6) == gif87_sig() || d.subrange(0, 6) == gif89_sig()) {
        "image/gif"@
    } else if d.len() >= 4 && d.subrange(0, 4) == pdf_sig() {
        "application/pdf"@
    } else if d.len() >= 4 && d.subrange(0, 4) == zip_sig() {
        "application/zip"@
    } else {
        "application/octet-stream"@
    }
}

/// The MIME type recorded for a payload: the extension-table answer for the
/// name when there is one, else content sniffing.
pub open spec fn mime_spec(name: Seq<char>, data: Seq<u8>) -> Seq<char> {
    match mime_guess_of(name) {
        Some(m) => m,
        None => sniff_seq(data),
    }
}

impl FileSystemService {
    /// The stored objects as (path, bytes) pairs.
    pub open spec fn objects_model(self) -> Seq<(Seq<char>, Seq<u8>)> {
        self.objects@.map_values(|o: StoredObject| (o.path@, o.data@))
    }

    /// The stored object paths.
    pub open spec fn paths_model(self) -> Seq<Seq<char>> {
        self.objects@.map_values(|o: StoredObject| o.path@)
    }

    /// The created directories.
    pub open spec fn dir_views(self) -> Seq<Seq<char>> {
        self.dirs@.map_values(|s: String| s@)
    }

    /// Object paths are distinct: each path holds exactly one payload.
    pub open spec fn wf(self) -> bool {
        forall|i: int, j: int|
            0 <= i < j < self.objects@.len() ==> self.objects@[i].path@ != self.objects@[j].path@
    }

    /// Some payload stands at `p`.
    pub open spec fn has_object(self, p: Seq<char>) -> bool {
        exists|i: int| 0 <= i < self.objects@.len() && #[trigger] self.objects@[i].path@ == p
    }

    /// The index of the payload at `p`.
    pub open spec fn object_index(self, p: Seq<char>) -> int {
        choose|i: int| 0 <= i < self.objects@.len() && #[trigger] self.objects@[i].path@ == p
    }

    /// The bytes of the payload at `p`.
    pub open spec fn object_at(self, p: Seq<char>) -> Seq<u8> {
        self.objects@[self.object_index(p)].data@
    }

    /// A directory stands at `p`, explicitly created or implied as a parent
    /// of a created one.
    pub open spec fn has_dir(self, p: Seq<char>) -> bool {
        exists|i: int| 0 <= i < self.dirs@.len() && path_under(p, #[trigger] self.dirs@[i]@)
    }

    /// A fresh, empty content store rooted at `storage_root`.
    pub fn new(storage_root: &str) -> (r: FmResult<Self>)
        ensures
            r matches Ok(fs) && fs.storage_root@ == storage_root@ && fs.objects@.len() == 0
                && fs.dirs@.len() == 0 && fs.wf(),
    {
        Ok(
            FileSystemService {
                storage_root: storage_root.to_owned(),
                objects: Vec::new(),
                dirs: Vec::new(),
            },
        )
    }

    /// Finds the payload at `p`, returning its index or the object count.
    fn find_object(&self, p: &str) -> (r: usize)
        ensures
            r <= self.objects@.len(),
            r < self.objects@.len() ==> self.objects@[r as int].path@ == p@,
            r == self.objects@.len() ==> !self.has_object(p@),
            forall|k: int| 0 <= k < r ==> self.objects@[k].path@ != p@,
    {
        let n = self.objects.len();
        let mut i: usize = 0;
        while i < n
            invariant
                i <= n,
                n == self.objects@.len(),
                forall|k: int| 0 <= k < i ==> self.objects@[k].path@ != p@,
            decreases n - i,
        {
            if str_eq(self.objects[i].path.as_str(), p) {
                return i;
            }
            i = i + 1;
        }
        n
    }

    /// Decides whether `p` names a stored payload.
    pub fn file_exists(&self, file_path: &str) -> (r: bool)
        ensures
            r == self.has_object(file_path@),
    {
        let i = self.find_object(file_path);
        i < self.objects.len()
    }

    /// Decides whether `path` lies at or below `prefix`.
    pub fn path_matches_under(p: &str, prefix: &str) -> (r: bool)
        ensures
            r == path_under(prefix@, p@),
    {
        if str_eq(p, prefix) {
            return true;
        }
        let plen = p.unicode_len();
        let xlen = prefix.unicode_len();
        if plen <= xlen {
            return false;
        }
        if !starts_with(p, prefix) {
            return false;
        }
        if xlen == 0 {
            return true;
        }
        if prefix.get_char(xlen - 1) == '/' {
            return true;
        }
        p.get_char(xlen) == '/'
    }

    /// Decides whether a directory stands at `dir_path` under the storage
    /// root.
    pub fn directory_exists(&self, dir_path: &str) -> (r: bool)
        ensures
            r == self.has_dir(join_seq(self.storage_root@, dir_path@)),
    {
        let full = join_path(self.storage_root.as_str(), dir_path);
        let n = self.dirs.len();
        let mut i: usize = 0;
        while i < n
            invariant
                i <= n,
                n == self.dirs@.len(),
                full@ == join_seq(self.storage_root@, dir_path@),
                forall|k: int| 0 <= k < i ==> !path_under(full@, #[trigger] self.dirs@[k]@),
            decreases n - i,
        {
            if Self::path_matches_under(self.dirs[i].as_str(), full.as_str()) {
                return true;
            }
            i = i + 1;
        }
        false
    }

    /// Records `full` as a created directory if it is not there yet.
    fn ensure_dir_recorded(&mut self, full: &String)
        ensures
            final(self).storage_root == old(self).storage_root,
            final(self).objects@ == old(self).objects@,
            old(self).has_dir(full@) ==> final(self).dirs@ == old(self).dirs@,
            !old(self).has_dir(full@)
                ==> final(self).dir_views() == old(self).dir_views().push(full@),
            final(self).has_dir(full@),
            forall|q: Seq<char>| old(self).has_dir(q) ==> final(self).has_dir(q),
    {
        let n = self.dirs.len();
        let mut i: usize = 0;
        while i < n
            invariant
                i <= n,
                n == self.dirs@.len(),
                forall|k: int| 0 <= k < i ==> !path_under(full@, #[trigger] self.dirs@[k]@),
            decreases n - i,
        {
            if Self::path_matches_under(self.dirs[i].as_str(), full.as_str()) {
                return ;
            }
            i = i + 1;
        }
        let copy = full.clone();
        self.dirs.push(copy);
        proof {
            assert(final(self).dir_views() =~= old(self).dir_views().push(full@));
            assert(path_under(full@, final(self).dirs@[final(self).dirs@.len() - 1]@));
            assert forall|q: Seq<char>| old(self).has_dir(q) implies final(self).has_dir(q) by {
                let i0 = choose|i0: int|
                    0 <= i0 < old(self).dirs@.len()
                        && path_under(q, #[trigger] old(self).dirs@[i0]@);
                assert(path_under(q, final(self).dirs@[i0]@));
            }
        }
    }

    /// Creates the directory `dir_path` (and, implicitly, its parents)
    /// under the storage root.
    pub fn create_directory(&mut self, dir_path: &str) -> (r: FmResult<()>)
        ensures
            r is Ok,
            final(self).storage_root == old(self).storage_root,
            final(self).objects@ == old(self).objects@,
            final(self).has_dir(join_seq(old(self).storage_root@, dir_path@)),
            old(self).has_dir(join_seq(old(self).storage_root@, dir_path@)) ==> final(self).dirs@
                == old(self).dirs@,
            !old(self).has_dir(join_seq(old(self).storage_root@, dir_path@))
                ==> final(self).dir_views() == old(self).dir_views().push(
                join_seq(old(self).storage_root@, dir_path@),
            ),
            forall|q: Seq<char>| old(self).has_dir(q) ==> final(self).has_dir(q),
    {
        let full = join_path(self.storage_root.as_str(), dir_path);
        self.ensure_dir_recorded(&full);
        Ok(())
    }
}

/// The first `k` chunks joined into one byte run.
pub open spec fn concat_upto(cs: Seq<Seq<u8>>, k: int) -> Seq<u8>
    decreases k,
{
    if k <= 0 {
        Seq::empty()
    } else {
        concat_upto(cs, k - 1) + cs[k - 1]
    }
}

/// How many chunks a sequential reader would deliver: everything before
/// the first empty chunk, which stands for end-of-input.
pub open spec fn stop_index(cs: Seq<Seq<u8>>) -> int
    decreases cs.len(),
{
    if cs.len() == 0 {
        0
    } else if cs[0].len() == 0 {
        0
    } else {
        1 + stop_index(cs.drop_first())
    }
}

/// The bytes a chunked save stores: the delivered chunks, joined.
pub open spec fn content_of(cs: Seq<Seq<u8>>) -> Seq<u8> {
    concat_upto(cs, stop_index(cs))
}

/// The chunk retained for sniffing: the first delivered one.
pub open spec fn first_chunk_of(cs: Seq<Seq<u8>>) -> Seq<u8> {
    if stop_index(cs) > 0 {
        cs[0]
    } else {
        Seq::empty()
    }
}

pub proof fn lemma_stop_index_bounds(cs: Seq<Seq<u8>>)
    ensures
        0 <= stop_index(cs) <= cs.len(),
        forall|j: int| 0 <= j < stop_index(cs) ==> #[trigger] cs[j].len() > 0,
        stop_index(cs) < cs.len() ==> cs[stop_index(cs)].len() == 0,
    decreases cs.len(),
{
    if cs.len() > 0 && cs[0].len() != 0 {
        let df = cs.drop_first();
        lemma_stop_index_bounds(df);
        assert forall|j: int| 0 <= j < stop_index(cs) implies #[trigger] cs[j].len() > 0 by {
            if j >= 1 {
                assert(cs[j] == df[j - 1]);
            }
        }
        if stop_index(cs) < cs.len() {
            assert(cs[stop_index(cs)] == df[stop_index(df)]);
        }
    }
}

/// A position with the stopping property is the stopping index.
pub proof fn lemma_stop_index_unique(cs: Seq<Seq<u8>>, i: int)
    requires
        0 <= i <= cs.len(),
        forall|j: int| 0 <= j < i ==> #[trigger] cs[j].len() > 0,
        i < cs.len() ==> cs[i].len() == 0,
    ensures
        stop_index(cs) == i,
    decreases cs.len(),
{
    if cs.len() == 0 {
    } else if i == 0 {
    } else {
        let df = cs.drop_first();
        assert(cs[0].len() > 0);
        assert(forall|j: int| 0 <= j < i - 1 ==> #[trigger] df[j] == cs[j + 1]);
        if i - 1 < df.len() {
            assert(df[i - 1] == cs[i]);
        }
        lemma_stop_index_unique(df, i - 1);
    }
}

/// Joining one more chunk can only lengthen the run.
pub proof fn lemma_concat_upto_mono(cs: Seq<Seq<u8>>, i: int, j: int)
    requires
        i <= j,
    ensures
        concat_upto(cs, i).len() <= concat_upto(cs, j).len(),
    decreases j - i,
{
    if i < j {
        lemma_concat_upto_mono(cs, i, j - 1);
    }
}

impl FileSystemService {
    /// After a push of a fresh path, the new payload is retrievable and the
    /// old ones are untouched.
    pub proof fn lemma_model_push(pre: Self, post: Self, p: Seq<char>, d: Seq<u8>)
        requires
            pre.wf(),
            !pre.has_object(p),
            post.objects_model() == pre.objects_model().push((p, d)),
        ensures
            post.wf(),
            post.has_object(p),
            post.object_at(p) == d,
            forall|q: Seq<char>| pre.has_object(q) ==> post.has_object(q),
            forall|q: Seq<char>| post.has_object(q) ==> pre.has_object(q) || q == p,
            forall|q: Seq<char>|
                q != p && pre.has_object(q) ==> post.object_at(q) == pre.object_at(q),
    {
        let n = pre.objects@.len();
        assert(post.objects_model().len() == n + 1);
        assert(post.objects@.len() == n + 1);
        assert forall|i: int| 0 <= i < n implies post.objects@[i].path@ == pre.objects@[i].path@
            && post.objects@[i].data@ == pre.objects@[i].data@ by {
            assert(post.objects_model()[i] == pre.objects_model().push((p, d))[i]);
        }
        assert(post.objects_model()[n as int] == (p, d));
        assert(post.objects@[n as int].path@ == p && post.objects@[n as int].data@ == d);
        assert forall|i: int| 0 <= i < n implies post.objects@[i].path@ != p by {
            assert(pre.has_object(pre.objects@[i].path@) == true);
        }
        assert(post.wf());
        assert(post.has_object(p));
        assert(post.object_index(p) == n) by {
            let i = post.object_index(p);
            assert(0 <= i < n + 1 && post.objects@[i].path@ == p);
        }
        assert forall|q: Seq<char>| q != p && pre.has_object(q) implies post.object_at(q)
            == pre.object_at(q) by {
            let i = pre.object_index(q);
            assert(0 <= i < n && pre.objects@[i].path@ == q);
            assert(post.objects@[i].path@ == q);
            assert(post.has_object(q));
            let j = post.object_index(q);
            assert(0 <= j < n + 1 && post.objects@[j].path@ == q);
            assert(j < n);
            let i2 = pre.object_index(q);
            if i2 != j {
                assert(pre.objects@[i2].path@ == q && pre.objects@[j].path@ == q);
                assert(false);
            }
        }
        assert forall|q: Seq<char>| pre.has_object(q) implies post.has_object(q) by {
            let i = pre.object_index(q);
            assert(post.objects@[i].path@ == q);
        }
        assert forall|q: Seq<char>| post.has_object(q) implies pre.has_object(q) || q == p by {
            let i = post.object_index(q);
            if i < n {
                assert(pre.objects@[i].path@ == q);
            }
        }
    }

    /// Sniffs the MIME type from a payload's leading bytes.
    pub fn detect_mime_from_content(&self, data: &[u8]) -> (r: String)
        ensures
            r@ == sniff_seq(data@),
    {
        let n = data.len();
        let is_jpeg = n >= 3 && data[0] == 0xff && data[1] == 0xd8 && data[2] == 0xff;
        proof {
            if n >= 3 {
                assert(data@.subrange(0, 3) =~= seq![data@[0], data@[1], data@[2]]);
                if data@[0] == 0xff && data@[1] == 0xd8 && data@[2] == 0xff {
                    assert(data@.subrange(0, 3) =~= jpeg_sig());
                }
            }
            assert(is_jpeg == (data@.len() >= 3 && data@.subrange(0, 3) == jpeg_sig()));
        }
        if is_jpeg {
            return String::from_str("image/jpeg");
        }
        let is_png = n >= 8 && data[0] == 0x89 && data[1] == 0x50 && data[2] == 0x4e && data[3]
            == 0x47 && data[4] == 0x0d && data[5] == 0x0a && data[6] == 0x1a && data[7] == 0x0a;
        proof {
            if n >= 8 {
                assert(data@.subrange(0, 8) =~= seq![
                    data@[0],
                    data@[1],
                    data@[2],
                    data@[3],
                    data@[4],
                    data@[5],
                    data@[6],
                    data@[7],
                ]);
                if data@[0] == 0x89 && data@[1] == 0x50 && data@[2] == 0x4e && data@[3] == 0x47
                    && data@[4] == 0x0d && data@[5] == 0x0a && data@[6] == 0x1a && data@[7]
                    == 0x0a {
                    assert(data@.subrange(0, 8) =~= png_sig());
                }
            }
            assert(is_png == (data@.len() >= 8 && data@.subrange(0, 8) == png_sig()));
        }
        if is_png {
            return String::from_str("image/png");
        }
        let gif_head = n >= 6 && data[0] == 0x47 && data[1] == 0x49 && data[2] == 0x46 && data[3]
            == 0x38 && data[5] == 0x61;
        let is_gif = gif_head && (data[4] == 0x37 || data[4] == 0x39);
        proof {
            if n >= 6 {
                assert(data@.subrange(0, 6) =~= seq![
                    data@[0],
                    data@[1],
                    data@[2],
                    data@[3],
                    data@[4],
                    data@[5],
                ]);
                if gif_head && data@[4] == 0x37 {
                    assert(data@.subrange(0, 6) =~= gif87_sig());
                }
                if gif_head && data@[4] == 0x39 {
                    assert(data@.subrange(0, 6) =~= gif89_sig());
                }
            }
            assert(is_gif == (data@.len() >= 6 && (data@.subrange(0, 6) == gif87_sig()
                || data@.subrange(0, 6) == gif89_sig())));
        }
        if is_gif {
            return String::from_str("image/gif");
        }
        let is_pdf = n >= 4 && data[0] == 0x25 && data[1] == 0x50 && data[2] == 0x44 && data[3]
            == 0x46;
        proof {
            if n >= 4 {
                assert(data@.subrange(0, 4) =~= seq![data@[0], data@[1], data@[2], data@[3]]);
                if data@[0] == 0x25 && data@[1] == 0x50 && data@[2] == 0x44 && data@[3] == 0x46 {
                    assert(data@.subrange(0, 4) =~= pdf_sig());
                }
            }
            assert(is_pdf == (data@.len() >= 4 && data@.subrange(0, 4) == pdf_sig()));
        }
        if is_pdf {
            return String::from_str("application/pdf");
        }
        let is_zip = n >= 4 && data[0] == 0x50 && data[1] == 0x4b && data[2] == 0x03 && data[3]
            == 0x04;
        proof {
            if n >= 4 {
                assert(data@.subrange(0, 4) =~= seq![data@[0], data@[1], data@[2], data@[3]]);
                if data@[0] == 0x50 && data@[1] == 0x4b && data@[2] == 0x03 && data@[3] == 0x04 {
                    assert(data@.subrange(0, 4) =~= zip_sig());
                }
            }
            assert(is_zip == (data@.len() >= 4 && data@.subrange(0, 4) == zip_sig()));
        }
        if is_zip {
            return String::from_str("application/zip");
        }
        String::from_str("application/octet-stream")
    }

    /// The MIME type recorded for a payload: extension lookup first, then
    /// content sniffing.
    pub fn detect_mime_type(&self, filename: &str, file_data: &[u8]) -> (r: String)
        ensures
            r@ == mime_spec(filename@, file_data@),
    {
        match mime_from_name(filename) {
            Some(m) => m,
            None => self.detect_mime_from_content(file_data),
        }
    }

    /// A fresh collision-resistant storage name that keeps the original
    /// name's extension.
    fn generate_unique_filename(&self, original_name: &str) -> (r: String)
        ensures
            exists|u: Seq<char>|
                #[trigger] uuid_chars(u) && r@ == with_extension(u, ext_of(original_name@)),
    {
        let stem = fresh_uuid_string();
        let ext = extension_of(original_name);
        let r = filename_with_extension(stem.as_str(), ext.as_str());
        proof {
            assert(uuid_chars(stem@) && r@ == with_extension(stem@, ext_of(original_name@)));
        }
        r
    }

    /// Whether the name carries an extension whose folded form is in the
    /// given allow list; a name without an extension is never supported.
    pub fn is_file_type_supported(&self, filename: &str, supported_types: &Vec<String>) -> (r:
        bool)
        ensures
            r == (ext_of(filename@).len() > 0 && supported_types.deep_view().contains(
                lower_of(ext_of(filename@)),
            )),
    {
        let ext = extension_of(filename);
        let elen = ext.as_str().unicode_len();
        if elen == 0 {
            return false;
        }
        let low = fold_lower(ext.as_str());
        let n = supported_types.len();
        let mut i: usize = 0;
        while i < n
            invariant
                i <= n,
                n == supported_types@.len(),
                low@ == lower_of(ext_of(filename@)),
                ext_of(filename@).len() > 0,
                forall|k: int| 0 <= k < i ==> supported_types.deep_view()[k] != low@,
            decreases n - i,
        {
            if str_eq(supported_types[i].as_str(), low.as_str()) {
                proof {
                    assert(supported_types.deep_view()[i as int] == low@);
                }
                return true;
            }
            i = i + 1;
        }
        false
    }
}

impl FileSystemService {
    /// Where a payload saved with this name would land.
    pub open spec fn saved_full_path(self, target_dir: Seq<char>, unique_name: Seq<char>) -> Seq<
        char,
    > {
        join_seq(join_seq(self.storage_root@, target_dir), unique_name)
    }

    /// Saves a payload under an explicitly given storage name: rejects an
    /// empty payload, refuses an occupied path with a conflict, and
    /// otherwise records the payload and the target directory.
    pub fn save_file_as(
        &mut self,
        file_data: &[u8],
        original_name: &str,
        target_dir: &str,
        unique_name: &str,
    ) -> (r: FmResult<UploadInfo>)
        requires
            old(self).wf(),
        ensures
            final(self).wf(),
            final(self).storage_root == old(self).storage_root,
            file_data@.len() == 0 ==> ((r matches Err(FileManagerError::General { .. })) && *final(self) == *old(self)),
            file_data@.len() > 0 && old(self).has_object(
                old(self).saved_full_path(target_dir@, unique_name@),
            ) ==> (r matches Err(FileManagerError::Conflict { path }) && path@ == old(self).saved_full_path(target_dir@, unique_name@) && *final(self) == *old(self)),
            file_data@.len() > 0 && !old(self).has_object(
                old(self).saved_full_path(target_dir@, unique_name@),
            ) ==> (r matches Ok(info) && ({
                let full = old(self).saved_full_path(target_dir@, unique_name@);
                let dir = join_seq(old(self).storage_root@, target_dir@);
                &&& info.original_name@ == original_name@
                &&& info.file_size == file_data@.len()
                &&& info.mime_type@ == mime_spec(original_name@, file_data@)
                &&& info.unique_name@ == unique_name@
                &&& info.saved_path@ == full
                &&& final(self).objects_model() == old(self).objects_model().push(
                    (full, file_data@),
                )
                &&& final(self).has_object(full)
                &&& final(self).object_at(full) == file_data@
                &&& final(self).has_dir(dir)
                &&& (old(self).has_dir(dir) ==> final(self).dirs@ == old(self).dirs@)
                &&& (forall|q: Seq<char>| old(self).has_dir(q) ==> final(self).has_dir(q))
                &&& (forall|q: Seq<char>|
                    old(self).has_object(q) ==> final(self).has_object(q))
                &&& (forall|q: Seq<char>|
                    q != full && old(self).has_object(q) ==> final(self).object_at(q) == old(self).object_at(q))
            })),
    {
        if file_data.len() == 0 {
            return Err(FileManagerError::general_error("File data is empty"));
        }
        let mime_type = self.detect_mime_type(original_name, file_data);
        let full_target_dir = join_path(self.storage_root.as_str(), target_dir);
        let file_path = join_path(full_target_dir.as_str(), unique_name);
        let idx = self.find_object(file_path.as_str());
        if idx < self.objects.len() {
            return Err(FileManagerError::Conflict { path: file_path });
        }
        self.ensure_dir_recorded(&full_target_dir);
        let ghost pre = *self;
        let path_copy = file_path.clone();
        let mut data_vec: Vec<u8> = Vec::new();
        data_vec.extend_from_slice(file_data);
        proof {
            assert(data_vec@ =~= file_data@) by {
                assert(forall|i: int|
                    0 <= i < file_data@.len() ==> data_vec@[i] == file_data@[i]);
            }
        }
        self.objects.push(StoredObject { path: path_copy, data: data_vec });
        proof {
            assert(self.objects_model() =~= pre.objects_model().push((file_path@, file_data@)));
            Self::lemma_model_push(pre, *self, file_path@, file_data@);
            assert(self.dirs@ == pre.dirs@);
            assert forall|q: Seq<char>| pre.has_dir(q) implies self.has_dir(q) by {
                let i = choose|i: int|
                    0 <= i < pre.dirs@.len() && path_under(q, #[trigger] pre.dirs@[i]@);
                assert(path_under(q, self.dirs@[i]@));
            }
        }
        Ok(
            UploadInfo {
                original_name: original_name.to_owned(),
                file_size: file_data.len() as u64,
                mime_type,
                saved_path: file_path,
                unique_name: unique_name.to_owned(),
            },
        )
    }

    /// Saves a payload under a freshly generated unique name.
    pub fn save_file(&mut self, file_data: &[u8], original_name: &str, target_dir: &str) -> (r:
        FmResult<UploadInfo>)
        requires
            old(self).wf(),
        ensures
            final(self).wf(),
            final(self).storage_root == old(self).storage_root,
            (file_data@.len() == 0) == (r matches Err(FileManagerError::General { .. })),
            r is Err ==> *final(self) == *old(self),
            r matches Err(e) ==> (e matches FileManagerError::General { .. } || e
                matches FileManagerError::Conflict { .. }),
            r matches Ok(info) ==> ({
                let dir = join_seq(old(self).storage_root@, target_dir@);
                &&& file_data@.len() > 0
                &&& info.original_name@ == original_name@
                &&& info.file_size == file_data@.len()
                &&& info.mime_type@ == mime_spec(original_name@, file_data@)
                &&& (exists|u: Seq<char>|
                    #[trigger] uuid_chars(u) && info.unique_name@ == with_extension(
                        u,
                        ext_of(original_name@),
                    ))
                &&& info.saved_path@ == old(self).saved_full_path(target_dir@, info.unique_name@)
                &&& !old(self).has_object(info.saved_path@)
                &&& final(self).objects_model() == old(self).objects_model().push(
                    (info.saved_path@, file_data@),
                )
                &&& final(self).has_object(info.saved_path@)
                &&& final(self).object_at(info.saved_path@) == file_data@
                &&& final(self).has_dir(dir)
                &&& (forall|q: Seq<char>| old(self).has_dir(q) ==> final(self).has_dir(q))
                &&& (forall|q: Seq<char>|
                    old(self).has_object(q) ==> final(self).has_object(q))
                &&& (forall|q: Seq<char>|
                    q != info.saved_path@ && old(self).has_object(q) ==> final(self).object_at(q)
                        == old(self).object_at(q))
            }),
    {
        let unique_name = self.generate_unique_filename(original_name);
        self.save_file_as(file_data, original_name, target_dir, unique_name.as_str())
    }
}

impl FileSystemService {
    /// Saves a payload delivered in chunks, as a sequential reader would
    /// hand them over: chunks are stored as they arrive, only the first one
    /// is retained for sniffing, and a progress event is recorded after
    /// every chunk. An empty chunk stands for end-of-input.
    pub fn save_large_file(
        &mut self,
        chunks: &Vec<Vec<u8>>,
        original_name: &str,
        target_dir: &str,
        expected_size: u64,
    ) -> (r: FmResult<(UploadInfo, Vec<(u64, u64)>)>)
        requires
            old(self).wf(),
            content_of(chunks.deep_view()).len() <= u64::MAX,
        ensures
            final(self).wf(),
            final(self).storage_root == old(self).storage_root,
            r is Err ==> *final(self) == *old(self) && r matches Err(
                FileManagerError::Conflict { .. },
            ),
            r matches Err(FileManagerError::Conflict { path }) ==> (exists|u: Seq<char>|
                #[trigger] uuid_chars(u) && path@ == old(self).saved_full_path(
                    target_dir@,
                    with_extension(u, ext_of(original_name@)),
                )) && old(self).has_object(path@),
            r matches Ok((info, events)) ==> ({
                let cs = chunks.deep_view();
                let dir = join_seq(old(self).storage_root@, target_dir@);
                &&& info.original_name@ == original_name@
                &&& info.file_size == content_of(cs).len()
                &&& info.mime_type@ == mime_spec(original_name@, first_chunk_of(cs))
                &&& (exists|u: Seq<char>|
                    #[trigger] uuid_chars(u) && info.unique_name@ == with_extension(
                        u,
                        ext_of(original_name@),
                    ))
                &&& info.saved_path@ == old(self).saved_full_path(target_dir@, info.unique_name@)
                &&& !old(self).has_object(info.saved_path@)
                &&& final(self).objects_model() == old(self).objects_model().push(
                    (info.saved_path@, content_of(cs)),
                )
                &&& final(self).has_object(info.saved_path@)
                &&& final(self).object_at(info.saved_path@) == content_of(cs)
                &&& final(self).has_dir(dir)
                &&& (forall|q: Seq<char>| old(self).has_dir(q) ==> final(self).has_dir(q))
                &&& (forall|q: Seq<char>|
                    old(self).has_object(q) ==> final(self).has_object(q))
                &&& (forall|q: Seq<char>|
                    q != info.saved_path@ && old(self).has_object(q) ==> final(self).object_at(q)
                        == old(self).object_at(q))
                &&& events@.len() == stop_index(cs)
                &&& (forall|k: int|
                    0 <= k < events@.len() ==> #[trigger] events@[k] == ((
                        concat_upto(cs, k + 1).len() as u64,
                        expected_size,
                    )))
            }),
    {
        let ghost cs = chunks.deep_view();
        proof {
            lemma_stop_index_bounds(cs);
        }
        let unique_name = self.generate_unique_filename(original_name);
        let full_target_dir = join_path(self.storage_root.as_str(), target_dir);
        let file_path = join_path(full_target_dir.as_str(), unique_name.as_str());
        let idx = self.find_object(file_path.as_str());
        if idx < self.objects.len() {
            return Err(FileManagerError::Conflict { path: file_path });
        }
        self.ensure_dir_recorded(&full_target_dir);
        let n = chunks.len();
        let mut data: Vec<u8> = Vec::new();
        let mut events: Vec<(u64, u64)> = Vec::new();
        let mut i: usize = 0;
        loop
            invariant_except_break
                i <= n,
                n == cs.len(),
                cs == chunks.deep_view(),
                content_of(cs).len() <= u64::MAX,
                forall|j: int| 0 <= j < i ==> #[trigger] cs[j].len() > 0,
                data@ == concat_upto(cs, i as int),
                events@.len() == i,
                forall|k: int|
                    0 <= k < i ==> #[trigger] events@[k] == ((
                        concat_upto(cs, k + 1).len() as u64,
                        expected_size,
                    )),
            ensures
                i <= n,
                n == cs.len(),
                forall|j: int| 0 <= j < i ==> #[trigger] cs[j].len() > 0,
                i < n ==> cs[i as int].len() == 0,
                data@ == concat_upto(cs, i as int),
                events@.len() == i,
                forall|k: int|
                    0 <= k < i ==> #[trigger] events@[k] == ((
                        concat_upto(cs, k + 1).len() as u64,
                        expected_size,
                    )),
            decreases n - i,
        {
            if i == n {
                break ;
            }
            proof {
                assert(cs[i as int] =~= chunks@[i as int]@);
            }
            let chunk_len = chunks[i].len();
            if chunk_len == 0 {
                break ;
            }
            let mut k: usize = 0;
            while k < chunk_len
                invariant
                    k <= chunk_len,
                    i < n,
                    n == cs.len(),
                    cs == chunks.deep_view(),
                    chunk_len == cs[i as int].len(),
                    cs[i as int] == chunks@[i as int]@,
                    data@ == concat_upto(cs, i as int) + cs[i as int].take(k as int),
                decreases chunk_len - k,
            {
                let b = chunks[i][k];
                data.push(b);
                proof {
                    assert(data@ =~= concat_upto(cs, i as int) + cs[i as int].take(
                        k as int + 1,
                    ));
                }
                k = k + 1;
            }
            proof {
                assert(cs[i as int].take(chunk_len as int) =~= cs[i as int]);
                assert(data@ == concat_upto(cs, i as int + 1));
                lemma_stop_index_bounds(cs);
                assert(stop_index(cs) >= i + 1);
                lemma_concat_upto_mono(cs, i as int + 1, stop_index(cs));
            }
            let total: u64 = data.len() as u64;
            events.push((total, expected_size));
            i = i + 1;
        }
        proof {
            lemma_stop_index_unique(cs, i as int);
        }
        let mime_type = if events.len() > 0 {
            proof {
                assert(cs[0] =~= chunks@[0]@);
            }
            self.detect_mime_type(original_name, chunks[0].as_slice())
        } else {
            let empty_first: Vec<u8> = Vec::new();
            self.detect_mime_type(original_name, empty_first.as_slice())
        };
        proof {
            assert(mime_type@ == mime_spec(original_name@, first_chunk_of(cs)));
        }
        let ghost pre = *self;
        let path_copy = file_path.clone();
        let file_size = data.len() as u64;
        self.objects.push(StoredObject { path: path_copy, data });
        proof {
            assert(self.objects_model() =~= pre.objects_model().push(
                (file_path@, content_of(cs)),
            ));
            Self::lemma_model_push(pre, *self, file_path@, content_of(cs));
            assert(self.dirs@ == pre.dirs@);
            assert forall|q: Seq<char>| pre.has_dir(q) implies self.has_dir(q) by {
                let w = choose|w: int|
                    0 <= w < pre.dirs@.len() && path_under(q, #[trigger] pre.dirs@[w]@);
                assert(path_under(q, self.dirs@[w]@));
            }
        }
        Ok(
            (
                UploadInfo {
                    original_name: original_name.to_owned(),
                    file_size,
                    mime_type,
                    saved_path: file_path,
                    unique_name,
                },
                events,
            ),
        )
    }
}

/// Keeps the stored objects whose paths do not lie under `prefix`.
pub open spec fn object_outside(prefix: Seq<char>) -> spec_fn(StoredObject) -> bool {
    |o: StoredObject| !path_under(prefix, o.path@)
}

/// Keeps the recorded directories that do not lie under `prefix`.
pub open spec fn dir_outside(prefix: Seq<char>) -> spec_fn(String) -> bool {
    |d: String| !path_under(prefix, d@)
}

/// Lying under a path is transitive.
pub proof fn lemma_path_under_trans(a: Seq<char>, b: Seq<char>, c: Seq<char>)
    requires
        path_under(a, b),
        path_under(b, c),
    ensures
        path_under(a, c),
{
    if b == a || c == b {
    } else {
        assert forall|i: int| 0 <= i < a.len() implies c[i] == a[i] by {
            assert(a[i] == b.subrange(0, a.len() as int)[i]);
            assert(b[i] == c.subrange(0, b.len() as int)[i]);
        }
        assert(c.subrange(0, a.len() as int) =~= a);
        if a.len() > 0 && a.last() != '/' {
            assert(b[a.len() as int] == '/');
            assert(c[a.len() as int] == c.subrange(0, b.len() as int)[a.len() as int]);
        }
    }
}

impl FileSystemService {
    /// What holds after the objects are narrowed to those outside a prefix.
    pub proof fn lemma_filter_objects(pre: Self, post: Self, prefix: Seq<char>)
        requires
            pre.wf(),
            post.objects@ == pre.objects@.filter(object_outside(prefix)),
        ensures
            post.wf(),
            forall|q: Seq<char>| path_under(prefix, q) ==> !post.has_object(q),
            forall|q: Seq<char>|
                !path_under(prefix, q) ==> post.has_object(q) == pre.has_object(q),
            forall|q: Seq<char>|
                !path_under(prefix, q) && pre.has_object(q) ==> post.object_at(q)
                    == pre.object_at(q),
    {
        let pred = object_outside(prefix);
        crate::text::lemma_filter_member(pre.objects@, pred);
        assert forall|i: int, j: int| 0 <= i < j < post.objects@.len() implies post.objects@[
            i
        ].path@ != post.objects@[j].path@ by {
            let wi = choose|w: int| 0 <= w < pre.objects@.len() && pre.objects@[w] == post.objects@[i];
            let wj = choose|w: int| 0 <= w < pre.objects@.len() && pre.objects@[w] == post.objects@[j];
            if post.objects@[i].path@ == post.objects@[j].path@ {
                if wi != wj {
                } else {
                    crate::text::lemma_filter_distinct_by(
                        pre.objects@,
                        pred,
                        |o: StoredObject| o.path@,
                        i,
                        j,
                    );
                }
            }
        }
        assert forall|q: Seq<char>| path_under(prefix, q) implies !post.has_object(q) by {
            if post.has_object(q) {
                let i = post.object_index(q);
                assert(pred(post.objects@[i]));
            }
        }
        assert forall|q: Seq<char>| !path_under(prefix, q) implies post.has_object(q)
            == pre.has_object(q) by {
            if pre.has_object(q) {
                let i = pre.object_index(q);
                assert(pred(pre.objects@[i]));
                assert(pre.objects@.filter(pred).contains(pre.objects@[i]));
                let j = choose|j: int|
                    0 <= j < post.objects@.len() && post.objects@[j] == pre.objects@[i];
                assert(post.objects@[j].path@ == q);
            }
            if post.has_object(q) {
                let i = post.object_index(q);
                let w = choose|w: int|
                    0 <= w < pre.objects@.len() && pre.objects@[w] == post.objects@[i];
                assert(pre.objects@[w].path@ == q);
            }
        }
        assert forall|q: Seq<char>| !path_under(prefix, q) && pre.has_object(q) implies post
            .object_at(q) == pre.object_at(q) by {
            let i = pre.object_index(q);
            assert(pred(pre.objects@[i]));
            assert(pre.objects@.filter(pred).contains(pre.objects@[i]));
            let j = choose|j: int|
                0 <= j < post.objects@.len() && post.objects@[j] == pre.objects@[i];
            assert(post.objects@[j].path@ == q);
            let j2 = post.object_index(q);
            assert(post.objects@[j2].path@ == q);
            if j2 != j {
                assert(false);
            }
            let i2 = pre.object_index(q);
            if i2 != i {
                assert(false);
            }
        }
    }

    /// Removes the payload at `file_path`; fails when none stands there.
    pub fn delete_file(&mut self, file_path: &str) -> (r: FmResult<()>)
        requires
            old(self).wf(),
        ensures
            final(self).wf(),
            final(self).storage_root == old(self).storage_root,
            final(self).dirs@ == old(self).dirs@,
            !old(self).has_object(file_path@) ==> ((r matches Err(FileManagerError::FileNotFound {
                path,
            }) && path@ == file_path@) && *final(self) == *old(self)),
            old(self).has_object(file_path@) ==> r is Ok && final(self).objects_model() == old(self).objects_model().remove(old(self).object_index(file_path@)) && !final(self).has_object(file_path@) && (forall|q: Seq<char>|
                q != file_path@ ==> final(self).has_object(q) == old(self).has_object(q)) && (
            forall|q: Seq<char>|
                q != file_path@ && old(self).has_object(q) ==> final(self).object_at(q) == old(self).object_at(q)),
    {
        let idx = self.find_object(file_path);
        if idx == self.objects.len() {
            return Err(
                FileManagerError::FileNotFound { path: file_path.to_owned() },
            );
        }
        let ghost pre = *self;
        let removed = self.objects.remove(idx);
        proof {
            assert(pre.object_index(file_path@) == idx) by {
                let i = pre.object_index(file_path@);
                if i != idx {
                    if i < idx {
                        assert(pre.objects@[i].path@ != file_path@);
                    } else {
                        assert(pre.objects@[idx as int].path@ == pre.objects@[i].path@);
                        assert(false);
                    }
                }
            }
            assert(self.objects_model() =~= pre.objects_model().remove(idx as int));
            assert forall|i: int, j: int| 0 <= i < j < self.objects@.len() implies self.objects@[
                i
            ].path@ != self.objects@[j].path@ by {
                let pi: int = if i < idx { i } else { i + 1 };
                let pj: int = if j < idx { j } else { j + 1 };
                assert(self.objects@[i] == pre.objects@[pi]);
                assert(self.objects@[j] == pre.objects@[pj]);
            }
            assert forall|q: Seq<char>| q != file_path@ && pre.has_object(q) implies self
                .has_object(q) by {
                let i = pre.object_index(q);
                let ni: int = if i < idx { i } else { i - 1 };
                assert(self.objects@[ni] == pre.objects@[i]);
            }
            assert forall|q: Seq<char>| self.has_object(q) implies q != file_path@
                && pre.has_object(q) by {
                let i = self.object_index(q);
                let pi: int = if i < idx { i } else { i + 1 };
                assert(pre.objects@[pi] == self.objects@[i]);
                if q == file_path@ {
                    assert(pre.objects@[pi].path@ == pre.objects@[idx as int].path@);
                }
            }
            assert forall|q: Seq<char>| q != file_path@ && pre.has_object(q) implies self
                .object_at(q) == pre.object_at(q) by {
                let i = pre.object_index(q);
                let ni: int = if i < idx { i } else { i - 1 };
                assert(self.objects@[ni] == pre.objects@[i]);
                let j = self.object_index(q);
                if j != ni {
                    let pj: int = if j < idx { j } else { j + 1 };
                    assert(pre.objects@[pj] == self.objects@[j]);
                    assert(pre.objects@[pj].path@ == pre.objects@[i].path@);
                    assert(false);
                }
            }
        }
        Ok(())
    }

    /// Removes the directory `dir_path` under the storage root together
    /// with every payload and recorded directory below it; fails when no
    /// such directory stands there.
    pub fn delete_directory(&mut self, dir_path: &str) -> (r: FmResult<()>)
        requires
            old(self).wf(),
        ensures
            final(self).wf(),
            final(self).storage_root == old(self).storage_root,
            !old(self).has_dir(join_seq(old(self).storage_root@, dir_path@)) ==> ((r matches Err(
                FileManagerError::DirectoryNotFound { path },
            ) && path@ == join_seq(old(self).storage_root@, dir_path@)) && *final(self) == *old(self)),
            old(self).has_dir(join_seq(old(self).storage_root@, dir_path@)) ==> ({
                let full = join_seq(old(self).storage_root@, dir_path@);
                &&& r is Ok
                &&& final(self).objects@ == old(self).objects@.filter(object_outside(full))
                &&& final(self).dirs@ == old(self).dirs@.filter(dir_outside(full))
                &&& (forall|q: Seq<char>| path_under(full, q) ==> !final(self).has_object(q))
                &&& (forall|q: Seq<char>|
                    !path_under(full, q) ==> final(self).has_object(q) == old(self).has_object(
                        q,
                    ))
                &&& (forall|q: Seq<char>|
                    !path_under(full, q) && old(self).has_object(q) ==> final(self).object_at(q)
                        == old(self).object_at(q))
                &&& (forall|q: Seq<char>| path_under(full, q) ==> !final(self).has_dir(q))
            }),
    {
        let full = join_path(self.storage_root.as_str(), dir_path);
        let mut found: bool = false;
        let n = self.dirs.len();
        let mut i: usize = 0;
        while i < n
            invariant
                i <= n,
                n == self.dirs@.len(),
                found ==> self.has_dir(full@),
                !found ==> forall|k: int| 0 <= k < i ==> !path_under(
                    full@,
                    #[trigger] self.dirs@[k]@,
                ),
            decreases n - i,
        {
            if Self::path_matches_under(self.dirs[i].as_str(), full.as_str()) {
                found = true;
                proof {
                    assert(path_under(full@, self.dirs@[i as int]@));
                }
            }
            i = i + 1;
        }
        if !found {
            return Err(FileManagerError::DirectoryNotFound { path: full });
        }
        self.remove_under(&full);
        Ok(())
    }

    /// Drops every payload and recorded directory lying under `full`.
    fn remove_under(&mut self, full: &String)
        requires
            old(self).wf(),
        ensures
            final(self).wf(),
            final(self).storage_root == old(self).storage_root,
            final(self).objects@ == old(self).objects@.filter(object_outside(full@)),
            final(self).dirs@ == old(self).dirs@.filter(dir_outside(full@)),
            forall|q: Seq<char>| path_under(full@, q) ==> !final(self).has_object(q),
            forall|q: Seq<char>|
                !path_under(full@, q) ==> final(self).has_object(q) == old(self).has_object(q),
            forall|q: Seq<char>|
                !path_under(full@, q) && old(self).has_object(q) ==> final(self).object_at(q)
                    == old(self).object_at(q),
            forall|q: Seq<char>| path_under(full@, q) ==> !final(self).has_dir(q),
    {
        let ghost pre = *self;
        let mut source: Vec<StoredObject> = Vec::new();
        std::mem::swap(&mut self.objects, &mut source);
        let ghost orig = source@;
        let mut kept_objects: Vec<StoredObject> = Vec::new();
        let n_total = source.len();
        let mut processed: usize = 0;
        while processed < n_total
            invariant
                processed <= n_total,
                n_total == orig.len(),
                orig == pre.objects@,
                source@ == orig.skip(processed as int),
                kept_objects@ == orig.take(processed as int).filter(object_outside(full@)),
            decreases n_total - processed,
        {
            let obj = source.remove(0);
            proof {
                assert(obj == orig[processed as int]);
                assert(source@ =~= orig.skip(processed as int + 1));
                assert(orig.take(processed as int + 1) == orig.take(processed as int).push(
                    orig[processed as int],
                ));
            }
            let under = Self::path_matches_under(obj.path.as_str(), full.as_str());
            if !under {
                kept_objects.push(obj);
            }
            processed = processed + 1;
        }
        proof {
            assert(orig.take(n_total as int) == orig);
        }
        let mut kept_dirs: Vec<String> = Vec::new();
        let dn = self.dirs.len();
        let mut k: usize = 0;
        while k < dn
            invariant
                k <= dn,
                dn == self.dirs@.len(),
                self.dirs@ == pre.dirs@,
                kept_dirs@ == pre.dirs@.take(k as int).filter(dir_outside(full@)),
            decreases dn - k,
        {
            if !Self::path_matches_under(self.dirs[k].as_str(), full.as_str()) {
                let d = self.dirs[k].clone();
                kept_dirs.push(d);
            }
            proof {
                assert(pre.dirs@.take(k as int + 1) == pre.dirs@.take(k as int).push(
                    pre.dirs@[k as int],
                ));
            }
            k = k + 1;
        }
        self.objects = kept_objects;
        self.dirs = kept_dirs;
        proof {
            Self::lemma_filter_objects(pre, *self, full@);
            assert forall|q: Seq<char>| path_under(full@, q) implies !self.has_dir(q) by {
                if self.has_dir(q) {
                    let w = choose|w: int|
                        0 <= w < self.dirs@.len() && path_under(q, #[trigger] self.dirs@[w]@);
                    assert(dir_outside(full@)(self.dirs@[w]));
                    lemma_path_under_trans(full@, q, self.dirs@[w]@);
                }
            }
        }
    }
}

/// Keeps the object paths that name a direct child of `dirp`.
pub open spec fn child_of(dirp: Seq<char>) -> spec_fn(Seq<char>) -> bool {
    |p: Seq<char>| direct_child_of(dirp, p)
}

impl FileSystemService {
    /// The size in bytes of the payload at `file_path`.
    pub fn get_file_size(&self, file_path: &str) -> (r: FmResult<u64>)
        requires
            self.wf(),
        ensures
            self.has_object(file_path@) ==> (r matches Ok(n) && n == self.object_at(
                file_path@,
            ).len()),
            !self.has_object(file_path@) ==> (r matches Err(FileManagerError::FileSystem { .. })),
    {
        let idx = self.find_object(file_path);
        if idx == self.objects.len() {
            let mut m = String::from_str("no entry at ");
            m.append(file_path);
            return Err(FileManagerError::FileSystem { message: m });
        }
        proof {
            assert(self.object_index(file_path@) == idx) by {
                let i = self.object_index(file_path@);
                if i != idx {
                    if i < idx {
                        assert(self.objects@[i].path@ != file_path@);
                    } else {
                        assert(false);
                    }
                }
            }
        }
        Ok(self.objects[idx].data.len() as u64)
    }

    /// The bytes of the payload at `file_path`.
    pub fn read_file(&self, file_path: &str) -> (r: FmResult<Vec<u8>>)
        requires
            self.wf(),
        ensures
            self.has_object(file_path@) ==> (r matches Ok(d) && d@ == self.object_at(
                file_path@,
            )),
            !self.has_object(file_path@) ==> (r matches Err(FileManagerError::FileSystem { .. })),
    {
        let idx = self.find_object(file_path);
        if idx == self.objects.len() {
            let mut m = String::from_str("no entry at ");
            m.append(file_path);
            return Err(FileManagerError::FileSystem { message: m });
        }
        proof {
            assert(self.object_index(file_path@) == idx) by {
                let i = self.object_index(file_path@);
                if i != idx {
                    if i < idx {
                        assert(self.objects@[i].path@ != file_path@);
                    } else {
                        assert(false);
                    }
                }
            }
        }
        let mut d: Vec<u8> = Vec::new();
        d.extend_from_slice(self.objects[idx].data.as_slice());
        proof {
            assert(d@ =~= self.objects@[idx as int].data@) by {
                assert(forall|t: int|
                    0 <= t < self.objects@[idx as int].data@.len() ==> d@[t] == self.objects@[
                        idx as int
                    ].data@[t]);
            }
        }
        Ok(d)
    }

    /// Moves the payload at `from` to `to`, replacing whatever stands
    /// there; the destination's parent directory is recorded as created.
    pub fn move_file(&mut self, from: &str, to: &str) -> (r: FmResult<()>)
        requires
            old(self).wf(),
        ensures
            final(self).wf(),
            final(self).storage_root == old(self).storage_root,
            !old(self).has_object(from@) ==> (r matches Err(FileManagerError::FileSystem { .. })
                && *final(self) == *old(self)),
            old(self).has_object(from@) ==> r is Ok && final(self).has_object(to@) && final(self).object_at(to@) == old(self).object_at(from@) && (from@ != to@ ==> !final(self).has_object(from@)) && (forall|q: Seq<char>|
                q != from@ && q != to@ ==> final(self).has_object(q) == old(self).has_object(q))
                && (forall|q: Seq<char>|
                q != from@ && q != to@ && old(self).has_object(q) ==> final(self).object_at(q)
                    == old(self).object_at(q)) && (forall|q: Seq<char>|
                old(self).has_dir(q) ==> final(self).has_dir(q)) && (last_pos(to@, '/') >= 0
                ==> final(self).has_dir(to@.take(last_pos(to@, '/')))),
    {
        let idx = self.find_object(from);
        if idx == self.objects.len() {
            let mut m = String::from_str("no entry at ");
            m.append(from);
            return Err(FileManagerError::FileSystem { message: m });
        }
        let data = match self.read_file(from) {
            Ok(d) => d,
            Err(e) => {
                return Err(e);
            },
        };
        let removed = self.delete_file(from);
        if removed.is_err() {
            return Err(FileManagerError::FileSystem { message: String::from_str("lost entry") });
        }
        let ghost mid1 = *self;
        if self.file_exists(to) {
            let removed_to = self.delete_file(to);
            if removed_to.is_err() {
                return Err(
                    FileManagerError::FileSystem { message: String::from_str("lost entry") },
                );
            }
        }
        let ghost mid2 = *self;
        let pos = crate::text::find_last(to, '/');
        let tlen = to.unicode_len();
        if pos < tlen {
            let parent = to.substring_char(0, pos);
            let parent_string = parent.to_owned();
            self.ensure_dir_recorded(&parent_string);
        }
        let ghost mid3 = *self;
        proof {
            assert(mid3.objects@ == mid2.objects@);
            assert(!mid3.has_object(to@));
            assert(mid3.wf());
        }
        self.objects.push(StoredObject { path: to.to_owned(), data });
        proof {
            assert(self.objects_model() =~= mid3.objects_model().push(
                (to@, old(self).object_at(from@)),
            ));
            Self::lemma_model_push(mid3, *self, to@, old(self).object_at(from@));
            assert forall|q: Seq<char>| mid3.has_dir(q) implies self.has_dir(q) by {
                let w = choose|w: int|
                    0 <= w < mid3.dirs@.len() && path_under(q, #[trigger] mid3.dirs@[w]@);
                assert(path_under(q, self.dirs@[w]@));
            }
            assert forall|q: Seq<char>| old(self).has_dir(q) implies self.has_dir(q) by {
                let w = choose|w: int|
                    0 <= w < old(self).dirs@.len() && path_under(
                        q,
                        #[trigger] old(self).dirs@[w]@,
                    );
                assert(mid2.dirs@[w]@ == old(self).dirs@[w]@);
                assert(mid2.has_dir(q));
            }
        }
        Ok(())
    }

    /// Copies the payload at `from` to `to`, replacing whatever stands
    /// there; the destination's parent directory is recorded as created.
    pub fn copy_file(&mut self, from: &str, to: &str) -> (r: FmResult<()>)
        requires
            old(self).wf(),
        ensures
            final(self).wf(),
            final(self).storage_root == old(self).storage_root,
            !old(self).has_object(from@) ==> (r matches Err(FileManagerError::FileSystem { .. })
                && *final(self) == *old(self)),
            old(self).has_object(from@) ==> r is Ok && final(self).has_object(to@) && final(self).object_at(to@) == old(self).object_at(from@) && final(self).has_object(from@)
                && final(self).object_at(from@) == old(self).object_at(from@) && (forall|
                q: Seq<char>,
            |
                q != from@ && q != to@ ==> final(self).has_object(q) == old(self).has_object(q))
                && (forall|q: Seq<char>|
                q != from@ && q != to@ && old(self).has_object(q) ==> final(self).object_at(q)
                    == old(self).object_at(q)) && (forall|q: Seq<char>|
                old(self).has_dir(q) ==> final(self).has_dir(q)) && (last_pos(to@, '/') >= 0
                ==> final(self).has_dir(to@.take(last_pos(to@, '/')))),
    {
        let idx = self.find_object(from);
        if idx == self.objects.len() {
            let mut m = String::from_str("no entry at ");
            m.append(from);
            return Err(FileManagerError::FileSystem { message: m });
        }
        let data = match self.read_file(from) {
            Ok(d) => d,
            Err(e) => {
                return Err(e);
            },
        };
        let ghost mid1 = *self;
        if self.file_exists(to) {
            let removed_to = self.delete_file(to);
            if removed_to.is_err() {
                return Err(
                    FileManagerError::FileSystem { message: String::from_str("lost entry") },
                );
            }
        }
        let ghost mid2 = *self;
        let pos = crate::text::find_last(to, '/');
        let tlen = to.unicode_len();
        if pos < tlen {
            let parent = to.substring_char(0, pos);
            let parent_string = parent.to_owned();
            self.ensure_dir_recorded(&parent_string);
        }
        let ghost mid3 = *self;
        proof {
            assert(mid3.objects@ == mid2.objects@);
            assert(!mid3.has_object(to@));
            assert(mid3.wf());
        }
        self.objects.push(StoredObject { path: to.to_owned(), data });
        proof {
            assert(self.objects_model() =~= mid3.objects_model().push(
                (to@, old(self).object_at(from@)),
            ));
            Self::lemma_model_push(mid3, *self, to@, old(self).object_at(from@));
            assert forall|q: Seq<char>| mid3.has_dir(q) implies self.has_dir(q) by {
                let w = choose|w: int|
                    0 <= w < mid3.dirs@.len() && path_under(q, #[trigger] mid3.dirs@[w]@);
                assert(path_under(q, self.dirs@[w]@));
            }
            assert forall|q: Seq<char>| old(self).has_dir(q) implies self.has_dir(q) by {
                let w = choose|w: int|
                    0 <= w < old(self).dirs@.len() && path_under(
                        q,
                        #[trigger] old(self).dirs@[w]@,
                    );
                assert(mid2.dirs@[w]@ == old(self).dirs@[w]@);
                assert(mid2.has_dir(q));
            }
        }
        Ok(())
    }

    /// Lists the paths of the payloads standing directly inside the
    /// directory `dir_path` under the storage root.
    pub fn list_files_in_directory(&self, dir_path: &str) -> (r: FmResult<Vec<String>>)
        ensures
            !self.has_dir(join_seq(self.storage_root@, dir_path@)) ==> (r matches Err(
                FileManagerError::DirectoryNotFound { path },
            ) && path@ == join_seq(self.storage_root@, dir_path@)),
            self.has_dir(join_seq(self.storage_root@, dir_path@)) ==> (r matches Ok(v)
                && v.deep_view() == self.paths_model().filter(
                child_of(join_seq(self.storage_root@, dir_path@)),
            )),
    {
        let full = join_path(self.storage_root.as_str(), dir_path);
        if !self.directory_exists(dir_path) {
            return Err(FileManagerError::DirectoryNotFound { path: full });
        }
        let mut out: Vec<String> = Vec::new();
        let n = self.objects.len();
        let mut i: usize = 0;
        let flen = full.unicode_len();
        proof {
            assert(self.objects@.take(0).map_values(|o: StoredObject| o.path@).filter(
                child_of(full@),
            ) =~= Seq::<Seq<char>>::empty());
            assert(out.deep_view() =~= Seq::<Seq<char>>::empty());
        }
        while i < n
            invariant
                i <= n,
                n == self.objects@.len(),
                flen == full@.len(),
                full@ == join_seq(self.storage_root@, dir_path@),
                out.deep_view() == self.objects@.take(i as int).map_values(
                    |o: StoredObject| o.path@,
                ).filter(child_of(full@)),
            decreases n - i,
        {
            let p = &self.objects[i].path;
            let plen = p.as_str().unicode_len();
            let mut slash_pre = full.clone();
            proof {
                reveal_strlit("/");
            }
            slash_pre.append("/");
            proof {
                assert(slash_pre@ =~= full@ + seq!['/']);
            }
            let is_child = starts_with(p.as_str(), slash_pre.as_str()) && plen > flen + 1
                && crate::text::find_last(p.as_str(), '/') == flen;
            proof {
                crate::text::lemma_last_pos_bounds(p@, '/');
                assert(is_child == direct_child_of(full@, p@));
                assert(child_of(full@)(p@) == direct_child_of(full@, p@));
            }
            if is_child {
                let d = p.clone();
                out.push(d);
                proof {
                    assert(out.deep_view() =~= self.objects@.take(i as int).map_values(
                        |o: StoredObject| o.path@,
                    ).filter(child_of(full@)).push(p@));
                }
            }
            proof {
                assert(self.objects@.take(i as int + 1) == self.objects@.take(i as int).push(
                    self.objects@[i as int],
                ));
            }
            i = i + 1;
        }
        proof {
            assert(self.objects@.take(n as int) == self.objects@);
        }
        Ok(out)
    }

    /// Removes the directory `temp_dir` under the storage root, and
    /// everything below it, if it stands at all; absent directories are
    /// not an error.
    pub fn cleanup_temp_files(&mut self, temp_dir: &str) -> (r: FmResult<()>)
        requires
            old(self).wf(),
        ensures
            r is Ok,
            final(self).wf(),
            final(self).storage_root == old(self).storage_root,
            !old(self).has_dir(join_seq(old(self).storage_root@, temp_dir@)) ==> *final(self)
                == *old(self),
            old(self).has_dir(join_seq(old(self).storage_root@, temp_dir@)) ==> ({
                let full = join_seq(old(self).storage_root@, temp_dir@);
                &&& final(self).objects@ == old(self).objects@.filter(object_outside(full))
                &&& final(self).dirs@ == old(self).dirs@.filter(dir_outside(full))
                &&& (forall|q: Seq<char>| path_under(full, q) ==> !final(self).has_object(q))
                &&& (forall|q: Seq<char>| path_under(full, q) ==> !final(self).has_dir(q))
            }),
    {
        let full = join_path(self.storage_root.as_str(), temp_dir);
        if self.directory_exists(temp_dir) {
            self.remove_under(&full);
        }
        Ok(())
    }
}

} // verus!
