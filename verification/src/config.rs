//! Configuration of the file manager: storage locations, the size limit,
//! the extension allow list, date-sharded subdirectories and unique storage
//! names.

use vstd::prelude::*;
use vstd::string::*;
use crate::foreign::{fresh_uuid_string, uuid_chars, today_ymd, fold_lower, lower_of};
use crate::text::{
    dec_pad_seq, ext_of, extension_of, filename_with_extension, join_path, join_seq,
    push_decimal_pad, str_eq, with_extension,
};

verus! {

/// Settings the orchestration service works under. Paths are plain strings;
/// the surrounding application decides where they point.
pub struct FileManagerConfig {
    /// Root of the application's data.
    pub app_data_dir: String,
    /// Where the metadata lives.
    pub database_path: String,
    /// Root of the content tree.
    pub storage_path: String,
    /// Largest accepted payload, in bytes.
    pub max_file_size: u64,
    /// Lowercase extensions that uploads may carry.
    pub supported_file_types: Vec<String>,
}

/// The default extension allow list.
pub open spec fn default_types_seq() -> Seq<Seq<char>> {
    seq![
        "jpg"@,
        "jpeg"@,
        "png"@,
        "gif"@,
        "bmp"@,
        "webp"@,
        "svg"@,
        "tiff"@,
        "tga"@,
        "pdf"@,
        "txt"@,
        "md"@,
        "doc"@,
        "docx"@,
        "zip"@,
        "rar"@,
        "7z"@,
    ]
}

/// The `YYYY/MM/DD` shard for a date, each part zero-padded; a negative
/// year keeps its sign.
pub open spec fn shard_seq(y: int, m: nat, d: nat) -> Seq<char> {
    (if y < 0 {
        seq!['-'] + dec_pad_seq((-y) as nat, 4)
    } else {
        dec_pad_seq(y as nat, 4)
    }) + seq!['/'] + dec_pad_seq(m, 2) + seq!['/'] + dec_pad_seq(d, 2)
}

/// Renders the `YYYY/MM/DD` shard for a given date.
pub fn shard_subdir(year: i32, month: u32, day: u32) -> (r: String)
    ensures
        r@ == shard_seq(year as int, month as nat, day as nat),
{
    let mut s = String::new();
    if year < 0 {
        proof {
            reveal_strlit("-");
        }
        s.append("-");
        let mag: u64 = (-(year as i64)) as u64;
        push_decimal_pad(&mut s, mag, 4);
    } else {
        push_decimal_pad(&mut s, year as u64, 4);
    }
    proof {
        reveal_strlit("/");
    }
    s.append("/");
    push_decimal_pad(&mut s, month as u64, 2);
    s.append("/");
    push_decimal_pad(&mut s, day as u64, 2);
    proof {
        assert(s@ =~= shard_seq(year as int, month as nat, day as nat));
    }
    s
}

impl FileManagerConfig {
    /// The extensions accepted when no explicit list is configured.
    pub fn default_supported_types() -> (r: Vec<String>)
        ensures
            r.deep_view() == default_types_seq(),
    {
        let mut r: Vec<String> = Vec::new();
        r.push(String::from_str("jpg"));
        r.push(String::from_str("jpeg"));
        r.push(String::from_str("png"));
        r.push(String::from_str("gif"));
        r.push(String::from_str("bmp"));
        r.push(String::from_str("webp"));
        r.push(String::from_str("svg"));
        r.push(String::from_str("tiff"));
        r.push(String::from_str("tga"));
        r.push(String::from_str("pdf"));
        r.push(String::from_str("txt"));
        r.push(String::from_str("md"));
        r.push(String::from_str("doc"));
        r.push(String::from_str("docx"));
        r.push(String::from_str("zip"));
        r.push(String::from_str("rar"));
        r.push(String::from_str("7z"));
        proof {
            assert(r.deep_view() =~= default_types_seq());
        }
        r
    }

    /// Whether the name carries an extension whose folded form is on the
    /// allow list; a name without an extension is never supported.
    pub fn is_file_type_supported(&self, file_path: &str) -> (r: bool)
        ensures
            r == (ext_of(file_path@).len() > 0 && self.supported_file_types.deep_view().contains(
                lower_of(ext_of(file_path@)),
            )),
    {
        let ext = extension_of(file_path);
        let elen = ext.as_str().unicode_len();
        if elen == 0 {
            return false;
        }
        let low = fold_lower(ext.as_str());
        let n = self.supported_file_types.len();
        let mut i: usize = 0;
        while i < n
            invariant
                i <= n,
                n == self.supported_file_types@.len(),
                low@ == lower_of(ext_of(file_path@)),
                ext_of(file_path@).len() > 0,
                forall|k: int|
                    0 <= k < i ==> self.supported_file_types.deep_view()[k] != low@,
            decreases n - i,
        {
            if str_eq(self.supported_file_types[i].as_str(), low.as_str()) {
                proof {
                    assert(self.supported_file_types.deep_view()[i as int] == low@);
                }
                return true;
            }
            i = i + 1;
        }
        false
    }

    /// Whether the payload size is within the configured limit.
    pub fn is_file_size_valid(&self, size: u64) -> (r: bool)
        ensures
            r == (size <= self.max_file_size),
    {
        size <= self.max_file_size
    }

    /// The date-sharded subdirectory for today, under the storage root.
    pub fn get_storage_subdir(&self) -> (r: String)
        ensures
            exists|y: int, m: nat, d: nat|
                1 <= m <= 12 && 1 <= d <= 31 && r@ == #[trigger] join_seq(
                    self.storage_path@,
                    shard_seq(y, m, d),
                ),
    {
        let (y, m, d) = today_ymd();
        let shard = shard_subdir(y, m, d);
        let r = join_path(self.storage_path.as_str(), shard.as_str());
        proof {
            assert(1 <= m as nat <= 12 && 1 <= d as nat <= 31 && r@ == join_seq(
                self.storage_path@,
                shard_seq(y as int, m as nat, d as nat),
            ));
        }
        r
    }

    /// A fresh collision-resistant storage name that keeps the original
    /// name's extension.
    pub fn generate_unique_filename(&self, original_name: &str) -> (r: String)
        ensures
            exists|u: Seq<char>|
                #[trigger] uuid_chars(u) && r@ == with_extension(u, ext_of(original_name@)),
    {
        let stem = fresh_uuid_string();
        let ext = extension_of(original_name);
        let r = filename_with_extension(stem.as_str(), ext.as_str());
        proof {
            assert(uuid_chars(stem@) && r@ == with_extension(stem@, ext_of(original_name@)));
        }
        r
    }
}

} // verus!
