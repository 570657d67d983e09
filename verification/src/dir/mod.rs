//! Layout of the cache directory. A file is stored two directory levels
//! down, in `<first hash byte>/<second hash byte>` (two lower-case hex
//! digits each), under the name its metadata gives it.
use vstd::prelude::*;
use std::sync::Arc;

use crate::file::name::{hex_char, spec_file_name, spec_hex_lower, spec_meta_from_name};
use crate::file::error::ErrorView;
use crate::file::{FileMeta, FileMetaView};

verus! {

/// The mathematical content of a cache directory handle.
pub struct FsDirView {
    pub cache_path: Seq<char>,
    pub tmp_path: Seq<char>,
}

/// A cache directory on disk, and the directory where files are written
/// before they are moved into the cache.
pub struct FsDir {
    cache_path: String,
    tmp_path: String,
}

impl View for FsDir {
    type V = FsDirView;

    closed spec fn view(&self) -> FsDirView {
        FsDirView { cache_path: self.cache_path@, tmp_path: self.tmp_path@ }
    }
}

impl FsDir {
    pub fn new(cache: String, tmp: String) -> (r: Arc<Self>)
        ensures
            r@ == (FsDirView { cache_path: cache@, tmp_path: tmp@ }),
    {
        Arc::new(FsDir { cache_path: cache, tmp_path: tmp })
    }

    /// The cache directory.
    pub fn cache_path(&self) -> (r: &str)
        ensures
            r@ == self@.cache_path,
    {
        self.cache_path.as_str()
    }

    /// The directory for files still being written.
    pub fn tmp_path(&self) -> (r: &str)
        ensures
            r@ == self@.tmp_path,
    {
        self.tmp_path.as_str()
    }
}

/// The hexadecimal character of a value below 16, as text.
fn hex_digit_str(v: u8) -> (r: &'static str)
    requires
        v < 16,
    ensures
        r@ == seq![hex_char(v as nat)],
{
    let digits = "0123456789abcdef";
    proof {
        reveal_strlit("0123456789abcdef");
    }
    let r = digits.substring_char(v as usize, v as usize + 1);
    assert(r@ =~= seq![hex_char(v as nat)]);
    r
}

/// A byte as two lower-case hexadecimal digits.
pub fn hex_byte(b: u8) -> (r: String)
    ensures
        r@ == spec_hex_lower(seq![b]),
{
    let mut r = String::new();
    r.append(hex_digit_str(b / 16));
    r.append(hex_digit_str(b % 16));
    assert(seq![b].drop_last() =~= Seq::<u8>::empty());
    assert(spec_hex_lower(Seq::<u8>::empty()) =~= Seq::<char>::empty());
    assert(seq![b].last() == b);
    assert(r@ =~= spec_hex_lower(seq![b]));
    r
}

/// The two directory levels, below the cache directory, that hold the
/// files whose hash starts with `prefix`.
pub open spec fn spec_listing_dirs(prefix: Seq<u8>) -> Seq<Seq<char>> {
    seq![spec_hex_lower(seq![prefix[0]]), spec_hex_lower(seq![prefix[1]])]
}

/// Where, below the cache directory, a file with the given metadata is
/// stored: its two directory levels and its name.
pub open spec fn spec_storage_path(m: FileMetaView) -> Seq<Seq<char>> {
    spec_listing_dirs(m.hash.take(2)).push(spec_file_name(m))
}

/// The directories, below the cache directory, listed for a two-byte
/// prefix.
pub fn listing_dirs(prefix: [u8; 2]) -> (r: Vec<String>)
    ensures
        r@.map_values(|s: String| s@) == spec_listing_dirs(prefix@),
{
    let mut r: Vec<String> = Vec::new();
    r.push(hex_byte(prefix[0]));
    r.push(hex_byte(prefix[1]));
    assert(r@.map_values(|s: String| s@) =~= spec_listing_dirs(prefix@));
    r
}

/// The path components, below the cache directory, of the place a file
/// with this metadata is stored.
pub fn storage_path(meta: &FileMeta) -> (r: Vec<String>)
    ensures
        r@.map_values(|s: String| s@) == spec_storage_path(meta@),
{
    let hash = meta.hash();
    let mut r = listing_dirs([hash[0], hash[1]]);
    let ghost dirs = r@.map_values(|s: String| s@);
    proof {
        assert(seq![hash@[0], hash@[1]] =~= meta@.hash.take(2));
    }
    r.push(meta.to_string());
    assert(r@.map_values(|s: String| s@) =~= dirs.push(spec_file_name(meta@)));
    r
}

/// The listing directories of a prefix are its first byte then its second,
/// each as two lower-case hexadecimal digits, high half first.
pub proof fn lemma_listing_dirs_layout(prefix: Seq<u8>)
    requires
        prefix.len() == 2,
    ensures
        spec_listing_dirs(prefix).len() == 2,
        spec_listing_dirs(prefix)[0] == seq![hex_char((prefix[0] / 16) as nat), hex_char((prefix[0] % 16) as nat)],
        spec_listing_dirs(prefix)[1] == seq![hex_char((prefix[1] / 16) as nat), hex_char((prefix[1] % 16) as nat)],
{
    lemma_hex_of_byte(prefix[0]);
    lemma_hex_of_byte(prefix[1]);
}

proof fn lemma_hex_of_byte(b: u8)
    ensures
        spec_hex_lower(seq![b]) == seq![hex_char((b / 16) as nat), hex_char((b % 16) as nat)],
{
    assert(seq![b].drop_last() =~= Seq::<u8>::empty());
    assert(spec_hex_lower(Seq::<u8>::empty()) =~= Seq::<char>::empty());
    assert(seq![b].last() == b);
    assert(spec_hex_lower(seq![b]) =~= seq![hex_char((b / 16) as nat), hex_char((b % 16) as nat)]);
}

/// A file is stored in the directory of its hash's first byte, inside that
/// of its second byte, under its cached name.
pub proof fn lemma_storage_path_layout(m: FileMetaView)
    requires
        m.hash.len() == 20,
    ensures
        spec_storage_path(m).len() == 3,
        spec_storage_path(m)[0] == seq![hex_char((m.hash[0] / 16) as nat), hex_char((m.hash[0] % 16) as nat)],
        spec_storage_path(m)[1] == seq![hex_char((m.hash[1] / 16) as nat), hex_char((m.hash[1] % 16) as nat)],
        spec_storage_path(m)[2] == spec_file_name(m),
{
    lemma_listing_dirs_layout(m.hash.take(2));
}

/// A stored file is found again by listing the directories of its hash's
/// first two bytes: its name there decodes to its metadata, whose hash
/// starts with those bytes.
pub proof fn lemma_stored_file_is_listed(m: FileMetaView)
    requires
        m.valid(),
    ensures
        spec_storage_path(m).take(2) == spec_listing_dirs(m.hash.take(2)),
        spec_meta_from_name(spec_storage_path(m)[2]) == Ok::<FileMetaView, ErrorView>(m),
{
    crate::file::name::lemma_name_roundtrip(m);
    assert(spec_storage_path(m).take(2) =~= spec_listing_dirs(m.hash.take(2)));
}

} // verus!
