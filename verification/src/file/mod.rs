use sha1::Digest;
use vstd::prelude::*;

use self::error::Error;
use crate::bytes::{be16, be32, from_be16, from_be32, push_be16, push_be32};

pub mod error;
pub mod name;

verus! {

/// Largest GIF accepted: 10 MiB.
pub const GIF_MAX_SIZE: u32 = 10485760;

/// Largest JPG accepted: 20 MiB.
pub const JPG_MAX_SIZE: u32 = 20971520;

/// Largest WEBP accepted: 20 MiB.
pub const WEBP_MAX_SIZE: u32 = 20971520;

/// Largest PNG accepted: 50 MiB.
pub const PNG_MAX_SIZE: u32 = 52428800;

/// Smallest accepted width or height.
pub const MIN_SIDE: u16 = 100;

/// Largest accepted width or height.
pub const MAX_SIDE: u16 = 20000;

/// The sum of width and height must be greater than this.
pub const MIN_SIDE_SUM: u16 = 250;

/// The image formats the cache stores.
#[derive(Debug, Clone, Copy, PartialEq, Eq, Structural)]
pub enum FileExt {
    Gif,
    Jpg,
    Webp,
    Png,
}

impl FileExt {
    /// The one-byte code of the format on the wire.
    pub open spec fn spec_code(self) -> u8 {
        match self {
            FileExt::Gif => 0,
            FileExt::Jpg => 1,
            FileExt::Webp => 2,
            FileExt::Png => 3,
        }
    }

    /// The format a wire code stands for, if any.
    pub open spec fn spec_from_code(c: u8) -> Option<FileExt> {
        if c == 0 {
            Some(FileExt::Gif)
        } else if c == 1 {
            Some(FileExt::Jpg)
        } else if c == 2 {
            Some(FileExt::Webp)
        } else if c == 3 {
            Some(FileExt::Png)
        } else {
            None
        }
    }

    /// The largest file size accepted for the format.
    pub open spec fn spec_max_size(self) -> u32 {
        match self {
            FileExt::Gif => GIF_MAX_SIZE,
            FileExt::Jpg => JPG_MAX_SIZE,
            FileExt::Webp => WEBP_MAX_SIZE,
            FileExt::Png => PNG_MAX_SIZE,
        }
    }

    /// The name of the format as it appears in a cached file's name.
    pub open spec fn spec_name(self) -> Seq<char> {
        match self {
            FileExt::Gif => seq!['g', 'i', 'f'],
            FileExt::Jpg => seq!['j', 'p', 'g'],
            FileExt::Webp => seq!['w', 'b', 'p'],
            FileExt::Png => seq!['p', 'n', 'g'],
        }
    }

    pub fn code(self) -> (c: u8)
        ensures
            c == self.spec_code(),
    {
        match self {
            FileExt::Gif => 0,
            FileExt::Jpg => 1,
            FileExt::Webp => 2,
            FileExt::Png => 3,
        }
    }

    pub fn from_code(c: u8) -> (r: Option<FileExt>)
        ensures
            r == Self::spec_from_code(c),
    {
        if c == 0 {
            Some(FileExt::Gif)
        } else if c == 1 {
            Some(FileExt::Jpg)
        } else if c == 2 {
            Some(FileExt::Webp)
        } else if c == 3 {
            Some(FileExt::Png)
        } else {
            None
        }
    }

    pub fn max_size(self) -> (m: u32)
        ensures
            m == self.spec_max_size(),
    {
        match self {
            FileExt::Gif => GIF_MAX_SIZE,
            FileExt::Jpg => JPG_MAX_SIZE,
            FileExt::Webp => WEBP_MAX_SIZE,
            FileExt::Png => PNG_MAX_SIZE,
        }
    }

    pub fn name(self) -> (n: &'static str)
        ensures
            n@ == self.spec_name(),
    {
        match self {
            FileExt::Gif => {
                proof {
                    reveal_strlit("gif");
                }
                "gif"
            },
            FileExt::Jpg => {
                proof {
                    reveal_strlit("jpg");
                }
                "jpg"
            },
            FileExt::Webp => {
                proof {
                    reveal_strlit("wbp");
                }
                "wbp"
            },
            FileExt::Png => {
                proof {
                    reveal_strlit("png");
                }
                "png"
            },
        }
    }
}

/// The formats' names in cached file names: `gif`, `jpg`, `wbp` and `png`.
pub proof fn lemma_format_names()
    ensures
        FileExt::Gif.spec_name() == seq!['g', 'i', 'f'],
        FileExt::Jpg.spec_name() == seq!['j', 'p', 'g'],
        FileExt::Webp.spec_name() == seq!['w', 'b', 'p'],
        FileExt::Png.spec_name() == seq!['p', 'n', 'g'],
{
}

/// The mathematical content of a file's metadata.
pub struct FileMetaView {
    pub size: u32,
    pub hash: Seq<u8>,
    pub width: u16,
    pub height: u16,
    pub extension: FileExt,
}

/// What the metadata checks decide: the first rule that fails, in the order
/// width, height, resolution, empty file, size limit of the format.
pub open spec fn spec_check(size: u32, width: u16, height: u16, extension: FileExt) -> Result<(), Error> {
    if width < MIN_SIDE || width > MAX_SIDE {
        Err(Error::InvalidWidth(width))
    } else if height < MIN_SIDE || height > MAX_SIDE {
        Err(Error::InvalidHeight(height))
    } else if width + height <= MIN_SIDE_SUM {
        Err(Error::InsufficientResolution((width + height) as u16))
    } else if size == 0 {
        Err(Error::InvalidFileSizeZero)
    } else if size > extension.spec_max_size() {
        Err(Error::SizeExceedsLimitForExtension(size, extension.spec_max_size()))
    } else {
        Ok(())
    }
}

impl FileMetaView {
    /// Metadata that passes every check.
    pub open spec fn valid(self) -> bool {
        &&& self.hash.len() == 20
        &&& spec_check(self.size, self.width, self.height, self.extension) is Ok
    }
}

/// The 29-byte wire form of metadata: size, hash, width, height (numbers
/// big-endian) and the format's code.
pub open spec fn spec_meta_to_bytes(m: FileMetaView) -> Seq<u8> {
    be32(m.size) + m.hash + be16(m.width) + be16(m.height) + seq![m.extension.spec_code()]
}

/// What decoding 29 bytes of wire form gives: the format code is checked
/// first, then the metadata checks.
pub open spec fn spec_meta_from_bytes(b: Seq<u8>) -> Result<FileMetaView, Error> {
    let size = from_be32(b.subrange(0, 4));
    let width = from_be16(b.subrange(24, 26));
    let height = from_be16(b.subrange(26, 28));
    match FileExt::spec_from_code(b[28]) {
        None => Err(Error::InvalidFileExtNum(b[28])),
        Some(extension) => match spec_check(size, width, height, extension) {
            Err(e) => Err(e),
            Ok(()) => Ok(FileMetaView { size, hash: b.subrange(4, 24), width, height, extension }),
        },
    }
}

/// Decoding the wire form of valid metadata gives back the same metadata.
pub proof fn lemma_meta_bytes_roundtrip(m: FileMetaView)
    requires
        m.valid(),
    ensures
        spec_meta_to_bytes(m).len() == 29,
        spec_meta_from_bytes(spec_meta_to_bytes(m)) == Ok::<FileMetaView, Error>(m),
{
    let b = spec_meta_to_bytes(m);
    crate::bytes::lemma_be32_roundtrip(m.size);
    crate::bytes::lemma_be16_roundtrip(m.width);
    crate::bytes::lemma_be16_roundtrip(m.height);
    assert(b.subrange(0, 4) =~= be32(m.size));
    assert(b.subrange(4, 24) =~= m.hash);
    assert(b.subrange(24, 26) =~= be16(m.width));
    assert(b.subrange(26, 28) =~= be16(m.height));
    assert(b[28] == m.extension.spec_code());
}

/// Bytes that decode are exactly the wire form of what they decode to.
pub proof fn lemma_meta_bytes_canonical(b: Seq<u8>)
    requires
        b.len() == 29,
        spec_meta_from_bytes(b) is Ok,
    ensures
        spec_meta_from_bytes(b) matches Ok(m) && m.valid() && spec_meta_to_bytes(m) == b,
{
    crate::bytes::lemma_be32_inverse(b.subrange(0, 4));
    crate::bytes::lemma_be16_inverse(b.subrange(24, 26));
    crate::bytes::lemma_be16_inverse(b.subrange(26, 28));
    let m = spec_meta_from_bytes(b)->Ok_0;
    assert(spec_meta_to_bytes(m) =~= b);
}

/// The metadata rules, stated on their own: width and height each between
/// 100 and 20000, their sum above 250, a non-empty file no larger than the
/// format's limit (10 MiB for GIF, 20 MiB for JPG and WEBP, 50 MiB for PNG).
/// Metadata passes exactly when all hold, and each refusal names the rule
/// that fails with the offending values.
pub proof fn lemma_check_rules(size: u32, width: u16, height: u16, extension: FileExt)
    ensures
        ({
            let limit: int = if extension == FileExt::Gif {
                10int * 1024 * 1024
            } else if extension == FileExt::Png {
                50int * 1024 * 1024
            } else {
                20int * 1024 * 1024
            };
            let r = spec_check(size, width, height, extension);
            &&& r is Ok <==> (100 <= width <= 20000 && 100 <= height <= 20000 && width + height > 250 && 0
                < size && size <= limit)
            &&& r matches Err(Error::SizeExceedsLimitForExtension(s, l)) ==> s == size && l == limit && size
                > limit
            &&& r matches Err(Error::InvalidWidth(w)) ==> w == width && (width < 100 || width > 20000)
            &&& r matches Err(Error::InvalidHeight(h)) ==> h == height && (height < 100 || height > 20000)
            &&& r matches Err(Error::InsufficientResolution(t)) ==> t == width + height && t <= 250
            &&& r == Err::<(), Error>(Error::InvalidFileSizeZero) ==> size == 0
            &&& r is Err ==> (r matches Err(Error::SizeExceedsLimitForExtension(_, _)) || r matches Err(
                Error::InvalidWidth(_),
            ) || r matches Err(Error::InvalidHeight(_)) || r matches Err(Error::InsufficientResolution(_))
                || r == Err::<(), Error>(Error::InvalidFileSizeZero))
        }),
{
}

/// The 29-byte wire form, byte by byte: the size in four bytes, most
/// significant first, the 20 hash bytes, width and height in two bytes each,
/// most significant first, and the format code (GIF 0, JPG 1, WEBP 2,
/// PNG 3).
pub proof fn lemma_wire_layout(m: FileMetaView)
    requires
        m.hash.len() == 20,
    ensures
        ({
            let b = spec_meta_to_bytes(m);
            &&& b.len() == 29
            &&& b[0] * 16777216 + b[1] * 65536 + b[2] * 256 + b[3] == m.size
            &&& forall|i: int| 0 <= i < 20 ==> #[trigger] b[4 + i] == m.hash[i]
            &&& b[24] * 256 + b[25] == m.width
            &&& b[26] * 256 + b[27] == m.height
            &&& b[28] == (if m.extension == FileExt::Gif {
                0u8
            } else if m.extension == FileExt::Jpg {
                1u8
            } else if m.extension == FileExt::Webp {
                2u8
            } else {
                3u8
            })
        }),
{
    crate::bytes::lemma_be32_roundtrip(m.size);
    crate::bytes::lemma_be16_roundtrip(m.width);
    crate::bytes::lemma_be16_roundtrip(m.height);
    let b = spec_meta_to_bytes(m);
    assert(b.subrange(0, 4) =~= be32(m.size));
    assert(b.subrange(24, 26) =~= be16(m.width));
    assert(b.subrange(26, 28) =~= be16(m.height));
    assert forall|i: int| 0 <= i < 20 implies #[trigger] b[4 + i] == m.hash[i] by {
        assert(b[4 + i] == b.subrange(4, 24)[i]);
        assert(b.subrange(4, 24) =~= m.hash);
    }
}

/// Decoding reads the fields from their places in the 29 bytes, and refuses
/// a format code above 3.
pub proof fn lemma_wire_decode_fields(b: Seq<u8>)
    requires
        b.len() == 29,
    ensures
        spec_meta_from_bytes(b) matches Ok(m) ==> {
            &&& b[0] * 16777216 + b[1] * 65536 + b[2] * 256 + b[3] == m.size
            &&& m.hash == b.subrange(4, 24)
            &&& b[24] * 256 + b[25] == m.width
            &&& b[26] * 256 + b[27] == m.height
            &&& b[28] == (if m.extension == FileExt::Gif {
                0u8
            } else if m.extension == FileExt::Jpg {
                1u8
            } else if m.extension == FileExt::Webp {
                2u8
            } else {
                3u8
            })
        },
        b[28] > 3 ==> spec_meta_from_bytes(b) == Err::<FileMetaView, Error>(Error::InvalidFileExtNum(b[28])),
{
    if spec_meta_from_bytes(b) is Ok {
        lemma_meta_bytes_canonical(b);
        let m = spec_meta_from_bytes(b)->Ok_0;
        lemma_wire_layout(m);
        assert(m.hash =~= b.subrange(4, 24)) by {
            assert forall|i: int| 0 <= i < 20 implies m.hash[i] == b.subrange(4, 24)[i] by {
                assert(spec_meta_to_bytes(m)[4 + i] == m.hash[i]);
            }
        }
    }
}

/// Metadata of a cached image: its size in bytes, its SHA-1, its
/// dimensions and its format.
#[derive(Debug, PartialEq)]
pub struct FileMeta {
    size: u32,
    hash: [u8; 20],
    width: u16,
    height: u16,
    extension: FileExt,
}

impl View for FileMeta {
    type V = FileMetaView;

    closed spec fn view(&self) -> FileMetaView {
        FileMetaView {
            size: self.size,
            hash: self.hash@,
            width: self.width,
            height: self.height,
            extension: self.extension,
        }
    }
}

impl FileMeta {
    /// Every metadata value passes the checks.
    #[verifier::type_invariant]
    closed spec fn well_formed(self) -> bool {
        spec_check(self.size, self.width, self.height, self.extension) is Ok
    }

    /// The checks, run on the fields of a value not yet built.
    fn check_fields(size: u32, width: u16, height: u16, extension: FileExt) -> (r: Result<(), Error>)
        ensures
            r == spec_check(size, width, height, extension),
    {
        if width < MIN_SIDE || width > MAX_SIDE {
            return Err(Error::InvalidWidth(width));
        }
        if height < MIN_SIDE || height > MAX_SIDE {
            return Err(Error::InvalidHeight(height));
        }
        let sum = width + height;
        if sum <= MIN_SIDE_SUM {
            return Err(Error::InsufficientResolution(sum));
        }
        if size == 0 {
            return Err(Error::InvalidFileSizeZero);
        }
        let max_size = extension.max_size();
        if size > max_size {
            return Err(Error::SizeExceedsLimitForExtension(size, max_size));
        }
        Ok(())
    }

    /// Builds metadata from its fields, refusing it with the first check that
    /// fails.
    pub fn build(size: u32, hash: [u8; 20], width: u16, height: u16, extension: FileExt) -> (r: Result<Self, Error>)
        ensures
            r is Ok <==> spec_check(size, width, height, extension) is Ok,
            r matches Ok(m) ==> m@ == (FileMetaView { size, hash: hash@, width, height, extension }),
            r matches Err(e) ==> spec_check(size, width, height, extension) == Err::<(), Error>(e),
    {
        match Self::check_fields(size, width, height, extension) {
            Ok(()) => Ok(FileMeta { size, hash, width, height, extension }),
            Err(e) => Err(e),
        }
    }

    /// Runs the checks on this value again; they always pass.
    pub fn check(&self) -> (r: Result<(), Error>)
        ensures
            r == spec_check(self@.size, self@.width, self@.height, self@.extension),
            r is Ok,
    {
        proof {
            use_type_invariant(self);
        }
        Self::check_fields(self.size, self.width, self.height, self.extension)
    }

    /// The 29-byte wire form of the metadata.
    pub fn to_bytes(&self) -> (r: Vec<u8>)
        ensures
            r@ == spec_meta_to_bytes(self@),
            r@.len() == 29,
            spec_meta_from_bytes(r@) == Ok::<FileMetaView, Error>(self@),
    {
        proof {
            use_type_invariant(self);
            lemma_meta_bytes_roundtrip(self@);
        }
        let mut bytes: Vec<u8> = Vec::with_capacity(29);
        push_be32(&mut bytes, self.size);
        let mut i: usize = 0;
        while i < 20
            invariant
                0 <= i <= 20,
                bytes@ == be32(self.size) + self.hash@.subrange(0, i as int),
            decreases 20 - i,
        {
            bytes.push(self.hash[i]);
            i = i + 1;
            assert(bytes@ =~= be32(self.size) + self.hash@.subrange(0, i as int));
        }
        assert(self.hash@.subrange(0, 20) =~= self.hash@);
        push_be16(&mut bytes, self.width);
        push_be16(&mut bytes, self.height);
        bytes.push(self.extension.code());
        assert(bytes@ =~= spec_meta_to_bytes(self@));
        bytes
    }

    /// Decodes the 29-byte wire form, refusing an unknown format code and
    /// metadata that fails the checks.
    pub fn try_from_bytes(bytes: &[u8; 29]) -> (r: Result<Self, Error>)
        ensures
            r is Ok <==> spec_meta_from_bytes(bytes@) is Ok,
            r matches Ok(m) ==> spec_meta_from_bytes(bytes@) == Ok::<FileMetaView, Error>(m@),
            r matches Err(e) ==> spec_meta_from_bytes(bytes@) == Err::<FileMetaView, Error>(e),
    {
        let size: u32 = (bytes[0] as u32) * 16777216 + (bytes[1] as u32) * 65536 + (bytes[2] as u32) * 256
            + (bytes[3] as u32);
        let mut hash: [u8; 20] = [0u8; 20];
        let mut i: usize = 0;
        while i < 20
            invariant
                0 <= i <= 20,
                hash@.len() == 20,
                forall|j: int| 0 <= j < i ==> hash@[j] == bytes@[4 + j],
            decreases 20 - i,
        {
            hash[i] = bytes[4 + i];
            i = i + 1;
        }
        let width: u16 = (bytes[24] as u16) * 256 + (bytes[25] as u16);
        let height: u16 = (bytes[26] as u16) * 256 + (bytes[27] as u16);
        proof {
            assert(hash@ =~= bytes@.subrange(4, 24));
            assert(size == from_be32(bytes@.subrange(0, 4)));
            assert(width == from_be16(bytes@.subrange(24, 26)));
            assert(height == from_be16(bytes@.subrange(26, 28)));
        }
        let extension = match FileExt::from_code(bytes[28]) {
            Some(e) => e,
            None => return Err(Error::InvalidFileExtNum(bytes[28])),
        };
        Self::build(size, hash, width, height, extension)
    }

    pub fn size(&self) -> (s: u32)
        ensures
            s == self@.size,
    {
        self.size
    }

    pub fn hash(&self) -> (h: [u8; 20])
        ensures
            h@ == self@.hash,
    {
        self.hash
    }

    pub fn width(&self) -> (w: u16)
        ensures
            w == self@.width,
    {
        self.width
    }

    pub fn height(&self) -> (h: u16)
        ensures
            h == self@.height,
    {
        self.height
    }

    pub fn extension(&self) -> (e: FileExt)
        ensures
            e == self@.extension,
    {
        self.extension
    }
}

/// The mathematical content of a received file.
pub struct FileView {
    pub meta: FileMetaView,
    pub content: Seq<u8>,
}

/// A file's SHA-1 digest, as the `sha1` crate computes it.
pub uninterp spec fn spec_sha1(data: Seq<u8>) -> Seq<u8>;

/// Calls `sha1::Sha1::digest` (the `digest::Digest` method) on the data and
/// converts the 20-byte output into an array. Claimed: the result is the
/// digest of the data, whatever it is, and depends on the data alone.
#[verifier::external_body]
fn sha1_digest(data: &[u8]) -> (h: [u8; 20])
    ensures
        h@ == spec_sha1(data@),
{
    <sha1::Sha1 as Digest>::digest(data).into()
}

/// Whether two 20-byte hashes are equal.
fn hash_eq(a: &[u8; 20], b: &[u8; 20]) -> (r: bool)
    ensures
        r == (a@ == b@),
{
    let mut i: usize = 0;
    while i < 20
        invariant
            0 <= i <= 20,
            a@.len() == 20,
            b@.len() == 20,
            forall|j: int| 0 <= j < i ==> a@[j] == b@[j],
        decreases 20 - i,
    {
        if a[i] != b[i] {
            return false;
        }
        i = i + 1;
    }
    assert(a@ =~= b@);
    true
}

/// A received file: its metadata and a content whose length is the size
/// the metadata announces.
#[derive(Debug, PartialEq)]
pub struct File {
    meta: FileMeta,
    content: Vec<u8>,
}

impl View for File {
    type V = FileView;

    closed spec fn view(&self) -> FileView {
        FileView { meta: self.meta@, content: self.content@ }
    }
}

impl File {
    #[verifier::type_invariant]
    closed spec fn well_formed(self) -> bool {
        self.content@.len() == self.meta@.size
    }

    /// Pairs metadata with content, refusing content whose length is not the
    /// announced size.
    pub fn build(meta: FileMeta, content: Vec<u8>) -> (r: Result<Self, Error>)
        ensures
            r is Ok <==> content@.len() == meta@.size,
            r matches Ok(f) ==> f@ == (FileView { meta: meta@, content: content@ }),
            r matches Err(e) ==> e == Error::FileSizeMismatch,
    {
        if meta.size as usize != content.len() {
            return Err(Error::FileSizeMismatch);
        }
        Ok(File { meta, content })
    }

    /// Like `build`, and also refuses content whose SHA-1 is not the hash the
    /// metadata announces.
    pub fn build_checked(meta: FileMeta, content: Vec<u8>) -> (r: Result<Self, Error>)
        ensures
            r is Ok <==> content@.len() == meta@.size && spec_sha1(content@) == meta@.hash,
            r matches Ok(f) ==> f@ == (FileView { meta: meta@, content: content@ }),
            r matches Err(e) ==> (e == Error::FileSizeMismatch <==> content@.len() != meta@.size),
            r matches Err(e) ==> (e == Error::FileSizeMismatch || e == Error::FileHashMismatch),
    {
        if meta.size as usize != content.len() {
            return Err(Error::FileSizeMismatch);
        }
        let computed = sha1_digest(content.as_slice());
        if !hash_eq(&computed, &meta.hash) {
            return Err(Error::FileHashMismatch);
        }
        Ok(File { meta, content })
    }

    /// Splits the file into its metadata and content.
    pub fn into_parts(self) -> (r: (FileMeta, Vec<u8>))
        ensures
            r.0@ == self@.meta,
            r.1@ == self@.content,
            r.1@.len() == r.0@.size,
    {
        proof {
            use_type_invariant(&self);
        }
        (self.meta, self.content)
    }
}

} // verus!
