//! Cached files are named after their metadata:
//! `<hash in lower-case hex>-<size>-<width>-<height>-<format>`, for example
//! `0020241169685837135e56e30ea29293951ad977-3112798-432-240-gif`.
use vstd::prelude::*;
use vstd::utf8::{encode_utf8, is_ascii_chars};

use super::error::{Error, ErrorView, HexError, IntErrorKind};
use super::{spec_check, FileExt, FileMeta, FileMetaView};
use crate::text::{
    ascii_bytes, decimal_string, lemma_parse_decimal_bound, lemma_decimal_digits, lemma_encode_ascii, lemma_parse_decimal_roundtrip,
    lemma_split_concat, lemma_split_no_dash, parse_decimal, spec_decimal, spec_parse_decimal, spec_split_dash,
    split_dash, str_views,
};

verus! {

/// The value of a hexadecimal digit byte, either case.
pub open spec fn hex_digit_value(c: u8) -> Option<nat> {
    if 65 <= c <= 70 {
        Some((c - 55) as nat)
    } else if 97 <= c <= 102 {
        Some((c - 87) as nat)
    } else if 48 <= c <= 57 {
        Some((c - 48) as nat)
    } else {
        None
    }
}

/// The position of the first byte that is not a hexadecimal digit.
pub open spec fn first_non_hex(data: Seq<u8>) -> Option<int>
    decreases data.len(),
{
    if data.len() == 0 {
        None
    } else {
        match first_non_hex(data.drop_last()) {
            Some(i) => Some(i),
            None => if hex_digit_value(data.last()) is None {
                Some(data.len() - 1)
            } else {
                None
            },
        }
    }
}

/// Decoding hexadecimal text into `n` bytes, as `hex::decode_to_slice` does:
/// odd length first, then a length that is not `2 * n`, then the first
/// byte that is no digit.
pub open spec fn spec_hex_decode(data: Seq<u8>, n: nat) -> Result<Seq<u8>, HexError> {
    if data.len() % 2 != 0 {
        Err(HexError::OddLength)
    } else if data.len() / 2 != n {
        Err(HexError::InvalidStringLength)
    } else {
        match first_non_hex(data) {
            Some(i) => Err(HexError::InvalidHexCharacter { c: data[i] as char, index: i as usize }),
            None => Ok(
                Seq::new(
                    n,
                    |i: int|
                        (hex_digit_value(data[2 * i]).unwrap() * 16 + hex_digit_value(data[2 * i + 1]).unwrap()) as u8,
                ),
            ),
        }
    }
}

/// The lower-case hexadecimal character of a value below 16.
pub open spec fn hex_char(d: nat) -> char {
    if d < 10 {
        (48 + d) as char
    } else {
        (87 + d) as char
    }
}

/// Bytes as lower-case hexadecimal text, two characters per byte.
pub open spec fn spec_hex_lower(data: Seq<u8>) -> Seq<char>
    decreases data.len(),
{
    if data.len() == 0 {
        Seq::empty()
    } else {
        spec_hex_lower(data.drop_last()) + seq![hex_char((data.last() / 16) as nat), hex_char((data.last() % 16) as nat)]
    }
}

/// A decoded hash as bytes.
pub open spec fn decoded_view(r: Result<[u8; 20], HexError>) -> Result<Seq<u8>, HexError> {
    match r {
        Ok(h) => Ok(h@),
        Err(e) => Err(e),
    }
}

/// Calls `hex::decode_to_slice` into a 20-byte array and moves the fields
/// of `hex::FromHexError` into `HexError`, one variant for each. Claimed:
/// the outcome is `spec_hex_decode`, which states the crate's function in
/// full.
#[verifier::external_body]
fn hex_decode_hash(data: &[u8]) -> (r: Result<[u8; 20], HexError>)
    ensures
        decoded_view(r) == spec_hex_decode(data@, 20),
{
    let mut out = [0u8; 20];
    match hex::decode_to_slice(data, &mut out) {
        Ok(()) => Ok(out),
        Err(hex::FromHexError::InvalidHexCharacter { c, index }) => Err(HexError::InvalidHexCharacter { c, index }),
        Err(hex::FromHexError::OddLength) => Err(HexError::OddLength),
        Err(hex::FromHexError::InvalidStringLength) => Err(HexError::InvalidStringLength),
    }
}

/// Calls `hex::encode`. Claimed: the text is `spec_hex_lower` of the bytes,
/// which states the crate's function in full.
#[verifier::external_body]
fn hex_encode(data: &[u8]) -> (r: String)
    ensures
        r@ == spec_hex_lower(data@),
{
    hex::encode(data)
}

/// The lower-case form of a text, as `str::to_lowercase` gives it.
pub uninterp spec fn spec_to_lowercase(s: Seq<char>) -> Seq<char>;

/// ASCII text with `A` to `Z` turned into `a` to `z`.
pub open spec fn ascii_lower(s: Seq<char>) -> Seq<char> {
    Seq::new(s.len(), |i: int| if 'A' <= s[i] <= 'Z' { ((s[i] as u32) + 32) as char } else { s[i] })
}

/// Calls `str::to_lowercase`. Claimed: the result depends on the text alone,
/// and on text made only of ASCII characters it maps `A` to `Z` onto `a` to
/// `z` and keeps every other character. What it gives for other characters
/// (the Unicode lower-case mapping) is left unsaid.
#[verifier::external_body]
fn to_lowercase(s: &str) -> (r: String)
    ensures
        r@ == spec_to_lowercase(s@),
        is_ascii_chars(s@) ==> r@ == ascii_lower(s@),
{
    s.to_lowercase()
}

/// The lower-case form of a format name: for ASCII text the `A` to `Z`
/// mapping, for other text what `str::to_lowercase` gives.
pub open spec fn spec_lower_name(s: Seq<char>) -> Seq<char> {
    if is_ascii_chars(s) {
        ascii_lower(s)
    } else {
        spec_to_lowercase(s)
    }
}

/// The format whose name a lower-case text is.
pub open spec fn spec_ext_from_name(s: Seq<char>) -> Option<FileExt> {
    if s == FileExt::Gif.spec_name() {
        Some(FileExt::Gif)
    } else if s == FileExt::Jpg.spec_name() {
        Some(FileExt::Jpg)
    } else if s == FileExt::Webp.spec_name() {
        Some(FileExt::Webp)
    } else if s == FileExt::Png.spec_name() {
        Some(FileExt::Png)
    } else {
        None
    }
}

fn ext_from_name(s: &String) -> (r: Option<FileExt>)
    ensures
        r == spec_ext_from_name(s@),
{
    let exts = [FileExt::Gif, FileExt::Jpg, FileExt::Webp, FileExt::Png];
    let mut i: usize = 0;
    while i < 4
        invariant
            0 <= i <= 4,
            exts@ == seq![FileExt::Gif, FileExt::Jpg, FileExt::Webp, FileExt::Png],
            forall|j: int| 0 <= j < i ==> s@ != exts@[j].spec_name(),
        decreases 4 - i,
    {
        let e = exts[i];
        let name = e.name().to_owned();
        if *s == name {
            return Some(e);
        }
        i = i + 1;
    }
    None
}

/// What a cached file's name decodes to: five dash-separated pieces, the
/// hash in hexadecimal, size, width and height in decimal, and the format's
/// name in any case; then the metadata checks.
pub open spec fn spec_meta_from_name(s: Seq<char>) -> Result<FileMetaView, ErrorView> {
    let parts = spec_split_dash(s);
    if parts.len() != 5 {
        Err(ErrorView::Other(Error::InvalidStringFormat))
    } else {
        match spec_hex_decode(encode_utf8(parts[0]), 20) {
            Err(e) => Err(ErrorView::Other(Error::FromHexError(e))),
            Ok(hash) => match spec_parse_decimal(encode_utf8(parts[1]), 4294967295) {
                Err(k) => Err(ErrorView::Other(Error::ParseIntError(k))),
                Ok(size) => match spec_parse_decimal(encode_utf8(parts[2]), 65535) {
                    Err(k) => Err(ErrorView::Other(Error::ParseIntError(k))),
                    Ok(width) => match spec_parse_decimal(encode_utf8(parts[3]), 65535) {
                        Err(k) => Err(ErrorView::Other(Error::ParseIntError(k))),
                        Ok(height) => {
                            let lower = spec_lower_name(parts[4]);
                            match spec_ext_from_name(lower) {
                                None => Err(ErrorView::InvalidFileExtName(lower)),
                                Some(extension) => match spec_check(
                                    size as u32,
                                    width as u16,
                                    height as u16,
                                    extension,
                                ) {
                                    Err(e) => Err(ErrorView::Other(e)),
                                    Ok(()) => Ok(
                                        FileMetaView {
                                            size: size as u32,
                                            hash,
                                            width: width as u16,
                                            height: height as u16,
                                            extension,
                                        },
                                    ),
                                },
                            }
                        },
                    },
                },
            },
        }
    }
}

/// The name of a cached file with the given metadata.
pub open spec fn spec_file_name(m: FileMetaView) -> Seq<char> {
    spec_hex_lower(m.hash) + seq!['-'] + spec_decimal(m.size as nat) + seq!['-'] + spec_decimal(m.width as nat)
        + seq!['-'] + spec_decimal(m.height as nat) + seq!['-'] + m.extension.spec_name()
}

/// The hexadecimal character of a value below 16 is a digit `0`-`9` or a
/// lower-case letter `a`-`f`, and reads back as the value.
pub proof fn lemma_hex_char(v: nat)
    requires
        v < 16,
    ensures
        hex_digit_value(hex_char(v) as u8) == Some(v),
        ('0' <= hex_char(v) <= '9' && v < 10 && hex_char(v) as nat == 48 + v) || ('a' <= hex_char(v) <= 'f' && v
            >= 10 && hex_char(v) as nat == 87 + v),
        '\0' <= hex_char(v) <= '\u{7f}',
        hex_char(v) != '-',
{
}

/// The two characters that stand for byte `i` of `d`.
spec fn hex_pair_ok(d: Seq<u8>, i: int) -> bool {
    &&& spec_hex_lower(d)[2 * i] == hex_char((d[i] / 16) as nat)
    &&& spec_hex_lower(d)[2 * i + 1] == hex_char((d[i] % 16) as nat)
}

/// Hexadecimal text has two characters per byte: the high and the low half.
proof fn lemma_hex_lower(d: Seq<u8>)
    ensures
        spec_hex_lower(d).len() == 2 * d.len(),
        forall|i: int| 0 <= i < d.len() ==> #[trigger] hex_pair_ok(d, i),
    decreases d.len(),
{
    if d.len() > 0 {
        let init = d.drop_last();
        lemma_hex_lower(init);
        let h = spec_hex_lower(d);
        assert(h == spec_hex_lower(init) + seq![hex_char((d.last() / 16) as nat), hex_char((d.last() % 16) as nat)]);
        assert forall|i: int| 0 <= i < d.len() implies #[trigger] hex_pair_ok(d, i) by {
            if i < d.len() - 1 {
                assert(hex_pair_ok(init, i));
                assert(init[i] == d[i]);
            }
        }
    }
}

/// Hexadecimal text, character by character: byte `i` of the data is
/// written at positions `2 * i` (its high half) and `2 * i + 1` (its low
/// half), and nothing else is written.
pub proof fn lemma_hex_lower_layout(d: Seq<u8>)
    ensures
        spec_hex_lower(d).len() == 2 * d.len(),
        forall|i: int|
            #![trigger d[i]]
            0 <= i < d.len() ==> spec_hex_lower(d)[2 * i] == hex_char((d[i] / 16) as nat) && spec_hex_lower(d)[2
                * i + 1] == hex_char((d[i] % 16) as nat),
{
    lemma_hex_lower(d);
    assert forall|i: int|
        #![trigger d[i]]
        0 <= i < d.len() implies spec_hex_lower(d)[2 * i] == hex_char((d[i] / 16) as nat) && spec_hex_lower(d)[2
            * i + 1] == hex_char((d[i] % 16) as nat) by {
        assert(hex_pair_ok(d, i));
    }
}

/// Every character of hexadecimal text is an ASCII hexadecimal digit.
proof fn lemma_hex_lower_chars(d: Seq<u8>)
    ensures
        is_ascii_chars(spec_hex_lower(d)),
        !spec_hex_lower(d).contains('-'),
        forall|j: int|
            0 <= j < spec_hex_lower(d).len() ==> #[trigger] hex_digit_value(spec_hex_lower(d)[j] as u8) is Some,
{
    lemma_hex_lower(d);
    let h = spec_hex_lower(d);
    assert forall|j: int| 0 <= j < h.len() implies '\0' <= #[trigger] h[j] <= '\u{7f}' && h[j] != '-'
        && hex_digit_value(h[j] as u8) is Some by {
        let i = j / 2;
        assert(hex_pair_ok(d, i));
        lemma_hex_char((d[i] / 16) as nat);
        lemma_hex_char((d[i] % 16) as nat);
        if j % 2 == 0 {
            assert(j == 2 * i);
        } else {
            assert(j == 2 * i + 1);
        }
    }
}

/// Bytes that are all hexadecimal digits have no first non-digit.
proof fn lemma_all_hex(data: Seq<u8>)
    requires
        forall|j: int| 0 <= j < data.len() ==> #[trigger] hex_digit_value(data[j]) is Some,
    ensures
        first_non_hex(data) is None,
    decreases data.len(),
{
    if data.len() > 0 {
        assert forall|j: int| 0 <= j < data.drop_last().len() implies #[trigger] hex_digit_value(
            data.drop_last()[j],
        ) is Some by {
            assert(data.drop_last()[j] == data[j]);
        }
        lemma_all_hex(data.drop_last());
        assert(hex_digit_value(data[data.len() - 1]) is Some);
    }
}

/// Decoding the hexadecimal text of a 20-byte hash gives the hash back.
proof fn lemma_hex_roundtrip(d: Seq<u8>)
    requires
        d.len() == 20,
    ensures
        is_ascii_chars(spec_hex_lower(d)),
        spec_hex_decode(encode_utf8(spec_hex_lower(d)), 20) == Ok::<Seq<u8>, HexError>(d),
{
    lemma_hex_lower(d);
    lemma_hex_lower_chars(d);
    let h = spec_hex_lower(d);
    lemma_encode_ascii(h);
    let b = ascii_bytes(h);
    assert forall|j: int| 0 <= j < b.len() implies #[trigger] hex_digit_value(b[j]) is Some by {
        assert(hex_digit_value(h[j] as u8) is Some);
    }
    lemma_all_hex(b);
    let out = Seq::new(
        20,
        |i: int| (hex_digit_value(b[2 * i]).unwrap() * 16 + hex_digit_value(b[2 * i + 1]).unwrap()) as u8,
    );
    assert forall|i: int| 0 <= i < 20 implies #[trigger] out[i] == d[i] by {
        assert(hex_pair_ok(d, i));
        lemma_hex_char((d[i] / 16) as nat);
        lemma_hex_char((d[i] % 16) as nat);
    }
    assert(out =~= d);
}

/// Lower-casing a format's own name changes nothing.
proof fn lemma_ext_name(e: FileExt)
    ensures
        is_ascii_chars(e.spec_name()),
        !e.spec_name().contains('-'),
        spec_lower_name(e.spec_name()) == e.spec_name(),
        spec_ext_from_name(e.spec_name()) == Some(e),
{
    let n = e.spec_name();
    assert(ascii_lower(n) =~= n);
    assert(!n.contains('-')) by {
        if n.contains('-') {
            let i = choose|i: int| 0 <= i < n.len() && n[i] == '-';
            assert(n[i] != '-');
        }
    }
}

/// The pieces of a decimal number are digits, so no dash.
proof fn lemma_decimal_piece(n: nat)
    ensures
        is_ascii_chars(spec_decimal(n)),
        !spec_decimal(n).contains('-'),
        encode_utf8(spec_decimal(n)) == ascii_bytes(spec_decimal(n)),
{
    lemma_decimal_digits(n);
    lemma_encode_ascii(spec_decimal(n));
    let s = spec_decimal(n);
    assert(!s.contains('-')) by {
        if s.contains('-') {
            let i = choose|i: int| 0 <= i < s.len() && s[i] == '-';
            assert('0' <= s[i] <= '9');
        }
    }
}

/// Decoding the name a file is cached under gives back its metadata: what
/// is saved is listed again as itself.
pub proof fn lemma_name_roundtrip(m: FileMetaView)
    requires
        m.valid(),
    ensures
        spec_meta_from_name(spec_file_name(m)) == Ok::<FileMetaView, ErrorView>(m),
{
    let h = spec_hex_lower(m.hash);
    let sz = spec_decimal(m.size as nat);
    let w = spec_decimal(m.width as nat);
    let ht = spec_decimal(m.height as nat);
    let e = m.extension.spec_name();
    let d = seq!['-'];
    lemma_hex_roundtrip(m.hash);
    lemma_hex_lower_chars(m.hash);
    lemma_decimal_piece(m.size as nat);
    lemma_decimal_piece(m.width as nat);
    lemma_decimal_piece(m.height as nat);
    lemma_ext_name(m.extension);
    lemma_split_no_dash(h);
    lemma_split_no_dash(sz);
    lemma_split_no_dash(w);
    lemma_split_no_dash(ht);
    lemma_split_no_dash(e);
    lemma_split_concat(h, sz);
    lemma_split_concat(h + d + sz, w);
    lemma_split_concat(h + d + sz + d + w, ht);
    lemma_split_concat(h + d + sz + d + w + d + ht, e);
    assert(spec_file_name(m) == h + d + sz + d + w + d + ht + d + e);
    let parts = spec_split_dash(spec_file_name(m));
    assert(parts =~= seq![h, sz, w, ht, e]);
    lemma_parse_decimal_roundtrip(m.size as nat, 4294967295);
    lemma_parse_decimal_roundtrip(m.width as nat, 65535);
    lemma_parse_decimal_roundtrip(m.height as nat, 65535);
}

/// The cached name of any metadata is five dash-separated fields, in this
/// order: the hash in lower-case hexadecimal, the size, the width, the
/// height (each in decimal), and the format's name.
pub proof fn lemma_file_name_fields(m: FileMetaView)
    ensures
        spec_split_dash(spec_file_name(m)) == seq![
            spec_hex_lower(m.hash),
            spec_decimal(m.size as nat),
            spec_decimal(m.width as nat),
            spec_decimal(m.height as nat),
            m.extension.spec_name(),
        ],
{
    let h = spec_hex_lower(m.hash);
    let sz = spec_decimal(m.size as nat);
    let w = spec_decimal(m.width as nat);
    let ht = spec_decimal(m.height as nat);
    let e = m.extension.spec_name();
    let d = seq!['-'];
    lemma_hex_lower_chars(m.hash);
    lemma_decimal_piece(m.size as nat);
    lemma_decimal_piece(m.width as nat);
    lemma_decimal_piece(m.height as nat);
    lemma_ext_name(m.extension);
    lemma_split_no_dash(h);
    lemma_split_no_dash(sz);
    lemma_split_no_dash(w);
    lemma_split_no_dash(ht);
    lemma_split_no_dash(e);
    lemma_split_concat(h, sz);
    lemma_split_concat(h + d + sz, w);
    lemma_split_concat(h + d + sz + d + w, ht);
    lemma_split_concat(h + d + sz + d + w + d + ht, e);
    assert(spec_file_name(m) == h + d + sz + d + w + d + ht + d + e);
    assert(spec_split_dash(spec_file_name(m)) =~= seq![h, sz, w, ht, e]);
}

/// A name that decodes has five fields, and each part of the metadata comes
/// from its own field: the hash from the first, the size from the second,
/// the width from the third, the height from the fourth and the format from
/// the fifth.
pub proof fn lemma_name_decode_fields(s: Seq<char>)
    ensures
        spec_meta_from_name(s) matches Ok(m) ==> {
            let parts = spec_split_dash(s);
            &&& parts.len() == 5
            &&& spec_hex_decode(encode_utf8(parts[0]), 20) == Ok::<Seq<u8>, HexError>(m.hash)
            &&& spec_parse_decimal(encode_utf8(parts[1]), 4294967295) == Ok::<nat, IntErrorKind>(m.size as nat)
            &&& spec_parse_decimal(encode_utf8(parts[2]), 65535) == Ok::<nat, IntErrorKind>(m.width as nat)
            &&& spec_parse_decimal(encode_utf8(parts[3]), 65535) == Ok::<nat, IntErrorKind>(m.height as nat)
            &&& spec_ext_from_name(spec_lower_name(parts[4])) == Some(m.extension)
            &&& m.valid()
        },
{
    let parts = spec_split_dash(s);
    if parts.len() == 5 {
        if let Ok(hash) = spec_hex_decode(encode_utf8(parts[0]), 20) {
            if let Ok(size) = spec_parse_decimal(encode_utf8(parts[1]), 4294967295) {
                lemma_parse_decimal_bound(encode_utf8(parts[1]), 4294967295);
                if let Ok(width) = spec_parse_decimal(encode_utf8(parts[2]), 65535) {
                    lemma_parse_decimal_bound(encode_utf8(parts[2]), 65535);
                    if let Ok(height) = spec_parse_decimal(encode_utf8(parts[3]), 65535) {
                        lemma_parse_decimal_bound(encode_utf8(parts[3]), 65535);
                    }
                }
            }
        }
    }
}

impl FileMeta {
    /// Decodes metadata from a cached file's name.
    pub fn try_from_str(s: &str) -> (r: Result<Self, Error>)
        ensures
            r is Ok <==> spec_meta_from_name(s@) is Ok,
            r matches Ok(m) ==> spec_meta_from_name(s@) == Ok::<FileMetaView, ErrorView>(m@),
            r matches Err(e) ==> spec_meta_from_name(s@) == Err::<FileMetaView, ErrorView>(e@),
    {
        let parts = split_dash(s);
        let ghost pv = str_views(parts@);
        if parts.len() != 5 {
            return Err(Error::InvalidStringFormat);
        }
        assert(parts@[0]@ == pv[0] && parts@[1]@ == pv[1] && parts@[2]@ == pv[2] && parts@[3]@ == pv[3]
            && parts@[4]@ == pv[4]);
        let hash = match hex_decode_hash(parts[0].as_bytes()) {
            Ok(h) => h,
            Err(e) => return Err(Error::FromHexError(e)),
        };
        let size = match parse_decimal(parts[1].as_bytes(), 4294967295) {
            Ok(v) => v,
            Err(k) => return Err(Error::ParseIntError(k)),
        };
        let width = match parse_decimal(parts[2].as_bytes(), 65535) {
            Ok(v) => v as u16,
            Err(k) => return Err(Error::ParseIntError(k)),
        };
        let height = match parse_decimal(parts[3].as_bytes(), 65535) {
            Ok(v) => v as u16,
            Err(k) => return Err(Error::ParseIntError(k)),
        };
        let lower = to_lowercase(parts[4]);
        let extension = match ext_from_name(&lower) {
            Some(e) => e,
            None => return Err(Error::InvalidFileExtName(lower)),
        };
        Self::build(size, hash, width, height, extension)
    }

    /// The name under which a file with this metadata is cached.
    pub fn to_string(&self) -> (r: String)
        ensures
            r@ == spec_file_name(self@),
            spec_meta_from_name(r@) == Ok::<FileMetaView, ErrorView>(self@),
    {
        proof {
            use_type_invariant(self);
            lemma_name_roundtrip(self@);
        }
        let hash = self.hash();
        let mut r = hex_encode(hash.as_slice());
        let dash = "-";
        proof {
            reveal_strlit("-");
        }
        r.append(dash);
        r.append(decimal_string(self.size()).as_str());
        r.append(dash);
        r.append(decimal_string(self.width() as u32).as_str());
        r.append(dash);
        r.append(decimal_string(self.height() as u32).as_str());
        r.append(dash);
        r.append(self.extension().name());
        assert(r@ =~= spec_file_name(self@));
        r
    }
}

} // verus!
