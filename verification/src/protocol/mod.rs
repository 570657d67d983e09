//! The wire protocol spoken between sender and receiver.
//!
//! A request starts with a one-byte tag:
//! - check version: the tag and the sender's protocol version (one byte);
//! - list directory: the tag and a two-byte directory prefix;
//! - save file: the tag, 29 bytes of file metadata and the file's content,
//!   as many bytes as the metadata announces.
use vstd::prelude::*;

use self::errors::Errors;
use self::types::{Command, CommandView, Decoded, DecodedView};
use crate::file::error::Error;
use crate::file::{
    lemma_meta_bytes_roundtrip, spec_meta_from_bytes, spec_meta_to_bytes, File, FileMeta,
    FileMetaView, FileView,
};

pub mod errors;
pub mod frames;
pub mod types;

verus! {

/// The protocol version this receiver speaks.
pub const PROTOCOL_VERSION: u8 = 0;

pub const REQUEST_CHECK_VERSION: u8 = 0;

pub const RESPONSE_CHECK_VERSION: u8 = 128;

pub const REQUEST_LIST_DIR: u8 = 1;

pub const RESPONSE_LIST_DIR: u8 = 129;

pub const REQUEST_SAVE_FILE: u8 = 2;

/// Length of the fixed part of a save-file request: tag and metadata.
pub const SAVE_FILE_HEADER_LEN: usize = 30;

/// Why a request could not be decoded.
#[derive(Debug, PartialEq, Eq)]
pub enum CommandError {
    Protocol(Errors),
    File(Error),
}

/// What the bytes received so far decode to. Bytes past the end of the
/// first request are not looked at.
pub open spec fn spec_decode(buf: Seq<u8>) -> Result<DecodedView, CommandError> {
    if buf.len() == 0 {
        Ok(DecodedView::Need(1))
    } else if buf[0] == REQUEST_CHECK_VERSION {
        if buf.len() < 2 {
            Ok(DecodedView::Need((2 - buf.len()) as nat))
        } else {
            Ok(DecodedView::Done(CommandView::CheckVersion { version: buf[1] }))
        }
    } else if buf[0] == REQUEST_LIST_DIR {
        if buf.len() < 3 {
            Ok(DecodedView::Need((3 - buf.len()) as nat))
        } else {
            Ok(DecodedView::Done(CommandView::ListDir { path: buf.subrange(1, 3) }))
        }
    } else if buf[0] == REQUEST_SAVE_FILE {
        if buf.len() < 30 {
            Ok(DecodedView::Need((30 - buf.len()) as nat))
        } else {
            match spec_meta_from_bytes(buf.subrange(1, 30)) {
                Err(e) => Err(CommandError::File(e)),
                Ok(m) => if buf.len() < 30 + m.size {
                    Ok(DecodedView::Need((30 + m.size - buf.len()) as nat))
                } else {
                    Ok(
                        DecodedView::Done(
                            CommandView::SaveFile {
                                file: FileView { meta: m, content: buf.subrange(30, 30 + m.size) },
                            },
                        ),
                    )
                },
            }
        }
    } else {
        Err(CommandError::Protocol(Errors::InvalidCommand(buf[0])))
    }
}

/// The bytes a sender puts on the wire for a request.
pub open spec fn spec_command_bytes(c: CommandView) -> Seq<u8> {
    match c {
        CommandView::CheckVersion { version } => seq![REQUEST_CHECK_VERSION, version],
        CommandView::ListDir { path } => seq![REQUEST_LIST_DIR] + path,
        CommandView::SaveFile { file } => seq![REQUEST_SAVE_FILE] + spec_meta_to_bytes(file.meta)
            + file.content,
    }
}

impl CommandView {
    /// A request that can be sent: a two-byte path, or valid metadata whose
    /// size is the length of the content.
    pub open spec fn valid(self) -> bool {
        match self {
            CommandView::CheckVersion { .. } => true,
            CommandView::ListDir { path } => path.len() == 2,
            CommandView::SaveFile { file } => file.meta.valid() && file.content.len() == file.meta.size,
        }
    }
}

/// Every request the decoder yields is valid.
pub proof fn lemma_decoded_valid(buf: Seq<u8>)
    ensures
        spec_decode(buf) matches Ok(DecodedView::Done(c)) ==> c.valid(),
        spec_decode(buf) matches Ok(DecodedView::Need(n)) ==> n > 0,
{
    if buf.len() >= 30 && buf[0] == REQUEST_SAVE_FILE {
        if spec_meta_from_bytes(buf.subrange(1, 30)) is Ok {
            crate::file::lemma_meta_bytes_canonical(buf.subrange(1, 30));
        }
    }
}

/// The decoder's answer on a prefix of `b` of length `k`: more bytes are
/// needed, at least one, and no more than `b` still holds.
pub open spec fn asks_within(b: Seq<u8>, k: int) -> bool {
    spec_decode(b.take(k)) matches Ok(DecodedView::Need(n)) && n > 0 && k + n <= b.len()
}

proof fn lemma_decode_check_version(version: u8)
    ensures
        ({
            let c = CommandView::CheckVersion { version };
            let b = spec_command_bytes(c);
            &&& spec_decode(b) == Ok::<DecodedView, CommandError>(DecodedView::Done(c))
            &&& forall|k: int| 0 <= k < b.len() ==> #[trigger] asks_within(b, k)
        }),
{
    let b = spec_command_bytes(CommandView::CheckVersion { version });
    assert(b.len() == 2);
    assert forall|k: int| 0 <= k < b.len() implies #[trigger] asks_within(b, k) by {
        if k == 1 {
            assert(b.take(k)[0] == REQUEST_CHECK_VERSION);
        }
    }
}

proof fn lemma_decode_list_dir(path: Seq<u8>)
    requires
        path.len() == 2,
    ensures
        ({
            let c = CommandView::ListDir { path };
            let b = spec_command_bytes(c);
            &&& spec_decode(b) == Ok::<DecodedView, CommandError>(DecodedView::Done(c))
            &&& forall|k: int| 0 <= k < b.len() ==> #[trigger] asks_within(b, k)
        }),
{
    let b = spec_command_bytes(CommandView::ListDir { path });
    assert(b.len() == 3);
    assert(b.subrange(1, 3) =~= path);
    assert forall|k: int| 0 <= k < b.len() implies #[trigger] asks_within(b, k) by {
        if k >= 1 {
            assert(b.take(k)[0] == REQUEST_LIST_DIR);
        }
    }
}

proof fn lemma_decode_save_file(file: FileView)
    requires
        file.meta.valid(),
        file.content.len() == file.meta.size,
    ensures
        ({
            let c = CommandView::SaveFile { file };
            let b = spec_command_bytes(c);
            &&& spec_decode(b) == Ok::<DecodedView, CommandError>(DecodedView::Done(c))
            &&& forall|k: int| 0 <= k < b.len() ==> #[trigger] asks_within(b, k)
        }),
{
    let b = spec_command_bytes(CommandView::SaveFile { file });
    let m = file.meta;
    lemma_meta_bytes_roundtrip(m);
    let mb = spec_meta_to_bytes(m);
    assert(b.len() == 30 + m.size);
    assert(b.subrange(1, 30) =~= mb);
    assert(b.subrange(30, 30 + m.size) =~= file.content);
    assert forall|k: int| 0 <= k < b.len() implies #[trigger] asks_within(b, k) by {
        if k >= 1 {
            assert(b.take(k)[0] == REQUEST_SAVE_FILE);
        }
        if k >= 30 {
            assert(b.take(k).subrange(1, 30) =~= mb);
        }
    }
}

/// Fed the bytes of a request as they arrive, the decoder asks for more on
/// every proper prefix, never for bytes past the end of the request, and
/// gives back the request itself once all its bytes are there.
pub proof fn lemma_decode_request(c: CommandView)
    requires
        c.valid(),
    ensures
        spec_decode(spec_command_bytes(c)) == Ok::<DecodedView, CommandError>(DecodedView::Done(c)),
        forall|k: int| 0 <= k < spec_command_bytes(c).len() ==> #[trigger] asks_within(spec_command_bytes(c), k),
{
    match c {
        CommandView::CheckVersion { version } => lemma_decode_check_version(version),
        CommandView::ListDir { path } => lemma_decode_list_dir(path),
        CommandView::SaveFile { file } => lemma_decode_save_file(file),
    }
}

/// Where the field being received ends, once `k` bytes of a request have
/// arrived: the tag is one byte; a check-version request ends at 2 and a
/// list-directory request at 3; a save-file request has its metadata end at
/// 30 and its content at 30 plus the size.
pub open spec fn field_end(c: CommandView, k: int) -> int {
    if k == 0 {
        1
    } else {
        match c {
            CommandView::CheckVersion { .. } => 2,
            CommandView::ListDir { .. } => 3,
            CommandView::SaveFile { file } => if k < 30 {
                30
            } else {
                30 + file.meta.size
            },
        }
    }
}

proof fn lemma_fields_save_file(file: FileView, k: int)
    requires
        file.meta.valid(),
        file.content.len() == file.meta.size,
        0 <= k < 30 + file.meta.size,
    ensures
        spec_decode(spec_command_bytes(CommandView::SaveFile { file }).take(k)) == Ok::<DecodedView, CommandError>(
            DecodedView::Need((field_end(CommandView::SaveFile { file }, k) - k) as nat),
        ),
{
    let m = file.meta;
    let b = spec_command_bytes(CommandView::SaveFile { file });
    lemma_meta_bytes_roundtrip(m);
    let mb = spec_meta_to_bytes(m);
    assert(b.len() == 30 + m.size);
    if k >= 1 {
        assert(b.take(k)[0] == REQUEST_SAVE_FILE);
    }
    if k >= 30 {
        assert(b.take(k).subrange(1, 30) =~= mb);
    }
}

/// The decoder receives a request field by field: on every proper prefix
/// it asks for exactly the bytes that complete the field in progress.
pub proof fn lemma_decode_reads_fields(c: CommandView, k: int)
    requires
        c.valid(),
        0 <= k < spec_command_bytes(c).len(),
    ensures
        spec_decode(spec_command_bytes(c).take(k)) == Ok::<DecodedView, CommandError>(
            DecodedView::Need((field_end(c, k) - k) as nat),
        ),
{
    let b = spec_command_bytes(c);
    match c {
        CommandView::CheckVersion { version } => {
            if k == 1 {
                assert(b.take(k)[0] == REQUEST_CHECK_VERSION);
            }
        },
        CommandView::ListDir { path } => {
            if k >= 1 {
                assert(b.take(k)[0] == REQUEST_LIST_DIR);
            }
        },
        CommandView::SaveFile { file } => lemma_fields_save_file(file, k),
    }
}

/// A decoded request is exactly what the first bytes received encode: the
/// tag, then its fields in order, the bytes after it untouched.
pub proof fn lemma_decoded_is_prefix(buf: Seq<u8>)
    ensures
        spec_decode(buf) matches Ok(DecodedView::Done(c)) ==> spec_command_bytes(c).len() <= buf.len()
            && buf.take(spec_command_bytes(c).len() as int) == spec_command_bytes(c),
{
    if let Ok(DecodedView::Done(c)) = spec_decode(buf) {
        let b = spec_command_bytes(c);
        if buf[0] == REQUEST_CHECK_VERSION {
            assert(buf.take(2) =~= b);
        } else if buf[0] == REQUEST_LIST_DIR {
            assert(buf.take(3) =~= b);
        } else {
            crate::file::lemma_meta_bytes_canonical(buf.subrange(1, 30));
            assert(buf.take(b.len() as int) =~= b);
        }
    }
}

proof fn lemma_trailing_check_version(version: u8, t: Seq<u8>)
    ensures
        spec_decode(seq![REQUEST_CHECK_VERSION, version] + t) == Ok::<DecodedView, CommandError>(
            DecodedView::Done(CommandView::CheckVersion { version }),
        ),
{
    let x = seq![REQUEST_CHECK_VERSION, version] + t;
    assert(x[0] == REQUEST_CHECK_VERSION && x[1] == version);
}

proof fn lemma_trailing_list_dir(path: Seq<u8>, t: Seq<u8>)
    requires
        path.len() == 2,
    ensures
        spec_decode(seq![REQUEST_LIST_DIR] + path + t) == Ok::<DecodedView, CommandError>(
            DecodedView::Done(CommandView::ListDir { path }),
        ),
{
    let x = seq![REQUEST_LIST_DIR] + path + t;
    assert(x[0] == REQUEST_LIST_DIR);
    assert(x.subrange(1, 3) =~= path);
}

#[verifier::rlimit(40)]
proof fn lemma_trailing_save_file(file: FileView, t: Seq<u8>)
    requires
        file.meta.valid(),
        file.content.len() == file.meta.size,
    ensures
        spec_decode(spec_command_bytes(CommandView::SaveFile { file }) + t) == Ok::<DecodedView, CommandError>(
            DecodedView::Done(CommandView::SaveFile { file }),
        ),
{
    let m = file.meta;
    let mb = spec_meta_to_bytes(m);
    let x = seq![REQUEST_SAVE_FILE] + mb + file.content + t;
    assert(spec_command_bytes(CommandView::SaveFile { file }) + t == x);
    lemma_meta_bytes_roundtrip(m);
    assert(x.len() == 30 + m.size + t.len());
    assert(x[0] == REQUEST_SAVE_FILE);
    assert(x.subrange(1, 30) =~= mb);
    assert(spec_meta_from_bytes(x.subrange(1, 30)) == Ok::<FileMetaView, Error>(m));
    assert(x.subrange(30, 30 + m.size) =~= file.content);
}

/// Bytes that arrive after a complete request do not change what it
/// decodes to.
pub proof fn lemma_decode_ignores_trailing(c: CommandView, t: Seq<u8>)
    requires
        c.valid(),
    ensures
        spec_decode(spec_command_bytes(c) + t) == Ok::<DecodedView, CommandError>(DecodedView::Done(c)),
{
    match c {
        CommandView::CheckVersion { version } => lemma_trailing_check_version(version, t),
        CommandView::ListDir { path } => lemma_trailing_list_dir(path, t),
        CommandView::SaveFile { file } => lemma_trailing_save_file(file, t),
    }
}

/// Decodes a request from the bytes received so far: either the number of
/// bytes still needed, the complete request, or why it is refused.
pub fn decode_command(buf: &[u8]) -> (r: Result<Decoded, CommandError>)
    ensures
        r matches Ok(d) ==> spec_decode(buf@) == Ok::<DecodedView, CommandError>(d@),
        r matches Err(e) ==> spec_decode(buf@) == Err::<DecodedView, CommandError>(e),
{
    let len = buf.len();
    if len == 0 {
        return Ok(Decoded::Need(1));
    }
    let tag = buf[0];
    if tag == REQUEST_CHECK_VERSION {
        if len < 2 {
            Ok(Decoded::Need(2 - len))
        } else {
            Ok(Decoded::Done(Command::CheckVersion { version: buf[1] }))
        }
    } else if tag == REQUEST_LIST_DIR {
        if len < 3 {
            Ok(Decoded::Need(3 - len))
        } else {
            let path: [u8; 2] = [buf[1], buf[2]];
            assert(path@ =~= buf@.subrange(1, 3));
            Ok(Decoded::Done(Command::ListDir { path }))
        }
    } else if tag == REQUEST_SAVE_FILE {
        if len < SAVE_FILE_HEADER_LEN {
            return Ok(Decoded::Need(SAVE_FILE_HEADER_LEN - len));
        }
        let mut header: [u8; 29] = [0u8; 29];
        let mut i: usize = 0;
        while i < 29
            invariant
                0 <= i <= 29,
                len == buf@.len(),
                len >= 30,
                header@.len() == 29,
                forall|j: int| 0 <= j < i ==> header@[j] == buf@[1 + j],
            decreases 29 - i,
        {
            header[i] = buf[1 + i];
            i = i + 1;
        }
        assert(header@ =~= buf@.subrange(1, 30));
        let meta = match FileMeta::try_from_bytes(&header) {
            Ok(m) => m,
            Err(e) => return Err(CommandError::File(e)),
        };
        let size = meta.size() as usize;
        // The checks bound the size by the largest format limit.
        assert(size <= 52428800);
        let end = SAVE_FILE_HEADER_LEN + size;
        if len < end {
            return Ok(Decoded::Need(end - len));
        }
        let mut content: Vec<u8> = Vec::with_capacity(size);
        let mut k: usize = SAVE_FILE_HEADER_LEN;
        while k < end
            invariant
                SAVE_FILE_HEADER_LEN <= k <= end,
                end <= len,
                len == buf@.len(),
                content@ == buf@.subrange(30, k as int),
            decreases end - k,
        {
            content.push(buf[k]);
            k = k + 1;
            assert(content@ =~= buf@.subrange(30, k as int));
        }
        match File::build(meta, content) {
            Ok(file) => Ok(Decoded::Done(Command::SaveFile { file })),
            Err(e) => Err(CommandError::File(e)),
        }
    } else {
        Err(CommandError::Protocol(Errors::InvalidCommand(tag)))
    }
}

/// The reply to a check-version request: the response tag and this side's
/// protocol version.
pub fn check_version_response() -> (r: Vec<u8>)
    ensures
        r@ == seq![RESPONSE_CHECK_VERSION, PROTOCOL_VERSION],
{
    let mut r: Vec<u8> = Vec::with_capacity(2);
    r.push(RESPONSE_CHECK_VERSION);
    r.push(PROTOCOL_VERSION);
    assert(r@ =~= seq![RESPONSE_CHECK_VERSION, PROTOCOL_VERSION]);
    r
}

} // verus!
