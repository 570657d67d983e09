use nyansync::file::error::Error;
use nyansync::file::{FileExt, FileMeta};
use nyansync::protocol::errors::Errors;
use nyansync::protocol::frames::list_dir_response;
use nyansync::protocol::types::{Command, Decoded};
use nyansync::protocol::{decode_command, CommandError, PROTOCOL_VERSION, REQUEST_SAVE_FILE};
use nyansync::receiver::errors::Errors as ReceiverErrors;
use nyansync::receiver::{check_version, listed_hashes, reply_for, Reply};

fn save_file_bytes(meta: &FileMeta, content: &[u8]) -> Vec<u8> {
    let mut data = vec![REQUEST_SAVE_FILE];
    data.extend(meta.to_bytes());
    data.extend_from_slice(content);
    data
}

#[test]
fn decode_empty_asks_for_the_tag() {
    assert_eq!(decode_command(&[]), Ok(Decoded::Need(1)));
}

#[test]
fn decode_unknown_tag_is_refused() {
    assert_eq!(
        decode_command(&[3]),
        Err(CommandError::Protocol(Errors::InvalidCommand(3)))
    );
    assert_eq!(
        decode_command(&[200, 1, 2]),
        Err(CommandError::Protocol(Errors::InvalidCommand(200)))
    );
}

#[test]
fn decode_prefixes_ask_for_the_rest() {
    assert_eq!(decode_command(&[0]), Ok(Decoded::Need(1)));
    assert_eq!(decode_command(&[1]), Ok(Decoded::Need(2)));
    assert_eq!(decode_command(&[1, 7]), Ok(Decoded::Need(1)));
    assert_eq!(decode_command(&[2]), Ok(Decoded::Need(29)));
    assert_eq!(decode_command(&[2, 0, 0, 0]), Ok(Decoded::Need(26)));
}

#[test]
fn decode_save_file_asks_for_the_content() {
    let meta = FileMeta::build(5, [3; 20], 300, 400, FileExt::Jpg).unwrap();
    let data = save_file_bytes(&meta, b"hello");
    assert_eq!(decode_command(&data[..30]), Ok(Decoded::Need(5)));
    assert_eq!(decode_command(&data[..33]), Ok(Decoded::Need(2)));
    match decode_command(&data) {
        Ok(Decoded::Done(Command::SaveFile { file })) => {
            let (m, content) = file.into_parts();
            assert_eq!(m, meta);
            assert_eq!(content, b"hello".to_vec());
        }
        other => panic!("unexpected {:?}", other),
    }
}

#[test]
fn decode_save_file_with_bad_header_is_refused() {
    let meta = FileMeta::build(5, [3; 20], 300, 400, FileExt::Jpg).unwrap();
    let mut data = save_file_bytes(&meta, b"hello");
    data[29] = 9;
    assert_eq!(
        decode_command(&data[..30]),
        Err(CommandError::File(Error::InvalidFileExtNum(9)))
    );
    let mut data = save_file_bytes(&meta, b"hello");
    data[25] = 0;
    data[26] = 50;
    assert_eq!(
        decode_command(&data[..30]),
        Err(CommandError::File(Error::InvalidWidth(50)))
    );
}

#[test]
fn test_check_version() {
    assert_eq!(
        decode_command(&[0, PROTOCOL_VERSION]),
        Ok(Decoded::Done(Command::CheckVersion {
            version: PROTOCOL_VERSION
        }))
    );
    assert_eq!(check_version(PROTOCOL_VERSION), Ok(()));
    match reply_for(Command::CheckVersion { version: PROTOCOL_VERSION }) {
        Reply::CheckVersion { refusal } => assert_eq!(refusal, None),
        _ => panic!("expected the check-version reply"),
    }
    match reply_for(Command::CheckVersion { version: 7 }) {
        Reply::CheckVersion { refusal } => {
            assert_eq!(refusal, Some(ReceiverErrors::VersionMismatch(7, PROTOCOL_VERSION)))
        }
        _ => panic!("expected the check-version reply"),
    }
    match reply_for(Command::ListDir { path: [1, 2] }) {
        Reply::ListDir { path } => assert_eq!(path, [1, 2]),
        _ => panic!("expected the listing reply"),
    }
    assert_eq!(
        check_version(3),
        Err(ReceiverErrors::VersionMismatch(3, PROTOCOL_VERSION))
    );
}

#[test]
fn listed_hashes_skips_empty_entries() {
    let entries = vec![Some([0u8; 20]), Some([1u8; 20]), None, Some([2u8; 20])];
    assert_eq!(listed_hashes(&entries), vec![[0u8; 20], [1u8; 20], [2u8; 20]]);
}

/// Reads frames back the way the other side does.
fn parse_frames(mut bytes: &[u8]) -> Vec<[u8; 20]> {
    let mut out = Vec::new();
    loop {
        let n = u16::from_be_bytes([bytes[0], bytes[1]]) as usize;
        bytes = &bytes[2..];
        for i in 0..n {
            let mut h = [0u8; 20];
            h.copy_from_slice(&bytes[20 * i..20 * i + 20]);
            out.push(h);
        }
        bytes = &bytes[20 * n..];
        if n < u16::MAX as usize {
            assert!(bytes.is_empty());
            return out;
        }
    }
}

#[test]
fn list_dir_response_reads_back() {
    for count in [0usize, 3, 65535, 65536, 70000] {
        let items: Vec<[u8; 20]> = (0..count)
            .map(|i| {
                let mut h = [0u8; 20];
                h[0] = i as u8;
                h[1] = (i >> 8) as u8;
                h[2] = (i >> 16) as u8;
                h
            })
            .collect();
        let bytes = list_dir_response(&items);
        assert_eq!(bytes[0], 129);
        assert_eq!(parse_frames(&bytes[1..]), items);
    }
}
