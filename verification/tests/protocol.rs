use nyansync::file::{File, FileExt, FileMeta};
use nyansync::protocol::frames::{list_dir_response, to_frame};
use nyansync::protocol::types::{Command, Decoded};
use nyansync::protocol::{
    check_version_response, decode_command, CommandError, PROTOCOL_VERSION, REQUEST_CHECK_VERSION,
    REQUEST_LIST_DIR, REQUEST_SAVE_FILE, RESPONSE_CHECK_VERSION, RESPONSE_LIST_DIR,
};
use sha1::{Digest, Sha1};

/// Feeds the bytes to the decoder the way a stream reader does: exactly as
/// many as it asks for, until it has a request.
fn read_command(data: &[u8]) -> Result<Command, CommandError> {
    let mut buf = Vec::new();
    let mut pos = 0;
    loop {
        match decode_command(&buf)? {
            Decoded::Need(n) => {
                assert!(n > 0);
                assert!(pos + n <= data.len(), "decoder asked past the end of the request");
                buf.extend_from_slice(&data[pos..pos + n]);
                pos += n;
            }
            Decoded::Done(command) => {
                assert_eq!(pos, data.len());
                return Ok(command);
            }
        }
    }
}

#[test]
fn read_check_version() {
    let command = read_command(&[REQUEST_CHECK_VERSION, PROTOCOL_VERSION]).unwrap();
    assert_eq!(
        command,
        Command::CheckVersion {
            version: PROTOCOL_VERSION
        }
    );
}

#[test]
fn write_check_version() {
    let writer = check_version_response();
    assert_eq!(writer, vec![RESPONSE_CHECK_VERSION, PROTOCOL_VERSION]);
}

#[test]
fn read_list_dir() {
    let command = read_command(&[REQUEST_LIST_DIR, 38, 104]).unwrap();
    assert_eq!(command, Command::ListDir { path: [38, 104] });
}

#[test]
fn read_save_file() {
    let content: Vec<u8> = b"Hello, World!".to_vec();
    let size: u32 = content.len() as u32;
    let hash: [u8; 20] = Sha1::digest(&content).into();
    let width: u16 = 12300;
    let height: u16 = 15200;
    let extension = FileExt::Png;

    let mut data = Vec::new();
    data.push(REQUEST_SAVE_FILE);
    data.extend(size.to_be_bytes());
    data.extend(hash);
    data.extend(width.to_be_bytes());
    data.extend(height.to_be_bytes());
    data.push(extension as u8);
    data.extend(&content);

    let command = read_command(&data).unwrap();
    let file_meta = FileMeta::build(size, hash, width, height, extension).unwrap();
    let file = File::build(file_meta, content).unwrap();
    assert_eq!(command, Command::SaveFile { file });
}

fn check_respond_list_dir_run_case(count: usize, fill: u8) -> Vec<u8> {
    let items: Vec<[u8; 20]> = (0..count).map(|_| [fill; 20]).collect();
    list_dir_response(&items)
}

#[test]
fn test_respond_list_dir_zero() {
    let left = check_respond_list_dir_run_case(0, 0xAA);
    assert_eq!(left, vec![RESPONSE_LIST_DIR, 0, 0]);
}

#[test]
fn test_respond_list_dir_one() {
    let left = check_respond_list_dir_run_case(1, 0xBB);
    let mut right = Vec::new();
    right.push(RESPONSE_LIST_DIR);
    right.extend_from_slice(&1u16.to_be_bytes());
    right.extend_from_slice(&[0xBB; 20]);
    assert_eq!(left, right);
}

#[test]
fn test_respond_list_dir_u16max_minus1() {
    let left = check_respond_list_dir_run_case(u16::MAX as usize - 1, 0xCC);
    let mut right = Vec::new();
    right.push(RESPONSE_LIST_DIR);
    right.extend_from_slice(&(u16::MAX - 1).to_be_bytes());
    right.extend_from_slice(&[0xCC; 20 * (u16::MAX as usize - 1)]);
    assert_eq!(left, right);
}

#[test]
fn test_respond_list_dir_u16max() {
    let left = check_respond_list_dir_run_case(u16::MAX as usize, 0xDD);
    let mut right = Vec::new();
    right.push(RESPONSE_LIST_DIR);
    right.extend_from_slice(&u16::MAX.to_be_bytes());
    right.extend_from_slice(&[0xDD; 20 * u16::MAX as usize]);
    right.extend_from_slice(&0u16.to_be_bytes());
    assert_eq!(left, right);
}

#[test]
fn test_respond_list_dir_u16max_plus1() {
    let left = check_respond_list_dir_run_case(u16::MAX as usize + 1, 0xEE);
    let mut right = Vec::new();
    right.push(RESPONSE_LIST_DIR);
    right.extend_from_slice(&u16::MAX.to_be_bytes());
    right.extend_from_slice(&[0xEE; 20 * u16::MAX as usize]);
    right.extend_from_slice(&1u16.to_be_bytes());
    right.extend_from_slice(&[0xEE; 20]);
    assert_eq!(left, right);
}

#[test]
fn test_respond_list_dir_2u16max_minus1() {
    let left = check_respond_list_dir_run_case(2 * u16::MAX as usize - 1, 0x11);
    let mut right = Vec::new();
    right.push(RESPONSE_LIST_DIR);
    right.extend_from_slice(&u16::MAX.to_be_bytes());
    right.extend_from_slice(&[0x11; 20 * u16::MAX as usize]);
    right.extend_from_slice(&(u16::MAX - 1).to_be_bytes());
    right.extend_from_slice(&[0x11; 20 * (u16::MAX as usize - 1)]);
    assert_eq!(left, right);
}

#[test]
fn test_respond_list_dir_2u16max() {
    let left = check_respond_list_dir_run_case(2 * u16::MAX as usize, 0x22);
    let mut right = Vec::new();
    right.push(RESPONSE_LIST_DIR);
    right.extend_from_slice(&u16::MAX.to_be_bytes());
    right.extend_from_slice(&[0x22; 20 * u16::MAX as usize]);
    right.extend_from_slice(&u16::MAX.to_be_bytes());
    right.extend_from_slice(&[0x22; 20 * u16::MAX as usize]);
    right.extend_from_slice(&0u16.to_be_bytes());
    assert_eq!(left, right);
}

#[test]
fn test_respond_list_dir_2u16max_plus1() {
    let left = check_respond_list_dir_run_case(2 * u16::MAX as usize + 1, 0x33);
    let mut right = Vec::new();
    right.push(RESPONSE_LIST_DIR);
    right.extend_from_slice(&u16::MAX.to_be_bytes());
    right.extend_from_slice(&[0x33; 20 * u16::MAX as usize]);
    right.extend_from_slice(&u16::MAX.to_be_bytes());
    right.extend_from_slice(&[0x33; 20 * u16::MAX as usize]);
    right.extend_from_slice(&1u16.to_be_bytes());
    right.extend_from_slice(&[0x33; 20]);
    assert_eq!(left, right);
}

#[test]
fn test_to_frame_empty_stream() {
    let s = Vec::<[u8; 20]>::new();
    let (n, frame) = to_frame(&s);
    assert_eq!(n, 0);
    assert!(frame.is_empty());
}

#[test]
fn test_to_frame_one_item() {
    let s = vec![[42u8; 20]];
    let (n, frame) = to_frame(&s);
    assert_eq!(n, 1);
    assert_eq!(frame.len(), 20);
    assert_eq!(&frame[0..20], &[42u8; 20]);
}

#[test]
fn test_to_frame_small_stream() {
    let items: Vec<[u8; 20]> = (0..3)
        .map(|i| {
            let mut arr = [0u8; 20];
            arr[0] = i;
            arr
        })
        .collect();
    let (n, frame) = to_frame(&items);
    assert_eq!(n, 3);
    assert_eq!(frame.len(), 3 * 20);
    for (i, chunk) in frame.chunks_exact(20).enumerate() {
        assert_eq!(chunk[0], i as u8);
    }
}

#[test]
fn test_to_frame_near_max_minus_two() {
    let count = u16::MAX as usize - 2;
    let items: Vec<[u8; 20]> = (0..count).map(|_| [7u8; 20]).collect();
    let (n, frame) = to_frame(&items);
    assert_eq!(n, u16::MAX - 2);
    assert_eq!(frame.len(), (u16::MAX as usize - 2) * 20);
    assert!(frame.chunks_exact(20).all(|c| c == &[7u8; 20]));
}

#[test]
fn test_to_frame_near_max_minus_one() {
    let count = u16::MAX as usize - 1;
    let items: Vec<[u8; 20]> = (0..count).map(|_| [8u8; 20]).collect();
    let (n, frame) = to_frame(&items);
    assert_eq!(n, u16::MAX - 1);
    assert_eq!(frame.len(), (u16::MAX as usize - 1) * 20);
    assert!(frame.chunks_exact(20).all(|c| c == &[8u8; 20]));
}

#[test]
fn test_to_frame_exactly_max() {
    let count = u16::MAX as usize;
    let items: Vec<[u8; 20]> = (0..count).map(|_| [9u8; 20]).collect();
    let (n, frame) = to_frame(&items);
    assert_eq!(n, u16::MAX);
    assert_eq!(frame.len(), u16::MAX as usize * 20);
    assert!(frame.chunks_exact(20).all(|c| c == &[9u8; 20]));
}

#[test]
fn test_to_frame_max_plus_one() {
    let count = u16::MAX as usize + 1;
    let items: Vec<[u8; 20]> = (0..count).map(|_| [6u8; 20]).collect();
    let (n, frame) = to_frame(&items);
    assert_eq!(n, u16::MAX);
    assert_eq!(frame.len(), u16::MAX as usize * 20);
    assert!(frame.chunks_exact(20).all(|c| c == &[6u8; 20]));
}

#[test]
fn test_to_frame_max_plus_two() {
    let count = u16::MAX as usize + 2;
    let items: Vec<[u8; 20]> = (0..count).map(|_| [5u8; 20]).collect();
    let (n, frame) = to_frame(&items);
    assert_eq!(n, u16::MAX);
    assert_eq!(frame.len(), u16::MAX as usize * 20);
    assert!(frame.chunks_exact(20).all(|c| c == &[5u8; 20]));
}

#[test]
fn test_to_frame_max_limit() {
    let items: Vec<[u8; 20]> = (0..(u16::MAX as usize) + 10).map(|_| [1u8; 20]).collect();
    let (n, frame) = to_frame(&items);
    assert_eq!(n, u16::MAX);
    assert_eq!(frame.len(), u16::MAX as usize * 20);
    assert!(frame.chunks_exact(20).all(|c| c == &[1u8; 20]));
}
