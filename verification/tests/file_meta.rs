use nyansync::config::{AppConfig, Command as RoleCommand, Config};
use nyansync::dir::{hex_byte, listing_dirs, storage_path, FsDir};
use nyansync::file::error::{Error, HexError, IntErrorKind};
use nyansync::file::{File, FileExt, FileMeta};
use sha1::{Digest, Sha1};

const HASH: [u8; 20] = [
    0x00, 0x20, 0x24, 0x11, 0x69, 0x68, 0x58, 0x37, 0x13, 0x5e, 0x56, 0xe3, 0x0e, 0xa2, 0x92, 0x93,
    0x95, 0x1a, 0xd9, 0x77,
];

#[test]
fn build_accepts_valid_metadata() {
    let m = FileMeta::build(3112798, HASH, 432, 240, FileExt::Gif).unwrap();
    assert_eq!(m.size(), 3112798);
    assert_eq!(m.hash(), HASH);
    assert_eq!(m.width(), 432);
    assert_eq!(m.height(), 240);
    assert_eq!(m.extension(), FileExt::Gif);
    assert_eq!(m.check(), Ok(()));
}

#[test]
fn build_refuses_each_rule() {
    assert_eq!(FileMeta::build(1, HASH, 99, 500, FileExt::Png), Err(Error::InvalidWidth(99)));
    assert_eq!(FileMeta::build(1, HASH, 20001, 500, FileExt::Png), Err(Error::InvalidWidth(20001)));
    assert_eq!(FileMeta::build(1, HASH, 500, 99, FileExt::Png), Err(Error::InvalidHeight(99)));
    assert_eq!(FileMeta::build(1, HASH, 500, 20001, FileExt::Png), Err(Error::InvalidHeight(20001)));
    assert_eq!(
        FileMeta::build(1, HASH, 100, 150, FileExt::Png),
        Err(Error::InsufficientResolution(250))
    );
    assert!(FileMeta::build(1, HASH, 100, 151, FileExt::Png).is_ok());
    assert_eq!(FileMeta::build(0, HASH, 500, 500, FileExt::Png), Err(Error::InvalidFileSizeZero));
    assert_eq!(
        FileMeta::build(10 * 1024 * 1024 + 1, HASH, 500, 500, FileExt::Gif),
        Err(Error::SizeExceedsLimitForExtension(10 * 1024 * 1024 + 1, 10 * 1024 * 1024))
    );
    assert!(FileMeta::build(10 * 1024 * 1024, HASH, 500, 500, FileExt::Gif).is_ok());
    assert_eq!(
        FileMeta::build(20 * 1024 * 1024 + 1, HASH, 500, 500, FileExt::Jpg),
        Err(Error::SizeExceedsLimitForExtension(20 * 1024 * 1024 + 1, 20 * 1024 * 1024))
    );
    assert_eq!(
        FileMeta::build(20 * 1024 * 1024 + 1, HASH, 500, 500, FileExt::Webp),
        Err(Error::SizeExceedsLimitForExtension(20 * 1024 * 1024 + 1, 20 * 1024 * 1024))
    );
    assert_eq!(
        FileMeta::build(50 * 1024 * 1024 + 1, HASH, 500, 500, FileExt::Png),
        Err(Error::SizeExceedsLimitForExtension(50 * 1024 * 1024 + 1, 50 * 1024 * 1024))
    );
}

#[test]
fn to_bytes_layout_and_roundtrip() {
    let m = FileMeta::build(0x00102030, HASH, 0x0506, 0x0708, FileExt::Png).unwrap();
    let bytes = m.to_bytes();
    let mut expected = vec![0x00, 0x10, 0x20, 0x30];
    expected.extend_from_slice(&HASH);
    expected.extend_from_slice(&[0x05, 0x06, 0x07, 0x08, 3]);
    assert_eq!(bytes, expected);
    let arr: [u8; 29] = bytes.try_into().unwrap();
    assert_eq!(FileMeta::try_from_bytes(&arr), Ok(m));
}

#[test]
fn try_from_bytes_refuses_unknown_format() {
    let m = FileMeta::build(7, HASH, 500, 500, FileExt::Gif).unwrap();
    let mut arr: [u8; 29] = m.to_bytes().try_into().unwrap();
    arr[28] = 4;
    assert_eq!(FileMeta::try_from_bytes(&arr), Err(Error::InvalidFileExtNum(4)));
}

#[test]
fn names_from_the_documentation_decode() {
    let m = FileMeta::try_from_str("0020241169685837135e56e30ea29293951ad977-3112798-432-240-gif").unwrap();
    assert_eq!(m, FileMeta::build(3112798, HASH, 432, 240, FileExt::Gif).unwrap());
    let m = FileMeta::try_from_str("0020002eed10ac9e0416070c4ce0cfebb192a6b5-60129-800-700-jpg").unwrap();
    assert_eq!(m.extension(), FileExt::Jpg);
    assert_eq!(m.size(), 60129);
    let m = FileMeta::try_from_str("0020000a1c10db9f5321d41d9632dea899d09325-59968-1280-720-wbp").unwrap();
    assert_eq!(m.extension(), FileExt::Webp);
    let m = FileMeta::try_from_str("00201f9208c45eefbdea7db4da2a3ba9ee37107d-73033-1130-1600-png").unwrap();
    assert_eq!(m.extension(), FileExt::Png);
    assert_eq!((m.width(), m.height()), (1130, 1600));
}

#[test]
fn to_string_gives_the_cached_name() {
    let m = FileMeta::build(3112798, HASH, 432, 240, FileExt::Gif).unwrap();
    let name = m.to_string();
    assert_eq!(name, "0020241169685837135e56e30ea29293951ad977-3112798-432-240-gif");
    assert_eq!(FileMeta::try_from_str(&name), Ok(m));
    let m = FileMeta::build(1, [0xff; 20], 100, 20000, FileExt::Webp).unwrap();
    assert_eq!(FileMeta::try_from_str(&m.to_string()), Ok(m));
}

#[test]
fn name_errors() {
    let h = "0020241169685837135e56e30ea29293951ad977";
    assert_eq!(FileMeta::try_from_str("abc"), Err(Error::InvalidStringFormat));
    assert_eq!(FileMeta::try_from_str(&format!("{h}-1-2-3-gif-x")), Err(Error::InvalidStringFormat));
    assert_eq!(
        FileMeta::try_from_str("abc-1-500-500-gif"),
        Err(Error::FromHexError(HexError::OddLength))
    );
    assert_eq!(
        FileMeta::try_from_str("abcd-1-500-500-gif"),
        Err(Error::FromHexError(HexError::InvalidStringLength))
    );
    assert_eq!(
        FileMeta::try_from_str("0020241169685837135e56e30ea29293951ad97z-1-500-500-gif"),
        Err(Error::FromHexError(HexError::InvalidHexCharacter { c: 'z', index: 39 }))
    );
    assert_eq!(
        FileMeta::try_from_str(&format!("{h}--500-500-gif")),
        Err(Error::ParseIntError(IntErrorKind::Empty))
    );
    assert_eq!(
        FileMeta::try_from_str(&format!("{h}-1x-500-500-gif")),
        Err(Error::ParseIntError(IntErrorKind::InvalidDigit))
    );
    assert_eq!(
        FileMeta::try_from_str(&format!("{h}-+-500-500-gif")),
        Err(Error::ParseIntError(IntErrorKind::InvalidDigit))
    );
    assert_eq!(
        FileMeta::try_from_str(&format!("{h}-4294967296-500-500-gif")),
        Err(Error::ParseIntError(IntErrorKind::PosOverflow))
    );
    assert_eq!(
        FileMeta::try_from_str(&format!("{h}-1-65536-500-gif")),
        Err(Error::ParseIntError(IntErrorKind::PosOverflow))
    );
    assert_eq!(
        FileMeta::try_from_str(&format!("{h}-1-500-500-bmp")),
        Err(Error::InvalidFileExtName("bmp".to_string()))
    );
    assert_eq!(
        FileMeta::try_from_str(&format!("{h}-1-500-500-BMP")),
        Err(Error::InvalidFileExtName("bmp".to_string()))
    );
    assert_eq!(
        FileMeta::try_from_str(&format!("{h}-0-500-500-gif")),
        Err(Error::InvalidFileSizeZero)
    );
}

#[test]
fn names_accept_sign_and_case() {
    let h = "0020241169685837135E56E30EA29293951AD977";
    let m = FileMeta::try_from_str(&format!("{h}-+3112798-432-240-GIF")).unwrap();
    assert_eq!(m, FileMeta::build(3112798, HASH, 432, 240, FileExt::Gif).unwrap());
}

#[test]
fn file_build_checks_size_and_checksum() {
    let content = b"Hello, World!".to_vec();
    let hash: [u8; 20] = Sha1::digest(&content).into();
    let meta = FileMeta::build(13, hash, 500, 500, FileExt::Png).unwrap();
    assert!(File::build(meta, content.clone()).is_ok());
    let meta = FileMeta::build(12, hash, 500, 500, FileExt::Png).unwrap();
    assert_eq!(File::build(meta, content.clone()), Err(Error::FileSizeMismatch));
    let meta = FileMeta::build(13, hash, 500, 500, FileExt::Png).unwrap();
    assert!(File::build_checked(meta, content.clone()).is_ok());
    let meta = FileMeta::build(13, [0; 20], 500, 500, FileExt::Png).unwrap();
    assert_eq!(File::build_checked(meta, content.clone()), Err(Error::FileHashMismatch));
    let meta = FileMeta::build(14, hash, 500, 500, FileExt::Png).unwrap();
    assert_eq!(File::build_checked(meta, content), Err(Error::FileSizeMismatch));
}

#[test]
fn storage_and_listing_paths() {
    assert_eq!(hex_byte(0x0a), "0a");
    assert_eq!(hex_byte(0xf0), "f0");
    assert_eq!(listing_dirs([0x1a, 0x2f]), vec!["1a".to_string(), "2f".to_string()]);
    let m = FileMeta::build(3112798, HASH, 432, 240, FileExt::Gif).unwrap();
    let path = storage_path(&m);
    assert_eq!(
        path,
        vec![
            "00".to_string(),
            "20".to_string(),
            "0020241169685837135e56e30ea29293951ad977-3112798-432-240-gif".to_string()
        ]
    );
    assert_eq!(path[..2], listing_dirs([m.hash()[0], m.hash()[1]])[..]);
    assert_eq!(FileMeta::try_from_str(&path[2]), Ok(m));
}

#[test]
fn fs_dir_keeps_its_paths() {
    let d = FsDir::new("./cache".to_string(), "./tmp".to_string());
    assert_eq!(d.cache_path(), "./cache");
    assert_eq!(d.tmp_path(), "./tmp");
}

#[test]
fn get_config_passes_the_cache_on() {
    let c = Config::new(
        "./cache".to_string(),
        RoleCommand::Recv { listen: "[::]:37150".to_string(), tmp: "./tmp".to_string() },
    );
    match c.get_config() {
        AppConfig::Receiver(r) => {
            assert_eq!(r.cache, "./cache");
            assert_eq!(r.listen, "[::]:37150");
            assert_eq!(r.tmp, "./tmp");
        }
        AppConfig::Sender(_) => panic!("expected the receiver"),
    }
    let c = Config::new("c".to_string(), RoleCommand::Send { dial: "host:1".to_string() });
    match c.get_config() {
        AppConfig::Sender(s) => {
            assert_eq!(s.cache, "c");
            assert_eq!(s.dial, "host:1");
        }
        AppConfig::Receiver(_) => panic!("expected the sender"),
    }
}
