use libpakfs::pakfile::internal_file::InternalFile;
use libpakfs::util::errors::UtilReadError;
use libpakfs::util::{
    read_n_bytes, read_string, read_u16, read_u32, read_u64, read_u8, read_until_bytes,
};

#[test]
fn fixed_width_reads() {
    let b = [1u8, 2, 3, 4, 5, 6, 7, 8, 9];
    assert_eq!(read_u8(&b).unwrap(), 1);
    assert_eq!(read_u16(&b).unwrap(), 0x0201);
    assert_eq!(read_u32(&b).unwrap(), 0x0403_0201);
    assert_eq!(read_u64(&b).unwrap(), 0x0807_0605_0403_0201);
    assert!(matches!(read_u64(&b[..7]), Err(UtilReadError::IoError(_))));
    assert!(matches!(read_u8(&[]), Err(UtilReadError::IoError(_))));
    assert_eq!(read_n_bytes(&b, 3).unwrap(), vec![1, 2, 3]);
    assert!(matches!(read_n_bytes(&b, 10), Err(UtilReadError::IoError(_))));
}

#[test]
fn strings_stop_at_nul() {
    assert_eq!(read_string(b"ab\0cd").unwrap(), "ab");
    assert_eq!(read_string(b"\0").unwrap(), "");
    assert_eq!(read_string(b"xyz").unwrap(), "xyz");
    assert!(matches!(read_string(&[0xff, 0]), Err(UtilReadError::Utf8ParseError(_))));
}

#[test]
fn read_until_pattern() {
    assert_eq!(read_until_bytes(b"abcd\r\nef", *b"\r\n").unwrap(), b"abcd\r\n".to_vec());
    assert_eq!(read_until_bytes(b"\r\n", *b"\r\n").unwrap(), b"\r\n".to_vec());
    assert_eq!(read_until_bytes(b"aaab", *b"ab").unwrap(), b"aaab".to_vec());
    assert!(matches!(read_until_bytes(b"abc", *b"xy"), Err(UtilReadError::IoError(_))));
    assert!(matches!(read_until_bytes(b"a", *b"xy"), Err(UtilReadError::IoError(_))));
}

#[test]
fn internal_file_holds_its_data() {
    let f = InternalFile::new(vec![4, 5, 6]);
    assert_eq!(f.data(), &[4, 5, 6]);
}
