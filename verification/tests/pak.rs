use libpakfs::serialization::deserializer::read_structure;
use libpakfs::serialization::errors::PakError;
use libpakfs::serialization::pakfile::{Codec, MetaKey, HEADER_SIZE};
use libpakfs::serialization::serializer::PakWriter;
use libpakfs::PakFile;

/// Writes a small pak in memory.
fn write_test_pak(files: &[(&str, &[u8], Codec)], meta: Option<(MetaKey, u64)>) -> Vec<u8> {
    let mut w = PakWriter::new();
    for (path, data, codec) in files {
        w.add_bytes(path, data, *codec).unwrap();
    }
    if let Some((k, v)) = meta {
        w.set_metadata(k, v);
    }
    w.into_bytes().unwrap()
}

fn open(bytes: &[u8]) -> PakFile {
    PakFile::from_bytes(bytes).unwrap()
}

fn make_test_pak() -> Vec<u8> {
    write_test_pak(
        &[
            ("b.txt", b"hello" as &[u8], Codec::Raw),
            ("a.txt", b"world" as &[u8], Codec::Lz4(0)),
        ],
        Some((MetaKey::ModifiedAt, 1234)),
    )
}

#[test]
fn get_roundtrips() {
    let bytes = make_test_pak();
    let pak = open(&bytes);
    assert_eq!(pak.get("a.txt", &bytes).unwrap(), b"world".to_vec());
    assert_eq!(pak.get("b.txt", &bytes).unwrap(), b"hello".to_vec());
}

#[test]
fn missing_path_is_not_found() {
    let bytes = make_test_pak();
    let pak = open(&bytes);
    assert!(matches!(pak.get("nope.txt", &bytes), Err(PakError::NotFound(_))));
    assert!(!pak.contains("nope.txt"));
    assert!(pak.contains("a.txt"));
}

#[test]
fn size_and_len() {
    let bytes = make_test_pak();
    let pak = open(&bytes);
    assert_eq!(pak.len(), 2);
    assert_eq!(pak.size("a.txt").unwrap(), 5);
    assert_eq!(pak.size("b.txt").unwrap(), 5);
}

#[test]
fn read_into_works_and_errors_on_small_buffer() {
    let bytes = make_test_pak();
    let pak = open(&bytes);

    let mut buf = [0u8; 5];
    pak.read_into("b.txt", &mut buf, &bytes).unwrap();
    assert_eq!(&buf, b"hello");

    let mut small = [0u8; 3];
    assert!(matches!(
        pak.read_into("b.txt", &mut small, &bytes),
        Err(PakError::BufferTooSmall { needed: 5, got: 3 })
    ));
}

#[test]
fn paths_are_sorted() {
    let bytes = make_test_pak();
    let pak = open(&bytes);
    let paths: Vec<&str> = pak.paths();
    assert_eq!(paths, vec!["a.txt", "b.txt"]);
}

#[test]
fn metadata_filters_unknown_keys() {
    let mut bytes = write_test_pak(&[("x", b"y" as &[u8], Codec::Raw)], Some((MetaKey::ToolId, 7)));
    // corrupt the metadata key to an unknown id: metadata starts at
    // meta_offset = HEADER_SIZE + manifest_size; manifest is 27 + 1 = 28
    let meta_offset = 40 + 28;
    bytes[meta_offset] = 200;
    let pak = open(&bytes);
    assert_eq!(pak.metadata(), vec![]);
}

#[test]
fn metadata_keeps_known_keys() {
    let bytes = make_test_pak();
    let pak = open(&bytes);
    assert_eq!(pak.metadata(), vec![(MetaKey::ModifiedAt, 1234)]);
}

#[test]
fn read_into_leaves_the_tail_of_a_large_buffer() {
    let bytes = make_test_pak();
    let pak = open(&bytes);
    let mut buf = [9u8; 8];
    pak.read_into("a.txt", &mut buf, &bytes).unwrap();
    assert_eq!(&buf, b"world\x09\x09\x09");
    let mut untouched = [1u8; 2];
    assert!(matches!(
        pak.read_into("nope", &mut untouched, &bytes),
        Err(PakError::NotFound(_))
    ));
    assert_eq!(untouched, [1, 1]);
}

#[test]
fn every_codec_reads_back() {
    let big: Vec<u8> = (0..10_000u32).map(|i| (i % 251) as u8).collect();
    let bytes = write_test_pak(
        &[
            ("raw", &big[..], Codec::Raw),
            ("z", &big[..], Codec::Zstd(19)),
            ("l", &big[..], Codec::Lz4(4)),
            ("empty", b"" as &[u8], Codec::Zstd(1)),
        ],
        None,
    );
    let pak = open(&bytes);
    assert_eq!(pak.len(), 4);
    assert!(!pak.is_empty());
    for p in ["raw", "z", "l"] {
        assert_eq!(pak.get(p, &bytes).unwrap(), big);
        assert_eq!(pak.size(p).unwrap(), 10_000);
    }
    assert_eq!(pak.get("empty", &bytes).unwrap(), Vec::<u8>::new());
    assert_eq!(pak.paths(), vec!["empty", "l", "raw", "z"]);
    let (start, len) = pak.blob_location("raw").unwrap();
    let blob = &bytes[start as usize..(start + len) as usize];
    assert_eq!(pak.decode_blob("raw", blob).unwrap(), big);
}

#[test]
fn empty_pak() {
    let bytes = PakWriter::new().into_bytes().unwrap();
    let pak = open(&bytes);
    assert_eq!(pak.len(), 0);
    assert!(pak.is_empty());
    assert_eq!(pak.paths(), Vec::<&str>::new());
}

#[test]
fn duplicate_manifest_paths_resolve_to_the_last_entry() {
    // Hand-built pak whose manifest lists "a" twice: two distinct paths counted once.
    let mut w = PakWriter::new();
    w.add_bytes("a", b"1", Codec::Raw).unwrap();
    w.add_bytes("b", b"2", Codec::Raw).unwrap();
    let mut bytes = w.into_bytes().unwrap();
    // rename the second entry's path "b" to "a"
    let second_path = HEADER_SIZE as usize + 28 + 27;
    bytes[second_path] = b'a';
    let pak = open(&bytes);
    assert_eq!(pak.len(), 1);
    assert_eq!(pak.get("a", &bytes).unwrap(), b"2".to_vec());
    assert_eq!(pak.paths(), vec!["a"]);
}

#[test]
fn decompressed_size_mismatch_is_rejected() {
    let mut bytes = write_test_pak(&[("f", b"abc" as &[u8], Codec::Raw)], None);
    // original_size of the only entry lives at 40 + 16
    bytes[40 + 16] = 2;
    let pak = open(&bytes);
    let mut buf = [0u8; 4];
    assert!(matches!(
        pak.read_into("f", &mut buf, &bytes),
        Err(PakError::Malformed("decompressed size does not match the manifest"))
    ));
    assert_eq!(buf, [0u8; 4]);
}

#[test]
fn from_structure_agrees_with_from_bytes() {
    let bytes = make_test_pak();
    let a = PakFile::from_structure(read_structure(&bytes).unwrap()).unwrap();
    let b = open(&bytes);
    assert_eq!(a.paths(), b.paths());
    assert_eq!(a.len(), b.len());
    assert_eq!(a.structure().header, b.structure().header);
}

#[test]
fn from_bytes_reports_parse_errors() {
    assert!(matches!(PakFile::from_bytes(b"pkfs"), Err(PakError::Io(_))));
    assert!(matches!(PakFile::from_bytes(&[0u8; 40]), Err(PakError::BadMagic)));
}

#[test]
fn open_refuses_nonzero_reserved_field() {
    let mut bytes = make_test_pak();
    bytes[39] = 7;
    assert!(matches!(
        PakFile::from_bytes(&bytes),
        Err(PakError::Malformed("reserved field must be 0"))
    ));
}
