use libpakfs::serialization::errors::PakError;
use libpakfs::serialization::pakfile::{
    Codec, Header, ManifestEntry, MetaEntry, MetaKey, HEADER_SIZE, PAKFILE_MAGIC,
};
use libpakfs::serialization::serializer::PakWriter;

/// Writes a small pak and verifies the raw bytes match the spec layout.
#[test]
fn written_bytes_match_spec() {
    let mut w = PakWriter::new();
    w.add_bytes("b.txt", b"hello", Codec::Raw).unwrap();
    w.add_bytes("a.txt", b"world", Codec::Lz4(0)).unwrap();
    w.set_metadata(MetaKey::ModifiedAt, 1234);
    let bytes = w.into_bytes().unwrap();

    // header
    let header = Header::from_bytes(&bytes[0..HEADER_SIZE as usize]).unwrap();
    assert_eq!(header.magic, PAKFILE_MAGIC);
    assert_eq!(header.entry_count, 2);
    assert_eq!(header.meta_count, 1);
    // 2 entries: 27 fixed bytes + 5 byte path each
    assert_eq!(header.manifest_size, 64);
    assert_eq!(header.meta_offset, HEADER_SIZE + 64);
    assert_eq!(header.data_offset, header.meta_offset + 10);

    // manifest, sorted by path: a.txt then b.txt
    let manifest = &bytes[HEADER_SIZE as usize..header.meta_offset as usize];
    let second_start = 32;
    let first = ManifestEntry {
        offset: 0,
        compressed_size: u64::from_le_bytes(manifest[8..16].try_into().unwrap()),
        original_size: 5,
        codec: 2,
        path: "a.txt".into(),
    };
    assert_eq!(&manifest[0..second_start], &first.to_bytes()[..]);

    let second = ManifestEntry {
        offset: first.compressed_size,
        compressed_size: 5,
        original_size: 5,
        codec: 0,
        path: "b.txt".into(),
    };
    assert_eq!(&manifest[second_start..], &second.to_bytes()[..]);

    // metadata: key 0 (ModifiedAt), value 1234
    let meta = &bytes[header.meta_offset as usize..header.data_offset as usize];
    assert_eq!(meta, &MetaEntry { key: 0, value: 1234 }.to_bytes());

    // data region: lz4("world") followed by "hello"
    let data = &bytes[header.data_offset as usize..];
    assert_eq!(data.len() as u64, first.compressed_size + 5);
    assert_eq!(&data[first.compressed_size as usize..], b"hello");
    assert_eq!(
        Codec::Lz4(0)
            .decompress(&data[0..first.compressed_size as usize], 5)
            .unwrap(),
        b"world".to_vec()
    );
}

#[test]
fn duplicate_paths_rejected() {
    let mut w = PakWriter::new();
    w.add_bytes("a", b"1", Codec::Raw).unwrap();
    assert!(matches!(
        w.add_bytes("a", b"2", Codec::Raw),
        Err(PakError::DuplicatePath(_))
    ));
}

#[test]
fn empty_paths_rejected() {
    let mut w = PakWriter::new();
    assert!(matches!(
        w.add_bytes("", b"1", Codec::Raw),
        Err(PakError::Malformed(_))
    ));
}

#[test]
fn duplicate_path_error_names_the_path() {
    let mut w = PakWriter::new();
    w.add_bytes("dir/x.bin", b"1", Codec::Raw).unwrap();
    match w.add_bytes("dir/x.bin", b"2", Codec::Raw) {
        Err(PakError::DuplicatePath(p)) => assert_eq!(p, "dir/x.bin"),
        other => panic!("unexpected: {:?}", other),
    }
    assert!(w.check_path("dir/x.bin").is_err());
    assert!(w.check_path("dir/y.bin").is_ok());
    assert!(matches!(w.check_path(""), Err(PakError::Malformed("path must not be empty"))));
}

#[test]
fn empty_writer_is_header_only() {
    let bytes = PakWriter::new().into_bytes().unwrap();
    assert_eq!(bytes.len(), 40);
    assert_eq!(&bytes[0..4], b"pkfs");
    let h = Header::from_bytes(&bytes).unwrap();
    assert_eq!(h.entry_count, 0);
    assert_eq!(h.meta_offset, 40);
    assert_eq!(h.data_offset, 40);
    assert_eq!(h.meta_count, 0);
    assert_eq!(h.manifest_size, 0);
    assert_eq!(h.reserved, 0);
}

#[test]
fn exact_image_of_raw_pak() {
    let mut w = PakWriter::default();
    w.add_bytes("x", b"y", Codec::Raw).unwrap();
    w.set_metadata(MetaKey::ToolId, 7);
    let bytes = w.into_bytes().unwrap();
    let mut expected: Vec<u8> = Vec::new();
    expected.extend_from_slice(b"pkfs");
    expected.extend_from_slice(&1u64.to_le_bytes()); // entry_count
    expected.extend_from_slice(&(40u64 + 28 + 10).to_le_bytes()); // data_offset
    expected.extend_from_slice(&(40u64 + 28).to_le_bytes()); // meta_offset
    expected.extend_from_slice(&1u64.to_le_bytes()); // meta_count
    expected.extend_from_slice(&28u16.to_le_bytes()); // manifest_size
    expected.extend_from_slice(&0u16.to_le_bytes()); // reserved
    expected.extend_from_slice(&0u64.to_le_bytes()); // offset
    expected.extend_from_slice(&1u64.to_le_bytes()); // compressed_size
    expected.extend_from_slice(&1u64.to_le_bytes()); // original_size
    expected.push(0); // codec
    expected.extend_from_slice(&1u16.to_le_bytes()); // path_len
    expected.push(b'x');
    expected.extend_from_slice(&1u16.to_le_bytes()); // key ToolId
    expected.extend_from_slice(&7u64.to_le_bytes());
    expected.push(b'y');
    assert_eq!(bytes, expected);
}

#[test]
fn later_metadata_overwrites() {
    let mut w = PakWriter::new();
    w.set_metadata(MetaKey::ModifiedAt, 1).set_metadata(MetaKey::ModifiedAt, 2);
    let bytes = w.into_bytes().unwrap();
    let h = Header::from_bytes(&bytes[0..40]).unwrap();
    assert_eq!(h.meta_count, 1);
    assert_eq!(&bytes[40..50], &MetaEntry { key: 0, value: 2 }.to_bytes());
}

#[test]
fn metadata_is_written_in_key_order() {
    let mut w = PakWriter::new();
    w.set_metadata(MetaKey::ToolId, 9);
    w.set_metadata(MetaKey::ModifiedAt, 5);
    let bytes = w.into_bytes().unwrap();
    assert_eq!(&bytes[40..50], &MetaEntry { key: 0, value: 5 }.to_bytes());
    assert_eq!(&bytes[50..60], &MetaEntry { key: 1, value: 9 }.to_bytes());
}

#[test]
fn staging_order_does_not_change_output() {
    let mut w1 = PakWriter::new();
    w1.add_bytes("c", b"3", Codec::Raw).unwrap();
    w1.add_bytes("a", b"1", Codec::Zstd(3)).unwrap();
    w1.add_bytes("b", b"2", Codec::Lz4(1)).unwrap();
    let mut w2 = PakWriter::new();
    w2.add_bytes("b", b"2", Codec::Lz4(1)).unwrap();
    w2.add_bytes("c", b"3", Codec::Raw).unwrap();
    w2.add_bytes("a", b"1", Codec::Zstd(3)).unwrap();
    assert_eq!(w1.into_bytes().unwrap(), w2.into_bytes().unwrap());
}

#[test]
fn path_too_long_is_rejected() {
    let long = "p".repeat(65536);
    let mut w = PakWriter::new();
    w.add_bytes(&long, b"1", Codec::Raw).unwrap();
    assert!(matches!(
        w.into_bytes(),
        Err(PakError::Malformed("path longer than u16::MAX bytes"))
    ));
}

#[test]
fn manifest_too_large_is_rejected() {
    let mut w = PakWriter::new();
    // 3 entries of 27 + 30000 bytes exceed the 16-bit manifest size
    for c in ["a", "b", "c"] {
        let path = c.repeat(30000);
        w.add_bytes(&path, b"", Codec::Raw).unwrap();
    }
    assert!(matches!(
        w.into_bytes(),
        Err(PakError::Malformed("manifest larger than u16::MAX bytes"))
    ));
}

#[test]
fn path_error_comes_before_manifest_error() {
    // Both a path over 65535 bytes and a manifest over 65535 bytes: the path check
    // of the (first) long file comes first.
    let mut w = PakWriter::new();
    w.add_bytes(&"a".repeat(30000), b"", Codec::Raw).unwrap();
    w.add_bytes(&"b".repeat(70000), b"", Codec::Raw).unwrap();
    assert!(matches!(
        w.into_bytes(),
        Err(PakError::Malformed("path longer than u16::MAX bytes"))
    ));
}

#[test]
fn disk_size_is_encoded_length() {
    let e = ManifestEntry {
        offset: 0,
        compressed_size: 0,
        original_size: 0,
        codec: 0,
        path: "é/ü".into(),
    };
    assert_eq!(e.disk_size(), e.to_bytes().len() as u64);
    assert_eq!(e.disk_size(), 27 + 5);
}
