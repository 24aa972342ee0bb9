use libpakfs::serialization::deserializer::{
    manifest_span, metadata_span, parse_manifest, parse_metadata, read_structure,
};
use libpakfs::serialization::errors::PakError;
use libpakfs::serialization::pakfile::{Codec, Header, ManifestEntry, MetaKey, HEADER_SIZE};
use libpakfs::serialization::serializer::PakWriter;

/// Builds a small pak in memory.
fn make_test_pak() -> Vec<u8> {
    let mut w = PakWriter::new();
    w.add_bytes("b.txt", b"hello", Codec::Raw).unwrap();
    w.add_bytes("a.txt", b"world", Codec::Lz4(0)).unwrap();
    w.set_metadata(MetaKey::ModifiedAt, 1234);
    w.into_bytes().unwrap()
}

#[test]
fn parses_structure_and_reads_blobs() {
    let bytes = make_test_pak();
    let s = read_structure(&bytes).unwrap();

    assert_eq!(s.header.entry_count, 2);
    assert_eq!(s.manifest[0].path, "a.txt");
    assert_eq!(s.manifest[1].path, "b.txt");
    assert_eq!(s.metadata[0].value, 1234);

    let a = s.read_blob(&bytes, &s.manifest[0]).unwrap();
    assert_eq!(
        Codec::from_id(s.manifest[0].codec)
            .unwrap()
            .decompress(&a, s.manifest[0].original_size)
            .unwrap(),
        b"world".to_vec()
    );
    let b = s.read_blob(&bytes, &s.manifest[1]).unwrap();
    assert_eq!(b, b"hello");
}

#[test]
fn rejects_bad_magic() {
    let bytes = [b'x'; HEADER_SIZE as usize];
    assert!(matches!(read_structure(&bytes[..]), Err(PakError::BadMagic)));
}

#[test]
fn rejects_truncated_manifest() {
    let mut bytes = Vec::new();
    let mut w = PakWriter::new();
    w.add_bytes("some/path.bin", &[0u8; 32], Codec::Raw).unwrap();
    bytes.extend_from_slice(&w.into_bytes().unwrap());
    bytes.truncate(45);
    assert!(matches!(
        read_structure(&bytes[..]),
        Err(PakError::Malformed(_) | PakError::Io(_))
    ));
}

#[test]
fn rejects_unknown_codec() {
    let mut bytes = Vec::new();
    let mut w = PakWriter::new();
    w.add_bytes("x", b"y", Codec::Raw).unwrap();
    bytes.extend_from_slice(&w.into_bytes().unwrap());
    bytes[HEADER_SIZE as usize + 24] = 99;
    assert!(matches!(read_structure(&bytes[..]), Err(PakError::UnknownCodec(99))));
}

#[test]
fn short_header_is_an_io_error() {
    let bytes = make_test_pak();
    assert!(matches!(read_structure(&bytes[..39]), Err(PakError::Io(_))));
}

#[test]
fn header_length_must_be_exact() {
    assert!(matches!(
        Header::from_bytes(&[0u8; 39]),
        Err(PakError::Malformed("header must be 40 bytes"))
    ));
    assert!(matches!(Header::from_bytes(&[0u8; 40]), Err(PakError::BadMagic)));
}

#[test]
fn header_roundtrip() {
    let h = Header {
        magic: *b"pkfs",
        entry_count: 3,
        data_offset: 0x0102_0304_0506_0708,
        meta_offset: 77,
        meta_count: 2,
        manifest_size: 0xabcd,
        reserved: 0,
    };
    let bytes = h.to_bytes();
    assert_eq!(&bytes[4..12], &3u64.to_le_bytes());
    assert_eq!(&bytes[12..20], &[8, 7, 6, 5, 4, 3, 2, 1]);
    assert_eq!(&bytes[36..38], &[0xcd, 0xab]);
    assert_eq!(Header::from_bytes(&bytes).unwrap(), h);
}

#[test]
fn layout_checks() {
    let base = Header {
        magic: *b"pkfs",
        entry_count: 0,
        data_offset: 50,
        meta_offset: 50,
        meta_count: 0,
        manifest_size: 10,
        reserved: 0,
    };
    assert_eq!(manifest_span(&base).unwrap(), 10);
    assert_eq!(metadata_span(&base).unwrap(), 0);

    let mut h = base.clone();
    h.data_offset = 49;
    assert!(matches!(
        manifest_span(&h),
        Err(PakError::Malformed("data_offset precedes meta_offset"))
    ));
    let mut h = base.clone();
    h.manifest_size = 11;
    assert!(matches!(
        manifest_span(&h),
        Err(PakError::Malformed("manifest overruns meta_offset"))
    ));
    let mut h = base.clone();
    h.meta_count = 1;
    assert!(matches!(
        metadata_span(&h),
        Err(PakError::Malformed("metadata block size mismatch"))
    ));
    let mut h = base.clone();
    h.meta_count = u64::MAX;
    h.data_offset = u64::MAX;
    assert!(matches!(
        metadata_span(&h),
        Err(PakError::Malformed("metadata block size mismatch"))
    ));
}

#[test]
fn manifest_parse_errors() {
    let e = ManifestEntry {
        offset: 1,
        compressed_size: 2,
        original_size: 3,
        codec: 1,
        path: "dir/f".into(),
    };
    let bytes = e.to_bytes();
    assert_eq!(bytes.len() as u64, e.disk_size());
    assert_eq!(e.disk_size(), 32);
    let parsed = parse_manifest(&bytes, 1).unwrap();
    assert_eq!(parsed, vec![e.clone()]);

    assert!(matches!(
        parse_manifest(&bytes[..20], 1),
        Err(PakError::Malformed("truncated manifest entry"))
    ));
    assert!(matches!(
        parse_manifest(&bytes[..30], 1),
        Err(PakError::Malformed("truncated manifest path"))
    ));
    let mut trailing = bytes.clone();
    trailing.push(0);
    assert!(matches!(
        parse_manifest(&trailing, 1),
        Err(PakError::Malformed("manifest has trailing bytes"))
    ));
    let mut bad_utf8 = bytes.clone();
    bad_utf8[27] = 0xff;
    assert!(matches!(
        parse_manifest(&bad_utf8, 1),
        Err(PakError::Malformed("manifest path is not valid UTF-8"))
    ));
    assert_eq!(parse_manifest(&[], 0).unwrap(), vec![]);
}

#[test]
fn metadata_parse() {
    let mut bytes = Vec::new();
    bytes.extend_from_slice(&7u16.to_le_bytes());
    bytes.extend_from_slice(&99u64.to_le_bytes());
    let m = parse_metadata(&bytes, 1).unwrap();
    assert_eq!(m.len(), 1);
    assert_eq!(m[0].key, 7);
    assert_eq!(m[0].value, 99);
    assert!(matches!(
        parse_metadata(&bytes, 2),
        Err(PakError::Malformed("metadata block size mismatch"))
    ));
}

#[test]
fn blob_past_end_is_malformed() {
    let bytes = make_test_pak();
    let s = read_structure(&bytes).unwrap();
    let last = &s.manifest[1];
    assert!(matches!(
        s.read_blob(&bytes[..bytes.len() - 1], last),
        Err(PakError::Malformed("blob extends past end of file"))
    ));
    let start = s.blob_start(last).unwrap();
    assert_eq!(start, s.header.data_offset + last.offset);
}

#[test]
fn blob_offset_overflow_is_malformed() {
    let bytes = make_test_pak();
    let s = read_structure(&bytes).unwrap();
    let mut e = s.manifest[0].clone();
    e.offset = u64::MAX;
    assert!(matches!(s.blob_start(&e), Err(PakError::Malformed("blob offset overflows"))));
}

#[test]
fn codec_and_key_ids() {
    assert_eq!(Codec::Raw.id(), 0);
    assert_eq!(Codec::Zstd(9).id(), 1);
    assert_eq!(Codec::Lz4(3).id(), 2);
    assert_eq!(Codec::from_id(1), Some(Codec::Zstd(0)));
    assert_eq!(Codec::from_id(2), Some(Codec::Lz4(0)));
    assert_eq!(Codec::from_id(0), Some(Codec::Raw));
    assert_eq!(Codec::from_id(3), None);
    assert_eq!(MetaKey::ModifiedAt.id(), 0);
    assert_eq!(MetaKey::ToolId.id(), 1);
    assert_eq!(MetaKey::from_id(1), Some(MetaKey::ToolId));
    assert_eq!(MetaKey::from_id(2), None);
}

#[test]
fn compression_roundtrips() {
    let data: Vec<u8> = (0u8..=255).cycle().take(5000).collect();
    for codec in [Codec::Raw, Codec::Zstd(3), Codec::Lz4(0), Codec::Zstd(0), Codec::Lz4(9)] {
        let c = codec.compress(&data).unwrap();
        assert_eq!(codec.decompress(&c, 5000).unwrap(), data);
    }
    // compressed output differs from the input for real codecs
    assert_ne!(Codec::Zstd(3).compress(&data).unwrap(), data);
    assert_ne!(Codec::Lz4(0).compress(&data).unwrap(), data);
    assert!(matches!(Codec::Zstd(0).decompress(b"not zstd", 8), Err(PakError::Io(_))));
    assert!(matches!(Codec::Lz4(0).decompress(b"not lz4 at all", 14), Err(PakError::Io(_))));
}

#[test]
fn metadata_is_read_at_meta_offset() {
    // A pak with 3 unused bytes between the manifest and the metadata block.
    let mut w = PakWriter::new();
    w.add_bytes("x", b"y", Codec::Raw).unwrap();
    w.set_metadata(MetaKey::ToolId, 7);
    let written = w.into_bytes().unwrap();
    let h = Header::from_bytes(&written[0..40]).unwrap();
    let manifest_end = 40 + h.manifest_size as usize;
    let gapped_header = Header {
        meta_offset: h.meta_offset + 3,
        data_offset: h.data_offset + 3,
        ..h.clone()
    };
    let mut bytes = gapped_header.to_bytes().to_vec();
    bytes.extend_from_slice(&written[40..manifest_end]);
    bytes.extend_from_slice(&[0xee, 0xee, 0xee]);
    bytes.extend_from_slice(&written[manifest_end..]);
    let s = read_structure(&bytes).unwrap();
    assert_eq!(s.metadata.len(), 1);
    assert_eq!(s.metadata[0].key, 1);
    assert_eq!(s.metadata[0].value, 7);
    assert_eq!(libpakfs::serialization::deserializer::bytes_before_metadata(&gapped_header), 3);
    // Input ending inside the metadata block is an I/O error.
    assert!(matches!(read_structure(&bytes[..bytes.len() - 2]), Err(PakError::Io(_))));
}

#[test]
fn magic_probe() {
    assert!(libpakfs::serialization::pakfile::has_magic(b"pkfs"));
    assert!(!libpakfs::serialization::pakfile::has_magic(b"pkfx"));
}

#[test]
fn nonzero_reserved_field_is_malformed() {
    let mut bytes = make_test_pak();
    assert!(read_structure(&bytes).is_ok());
    bytes[38] = 1;
    assert!(matches!(
        Header::from_bytes(&bytes[..40]),
        Err(PakError::Malformed("reserved field must be 0"))
    ));
    assert!(matches!(
        read_structure(&bytes),
        Err(PakError::Malformed("reserved field must be 0"))
    ));
    bytes[38] = 0;
    bytes[39] = 0x80;
    assert!(matches!(
        read_structure(&bytes),
        Err(PakError::Malformed("reserved field must be 0"))
    ));
}
