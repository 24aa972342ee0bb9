# libpakfs

Reading and writing pak files: a write-once, read-many archive format (for
example a game's release assets packed into one file), verified with Verus.

Layout on disk: `header (40 bytes) | manifest (sorted by path) | metadata | data`,
all integers little-endian, all paths UTF-8. Per-file compression is raw, zstd
or LZ4 (frame formats).

- `src/serialization/pakfile.rs` — the format types and their byte encodings.
- `src/serialization/serializer.rs` — `PakWriter`, which stages files and metadata
  and produces the bytes of a pak.
- `src/serialization/deserializer.rs` — `read_structure` and its parts, which parse
  header, manifest and metadata back.
- `src/pakfile/` — `PakFile`, map-like lookups against a parsed pak.
- `src/laws.rs` — what the functions promise of each other, proved: headers,
  manifests and metadata read back as written, and a written pak gives back every
  staged file's bytes by path.
- `src/serialization/compression.rs` — the calls into the zstd and lz4 crates.
- `app/` — the file-backed front end: opening paks from disk with positioned reads,
  staging from readers, saving, and `std::error::Error` error types.
