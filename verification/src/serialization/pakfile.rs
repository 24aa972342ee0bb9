//! On-disk format types for pak files.
//!
//! All integers are little-endian on disk; paths are UTF-8.

use vstd::bytes::*;
use vstd::prelude::*;
use vstd::slice::*;
use vstd::utf8::*;

use crate::serialization::compression::{
    lz4_content, lz4_decode, lz4_encode, lz4_frame, zstd_content, zstd_decode, zstd_encode,
    zstd_frame,
};
use crate::serialization::errors::PakError;

verus! {

/// The magic for a pak file (`pkfs`), the first 4 bytes of the file.
pub const PAKFILE_MAGIC: [u8; 4] = [112, 107, 102, 115];

/// Total size of the fixed header in bytes.
pub const HEADER_SIZE: u64 = 40;

/// The bytes of `pkfs`.
pub open spec fn magic_bytes() -> Seq<u8> {
    seq![112u8, 107u8, 102u8, 115u8]
}

/// Whether four bytes are the pak magic `pkfs`.
pub fn has_magic(prefix: &[u8; 4]) -> (r: bool)
    ensures
        r == (prefix@ == magic_bytes()),
{
    let r = prefix[0] == 112 && prefix[1] == 107 && prefix[2] == 102 && prefix[3] == 115;
    proof {
        if r {
            assert(prefix@ =~= magic_bytes());
        } else if prefix@ == magic_bytes() {
            assert(prefix@[0] == 112 && prefix@[1] == 107 && prefix@[2] == 102 && prefix@[3] == 115);
        }
    }
    r
}

/// Little-endian encoding of a `u64`.
pub open spec fn le64(v: u64) -> Seq<u8> {
    spec_u64_to_le_bytes(v)
}

/// Little-endian encoding of a `u16`.
pub open spec fn le16(v: u16) -> Seq<u8> {
    spec_u16_to_le_bytes(v)
}

/// The `u64` whose little-endian encoding is `b` (8 bytes).
pub open spec fn from_le64(b: Seq<u8>) -> u64 {
    spec_u64_from_le_bytes(b)
}

/// The `u16` whose little-endian encoding is `b` (2 bytes).
pub open spec fn from_le16(b: Seq<u8>) -> u16 {
    spec_u16_from_le_bytes(b)
}

/// Per-entry compression codec, chosen at build time.
#[derive(Debug, Clone, Copy, PartialEq, Eq, Structural)]
pub enum Codec {
    /// Stored raw
    Raw,
    /// Zstd frame format; level is a build-time choice and is not stored
    Zstd(u8),
    /// LZ4 frame format; level is a build-time choice and is not stored
    Lz4(u8),
}

impl Codec {
    /// The on-disk codec id byte.
    pub open spec fn spec_id(self) -> u8 {
        match self {
            Codec::Raw => 0,
            Codec::Zstd(_) => 1,
            Codec::Lz4(_) => 2,
        }
    }

    /// The codec an on-disk id stands for (levels are not stored, so they read as 0).
    pub open spec fn spec_from_id(id: u8) -> Option<Codec> {
        if id == 0 {
            Some(Codec::Raw)
        } else if id == 1 {
            Some(Codec::Zstd(0))
        } else if id == 2 {
            Some(Codec::Lz4(0))
        } else {
            None
        }
    }

    /// The stored blob for `data` under this codec (`None` when the codec library
    /// fails on it).
    pub open spec fn spec_encode(self, data: Seq<u8>) -> Option<Seq<u8>> {
        match self {
            Codec::Raw => Some(data),
            Codec::Zstd(level) => zstd_frame(data, level as i32),
            Codec::Lz4(level) => lz4_frame(data, level as u32),
        }
    }

    /// The contents a stored blob decodes to under this codec (`None` when the codec
    /// library rejects it). Only the codec kind matters, not the level.
    pub open spec fn spec_decode(self, blob: Seq<u8>) -> Option<Seq<u8>> {
        match self {
            Codec::Raw => Some(blob),
            Codec::Zstd(_) => zstd_content(blob),
            Codec::Lz4(_) => lz4_content(blob),
        }
    }

    /// The on-disk codec id byte.
    pub fn id(self) -> (r: u8)
        ensures
            r == self.spec_id(),
    {
        match self {
            Codec::Raw => 0,
            Codec::Zstd(_) => 1,
            Codec::Lz4(_) => 2,
        }
    }

    /// Maps an on-disk codec id to a codec. `None` for unknown ids.
    pub fn from_id(id: u8) -> (r: Option<Codec>)
        ensures
            r == Self::spec_from_id(id),
    {
        match id {
            0 => Some(Codec::Raw),
            1 => Some(Codec::Zstd(0)),
            2 => Some(Codec::Lz4(0)),
            _ => None,
        }
    }

    /// Compresses `data` with this codec. `Codec::Raw` returns the input as-is.
    ///
    /// Only a codec library can fail, and its failure is reported as `Io`.
    pub fn compress(self, data: &[u8]) -> (r: Result<Vec<u8>, PakError>)
        ensures
            r is Ok <==> self.spec_encode(data@) is Some,
            r matches Ok(c) ==> self.spec_encode(data@) == Some(c@) && self.spec_decode(c@) == Some(
                data@,
            ),
            r matches Err(e) ==> e is Io,
    {
        match self {
            Codec::Raw => Ok(slice_to_vec(data)),
            Codec::Zstd(level) => match zstd_encode(data, level as i32) {
                Ok(c) => Ok(c),
                Err(e) => Err(PakError::Io(e)),
            },
            Codec::Lz4(level) => match lz4_encode(data, level as u32) {
                Ok(c) => Ok(c),
                Err(e) => Err(PakError::Io(e)),
            },
        }
    }

    /// Decompresses `data` with this codec. `Codec::Raw` returns the input as-is.
    ///
    /// `original_size` is only a capacity hint and does not affect the result.
    pub fn decompress(self, data: &[u8], original_size: u64) -> (r: Result<Vec<u8>, PakError>)
        ensures
            r is Ok <==> self.spec_decode(data@) is Some,
            r matches Ok(v) ==> self.spec_decode(data@) == Some(v@),
            r matches Err(e) ==> e is Io,
    {
        match self {
            Codec::Raw => Ok(slice_to_vec(data)),
            Codec::Zstd(_) => match zstd_decode(data) {
                Ok(v) => Ok(v),
                Err(e) => Err(PakError::Io(e)),
            },
            Codec::Lz4(_) => match lz4_decode(data) {
                Ok(v) => Ok(v),
                Err(e) => Err(PakError::Io(e)),
            },
        }
    }
}

/// Typed pak-level metadata keys. Stored as `u16` ids on disk with `u64` values.
#[derive(Debug, Clone, Copy, PartialEq, Eq, Structural)]
pub enum MetaKey {
    /// Unix timestamp (seconds) of pak creation
    ModifiedAt,
    /// Build-tool defined identifier
    ToolId,
}

impl MetaKey {
    /// The on-disk metadata key id.
    pub open spec fn spec_id(self) -> u16 {
        match self {
            MetaKey::ModifiedAt => 0,
            MetaKey::ToolId => 1,
        }
    }

    /// The key an on-disk id stands for; `None` for ids readers must ignore.
    pub open spec fn spec_from_id(id: u16) -> Option<MetaKey> {
        if id == 0 {
            Some(MetaKey::ModifiedAt)
        } else if id == 1 {
            Some(MetaKey::ToolId)
        } else {
            None
        }
    }

    /// The on-disk metadata key id.
    pub fn id(self) -> (r: u16)
        ensures
            r == self.spec_id(),
    {
        match self {
            MetaKey::ModifiedAt => 0,
            MetaKey::ToolId => 1,
        }
    }

    /// Maps an on-disk metadata key id to a key. `None` for unknown keys
    /// (readers must ignore unknown keys).
    pub fn from_id(id: u16) -> (r: Option<MetaKey>)
        ensures
            r == Self::spec_from_id(id),
    {
        match id {
            0 => Some(MetaKey::ModifiedAt),
            1 => Some(MetaKey::ToolId),
            _ => None,
        }
    }
}

/// The fixed 40-byte header at offset 0 of a pak file.
#[derive(Debug, Clone, PartialEq, Eq)]
pub struct Header {
    /// Must be `pkfs`
    pub magic: [u8; 4],
    /// Number of manifest entries
    pub entry_count: u64,
    /// Byte offset from start of file to the data region
    pub data_offset: u64,
    /// Byte offset from start of file to the metadata block
    pub meta_offset: u64,
    /// Number of pak-level metadata entries
    pub meta_count: u64,
    /// Total byte size of the manifest section
    pub manifest_size: u16,
    /// Reserved, must be 0
    pub reserved: u16,
}

/// The on-disk bytes of a header.
pub open spec fn header_bytes(h: Header) -> Seq<u8> {
    h.magic@ + le64(h.entry_count) + le64(h.data_offset) + le64(h.meta_offset) + le64(
        h.meta_count,
    ) + le16(h.manifest_size) + le16(h.reserved)
}

/// `h` holds exactly the fields encoded in the 40 bytes `b`.
pub open spec fn header_fields_of(b: Seq<u8>, h: Header) -> bool {
    &&& h.magic@ == b.subrange(0, 4)
    &&& h.entry_count == from_le64(b.subrange(4, 12))
    &&& h.data_offset == from_le64(b.subrange(12, 20))
    &&& h.meta_offset == from_le64(b.subrange(20, 28))
    &&& h.meta_count == from_le64(b.subrange(28, 36))
    &&& h.manifest_size == from_le16(b.subrange(36, 38))
    &&& h.reserved == from_le16(b.subrange(38, 40))
}

/// Copies `src` into `out` starting at `at`.
fn write_at<const N: usize>(out: &mut [u8; N], at: usize, src: &[u8])
    requires
        at + src@.len() <= N,
    ensures
        final(out)@ == old(out)@.subrange(0, at as int) + src@ + old(out)@.subrange(
            at + src@.len(),
            N as int,
        ),
{
    let ghost start = out@;
    let mut i: usize = 0;
    while i < src.len()
        invariant
            i <= src@.len(),
            at + src@.len() <= N,
            start.len() == N,
            out@.len() == N,
            out@ =~= start.subrange(0, at as int) + src@.subrange(0, i as int) + start.subrange(
                at + i,
                N as int,
            ),
        decreases src@.len() - i,
    {
        out[at + i] = src[i];
        i = i + 1;
    }
}

impl Header {
    /// Serializes the header to its on-disk representation.
    pub fn to_bytes(&self) -> (r: [u8; 40])
        ensures
            r@ == header_bytes(*self),
    {
        let mut out = [0u8; 40];
        write_at(&mut out, 0, self.magic.as_slice());
        write_at(&mut out, 4, u64_to_le_bytes(self.entry_count).as_slice());
        write_at(&mut out, 12, u64_to_le_bytes(self.data_offset).as_slice());
        write_at(&mut out, 20, u64_to_le_bytes(self.meta_offset).as_slice());
        write_at(&mut out, 28, u64_to_le_bytes(self.meta_count).as_slice());
        write_at(&mut out, 36, u16_to_le_bytes(self.manifest_size).as_slice());
        write_at(&mut out, 38, u16_to_le_bytes(self.reserved).as_slice());
        assert(out@ =~= header_bytes(*self));
        out
    }

    /// Parses a header from exactly `HEADER_SIZE` bytes. The magic must be `pkfs`
    /// and the reserved field 0; any other header is refused.
    pub fn from_bytes(bytes: &[u8]) -> (r: Result<Header, PakError>)
        ensures
            bytes@.len() != 40 ==> r == Err::<Header, PakError>(
                PakError::Malformed("header must be 40 bytes"),
            ),
            bytes@.len() == 40 && bytes@.subrange(0, 4) != magic_bytes() ==> r matches Err(
                PakError::BadMagic,
            ),
            bytes@.len() == 40 && bytes@.subrange(0, 4) == magic_bytes() && from_le16(
                bytes@.subrange(38, 40),
            ) != 0 ==> r == Err::<Header, PakError>(PakError::Malformed("reserved field must be 0")),
            bytes@.len() == 40 && bytes@.subrange(0, 4) == magic_bytes() && from_le16(
                bytes@.subrange(38, 40),
            ) == 0 ==> (r matches Ok(h) && header_fields_of(bytes@, h)),
    {
        if bytes.len() != 40 {
            return Err(PakError::Malformed("header must be 40 bytes"));
        }
        let magic = [bytes[0], bytes[1], bytes[2], bytes[3]];
        assert(magic@ =~= bytes@.subrange(0, 4));
        if !(magic[0] == 112 && magic[1] == 107 && magic[2] == 102 && magic[3] == 115) {
            return Err(PakError::BadMagic);
        }
        let reserved = u16_from_le_bytes(slice_subrange(bytes, 38, 40));
        if reserved != 0 {
            return Err(PakError::Malformed("reserved field must be 0"));
        }
        Ok(
            Header {
                magic,
                entry_count: u64_from_le_bytes(slice_subrange(bytes, 4, 12)),
                data_offset: u64_from_le_bytes(slice_subrange(bytes, 12, 20)),
                meta_offset: u64_from_le_bytes(slice_subrange(bytes, 20, 28)),
                meta_count: u64_from_le_bytes(slice_subrange(bytes, 28, 36)),
                manifest_size: u16_from_le_bytes(slice_subrange(bytes, 36, 38)),
                reserved,
            },
        )
    }
}

/// One manifest entry describing a file stored in the data region.
#[derive(Debug, Clone, PartialEq, Eq)]
pub struct ManifestEntry {
    /// Byte offset of the file's data relative to `data_offset`
    pub offset: u64,
    /// Size of the stored (possibly compressed) blob in bytes
    pub compressed_size: u64,
    /// Size of the file after decompression
    pub original_size: u64,
    /// Compression codec id
    pub codec: u8,
    /// UTF-8 path, no trailing null
    pub path: String,
}

/// The mathematical content of a manifest entry: its numbers and its path as characters.
pub struct EntryView {
    pub offset: u64,
    pub compressed_size: u64,
    pub original_size: u64,
    pub codec: u8,
    pub path: Seq<char>,
}

impl View for ManifestEntry {
    type V = EntryView;

    open spec fn view(&self) -> EntryView {
        EntryView {
            offset: self.offset,
            compressed_size: self.compressed_size,
            original_size: self.original_size,
            codec: self.codec,
            path: self.path@,
        }
    }
}

/// The UTF-8 bytes of a path.
pub open spec fn path_bytes(path: Seq<char>) -> Seq<u8> {
    encode_utf8(path)
}

/// The on-disk bytes of a manifest entry. The path length field holds the path's
/// byte length truncated to 16 bits.
pub open spec fn entry_bytes(e: EntryView) -> Seq<u8> {
    le64(e.offset) + le64(e.compressed_size) + le64(e.original_size) + seq![e.codec] + le16(
        path_bytes(e.path).len() as u16,
    ) + path_bytes(e.path)
}

impl ManifestEntry {
    /// Serializes this entry to its on-disk representation.
    pub fn to_bytes(&self) -> (r: Vec<u8>)
        ensures
            r@ == entry_bytes(self@),
    {
        let pb = self.path.as_str().as_bytes();
        let mut out = u64_to_le_bytes(self.offset);
        let mut t = u64_to_le_bytes(self.compressed_size);
        out.append(&mut t);
        let mut t = u64_to_le_bytes(self.original_size);
        out.append(&mut t);
        out.push(self.codec);
        #[verifier::truncate]
        let plen: u16 = pb.len() as u16;
        let mut t = u16_to_le_bytes(plen);
        out.append(&mut t);
        let mut t = slice_to_vec(pb);
        out.append(&mut t);
        assert(out@ =~= entry_bytes(self@));
        out
    }

    /// The on-disk size of this entry in bytes.
    pub fn disk_size(&self) -> (r: u64)
        requires
            27 + path_bytes(self.path@).len() <= u64::MAX,
        ensures
            r == 27 + path_bytes(self.path@).len(),
            r == entry_bytes(self@).len(),
    {
        proof {
            lemma_entry_bytes_len(self@);
        }
        27 + self.path.as_str().as_bytes().len() as u64
    }
}

/// One pak-level metadata key/value pair.
#[derive(Debug, Clone, Copy, PartialEq, Eq, Structural)]
pub struct MetaEntry {
    /// Metadata key id
    pub key: u16,
    /// Value; meaning depends on the key
    pub value: u64,
}

/// The on-disk bytes of a metadata entry.
pub open spec fn meta_entry_bytes(m: MetaEntry) -> Seq<u8> {
    le16(m.key) + le64(m.value)
}

impl MetaEntry {
    /// Serializes this entry to its on-disk representation.
    pub fn to_bytes(&self) -> (r: [u8; 10])
        ensures
            r@ == meta_entry_bytes(*self),
    {
        let mut out = [0u8; 10];
        write_at(&mut out, 0, u16_to_le_bytes(self.key).as_slice());
        write_at(&mut out, 2, u64_to_le_bytes(self.value).as_slice());
        assert(out@ =~= meta_entry_bytes(*self));
        out
    }
}


/// Encoded integers have their fixed widths.
pub proof fn lemma_le_lengths()
    ensures
        forall|v: u64| #[trigger] le64(v).len() == 8,
        forall|v: u16| #[trigger] le16(v).len() == 2,
{
    lemma_auto_spec_u64_to_from_le_bytes();
    lemma_auto_spec_u16_to_from_le_bytes();
}

/// A manifest entry takes 27 bytes plus its path.
pub proof fn lemma_entry_bytes_len(e: EntryView)
    ensures
        entry_bytes(e).len() == 27 + path_bytes(e.path).len(),
{
    lemma_le_lengths();
}

/// A header takes 40 bytes (given a 4-byte magic).
pub proof fn lemma_header_bytes_len(h: Header)
    ensures
        header_bytes(h).len() == 40,
{
    lemma_le_lengths();
}

/// A metadata entry takes 10 bytes.
pub proof fn lemma_meta_entry_bytes_len(m: MetaEntry)
    ensures
        meta_entry_bytes(m).len() == 10,
{
    lemma_le_lengths();
}

} // verus!
