//! Pak file reading: parsing the on-disk format back into structured data.

use vstd::bytes::*;
use vstd::pervasive::arbitrary;
use vstd::prelude::*;
use vstd::slice::*;
use vstd::utf8::*;

use crate::serialization::errors::{unexpected_eof, PakError};
use crate::serialization::pakfile::{
    from_le16, from_le64, header_fields_of, magic_bytes, EntryView, Header, ManifestEntry,
    MetaEntry,
};
use crate::util::string_from_utf8;

verus! {

/// The mathematical content of a parsed pak structure.
pub struct StructureView {
    pub header: Header,
    pub manifest: Seq<EntryView>,
    pub metadata: Seq<MetaEntry>,
}

/// The parsed header, manifest, and metadata of a pak file — everything
/// except the data region.
#[derive(Debug)]
pub struct PakStructure {
    pub header: Header,
    pub manifest: Vec<ManifestEntry>,
    /// Raw pak-level metadata pairs as stored (unknown keys included).
    pub metadata: Vec<MetaEntry>,
}

/// The views of a sequence of manifest entries.
pub open spec fn entries_view(v: Seq<ManifestEntry>) -> Seq<EntryView> {
    v.map_values(|e: ManifestEntry| e@)
}

impl View for PakStructure {
    type V = StructureView;

    open spec fn view(&self) -> StructureView {
        StructureView {
            header: self.header,
            manifest: entries_view(self.manifest@),
            metadata: self.metadata@,
        }
    }
}

/// Stands, in specifications, for the I/O error of an input that ended early.
pub open spec fn short_input() -> PakError {
    PakError::Io(arbitrary())
}

/// `e` is the error that `expected` describes: some I/O error where an I/O error is
/// expected, and that very error otherwise.
pub open spec fn error_agrees(e: PakError, expected: PakError) -> bool {
    if expected is Io {
        e is Io
    } else {
        e == expected
    }
}

/// The header whose fields the 40 bytes `b` encode.
pub open spec fn decode_header(b: Seq<u8>) -> Header {
    choose|h: Header| header_fields_of(b, h)
}

/// Two headers with the same encoded fields are the same header.
pub proof fn lemma_header_fields_unique(b: Seq<u8>, h1: Header, h2: Header)
    requires
        header_fields_of(b, h1),
        header_fields_of(b, h2),
    ensures
        h1 == h2,
{
    assert(h1.magic =~= h2.magic);
}

/// Any header that `b` encodes is `decode_header(b)`.
pub proof fn lemma_decode_header(b: Seq<u8>, h: Header)
    requires
        header_fields_of(b, h),
    ensures
        decode_header(b) == h,
{
    lemma_header_fields_unique(b, h, decode_header(b));
}

/// Parses the manifest entry that starts at `pos`, giving the entry and the
/// position after it.
pub open spec fn parse_entry_at(b: Seq<u8>, pos: int) -> Result<(EntryView, int), PakError> {
    if b.len() < pos + 27 {
        Err(PakError::Malformed("truncated manifest entry"))
    } else {
        let plen = from_le16(b.subrange(pos + 25, pos + 27)) as int;
        if b.len() < pos + 27 + plen {
            Err(PakError::Malformed("truncated manifest path"))
        } else {
            let pb = b.subrange(pos + 27, pos + 27 + plen);
            if !valid_utf8(pb) {
                Err(PakError::Malformed("manifest path is not valid UTF-8"))
            } else if b[pos + 24] > 2 {
                Err(PakError::UnknownCodec(b[pos + 24]))
            } else {
                Ok(
                    (
                        EntryView {
                            offset: from_le64(b.subrange(pos, pos + 8)),
                            compressed_size: from_le64(b.subrange(pos + 8, pos + 16)),
                            original_size: from_le64(b.subrange(pos + 16, pos + 24)),
                            codec: b[pos + 24],
                            path: decode_utf8(pb),
                        },
                        pos + 27 + plen,
                    ),
                )
            }
        }
    }
}

/// Parses the first `n` manifest entries from the start of `b`, giving them and the
/// position after the last one.
pub open spec fn parse_entries(b: Seq<u8>, n: nat) -> Result<(Seq<EntryView>, int), PakError>
    decreases n,
{
    if n == 0 {
        Ok((seq![], 0))
    } else {
        match parse_entries(b, (n - 1) as nat) {
            Ok((es, p)) => match parse_entry_at(b, p) {
                Ok((e, q)) => Ok((es.push(e), q)),
                Err(x) => Err(x),
            },
            Err(x) => Err(x),
        }
    }
}

/// The manifest that the manifest bytes `b` hold: `count` entries that use up
/// exactly all of `b`.
pub open spec fn spec_parse_manifest(b: Seq<u8>, count: u64) -> Result<Seq<EntryView>, PakError> {
    match parse_entries(b, count as nat) {
        Ok((es, p)) => if p == b.len() {
            Ok(es)
        } else {
            Err(PakError::Malformed("manifest has trailing bytes"))
        },
        Err(x) => Err(x),
    }
}

/// The metadata pairs that the metadata bytes `b` hold: `count` pairs of 10 bytes each.
pub open spec fn spec_parse_metadata(b: Seq<u8>, count: u64) -> Result<Seq<MetaEntry>, PakError> {
    if b.len() != count * 10 {
        Err(PakError::Malformed("metadata block size mismatch"))
    } else {
        Ok(
            Seq::new(
                count as nat,
                |i: int|
                    MetaEntry {
                        key: from_le16(b.subrange(10 * i, 10 * i + 2)),
                        value: from_le64(b.subrange(10 * i + 2, 10 * i + 10)),
                    },
            ),
        )
    }
}

/// The manifest size a header announces, after checking that the manifest fits
/// before the metadata and the metadata before the data.
pub open spec fn spec_manifest_span(h: Header) -> Result<u64, PakError> {
    if h.data_offset < h.meta_offset {
        Err(PakError::Malformed("data_offset precedes meta_offset"))
    } else if h.meta_offset < 40 + h.manifest_size {
        Err(PakError::Malformed("manifest overruns meta_offset"))
    } else {
        Ok(h.manifest_size as u64)
    }
}

/// The metadata block size a header announces, after checking it against the
/// number of metadata pairs.
pub open spec fn spec_metadata_span(h: Header) -> Result<u64, PakError> {
    if h.data_offset < h.meta_offset {
        Err(PakError::Malformed("data_offset precedes meta_offset"))
    } else if h.data_offset - h.meta_offset != h.meta_count * 10 {
        Err(PakError::Malformed("metadata block size mismatch"))
    } else {
        Ok((h.data_offset - h.meta_offset) as u64)
    }
}

/// What reading the structure of a pak from the start of `b` gives: the header
/// (whose magic must be `pkfs` and whose reserved field must be 0), then the
/// manifest right after it, then the metadata block that lies between
/// `meta_offset` and `data_offset`.
pub open spec fn spec_read_structure(b: Seq<u8>) -> Result<StructureView, PakError> {
    if b.len() < 40 {
        Err(short_input())
    } else if b.subrange(0, 4) != magic_bytes() {
        Err(PakError::BadMagic)
    } else if from_le16(b.subrange(38, 40)) != 0 {
        Err(PakError::Malformed("reserved field must be 0"))
    } else {
        let h = decode_header(b.subrange(0, 40));
        match spec_manifest_span(h) {
            Err(e) => Err(e),
            Ok(ms) => if b.len() < 40 + ms {
                Err(short_input())
            } else {
                match spec_parse_manifest(b.subrange(40, 40 + ms), h.entry_count) {
                    Err(e) => Err(e),
                    Ok(manifest) => match spec_metadata_span(h) {
                        Err(e) => Err(e),
                        Ok(mz) => if b.len() < h.data_offset {
                            Err(short_input())
                        } else {
                            match spec_parse_metadata(
                                b.subrange(h.meta_offset as int, h.data_offset as int),
                                h.meta_count,
                            ) {
                                Err(e) => Err(e),
                                Ok(metadata) => Ok(StructureView { header: h, manifest, metadata }),
                            }
                        },
                    },
                }
            },
        }
    }
}

/// Once parsing the first `k` entries fails, parsing more entries fails the same way.
pub proof fn lemma_entries_error_persists(b: Seq<u8>, k: nat, n: nat)
    requires
        k <= n,
        parse_entries(b, k) is Err,
    ensures
        parse_entries(b, n) == parse_entries(b, k),
    decreases n,
{
    if n > k {
        lemma_entries_error_persists(b, k, (n - 1) as nat);
    }
}

/// Every entry of a parsed manifest names a known codec (ids 0 to 2).
pub proof fn lemma_parsed_codecs_known(b: Seq<u8>, n: nat)
    ensures
        parse_entries(b, n) matches Ok((es, _)) ==> forall|i: int|
            0 <= i < es.len() ==> (#[trigger] es[i]).codec <= 2,
    decreases n,
{
    if n > 0 {
        lemma_parsed_codecs_known(b, (n - 1) as nat);
    }
}

/// Checks the header's layout and gives the manifest size it announces.
pub fn manifest_span(header: &Header) -> (r: Result<u64, PakError>)
    ensures
        r == spec_manifest_span(*header),
{
    if header.data_offset < header.meta_offset {
        return Err(PakError::Malformed("data_offset precedes meta_offset"));
    }
    let manifest_size = header.manifest_size as u64;
    if header.meta_offset < 40 + manifest_size {
        return Err(PakError::Malformed("manifest overruns meta_offset"));
    }
    Ok(manifest_size)
}

/// How many bytes lie between the end of the manifest and the metadata block, for a
/// header whose layout checks pass.
pub fn bytes_before_metadata(header: &Header) -> (r: u64)
    requires
        spec_manifest_span(*header) is Ok,
    ensures
        r == header.meta_offset - 40 - header.manifest_size,
{
    header.meta_offset - 40 - header.manifest_size as u64
}

/// Checks the header's metadata block size against its metadata count and gives it.
pub fn metadata_span(header: &Header) -> (r: Result<u64, PakError>)
    ensures
        r == spec_metadata_span(*header),
{
    if header.data_offset < header.meta_offset {
        return Err(PakError::Malformed("data_offset precedes meta_offset"));
    }
    let meta_size = header.data_offset - header.meta_offset;
    let matches_count = match header.meta_count.checked_mul(10) {
        Some(expected) => meta_size == expected,
        None => false,
    };
    if !matches_count {
        return Err(PakError::Malformed("metadata block size mismatch"));
    }
    Ok(meta_size)
}

/// Parses `entry_count` manifest entries from the manifest bytes.
pub fn parse_manifest(bytes: &[u8], entry_count: u64) -> (r: Result<Vec<ManifestEntry>, PakError>)
    ensures
        match spec_parse_manifest(bytes@, entry_count) {
            Ok(es) => r matches Ok(v) && entries_view(v@) == es,
            Err(e) => r matches Err(x) && x == e,
        },
{
    let mut entries: Vec<ManifestEntry> = Vec::new();
    let mut pos: usize = 0;
    let mut k: u64 = 0;
    assert(entries_view(entries@) =~= seq![]);
    while k < entry_count
        invariant
            k <= entry_count,
            pos <= bytes@.len(),
            parse_entries(bytes@, k as nat) == Ok::<(Seq<EntryView>, int), PakError>(
                (entries_view(entries@), pos as int),
            ),
        decreases entry_count - k,
    {
        let ghost b = bytes@;
        let ghost p = pos as int;
        assert(parse_entries(b, (k + 1) as nat) == match parse_entry_at(b, p) {
            Ok((e, q)) => Ok((entries_view(entries@).push(e), q)),
            Err(x) => Err(x),
        });
        if bytes.len() - pos < 27 {
            proof {
                lemma_entries_error_persists(b, (k + 1) as nat, entry_count as nat);
            }
            return Err(PakError::Malformed("truncated manifest entry"));
        }
        let offset = u64_from_le_bytes(slice_subrange(bytes, pos, pos + 8));
        let compressed_size = u64_from_le_bytes(slice_subrange(bytes, pos + 8, pos + 16));
        let original_size = u64_from_le_bytes(slice_subrange(bytes, pos + 16, pos + 24));
        let codec = bytes[pos + 24];
        let path_len = u16_from_le_bytes(slice_subrange(bytes, pos + 25, pos + 27)) as usize;
        if bytes.len() - pos - 27 < path_len {
            proof {
                lemma_entries_error_persists(b, (k + 1) as nat, entry_count as nat);
            }
            return Err(PakError::Malformed("truncated manifest path"));
        }
        let path_bytes = slice_to_vec(slice_subrange(bytes, pos + 27, pos + 27 + path_len));
        let path = match string_from_utf8(path_bytes) {
            Ok(s) => s,
            Err(_) => {
                proof {
                    lemma_entries_error_persists(b, (k + 1) as nat, entry_count as nat);
                }
                return Err(PakError::Malformed("manifest path is not valid UTF-8"));
            },
        };
        pos = pos + 27 + path_len;
        if codec > 2 {
            proof {
                lemma_entries_error_persists(b, (k + 1) as nat, entry_count as nat);
            }
            return Err(PakError::UnknownCodec(codec));
        }
        let entry = ManifestEntry { offset, compressed_size, original_size, codec, path };
        let ghost before = entries@;
        entries.push(entry);
        assert(entries_view(entries@) =~= entries_view(before).push(entry@));
        k = k + 1;
    }
    if pos != bytes.len() {
        return Err(PakError::Malformed("manifest has trailing bytes"));
    }
    Ok(entries)
}

/// Parses `meta_count` metadata pairs from the metadata bytes.
pub fn parse_metadata(bytes: &[u8], meta_count: u64) -> (r: Result<Vec<MetaEntry>, PakError>)
    ensures
        match spec_parse_metadata(bytes@, meta_count) {
            Ok(ms) => r matches Ok(v) && v@ == ms,
            Err(e) => r matches Err(x) && x == e,
        },
{
    let len = bytes.len();
    assert(len == bytes@.len());
    let size_ok = match meta_count.checked_mul(10) {
        Some(expected) => {
            assert(expected == meta_count * 10);
            len as u64 == expected
        },
        None => {
            assert(meta_count * 10 > u64::MAX);
            false
        },
    };
    if !size_ok {
        assert(bytes@.len() != meta_count * 10);
        return Err(PakError::Malformed("metadata block size mismatch"));
    }
    let count = bytes.len() / 10;
    let ghost spec_entries = spec_parse_metadata(bytes@, meta_count)->Ok_0;
    let mut entries: Vec<MetaEntry> = Vec::new();
    let mut j: usize = 0;
    while j < count
        invariant
            j <= count,
            count == meta_count,
            bytes@.len() == 10 * count,
            bytes@.len() <= usize::MAX,
            spec_entries == spec_parse_metadata(bytes@, meta_count)->Ok_0,
            spec_parse_metadata(bytes@, meta_count) is Ok,
            entries@ =~= spec_entries.take(j as int),
        decreases count - j,
    {
        let key = u16_from_le_bytes(slice_subrange(bytes, 10 * j, 10 * j + 2));
        let value = u64_from_le_bytes(slice_subrange(bytes, 10 * j + 2, 10 * j + 10));
        entries.push(MetaEntry { key, value });
        j = j + 1;
    }
    Ok(entries)
}

/// Parses header + manifest + metadata from the start of `bytes`, without looking
/// at the data region.
///
/// The manifest is read right after the header, and the metadata from
/// `meta_offset` up to `data_offset`. Input that ends before a part it needs gives
/// an `Io` error, as reading it from a stream would.
pub fn read_structure(bytes: &[u8]) -> (r: Result<PakStructure, PakError>)
    ensures
        match spec_read_structure(bytes@) {
            Ok(v) => r matches Ok(s) && s@ == v,
            Err(e) => r matches Err(x) && error_agrees(x, e),
        },
{
    if bytes.len() < 40 {
        return Err(PakError::Io(unexpected_eof()));
    }
    let header_bytes = slice_subrange(bytes, 0, 40);
    assert(header_bytes@.subrange(0, 4) == bytes@.subrange(0, 4));
    assert(header_bytes@.subrange(38, 40) == bytes@.subrange(38, 40));
    let header = Header::from_bytes(header_bytes)?;
    proof {
        lemma_decode_header(header_bytes@, header);
    }
    let manifest_size = manifest_span(&header)?;
    let ms = manifest_size as usize;
    if bytes.len() - 40 < ms {
        return Err(PakError::Io(unexpected_eof()));
    }
    let manifest = parse_manifest(slice_subrange(bytes, 40, 40 + ms), header.entry_count)?;
    metadata_span(&header)?;
    if (bytes.len() as u64) < header.data_offset {
        return Err(PakError::Io(unexpected_eof()));
    }
    let meta_start = header.meta_offset as usize;
    let meta_end = header.data_offset as usize;
    let metadata = parse_metadata(slice_subrange(bytes, meta_start, meta_end), header.meta_count)?;
    Ok(PakStructure { header, manifest, metadata })
}

/// Where an entry's blob starts in the file: the data region's offset plus the
/// entry's offset, which must not overflow.
pub open spec fn spec_blob_start(h: Header, e: EntryView) -> Result<u64, PakError> {
    if h.data_offset + e.offset > u64::MAX {
        Err(PakError::Malformed("blob offset overflows"))
    } else {
        Ok((h.data_offset + e.offset) as u64)
    }
}

/// The stored blob of an entry within the whole file `image`.
pub open spec fn spec_read_blob(h: Header, e: EntryView, image: Seq<u8>) -> Result<Seq<u8>, PakError> {
    match spec_blob_start(h, e) {
        Err(x) => Err(x),
        Ok(start) => if e.compressed_size == 0 {
            Ok(seq![])
        } else if start + e.compressed_size > image.len() {
            Err(PakError::Malformed("blob extends past end of file"))
        } else {
            Ok(image.subrange(start as int, start + e.compressed_size))
        },
    }
}

impl PakStructure {
    /// The absolute file position where `entry`'s blob starts.
    pub fn blob_start(&self, entry: &ManifestEntry) -> (r: Result<u64, PakError>)
        ensures
            r == spec_blob_start(self.header, entry@),
    {
        match self.header.data_offset.checked_add(entry.offset) {
            Some(start) => Ok(start),
            None => Err(PakError::Malformed("blob offset overflows")),
        }
    }

    /// Reads the (still compressed) blob for `entry` out of the whole pak file `image`.
    pub fn read_blob(&self, image: &[u8], entry: &ManifestEntry) -> (r: Result<Vec<u8>, PakError>)
        ensures
            match spec_read_blob(self.header, entry@, image@) {
                Ok(b) => r matches Ok(v) && v@ == b,
                Err(e) => r matches Err(x) && x == e,
            },
    {
        let start = self.blob_start(entry)?;
        let len = entry.compressed_size;
        if len == 0 {
            return Ok(Vec::new());
        }
        if (image.len() as u64) < start || (image.len() as u64) - start < len {
            return Err(PakError::Malformed("blob extends past end of file"));
        }
        let s = start as usize;
        let l = len as usize;
        Ok(slice_to_vec(slice_subrange(image, s, s + l)))
    }
}

} // verus!
