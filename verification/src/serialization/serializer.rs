//! Pak file writing: staging entries and producing the on-disk format.

use std::collections::BTreeMap;

use vstd::pervasive::arbitrary;
use vstd::prelude::*;
use vstd::seq_lib::*;
use vstd::slice::*;
use vstd::utf8::*;

use crate::serialization::deserializer::error_agrees;
use crate::serialization::errors::PakError;
use crate::serialization::metadata::{known_keys, metadata_entries_of, metadata_entry_list};
use crate::serialization::pakfile::{
    entry_bytes, header_bytes, lemma_entry_bytes_len, lemma_meta_entry_bytes_len, meta_entry_bytes, path_bytes, Codec, EntryView, Header,
    ManifestEntry, MetaEntry, MetaKey, PAKFILE_MAGIC,
};
use crate::serialization::path_order::{
    bytes_lt, lemma_bytes_lt_irreflexive, lemma_bytes_lt_transitive,
    order_bytes, PathOrder,
};

verus! {

broadcast use group_seq_properties, vstd::std_specs::btree::group_btree_axioms, vstd::laws_cmp::group_laws_cmp;

/// A staged file: its path, its contents, and the codec chosen for it.
#[derive(Debug)]
struct StagedFile {
    path: String,
    data: Vec<u8>,
    codec: Codec,
}

/// Stages files and pak-level metadata, then produces a complete pak file.
///
/// Staged files are kept sorted by path (byte-wise), so the output is deterministic.
/// They live in a sorted `Vec` rather than a `String`-keyed map: with `String` keys
/// vstd's map specifications say nothing about key order or about which entry a
/// path replaces, while over a sorted vector both are stated and proved here
/// (`files_sorted`, `add_bytes`). Metadata is keyed by its `u16` id, whose order
/// vstd does specify, so it stays a `BTreeMap`.
#[derive(Debug)]
pub struct PakWriter {
    files: Vec<StagedFile>,
    metadata: BTreeMap<u16, u64>,
}

/// The mathematical content of a staged file.
pub struct StagedView {
    pub path: Seq<char>,
    pub data: Seq<u8>,
    pub codec: Codec,
}

/// The mathematical content of a writer: its staged files in path order, and the
/// metadata values keyed by key id.
pub struct WriterView {
    pub files: Seq<StagedView>,
    pub metadata: Map<u16, u64>,
}

/// The view of one staged file.
spec fn staged_view(f: StagedFile) -> StagedView {
    StagedView { path: f.path@, data: f.data@, codec: f.codec }
}

impl View for PakWriter {
    type V = WriterView;

    closed spec fn view(&self) -> WriterView {
        WriterView {
            files: self.files@.map_values(|f: StagedFile| staged_view(f)),
            metadata: self.metadata@,
        }
    }
}

/// The files are listed in strictly increasing byte-wise path order (so no path
/// occurs twice).
pub open spec fn files_sorted(files: Seq<StagedView>) -> bool {
    forall|i: int, j: int|
        0 <= i < j < files.len() ==> bytes_lt(path_bytes(files[i].path), path_bytes(files[j].path))
}

/// Well-formedness of a writer: its files are sorted by path, and its metadata keys
/// are ids of known keys.
pub open spec fn writer_wf(v: WriterView) -> bool {
    files_sorted(v.files) && known_keys(v.metadata)
}

/// Some staged file has exactly this path.
pub open spec fn has_path(files: Seq<StagedView>, path: Seq<char>) -> bool {
    exists|i: int| 0 <= i < files.len() && files[i].path == path
}

/// The metadata pairs a writer writes, in key order.
pub open spec fn metadata_entries(v: WriterView) -> Seq<MetaEntry> {
    metadata_entries_of(v.metadata)
}

/// The blob each staged file is stored as (meaningful where its codec succeeds).
pub open spec fn staged_blobs(files: Seq<StagedView>) -> Seq<Seq<u8>> {
    files.map_values(|f: StagedView| f.codec.spec_encode(f.data)->Some_0)
}

/// Writing stops at staged file `i`: its path does not fit the 16-bit length field,
/// or its codec fails on its contents.
pub open spec fn fails_at(files: Seq<StagedView>, i: int) -> bool {
    path_bytes(files[i].path).len() > 65535 || files[i].codec.spec_encode(files[i].data) is None
}

/// The first staged file (in path order) at which writing stops, if any.
pub open spec fn first_failure(files: Seq<StagedView>) -> Option<int> {
    if exists|i: int| 0 <= i < files.len() && fails_at(files, i) {
        Some(
            choose|i: int|
                0 <= i < files.len() && fails_at(files, i) && forall|j: int|
                    0 <= j < i ==> !fails_at(files, j),
        )
    } else {
        None
    }
}

/// What writing a pak gives. Files are taken in path order; each file's path is
/// checked before it is compressed, and the manifest size is checked last.
pub open spec fn build_outcome(v: WriterView) -> Result<Seq<u8>, PakError> {
    match first_failure(v.files) {
        Some(i) => if path_bytes(v.files[i].path).len() > 65535 {
            Err(PakError::Malformed("path longer than u16::MAX bytes"))
        } else {
            Err(PakError::Io(arbitrary()))
        },
        None => if manifest_len(v.files) > 65535 {
            Err(PakError::Malformed("manifest larger than u16::MAX bytes"))
        } else {
            Ok(pak_image(v, staged_blobs(v.files)))
        },
    }
}

/// The file at `i` is where writing stops when it fails and no earlier file does.
pub proof fn lemma_first_failure(files: Seq<StagedView>, i: int)
    requires
        0 <= i < files.len(),
        fails_at(files, i),
        forall|j: int| 0 <= j < i ==> !fails_at(files, j),
    ensures
        first_failure(files) == Some(i),
{
    let c = choose|c: int|
        0 <= c < files.len() && fails_at(files, c) && forall|j: int| 0 <= j < c ==> !fails_at(files, j);
    assert(0 <= c < files.len() && fails_at(files, c) && forall|j: int| 0 <= j < c ==> !fails_at(files, j));
    if c < i {
    } else if c > i {
    }
}

/// Where blob `i` starts, relative to the data region: the blobs are packed in order.
pub open spec fn blob_offset(blobs: Seq<Seq<u8>>, i: int) -> int {
    blobs.take(i).flatten().len() as int
}

/// The manifest entry written for a staged file whose blob starts at `offset`.
pub open spec fn written_entry(f: StagedView, offset: int, blob: Seq<u8>) -> EntryView {
    EntryView {
        offset: offset as u64,
        compressed_size: blob.len() as u64,
        original_size: f.data.len() as u64,
        codec: f.codec.spec_id(),
        path: f.path,
    }
}

/// The manifest entries written for `files` stored as `blobs`.
pub open spec fn written_entries(files: Seq<StagedView>, blobs: Seq<Seq<u8>>) -> Seq<EntryView> {
    Seq::new(files.len(), |i: int| written_entry(files[i], blob_offset(blobs, i), blobs[i]))
}

/// The bytes of a manifest: its entries' encodings, one after the other.
pub open spec fn manifest_image(entries: Seq<EntryView>) -> Seq<u8> {
    entries.map_values(|e: EntryView| entry_bytes(e)).flatten()
}

/// The bytes of a metadata block.
pub open spec fn metadata_image(ms: Seq<MetaEntry>) -> Seq<u8> {
    ms.map_values(|m: MetaEntry| meta_entry_bytes(m)).flatten()
}

/// The byte size of the manifest written for `files`: 27 fixed bytes plus the path
/// for each file.
pub open spec fn manifest_len(files: Seq<StagedView>) -> int
    decreases files.len(),
{
    if files.len() == 0 {
        0
    } else {
        manifest_len(files.drop_last()) + 27 + path_bytes(files.last().path).len()
    }
}

/// Every staged path fits the 16-bit path length field.
pub open spec fn paths_fit(files: Seq<StagedView>) -> bool {
    forall|i: int| 0 <= i < files.len() ==> path_bytes(#[trigger] files[i].path).len() <= 65535
}

/// The header written for a pak with these section sizes.
pub open spec fn written_header(entry_count: nat, manifest_len: nat, meta_count: nat) -> Header {
    Header {
        magic: PAKFILE_MAGIC,
        entry_count: entry_count as u64,
        data_offset: (40 + manifest_len + 10 * meta_count) as u64,
        meta_offset: (40 + manifest_len) as u64,
        meta_count: meta_count as u64,
        manifest_size: manifest_len as u16,
        reserved: 0,
    }
}

/// The complete pak file written for a writer whose files are stored as `blobs`:
/// header, manifest, metadata, then the blobs packed in manifest order.
pub open spec fn pak_image(v: WriterView, blobs: Seq<Seq<u8>>) -> Seq<u8> {
    let manifest = manifest_image(written_entries(v.files, blobs));
    let meta = metadata_entries(v);
    header_bytes(written_header(v.files.len(), manifest.len(), meta.len())) + manifest
        + metadata_image(meta) + blobs.flatten()
}

/// Writing file `i` after the files before it extends the manifest by its entry and
/// the data by its blob.
proof fn lemma_written_step(
    files: Seq<StagedView>,
    blobs: Seq<Seq<u8>>,
    blob: Seq<u8>,
    i: int,
    e: EntryView,
)
    requires
        0 <= i < files.len(),
        blobs.len() == i,
        e == written_entry(files[i], blobs.flatten().len() as int, blob),
    ensures
        manifest_image(written_entries(files.take(i + 1), blobs.push(blob))) == manifest_image(
            written_entries(files.take(i), blobs),
        ) + entry_bytes(e),
        blobs.push(blob).flatten() == blobs.flatten() + blob,
        manifest_len(files.take(i + 1)) == manifest_len(files.take(i)) + entry_bytes(e).len(),
{
    let nb = blobs.push(blob);
    assert(nb.take(i) =~= blobs);
    assert(written_entries(files.take(i + 1), nb) =~= written_entries(files.take(i), blobs).push(
        e,
    )) by {
        assert forall|j: int| 0 <= j < i implies nb.take(j) =~= blobs.take(j) by {}
    }
    let es = written_entries(files.take(i), blobs);
    assert(es.push(e).map_values(|x: EntryView| entry_bytes(x)) =~= es.map_values(
        |x: EntryView| entry_bytes(x),
    ).push(entry_bytes(e)));
    es.map_values(|x: EntryView| entry_bytes(x)).lemma_flatten_push(entry_bytes(e));
    blobs.lemma_flatten_push(blob);
    assert(files.take(i + 1).drop_last() =~= files.take(i));
    assert(files.take(i + 1).last() == files[i]);
    lemma_entry_bytes_len(e);
}

impl Default for PakWriter {
    /// An empty pak writer.
    fn default() -> (r: Self)
        ensures
            writer_wf(r@),
            r@.files == Seq::<StagedView>::empty(),
            r@.metadata == Map::<u16, u64>::empty(),
    {
        PakWriter::new()
    }
}

impl PakWriter {
    /// The staged file at `i`, as a view.
    proof fn lemma_view_index(&self, i: int)
        requires
            0 <= i < self.files@.len(),
        ensures
            self@.files.len() == self.files@.len(),
            self@.files[i] == staged_view(self.files@[i]),
    {
    }

    /// Creates an empty pak writer.
    pub fn new() -> (r: Self)
        ensures
            writer_wf(r@),
            r@.files == Seq::<StagedView>::empty(),
            r@.metadata == Map::<u16, u64>::empty(),
    {
        let r = PakWriter { files: Vec::new(), metadata: BTreeMap::new() };
        assert(r@.files =~= Seq::<StagedView>::empty());
        r
    }

    /// Finds where the path with bytes `key` belongs among the staged files:
    /// `Ok(k)` when no staged path equals it and `k` is its sorted position,
    /// `Err(i)` when staged file `i` has these very path bytes.
    fn locate(&self, key: &[u8]) -> (r: Result<usize, usize>)
        requires
            writer_wf(self@),
        ensures
            r matches Ok(k) ==> k <= self@.files.len() && (forall|i: int|
                0 <= i < k ==> bytes_lt(path_bytes(#[trigger] self@.files[i].path), key@)) && (
            forall|i: int|
                k <= i < self@.files.len() ==> bytes_lt(
                    key@,
                    path_bytes(#[trigger] self@.files[i].path),
                )),
            r matches Err(i) ==> i < self@.files.len() && path_bytes(self@.files[i as int].path)
                == key@,
    {
        let ghost files = self@.files;
        let mut lo: usize = 0;
        let mut hi: usize = self.files.len();
        while lo < hi
            invariant
                files == self@.files,
                files.len() == self.files@.len(),
                writer_wf(self@),
                0 <= lo <= hi <= files.len(),
                forall|i: int| 0 <= i < lo ==> bytes_lt(path_bytes(#[trigger] files[i].path), key@),
                forall|i: int|
                    hi <= i < files.len() ==> bytes_lt(key@, path_bytes(#[trigger] files[i].path)),
            decreases hi - lo,
        {
            let mid = lo + (hi - lo) / 2;
            proof {
                self.lemma_view_index(mid as int);
            }
            let mid_bytes = self.files[mid].path.as_str().as_bytes();
            assert(mid_bytes@ == path_bytes(files[mid as int].path));
            match order_bytes(mid_bytes, key) {
                PathOrder::Before => {
                    assert forall|i: int| 0 <= i < mid + 1 implies bytes_lt(
                        path_bytes(#[trigger] files[i].path),
                        key@,
                    ) by {
                        if i < mid {
                            lemma_bytes_lt_transitive(
                                path_bytes(files[i].path),
                                mid_bytes@,
                                key@,
                            );
                        }
                    }
                    lo = mid + 1;
                },
                PathOrder::Same => {
                    return Err(mid);
                },
                PathOrder::After => {
                    assert forall|i: int| mid <= i < files.len() implies bytes_lt(
                        key@,
                        path_bytes(#[trigger] files[i].path),
                    ) by {
                        if i > mid {
                            lemma_bytes_lt_transitive(
                                key@,
                                mid_bytes@,
                                path_bytes(files[i].path),
                            );
                        }
                    }
                    hi = mid;
                },
            }
        }
        Ok(lo)
    }

    /// Checks that `path` may be staged: it must not be staged already, and must not
    /// be empty.
    pub fn check_path(&self, path: &str) -> (r: Result<(), PakError>)
        requires
            writer_wf(self@),
        ensures
            has_path(self@.files, path@) ==> (r matches Err(PakError::DuplicatePath(p)) && p@
                == path@),
            !has_path(self@.files, path@) && path@.len() == 0 ==> r == Err::<(), PakError>(
                PakError::Malformed("path must not be empty"),
            ),
            !has_path(self@.files, path@) && path@.len() != 0 ==> r is Ok,
    {
        let key = path.as_bytes();
        match self.locate(key) {
            Err(i) => {
                proof {
                    self.lemma_view_index(i as int);
                    encode_utf8_decode_utf8(self@.files[i as int].path);
                    encode_utf8_decode_utf8(path@);
                }
                Err(PakError::DuplicatePath(path.to_owned()))
            },
            Ok(k) => {
                proof {
                    if has_path(self@.files, path@) {
                        let i = choose|i: int|
                            0 <= i < self@.files.len() && self@.files[i].path == path@;
                        lemma_bytes_lt_irreflexive(key@);
                    }
                }
                if path.is_empty() {
                    Err(PakError::Malformed("path must not be empty"))
                } else {
                    Ok(())
                }
            },
        }
    }

    /// Stages bytes directly. `codec` selects compression for this entry only.
    ///
    /// Duplicate paths and the empty path are rejected, leaving the writer unchanged.
    pub fn add_bytes(&mut self, path: &str, bytes: &[u8], codec: Codec) -> (r: Result<
        &mut Self,
        PakError,
    >)
        requires
            writer_wf(old(self)@),
        ensures
            has_path(old(self)@.files, path@) ==> (r matches Err(PakError::DuplicatePath(p)) && p@
                == path@),
            !has_path(old(self)@.files, path@) && path@.len() == 0 ==> (r matches Err(e) && e
                == PakError::Malformed("path must not be empty")),
            !has_path(old(self)@.files, path@) && path@.len() != 0 ==> r is Ok,
            match r {
                Ok(w) => {
                    &&& writer_wf(w@)
                    &&& exists|k: int|
                        0 <= k <= old(self)@.files.len() && w@.files == old(self)@.files.insert(
                            k,
                            StagedView { path: path@, data: bytes@, codec },
                        )
                    &&& w@.metadata == old(self)@.metadata
                    &&& *final(self) == *final(w)
                },
                Err(_) => *final(self) == *old(self),
            },
    {
        match self.check_path(path) {
            Err(e) => return Err(e),
            Ok(()) => {},
        }
        let key = path.as_bytes();
        let k = match self.locate(key) {
            Ok(k) => k,
            Err(i) => {
                proof {
                    self.lemma_view_index(i as int);
                    encode_utf8_decode_utf8(self@.files[i as int].path);
                    encode_utf8_decode_utf8(path@);
                    assert(has_path(self@.files, path@));
                }
                return Err(PakError::Malformed("path must not be empty"));
            },
        };
        let ghost old_files = self@.files;
        let staged = StagedFile { path: path.to_owned(), data: slice_to_vec(bytes), codec };
        let ghost sv = staged_view(staged);
        assert(sv == StagedView { path: path@, data: bytes@, codec });
        self.files.insert(k, staged);
        proof {
            assert(self@.files =~= old_files.insert(k as int, sv));
            assert forall|i: int, j: int| 0 <= i < j < self@.files.len() implies bytes_lt(
                path_bytes(self@.files[i].path),
                path_bytes(self@.files[j].path),
            ) by {
                if i < k && k < j {
                    lemma_bytes_lt_transitive(
                        path_bytes(old_files[i].path),
                        key@,
                        path_bytes(old_files[j - 1].path),
                    );
                }
            }
        }
        Ok(self)
    }

    /// Consumes the writer and produces the complete on-disk pak file as bytes.
    ///
    /// The output is deterministic: the manifest lists the files sorted by path and
    /// the blobs are packed in the same order.
    pub fn into_bytes(self) -> (r: Result<Vec<u8>, PakError>)
        requires
            writer_wf(self@),
        ensures
            match build_outcome(self@) {
                Ok(b) => r matches Ok(x) && x@ == b,
                Err(e) => r matches Err(x) && error_agrees(x, e),
            },
            r is Ok ==> {
                &&& first_failure(self@.files) is None
                &&& paths_fit(self@.files)
                &&& manifest_len(self@.files) <= 65535
                &&& forall|i: int|
                    0 <= i < self@.files.len() ==> self@.files[i].codec.spec_decode(
                        #[trigger] staged_blobs(self@.files)[i],
                    ) == Some(self@.files[i].data)
            },
    {
        let ghost files = self@.files;
        let n = self.files.len();
        let mut manifest: Vec<u8> = Vec::new();
        let mut data: Vec<u8> = Vec::new();
        let ghost mut blobs: Seq<Seq<u8>> = seq![];
        let mut i: usize = 0;
        proof {
            assert(files.take(0) =~= seq![]);
            assert(written_entries(files.take(0), blobs) =~= seq![]);
            assert(manifest_image(seq![]) =~= seq![]);
        }
        while i < n
            invariant
                files == self@.files,
                n == files.len() == self.files@.len(),
                i <= n,
                blobs.len() == i,
                forall|j: int|
                    0 <= j < i ==> #[trigger] blobs[j] == staged_blobs(files)[j]
                        && files[j].codec.spec_decode(blobs[j]) == Some(files[j].data),
                forall|j: int| 0 <= j < i ==> !#[trigger] fails_at(files, j),
                data@ == blobs.flatten(),
                manifest@ == manifest_image(written_entries(files.take(i as int), blobs)),
                manifest@.len() == manifest_len(files.take(i as int)),
                forall|j: int| 0 <= j < i ==> path_bytes(#[trigger] files[j].path).len() <= 65535,
            decreases n - i,
        {
            proof {
                self.lemma_view_index(i as int);
            }
            let f = &self.files[i];
            let pb = f.path.as_str().as_bytes();
            if pb.len() > 65535 {
                assert(path_bytes(files[i as int].path).len() > 65535);
                proof {
                    lemma_first_failure(files, i as int);
                }
                return Err(PakError::Malformed("path longer than u16::MAX bytes"));
            }
            let compressed = match f.codec.compress(f.data.as_slice()) {
                Ok(c) => c,
                Err(e) => {
                    proof {
                        lemma_first_failure(files, i as int);
                    }
                    return Err(e);
                },
            };
            let ghost old_blobs = blobs;
            let entry = ManifestEntry {
                offset: data.len() as u64,
                compressed_size: compressed.len() as u64,
                original_size: f.data.len() as u64,
                codec: f.codec.id(),
                path: f.path.clone(),
            };
            let mut entry_image = entry.to_bytes();
            let mut blob = compressed;
            proof {
                assert(entry@ == written_entry(files[i as int], old_blobs.flatten().len() as int, blob@));
                lemma_written_step(files, old_blobs, blob@, i as int, entry@);
                blobs = blobs.push(blob@);
                assert(!fails_at(files, i as int));
            }
            manifest.append(&mut entry_image);
            data.append(&mut blob);
            i = i + 1;
        }
        proof {
            assert(files.take(n as int) =~= files);
            assert(blobs =~= staged_blobs(files));
            assert(first_failure(files) is None);
        }
        if manifest.len() > 65535 {
            return Err(PakError::Malformed("manifest larger than u16::MAX bytes"));
        }
        let entries = metadata_entry_list(&self.metadata);
        let ghost ms = metadata_entries(self@);
        let mut meta: Vec<u8> = Vec::new();
        let mut k: usize = 0;
        assert(ms.take(0).map_values(|m: MetaEntry| meta_entry_bytes(m)) =~= Seq::<Seq<u8>>::empty());
        while k < entries.len()
            invariant
                entries@ == ms,
                ms.len() <= 2,
                k <= ms.len(),
                meta@ == metadata_image(ms.take(k as int)),
                meta@.len() == 10 * k,
            decreases ms.len() - k,
        {
            let e = entries[k];
            let mut t = slice_to_vec(e.to_bytes().as_slice());
            proof {
                let f = |m: MetaEntry| meta_entry_bytes(m);
                assert(ms.take(k + 1).map_values(f) =~= ms.take(k as int).map_values(f).push(
                    meta_entry_bytes(e),
                ));
                ms.take(k as int).map_values(f).lemma_flatten_push(meta_entry_bytes(e));
                lemma_meta_entry_bytes_len(e);
            }
            meta.append(&mut t);
            k = k + 1;
        }
        assert(ms.take(ms.len() as int) =~= ms);
        let meta_count = entries.len() as u64;
        let manifest_len = manifest.len() as u64;
        let header = Header {
            magic: PAKFILE_MAGIC,
            entry_count: n as u64,
            data_offset: 40 + manifest_len + meta.len() as u64,
            meta_offset: 40 + manifest_len,
            meta_count,
            manifest_size: manifest.len() as u16,
            reserved: 0,
        };
        assert(header == written_header(n as nat, manifest@.len(), ms.len()));
        let mut out = slice_to_vec(header.to_bytes().as_slice());
        out.append(&mut manifest);
        out.append(&mut meta);
        out.append(&mut data);
        Ok(out)
    }

    /// Sets pak-level metadata. Later sets of the same key overwrite.
    pub fn set_metadata(&mut self, key: MetaKey, value: u64) -> (r: &mut Self)
        requires
            writer_wf(old(self)@),
        ensures
            writer_wf(r@),
            r@.files == old(self)@.files,
            r@.metadata == old(self)@.metadata.insert(key.spec_id(), value),
            *final(self) == *final(r),
    {
        self.metadata.insert(key.id(), value);
        self
    }
}

} // verus!
