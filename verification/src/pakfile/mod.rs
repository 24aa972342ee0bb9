//! The read-only runtime API: map-like access to a parsed pak file.
//!
//! A `PakFile` holds the header, manifest and metadata of a pak. File contents
//! are read on demand: `get` and `read_into` take the bytes of the whole pak file,
//! and `blob_location` gives the position of a file's blob for positioned reads.

pub mod internal_file;
pub mod pakfile;

use vstd::prelude::*;
use vstd::slice::*;
use vstd::utf8::*;

use crate::serialization::deserializer::{
    error_agrees, lemma_parsed_codecs_known, read_structure, short_input, spec_blob_start,
    spec_read_blob, spec_read_structure, PakStructure, StructureView,
};
use crate::serialization::errors::PakError;
use crate::serialization::pakfile::{path_bytes, Codec, EntryView, MetaEntry, MetaKey};
use crate::serialization::path_order::{
    bytes_lt, lemma_bytes_lt_asymmetric, lemma_bytes_lt_irreflexive, lemma_bytes_lt_transitive,
    order_bytes, PathOrder,
};

verus! {

broadcast use vstd::seq_lib::group_seq_properties, vstd::set::group_set_axioms, vstd::seq_lib::seq_to_set_is_finite;

/// The paths of a manifest, in manifest order.
pub open spec fn manifest_paths(m: Seq<EntryView>) -> Seq<Seq<char>> {
    m.map_values(|e: EntryView| e.path)
}

/// The entry a path resolves to: the last manifest entry with that path.
pub open spec fn find_last(m: Seq<EntryView>, p: Seq<char>) -> Option<int>
    decreases m.len(),
{
    if m.len() == 0 {
        None
    } else if m.last().path == p {
        Some(m.len() - 1)
    } else {
        find_last(m.drop_last(), p)
    }
}

/// Every manifest entry names a codec this reader knows.
pub open spec fn known_codecs(m: Seq<EntryView>) -> bool {
    forall|i: int| 0 <= i < m.len() ==> (#[trigger] m[i]).codec <= 2
}

/// The codec of an entry whose codec id is known.
pub open spec fn entry_codec(e: EntryView) -> Codec {
    Codec::spec_from_id(e.codec)->Some_0
}

/// The manifest lists its paths in strictly increasing byte-wise order.
pub open spec fn entries_sorted(m: Seq<EntryView>) -> bool {
    forall|i: int, j: int|
        0 <= i < j < m.len() ==> bytes_lt(path_bytes(m[i].path), path_bytes(m[j].path))
}

/// The paths are listed in strictly increasing byte-wise order (so each once).
pub open spec fn paths_sorted(ps: Seq<Seq<char>>) -> bool {
    forall|i: int, j: int|
        0 <= i < j < ps.len() ==> bytes_lt(path_bytes(ps[i]), path_bytes(ps[j]))
}

/// The pak-level metadata with keys this reader knows, in stored order; pairs with
/// unknown keys are left out.
pub open spec fn known_metadata(md: Seq<MetaEntry>) -> Seq<(MetaKey, u64)>
    decreases md.len(),
{
    if md.len() == 0 {
        seq![]
    } else {
        let rest = known_metadata(md.drop_last());
        match MetaKey::spec_from_id(md.last().key) {
            Some(k) => rest.push((k, md.last().value)),
            None => rest,
        }
    }
}

/// What reading the file at manifest index `i` out of the whole pak `image` gives:
/// its blob, decoded with its codec (a codec failure is an I/O error).
pub open spec fn spec_get_entry(v: StructureView, image: Seq<u8>, i: int) -> Result<Seq<u8>, PakError> {
    match spec_read_blob(v.header, v.manifest[i], image) {
        Err(e) => Err(e),
        Ok(blob) => match entry_codec(v.manifest[i]).spec_decode(blob) {
            Some(d) => Ok(d),
            None => Err(short_input()),
        },
    }
}

/// What `find_last` gives: the highest index with the path, or none at all.
pub proof fn lemma_find_last(m: Seq<EntryView>, p: Seq<char>)
    ensures
        match find_last(m, p) {
            Some(i) => 0 <= i < m.len() && m[i].path == p && forall|j: int|
                i < j < m.len() ==> (#[trigger] m[j]).path != p,
            None => forall|j: int| 0 <= j < m.len() ==> (#[trigger] m[j]).path != p,
        },
    decreases m.len(),
{
    if m.len() > 0 {
        lemma_find_last(m.drop_last(), p);
        if m.last().path != p {
            assert forall|j: int| 0 <= j < m.len() - 1 implies m[j] == m.drop_last()[j] by {}
        }
    }
}

/// Two paths with the same bytes are the same path.
pub proof fn lemma_path_bytes_injective(a: Seq<char>, b: Seq<char>)
    requires
        path_bytes(a) == path_bytes(b),
    ensures
        a == b,
{
    encode_utf8_decode_utf8(a);
    encode_utf8_decode_utf8(b);
}

/// A read-only pak file. Map-like semantics: give a path, get bytes.
///
/// Only the header, manifest, and metadata are held; a path resolves to the last
/// manifest entry that has it. Lookups search the manifest itself (`find_last`)
/// instead of a path-keyed hash map built at open: the manifest already pairs
/// each path with its entry, and a search over it is what the lookup contracts
/// can state exactly, where a `String`-keyed `HashMap` would leave the answer
/// unspecified.
#[derive(Debug)]
pub struct PakFile {
    structure: PakStructure,
    distinct: usize,
    sorted: bool,
}

impl View for PakFile {
    type V = StructureView;

    closed spec fn view(&self) -> StructureView {
        self.structure@
    }
}

impl PakFile {
    /// Well-formedness: every entry's codec is known, and the cached facts about the
    /// manifest hold.
    pub closed spec fn wf(&self) -> bool {
        &&& known_codecs(self@.manifest)
        &&& self.distinct == manifest_paths(self@.manifest).to_set().len()
        &&& self.sorted ==> entries_sorted(self@.manifest)
    }

    /// The manifest entry at `i`, as a view.
    proof fn lemma_entry(&self, i: int)
        requires
            0 <= i < self.structure.manifest@.len(),
        ensures
            self@.manifest.len() == self.structure.manifest@.len(),
            self@.manifest[i] == self.structure.manifest@[i]@,
    {
    }

    /// Opens a parsed pak, checking that every entry names a known codec (the first
    /// entry that does not is reported).
    pub fn from_structure(structure: PakStructure) -> (r: Result<PakFile, PakError>)
        ensures
            known_codecs(structure@.manifest) ==> (r matches Ok(p) && p.wf() && p@ == structure@),
            !known_codecs(structure@.manifest) ==> (r matches Err(PakError::UnknownCodec(c))
                && exists|i: int|
                0 <= i < structure@.manifest.len() && (#[trigger] structure@.manifest[i]).codec
                    == c && c > 2 && forall|j: int|
                    0 <= j < i ==> (#[trigger] structure@.manifest[j]).codec <= 2),
    {
        let ghost m = structure@.manifest;
        let n = structure.manifest.len();
        let mut i: usize = 0;
        while i < n
            invariant
                m == structure@.manifest,
                n == m.len() == structure.manifest@.len(),
                i <= n,
                forall|j: int| 0 <= j < i ==> (#[trigger] m[j]).codec <= 2,
            decreases n - i,
        {
            assert(m[i as int] == structure.manifest@[i as int]@);
            let c = structure.manifest[i].codec;
            match Codec::from_id(c) {
                Some(_) => {},
                None => {
                    return Err(PakError::UnknownCodec(c));
                },
            }
            i = i + 1;
        }
        let sorted = Self::check_sorted(&structure);
        let distinct = if sorted {
            proof {
                Self::lemma_sorted_distinct(m);
            }
            n
        } else {
            Self::count_distinct(&structure)
        };
        Ok(PakFile { structure, distinct, sorted })
    }

    /// Opens a pak held in memory: parses its structure from the front of `image`
    /// and builds the path table.
    pub fn from_bytes(image: &[u8]) -> (r: Result<PakFile, PakError>)
        ensures
            match spec_read_structure(image@) {
                Ok(v) => r matches Ok(p) && p.wf() && p@ == v,
                Err(e) => r matches Err(x) && error_agrees(x, e),
            },
    {
        let structure = read_structure(image)?;
        proof {
            let b = image@;
            let h = structure@.header;
            let ms = h.manifest_size as int;
            lemma_parsed_codecs_known(b.subrange(40, 40 + ms), h.entry_count as nat);
        }
        Self::from_structure(structure)
    }

    /// The index of the manifest entry that `path` resolves to.
    fn find(&self, path: &str) -> (r: Option<usize>)
        requires
            self.wf(),
        ensures
            match r {
                Some(k) => find_last(self@.manifest, path@) == Some(k as int),
                None => find_last(self@.manifest, path@) is None,
            },
    {
        proof {
            lemma_find_last(self@.manifest, path@);
        }
        let key = path.as_bytes();
        let n = self.structure.manifest.len();
        let ghost m = self@.manifest;
        if self.sorted {
            let mut lo: usize = 0;
            let mut hi: usize = n;
            while lo < hi
                invariant
                    m == self@.manifest,
                    n == m.len() == self.structure.manifest@.len(),
                    entries_sorted(m),
                    key@ == path_bytes(path@),
                    0 <= lo <= hi <= n,
                    forall|i: int| 0 <= i < lo ==> bytes_lt(path_bytes(#[trigger] m[i].path), key@),
                    forall|i: int| hi <= i < n ==> bytes_lt(key@, path_bytes(#[trigger] m[i].path)),
                decreases hi - lo,
            {
                let mid = lo + (hi - lo) / 2;
                assert(m[mid as int] == self.structure.manifest@[mid as int]@);
                let mid_bytes = self.structure.manifest[mid].path.as_str().as_bytes();
                assert(mid_bytes@ == path_bytes(m[mid as int].path));
                match order_bytes(mid_bytes, key) {
                    PathOrder::Before => {
                        assert forall|i: int| 0 <= i < mid + 1 implies bytes_lt(
                            path_bytes(#[trigger] m[i].path),
                            key@,
                        ) by {
                            if i < mid {
                                lemma_bytes_lt_transitive(path_bytes(m[i].path), mid_bytes@, key@);
                            }
                        }
                        lo = mid + 1;
                    },
                    PathOrder::Same => {
                        proof {
                            lemma_find_last(m, path@);
                            lemma_path_bytes_injective(m[mid as int].path, path@);
                            assert forall|j: int| mid < j < n implies (#[trigger] m[j]).path
                                != path@ by {
                                lemma_bytes_lt_irreflexive(key@);
                            }
                        }
                        return Some(mid);
                    },
                    PathOrder::After => {
                        assert forall|i: int| mid <= i < n implies bytes_lt(
                            key@,
                            path_bytes(#[trigger] m[i].path),
                        ) by {
                            if i > mid {
                                lemma_bytes_lt_transitive(key@, mid_bytes@, path_bytes(m[i].path));
                            }
                        }
                        hi = mid;
                    },
                }
            }
            proof {
                lemma_find_last(m, path@);
                assert forall|j: int| 0 <= j < n implies (#[trigger] m[j]).path != path@ by {
                    lemma_bytes_lt_irreflexive(key@);
                }
            }
            None
        } else {
            let mut i: usize = n;
            while i > 0
                invariant
                    m == self@.manifest,
                    n == m.len() == self.structure.manifest@.len(),
                    key@ == path_bytes(path@),
                    i <= n,
                    forall|j: int| i <= j < n ==> (#[trigger] m[j]).path != path@,
                decreases i,
            {
                assert(m[i - 1] == self.structure.manifest@[i - 1]@);
                let cur = self.structure.manifest[i - 1].path.as_str().as_bytes();
                match order_bytes(cur, key) {
                    PathOrder::Same => {
                        proof {
                            lemma_find_last(m, path@);
                            lemma_path_bytes_injective(m[i - 1].path, path@);
                        }
                        return Some(i - 1);
                    },
                    _ => {},
                }
                i = i - 1;
            }
            proof {
                lemma_find_last(m, path@);
            }
            None
        }
    }

    /// True if `path` exists in the pak.
    pub fn contains(&self, path: &str) -> (r: bool)
        requires
            self.wf(),
        ensures
            r == manifest_paths(self@.manifest).contains(path@),
    {
        proof {
            lemma_find_last(self@.manifest, path@);
            assert forall|k: int| 0 <= k < self@.manifest.len() implies #[trigger] manifest_paths(
                self@.manifest,
            )[k] == self@.manifest[k].path by {}
            if manifest_paths(self@.manifest).contains(path@) {
                let k = choose|k: int|
                    0 <= k < self@.manifest.len() && manifest_paths(self@.manifest)[k] == path@;
                assert(self@.manifest[k].path == path@);
            }
        }
        let found = self.find(path);
        proof {
            if let Some(k) = found {
                assert(manifest_paths(self@.manifest)[k as int] == path@);
            }
        }
        found.is_some()
    }

    /// Number of distinct paths in the pak.
    pub fn len(&self) -> (r: usize)
        requires
            self.wf(),
        ensures
            r == manifest_paths(self@.manifest).to_set().len(),
    {
        self.distinct
    }

    /// True if the pak has no entries.
    pub fn is_empty(&self) -> (r: bool)
        requires
            self.wf(),
        ensures
            r == (self@.manifest.len() == 0),
    {
        proof {
            manifest_paths(self@.manifest).lemma_cardinality_of_empty_set_is_0();
        }
        self.distinct == 0
    }

    /// Uncompressed size of `path` in bytes.
    pub fn size(&self, path: &str) -> (r: Result<u64, PakError>)
        requires
            self.wf(),
        ensures
            match find_last(self@.manifest, path@) {
                Some(i) => r == Ok::<u64, PakError>(self@.manifest[i].original_size),
                None => r matches Err(PakError::NotFound(p)) && p@ == path@,
            },
    {
        proof {
            lemma_find_last(self@.manifest, path@);
        }
        match self.find(path) {
            Some(i) => {
                proof {
                    self.lemma_entry(i as int);
                }
                Ok(self.structure.manifest[i].original_size)
            },
            None => Err(PakError::NotFound(path.to_owned())),
        }
    }

    /// Where the blob of `path` lies in the pak file: its absolute start and its length.
    pub fn blob_location(&self, path: &str) -> (r: Result<(u64, u64), PakError>)
        requires
            self.wf(),
        ensures
            match find_last(self@.manifest, path@) {
                Some(i) => match spec_blob_start(self@.header, self@.manifest[i]) {
                    Ok(start) => r == Ok::<(u64, u64), PakError>(
                        (start, self@.manifest[i].compressed_size),
                    ),
                    Err(e) => r == Err::<(u64, u64), PakError>(e),
                },
                None => r matches Err(PakError::NotFound(p)) && p@ == path@,
            },
    {
        proof {
            lemma_find_last(self@.manifest, path@);
        }
        match self.find(path) {
            Some(i) => {
                proof {
                    self.lemma_entry(i as int);
                }
                let m = &self.structure.manifest[i];
                let start = self.structure.blob_start(m)?;
                Ok((start, m.compressed_size))
            },
            None => Err(PakError::NotFound(path.to_owned())),
        }
    }

    /// Decodes `blob`, the stored blob of `path`, with the codec of its entry.
    pub fn decode_blob(&self, path: &str, blob: &[u8]) -> (r: Result<Vec<u8>, PakError>)
        requires
            self.wf(),
        ensures
            match find_last(self@.manifest, path@) {
                Some(i) => match entry_codec(self@.manifest[i]).spec_decode(blob@) {
                    Some(d) => r matches Ok(v) && v@ == d,
                    None => r matches Err(e) && e is Io,
                },
                None => r matches Err(PakError::NotFound(p)) && p@ == path@,
            },
    {
        proof {
            lemma_find_last(self@.manifest, path@);
        }
        match self.find(path) {
            Some(i) => {
                proof {
                    self.lemma_entry(i as int);
                }
                let m = &self.structure.manifest[i];
                match Codec::from_id(m.codec) {
                    Some(codec) => codec.decompress(blob, m.original_size),
                    None => Err(PakError::UnknownCodec(m.codec)),
                }
            },
            None => Err(PakError::NotFound(path.to_owned())),
        }
    }

    /// Returns the full, decompressed contents of `path`, reading its blob out of
    /// `image`, the bytes of the whole pak file.
    pub fn get(&self, path: &str, image: &[u8]) -> (r: Result<Vec<u8>, PakError>)
        requires
            self.wf(),
        ensures
            match find_last(self@.manifest, path@) {
                Some(i) => match spec_get_entry(self@, image@, i) {
                    Ok(d) => r matches Ok(v) && v@ == d,
                    Err(e) => r matches Err(x) && error_agrees(x, e),
                },
                None => r matches Err(PakError::NotFound(p)) && p@ == path@,
            },
    {
        proof {
            lemma_find_last(self@.manifest, path@);
        }
        match self.find(path) {
            Some(i) => {
                proof {
                    self.lemma_entry(i as int);
                }
                let m = &self.structure.manifest[i];
                let compressed = self.structure.read_blob(image, m)?;
                match Codec::from_id(m.codec) {
                    Some(codec) => codec.decompress(compressed.as_slice(), m.original_size),
                    None => Err(PakError::UnknownCodec(m.codec)),
                }
            },
            None => Err(PakError::NotFound(path.to_owned())),
        }
    }

    /// Reads the full, decompressed contents of `path` into the front of `buf`,
    /// reading its blob out of `image`, the bytes of the whole pak file.
    ///
    /// Errors with `BufferTooSmall` if `buf` is smaller than the file; never
    /// truncates silently. Contents whose length differs from the size the manifest
    /// records are rejected as malformed. On any error `buf` is left unchanged.
    pub fn read_into(&self, path: &str, buf: &mut [u8], image: &[u8]) -> (r: Result<(), PakError>)
        requires
            self.wf(),
        ensures
            match find_last(self@.manifest, path@) {
                None => r matches Err(PakError::NotFound(p)) && p@ == path@,
                Some(i) => {
                    let needed = self@.manifest[i].original_size;
                    if old(buf)@.len() < needed {
                        r == Err::<(), PakError>(
                            PakError::BufferTooSmall { needed, got: old(buf)@.len() as usize },
                        )
                    } else {
                        match spec_get_entry(self@, image@, i) {
                            Err(e) => r matches Err(x) && error_agrees(x, e),
                            Ok(d) => if d.len() == needed {
                                r is Ok && final(buf)@ == d + old(buf)@.subrange(
                                    needed as int,
                                    old(buf)@.len() as int,
                                )
                            } else {
                                r == Err::<(), PakError>(
                                    PakError::Malformed(
                                        "decompressed size does not match the manifest",
                                    ),
                                )
                            },
                        }
                    }
                },
            },
            r is Err ==> final(buf)@ == old(buf)@,
    {
        let needed = self.check_buffer(path, buf.len())?;
        let data = self.get(path, image)?;
        Self::fill_buffer(buf, data.as_slice(), needed)
    }

    /// Checks that a buffer of `got` bytes can receive the contents of `path`, giving
    /// the size those contents have.
    pub fn check_buffer(&self, path: &str, got: usize) -> (r: Result<u64, PakError>)
        requires
            self.wf(),
        ensures
            match find_last(self@.manifest, path@) {
                None => r matches Err(PakError::NotFound(p)) && p@ == path@,
                Some(i) => {
                    let needed = self@.manifest[i].original_size;
                    if got < needed {
                        r == Err::<u64, PakError>(PakError::BufferTooSmall { needed, got })
                    } else {
                        r == Ok::<u64, PakError>(needed)
                    }
                },
            },
    {
        let needed = self.size(path)?;
        if (got as u64) < needed {
            return Err(PakError::BufferTooSmall { needed, got });
        }
        Ok(needed)
    }

    /// Copies `data`, the contents of a file whose manifest size is `needed`, into the
    /// front of `buf`; contents of another length are rejected as malformed and leave
    /// `buf` unchanged.
    pub fn fill_buffer(buf: &mut [u8], data: &[u8], needed: u64) -> (r: Result<(), PakError>)
        requires
            needed <= old(buf)@.len(),
        ensures
            data@.len() == needed ==> r is Ok && final(buf)@ == data@ + old(buf)@.subrange(
                needed as int,
                old(buf)@.len() as int,
            ),
            data@.len() != needed ==> r == Err::<(), PakError>(
                PakError::Malformed("decompressed size does not match the manifest"),
            ) && final(buf)@ == old(buf)@,
    {
        if (data.len() as u64) != needed {
            return Err(PakError::Malformed("decompressed size does not match the manifest"));
        }
        let ghost start = buf@;
        let mut k: usize = 0;
        while k < data.len()
            invariant
                data@.len() == needed <= start.len(),
                buf@.len() == start.len(),
                k <= data@.len(),
                buf@ =~= data@.subrange(0, k as int) + start.subrange(k as int, start.len() as int),
            decreases data@.len() - k,
        {
            buf[k] = data[k];
            k = k + 1;
        }
        Ok(())
    }

    /// Pak-level metadata; unknown keys are filtered out.
    pub fn metadata(&self) -> (r: Vec<(MetaKey, u64)>)
        ensures
            r@ == known_metadata(self@.metadata),
    {
        let ghost md = self@.metadata;
        let mut out: Vec<(MetaKey, u64)> = Vec::new();
        let mut i: usize = 0;
        assert(md.take(0) =~= seq![]);
        while i < self.structure.metadata.len()
            invariant
                md == self@.metadata,
                md == self.structure.metadata@,
                i <= md.len(),
                out@ == known_metadata(md.take(i as int)),
            decreases md.len() - i,
        {
            let e = self.structure.metadata[i];
            assert(md.take(i + 1).drop_last() =~= md.take(i as int));
            match MetaKey::from_id(e.key) {
                Some(k) => {
                    out.push((k, e.value));
                },
                None => {},
            }
            i = i + 1;
        }
        assert(md.take(md.len() as int) =~= md);
        out
    }

    /// All paths in the pak, sorted: each distinct path once, in strictly increasing
    /// byte-wise order.
    pub fn paths(&self) -> (r: Vec<&str>)
        requires
            self.wf(),
        ensures
            paths_sorted(r@.map_values(|s: &str| s@)),
            r@.map_values(|s: &str| s@).to_set() == manifest_paths(self@.manifest).to_set(),
    {
        let ghost m = self@.manifest;
        let n = self.structure.manifest.len();
        let mut out: Vec<&str> = Vec::new();
        let mut i: usize = 0;
        assert(manifest_paths(m).take(0).to_set() =~= Set::<Seq<char>>::empty());
        assert(out@.map_values(|s: &str| s@).to_set() =~= Set::<Seq<char>>::empty());
        while i < n
            invariant
                m == self@.manifest,
                n == m.len() == self.structure.manifest@.len(),
                i <= n,
                self.sorted ==> entries_sorted(m),
                self.sorted ==> out@.map_values(|s: &str| s@) =~= manifest_paths(m).take(i as int),
                paths_sorted(out@.map_values(|s: &str| s@)),
                out@.map_values(|s: &str| s@).to_set() == manifest_paths(m).take(i as int).to_set(),
            decreases n - i,
        {
            assert(m[i as int] == self.structure.manifest@[i as int]@);
            let p = self.structure.manifest[i].path.as_str();
            let ghost before = out@;
            proof {
                assert(manifest_paths(m).take(i + 1) =~= manifest_paths(m).take(i as int).push(p@));
                assert(manifest_paths(m).take(i + 1).to_set() =~= manifest_paths(m).take(
                    i as int,
                ).to_set().insert(p@));
            }
            if self.sorted {
                out.push(p);
                proof {
                    let vs = out@.map_values(|s: &str| s@);
                    assert(vs =~= before.map_values(|s: &str| s@).push(p@));
                    assert(vs =~= manifest_paths(m).take(i + 1));
                    assert forall|a: int, b: int| 0 <= a < b < vs.len() implies bytes_lt(
                        path_bytes(vs[a]),
                        path_bytes(vs[b]),
                    ) by {
                        assert(vs[a] == m[a].path);
                        assert(vs[b] == m[b].path);
                    }
                    assert(vs.to_set() =~= manifest_paths(m).take(i + 1).to_set());
                }
            } else {
                Self::insert_path(&mut out, p);
            }
            i = i + 1;
        }
        assert(manifest_paths(m).take(n as int) =~= manifest_paths(m));
        out
    }

    /// Adds `p` to the sorted paths `out` unless it is already there, keeping them sorted.
    fn insert_path<'a>(out: &mut Vec<&'a str>, p: &'a str)
        requires
            paths_sorted(old(out)@.map_values(|s: &str| s@)),
        ensures
            paths_sorted(final(out)@.map_values(|s: &str| s@)),
            final(out)@.map_values(|s: &str| s@).to_set() == old(out)@.map_values(|s: &str| s@).to_set().insert(p@),
    {
        let ghost vs = out@.map_values(|s: &str| s@);
        let key = p.as_bytes();
        let n = out.len();
        let mut k: usize = 0;
        while k < n
            invariant
                vs == out@.map_values(|s: &str| s@),
                n == out@.len(),
                k <= n,
                paths_sorted(vs),
                key@ == path_bytes(p@),
                forall|j: int| 0 <= j < k ==> bytes_lt(path_bytes(#[trigger] vs[j]), key@),
            ensures
                k <= n,
                forall|j: int| 0 <= j < k ==> bytes_lt(path_bytes(#[trigger] vs[j]), key@),
                k < n ==> bytes_lt(key@, path_bytes(vs[k as int])),
            decreases n - k,
        {
            let cur = out[k].as_bytes();
            assert(cur@ == path_bytes(vs[k as int]));
            match order_bytes(cur, key) {
                PathOrder::Before => {},
                PathOrder::Same => {
                    proof {
                        lemma_path_bytes_injective(vs[k as int], p@);
                        assert(vs.to_set().contains(p@));
                        assert(vs.to_set().insert(p@) =~= vs.to_set());
                    }
                    return;
                },
                PathOrder::After => {
                    break;
                },
            }
            k = k + 1;
        }
        let ghost pos = k as int;
        proof {
            assert forall|j: int| pos <= j < vs.len() implies bytes_lt(key@, path_bytes(#[trigger] vs[j])) by {
                if j > pos {
                    lemma_bytes_lt_transitive(key@, path_bytes(vs[pos]), path_bytes(vs[j]));
                }
            }
        }
        out.insert(k, p);
        proof {
            let ws = out@.map_values(|s: &str| s@);
            assert(ws =~= vs.insert(pos, p@));
            assert forall|a: int, b: int| 0 <= a < b < ws.len() implies bytes_lt(
                path_bytes(ws[a]),
                path_bytes(ws[b]),
            ) by {
                if a < pos && b > pos {
                    lemma_bytes_lt_transitive(path_bytes(vs[a]), key@, path_bytes(vs[b - 1]));
                }
            }
            assert forall|x: Seq<char>| ws.to_set().contains(x) <==> vs.to_set().insert(p@).contains(x) by {
                if ws.to_set().contains(x) {
                    let t = choose|t: int| 0 <= t < ws.len() && ws[t] == x;
                    if t < pos {
                        assert(vs[t] == x);
                    } else if t > pos {
                        assert(vs[t - 1] == x);
                    }
                }
                if vs.to_set().contains(x) {
                    let t = choose|t: int| 0 <= t < vs.len() && vs[t] == x;
                    if t < pos {
                        assert(ws[t] == x);
                    } else {
                        assert(ws[t + 1] == x);
                    }
                }
                if x == p@ {
                    assert(ws[pos] == x);
                }
            }
            assert(ws.to_set() =~= vs.to_set().insert(p@));
        }
    }

    /// The parsed structure this pak file answers from.
    pub fn structure(&self) -> (r: &PakStructure)
        ensures
            r@ == self@,
    {
        &self.structure
    }

    /// A strictly sorted manifest lists each path once.
    proof fn lemma_sorted_distinct(m: Seq<EntryView>)
        requires
            entries_sorted(m),
        ensures
            manifest_paths(m).to_set().len() == m.len(),
    {
        let ps = manifest_paths(m);
        assert forall|i: int, j: int| 0 <= i < ps.len() && 0 <= j < ps.len() && i != j implies ps[i]
            != ps[j] by {
            if ps[i] == ps[j] {
                lemma_bytes_lt_irreflexive(path_bytes(ps[i]));
            }
        }
        ps.unique_seq_to_set();
    }

    /// Whether the manifest lists its paths in strictly increasing order.
    fn check_sorted(structure: &PakStructure) -> (r: bool)
        ensures
            r == entries_sorted(structure@.manifest),
    {
        let ghost m = structure@.manifest;
        let n = structure.manifest.len();
        if n == 0 {
            return true;
        }
        let mut i: usize = 1;
        while i < n
            invariant
                m == structure@.manifest,
                n == m.len() == structure.manifest@.len(),
                1 <= i <= n,
                forall|a: int, b: int|
                    0 <= a < b < i ==> bytes_lt(path_bytes(m[a].path), path_bytes(m[b].path)),
            decreases n - i,
        {
            assert(m[i - 1] == structure.manifest@[i - 1]@);
            assert(m[i as int] == structure.manifest@[i as int]@);
            let prev = structure.manifest[i - 1].path.as_str().as_bytes();
            let cur = structure.manifest[i].path.as_str().as_bytes();
            match order_bytes(prev, cur) {
                PathOrder::Before => {
                    assert forall|a: int, b: int| 0 <= a < b < i + 1 implies bytes_lt(
                        path_bytes(m[a].path),
                        path_bytes(m[b].path),
                    ) by {
                        if b == i && a < i - 1 {
                            lemma_bytes_lt_transitive(
                                path_bytes(m[a].path),
                                path_bytes(m[i - 1].path),
                                path_bytes(m[b].path),
                            );
                        }
                    }
                },
                _ => {
                    proof {
                        if entries_sorted(m) {
                            assert(bytes_lt(path_bytes(m[i - 1].path), path_bytes(m[i as int].path)));
                            lemma_bytes_lt_irreflexive(prev@);
                            lemma_bytes_lt_asymmetric(prev@, cur@);
                        }
                    }
                    return false;
                },
            }
            i = i + 1;
        }
        true
    }

    /// Counts the distinct paths of the manifest.
    fn count_distinct(structure: &PakStructure) -> (r: usize)
        ensures
            r == manifest_paths(structure@.manifest).to_set().len(),
    {
        let ghost m = structure@.manifest;
        let ghost ps = manifest_paths(m);
        let n = structure.manifest.len();
        let mut count: usize = 0;
        let mut i: usize = 0;
        assert(ps.take(0).to_set() =~= Set::<Seq<char>>::empty());
        while i < n
            invariant
                m == structure@.manifest,
                ps == manifest_paths(m),
                n == m.len() == structure.manifest@.len(),
                i <= n,
                count == ps.take(i as int).to_set().len(),
                count <= i,
            decreases n - i,
        {
            assert(m[i as int] == structure.manifest@[i as int]@);
            let cur = structure.manifest[i].path.as_str().as_bytes();
            let mut j: usize = 0;
            let mut seen = false;
            while j < i && !seen
                invariant
                    m == structure@.manifest,
                    ps == manifest_paths(m),
                    n == m.len() == structure.manifest@.len(),
                    i < n,
                    j <= i,
                    cur@ == path_bytes(ps[i as int]),
                    seen ==> ps.take(i as int).to_set().contains(ps[i as int]),
                    !seen ==> forall|k: int| 0 <= k < j ==> ps[k] != ps[i as int],
                decreases i - j + (if seen { 0int } else { 1int }),
            {
                assert(m[j as int] == structure.manifest@[j as int]@);
                let other = structure.manifest[j].path.as_str().as_bytes();
                match order_bytes(other, cur) {
                    PathOrder::Same => {
                        proof {
                            lemma_path_bytes_injective(ps[j as int], ps[i as int]);
                            assert(ps.take(i as int)[j as int] == ps[i as int]);
                        }
                        seen = true;
                    },
                    _ => {
                        j = j + 1;
                    },
                }
            }
            proof {
                assert(ps.take(i + 1) =~= ps.take(i as int).push(ps[i as int]));
                assert(ps.take(i + 1).to_set() =~= ps.take(i as int).to_set().insert(ps[i as int]));
                if !seen {
                    assert(!ps.take(i as int).to_set().contains(ps[i as int]));
                }
            }
            if !seen {
                count = count + 1;
            }
            i = i + 1;
        }
        assert(ps.take(n as int) =~= ps);
        count
    }
}

} // verus!
