//! What the format functions promise of each other: reading back what was written.

use vstd::bytes::*;
use vstd::prelude::*;
use vstd::seq_lib::*;
use vstd::utf8::*;

use crate::pakfile::{
    entries_sorted, find_last, known_codecs, known_metadata, lemma_find_last, manifest_paths,
    spec_get_entry,
};
use crate::serialization::deserializer::{
    decode_header, lemma_decode_header, parse_entries, parse_entry_at, spec_parse_manifest,
    spec_parse_metadata, spec_read_blob, spec_read_structure, StructureView,
};
use crate::serialization::compression::{lz4_content, lz4_frame, zstd_content, zstd_frame};
use crate::serialization::errors::PakError;
use crate::serialization::pakfile::{
    entry_bytes, from_le16, from_le64, header_bytes, header_fields_of, le16, le64,
    lemma_entry_bytes_len, lemma_header_bytes_len, lemma_le_lengths, lemma_meta_entry_bytes_len,
    magic_bytes, meta_entry_bytes, path_bytes, Codec, EntryView, Header, MetaEntry, MetaKey,
    PAKFILE_MAGIC,
};
use crate::serialization::path_order::{
    bytes_lt, lemma_bytes_lt_asymmetric, lemma_bytes_lt_irreflexive,
};
use crate::serialization::serializer::{
    blob_offset, build_outcome, files_sorted, has_path, manifest_image, manifest_len, metadata_entries,
    metadata_image, pak_image, paths_fit, staged_blobs, writer_wf, written_entries,
    written_header, StagedView, WriterView,
};

verus! {

broadcast use group_seq_properties;

/// The metadata set on a writer, as typed pairs in key order.
pub open spec fn set_metadata_pairs(m: Map<u16, u64>) -> Seq<(MetaKey, u64)> {
    (if m.contains_key(0) {
        seq![(MetaKey::ModifiedAt, m[0])]
    } else {
        seq![]
    }) + (if m.contains_key(1) {
        seq![(MetaKey::ToolId, m[1])]
    } else {
        seq![]
    })
}

/// Decoding an encoded integer gives it back.
pub proof fn lemma_le_roundtrip()
    ensures
        forall|v: u64| #[trigger] from_le64(le64(v)) == v,
        forall|v: u16| #[trigger] from_le16(le16(v)) == v,
{
    lemma_auto_spec_u64_to_from_le_bytes();
    lemma_auto_spec_u16_to_from_le_bytes();
    assert forall|v: u16| #[trigger] from_le16(le16(v)) == v by {
        assert(spec_u16_to_le_bytes(v).len() == 2);
    }
}

/// A header's bytes encode exactly its fields: parsing a header reads back what
/// `Header::to_bytes` wrote.
pub proof fn lemma_header_roundtrip(h: Header)
    ensures
        header_bytes(h).len() == 40,
        header_bytes(h).subrange(0, 4) == h.magic@,
        header_fields_of(header_bytes(h), h),
        decode_header(header_bytes(h)) == h,
{
    lemma_le_lengths();
    lemma_le_roundtrip();
    let b = header_bytes(h);
    assert(b.subrange(0, 4) =~= h.magic@);
    assert(b.subrange(4, 12) =~= le64(h.entry_count));
    assert(b.subrange(12, 20) =~= le64(h.data_offset));
    assert(b.subrange(20, 28) =~= le64(h.meta_offset));
    assert(b.subrange(28, 36) =~= le64(h.meta_count));
    assert(b.subrange(36, 38) =~= le16(h.manifest_size));
    assert(b.subrange(38, 40) =~= le16(h.reserved));
    lemma_decode_header(b, h);
}

/// A manifest entry whose path fits the 16-bit length field and whose codec is known
/// parses back from its bytes, wherever in the manifest they stand.
pub proof fn lemma_entry_roundtrip(b: Seq<u8>, pos: int, e: EntryView)
    requires
        0 <= pos,
        pos + entry_bytes(e).len() <= b.len(),
        b.subrange(pos, pos + entry_bytes(e).len()) == entry_bytes(e),
        path_bytes(e.path).len() <= 65535,
        e.codec <= 2,
    ensures
        parse_entry_at(b, pos) == Ok::<(EntryView, int), PakError>(
            (e, pos + entry_bytes(e).len()),
        ),
{
    lemma_le_lengths();
    lemma_le_roundtrip();
    lemma_entry_bytes_len(e);
    let eb = entry_bytes(e);
    let pb = path_bytes(e.path);
    assert forall|a: int, c: int| 0 <= a <= c <= eb.len() implies #[trigger] b.subrange(
        pos + a,
        pos + c,
    ) == eb.subrange(a, c) by {
        assert(b.subrange(pos + a, pos + c) =~= b.subrange(pos, pos + eb.len()).subrange(a, c));
    }
    assert(eb.subrange(0, 8) =~= le64(e.offset));
    assert(eb.subrange(8, 16) =~= le64(e.compressed_size));
    assert(eb.subrange(16, 24) =~= le64(e.original_size));
    assert(eb.subrange(25, 27) =~= le16(pb.len() as u16));
    assert(eb.subrange(27, 27 + pb.len() as int) =~= pb);
    assert(b[pos + 24] == eb[24]);
    assert(b.subrange(pos, pos + 8) == eb.subrange(0, 8));
    assert(b.subrange(pos + 8, pos + 16) == eb.subrange(8, 16));
    assert(b.subrange(pos + 16, pos + 24) == eb.subrange(16, 24));
    assert(b.subrange(pos + 25, pos + 27) == eb.subrange(25, 27));
    assert(b.subrange(pos + 27, pos + 27 + pb.len()) == eb.subrange(27, 27 + pb.len() as int));
    encode_utf8_valid_utf8(e.path);
    encode_utf8_decode_utf8(e.path);
}

/// A metadata block parses back into the entries it was written from.
pub proof fn lemma_metadata_roundtrip(ms: Seq<MetaEntry>)
    requires
        ms.len() <= u64::MAX,
    ensures
        metadata_image(ms).len() == 10 * ms.len(),
        spec_parse_metadata(metadata_image(ms), ms.len() as u64) == Ok::<
            Seq<MetaEntry>,
            PakError,
        >(ms),
    decreases ms.len(),
{
    lemma_le_lengths();
    lemma_le_roundtrip();
    let img = metadata_image(ms);
    let parts = ms.map_values(|m: MetaEntry| meta_entry_bytes(m));
    if ms.len() == 0 {
        assert(parts =~= Seq::<Seq<u8>>::empty());
        assert(img =~= Seq::<u8>::empty());
        assert(spec_parse_metadata(img, 0)->Ok_0 =~= ms);
    } else {
        let init = ms.drop_last();
        lemma_metadata_roundtrip(init);
        assert(parts =~= init.map_values(|m: MetaEntry| meta_entry_bytes(m)).push(
            meta_entry_bytes(ms.last()),
        ));
        init.map_values(|m: MetaEntry| meta_entry_bytes(m)).lemma_flatten_push(
            meta_entry_bytes(ms.last()),
        );
        lemma_meta_entry_bytes_len(ms.last());
        let prev = metadata_image(init);
        assert(img =~= prev + meta_entry_bytes(ms.last()));
        let parsed = spec_parse_metadata(img, ms.len() as u64)->Ok_0;
        let parsed_prev = spec_parse_metadata(prev, init.len() as u64)->Ok_0;
        assert forall|i: int| 0 <= i < ms.len() implies parsed[i] == ms[i] by {
            if i < ms.len() - 1 {
                assert(img.subrange(10 * i, 10 * i + 2) =~= prev.subrange(10 * i, 10 * i + 2));
                assert(img.subrange(10 * i + 2, 10 * i + 10) =~= prev.subrange(
                    10 * i + 2,
                    10 * i + 10,
                ));
                assert(parsed_prev[i] == init[i]);
            } else {
                let last = meta_entry_bytes(ms.last());
                assert(img.subrange(10 * i, 10 * i + 2) =~= le16(ms.last().key));
                assert(img.subrange(10 * i + 2, 10 * i + 10) =~= le64(ms.last().value));
            }
        }
        assert(parsed =~= ms);
    }
}

/// A manifest's bytes split at any entry into the bytes of the entries before and
/// after it.
pub proof fn lemma_manifest_image_split(es: Seq<EntryView>, k: int)
    requires
        0 <= k < es.len(),
    ensures
        manifest_image(es) == manifest_image(es.take(k)) + manifest_image(es.skip(k)),
        manifest_image(es.take(k + 1)) == manifest_image(es.take(k)) + entry_bytes(es[k]),
{
    let f = |e: EntryView| entry_bytes(e);
    assert(es.map_values(f) =~= es.take(k).map_values(f) + es.skip(k).map_values(f));
    lemma_flatten_concat(es.take(k).map_values(f), es.skip(k).map_values(f));
    assert(es.take(k + 1).map_values(f) =~= es.take(k).map_values(f).push(entry_bytes(es[k])));
    es.take(k).map_values(f).lemma_flatten_push(entry_bytes(es[k]));
}

/// The first `k` entries of a manifest parse back from its bytes.
proof fn lemma_entries_prefix_roundtrip(es: Seq<EntryView>, k: nat)
    requires
        k <= es.len(),
        forall|i: int|
            0 <= i < es.len() ==> path_bytes((#[trigger] es[i]).path).len() <= 65535 && es[i].codec
                <= 2,
    ensures
        parse_entries(manifest_image(es), k) == Ok::<
            (Seq<EntryView>, int),
            PakError,
        >((es.take(k as int), manifest_image(es.take(k as int)).len() as int)),
    decreases k,
{
    let img = manifest_image(es);
    if k == 0 {
        assert(es.take(0) =~= Seq::<EntryView>::empty());
        assert(es.take(0).map_values(|e: EntryView| entry_bytes(e)) =~= Seq::<Seq<u8>>::empty());
    } else {
        let j = (k - 1) as int;
        lemma_entries_prefix_roundtrip(es, (k - 1) as nat);
        lemma_manifest_image_split(es, j);
        let p = manifest_image(es.take(j)).len() as int;
        let eb = entry_bytes(es[j]);
        lemma_entry_bytes_len(es[j]);
        if k < es.len() {
            lemma_manifest_image_split(es, k as int);
            assert(img == manifest_image(es.take(k as int)) + manifest_image(es.skip(k as int)));
        } else {
            assert(es.take(k as int) =~= es);
        }
        assert(img.subrange(p, p + eb.len()) =~= eb);
        lemma_entry_roundtrip(img, p, es[j]);
        assert(es.take(j).push(es[j]) =~= es.take(k as int));
    }
}

/// A manifest whose paths fit the 16-bit length field and whose codecs are known
/// parses back from its bytes: the manifest read is the manifest written.
pub proof fn lemma_manifest_roundtrip(es: Seq<EntryView>)
    requires
        es.len() <= u64::MAX,
        forall|i: int|
            0 <= i < es.len() ==> path_bytes((#[trigger] es[i]).path).len() <= 65535 && es[i].codec
                <= 2,
    ensures
        spec_parse_manifest(manifest_image(es), es.len() as u64) == Ok::<
            Seq<EntryView>,
            PakError,
        >(es),
{
    lemma_entries_prefix_roundtrip(es, es.len());
    assert(es.take(es.len() as int) =~= es);
}

/// The magic constant spells `pkfs`.
pub proof fn lemma_magic()
    ensures
        PAKFILE_MAGIC@ == magic_bytes(),
{
    assert(PAKFILE_MAGIC@ =~= magic_bytes());
}

/// The manifest written for `files` has the size `manifest_len` gives, at least 27
/// bytes per file.
pub proof fn lemma_manifest_len(files: Seq<StagedView>, blobs: Seq<Seq<u8>>)
    requires
        blobs.len() == files.len(),
    ensures
        manifest_image(written_entries(files, blobs)).len() == manifest_len(files),
        manifest_len(files) >= 27 * files.len(),
    decreases files.len(),
{
    let es = written_entries(files, blobs);
    if files.len() == 0 {
        assert(es.map_values(|e: EntryView| entry_bytes(e)) =~= Seq::<Seq<u8>>::empty());
    } else {
        let n = files.len() - 1;
        let init = files.drop_last();
        let binit = blobs.drop_last();
        lemma_manifest_len(init, binit);
        assert forall|j: int| 0 <= j < n implies binit.take(j) =~= blobs.take(j) by {}
        assert(written_entries(init, binit) =~= es.take(n));
        lemma_manifest_image_split(es, n);
        assert(es.take(n + 1) =~= es);
        lemma_entry_bytes_len(es[n]);
    }
}

/// Reading the structure of a written pak gives back the header, manifest and
/// metadata that were written: the files in path order with their blob positions,
/// sizes and codecs, and the metadata pairs in key order.
pub proof fn lemma_read_after_write(w: WriterView, blobs: Seq<Seq<u8>>)
    requires
        paths_fit(w.files),
        manifest_len(w.files) <= 65535,
        blobs.len() == w.files.len(),
    ensures
        spec_read_structure(pak_image(w, blobs)) == Ok::<
            StructureView,
            PakError,
        >(
            StructureView {
                header: written_header(
                    w.files.len(),
                    manifest_len(w.files) as nat,
                    metadata_entries(w).len(),
                ),
                manifest: written_entries(w.files, blobs),
                metadata: metadata_entries(w),
            },
        ),
{
    let files = w.files;
    let es = written_entries(files, blobs);
    let man = manifest_image(es);
    let ms = metadata_entries(w);
    let meta = metadata_image(ms);
    lemma_manifest_len(files, blobs);
    let ml = man.len() as int;
    let h = written_header(files.len(), ml as nat, ms.len());
    let b = pak_image(w, blobs);
    lemma_header_roundtrip(h);
    lemma_magic();
    lemma_metadata_roundtrip(ms);
    assert(forall|i: int|
        0 <= i < es.len() ==> path_bytes((#[trigger] es[i]).path).len() <= 65535 && es[i].codec
            <= 2) by {
        assert forall|i: int| 0 <= i < es.len() implies path_bytes((#[trigger] es[i]).path).len()
            <= 65535 && es[i].codec <= 2 by {
            assert(es[i].path == files[i].path);
        }
    }
    lemma_manifest_roundtrip(es);
    let hb = header_bytes(h);
    assert(b.subrange(0, 40) =~= hb);
    assert(b.subrange(0, 4) =~= hb.subrange(0, 4));
    assert(b.subrange(38, 40) =~= hb.subrange(38, 40));
    assert(b.subrange(40, 40 + ml) =~= man);
    assert(b.subrange(40 + ml, 40 + ml + 10 * ms.len()) =~= meta);
}

/// Blob `i` sits in the packed blobs right after the blobs before it.
pub proof fn lemma_blob_in_flatten(blobs: Seq<Seq<u8>>, i: int)
    requires
        0 <= i < blobs.len(),
    ensures
        blob_offset(blobs, i) + blobs[i].len() <= blobs.flatten().len(),
        blobs.flatten().subrange(blob_offset(blobs, i), blob_offset(blobs, i) + blobs[i].len())
            == blobs[i],
{
    lemma_flatten_concat(blobs.take(i), blobs.skip(i));
    assert(blobs =~= blobs.take(i) + blobs.skip(i));
    let rest = blobs.skip(i);
    assert(rest.first() == blobs[i]);
    assert(rest.flatten() == rest.first() + rest.drop_first().flatten());
    let pre = blobs.take(i).flatten();
    assert(blobs.flatten() == pre + (blobs[i] + rest.drop_first().flatten()));
    assert(blobs.flatten().subrange(pre.len() as int, (pre.len() + blobs[i].len()) as int) =~= blobs[i]);
}

/// Decoding only depends on the codec kind, which the codec id keeps.
pub proof fn lemma_codec_id_decode(c: Codec, blob: Seq<u8>)
    ensures
        Codec::spec_from_id(c.spec_id()) is Some,
        Codec::spec_from_id(c.spec_id())->Some_0.spec_decode(blob) == c.spec_decode(blob),
{
}

/// In a written pak, every staged path resolves to its own entry, every other path
/// to none, the entries are sorted by path with known codecs, and the known
/// metadata is the metadata that was set.
pub proof fn lemma_lookup_after_write(w: WriterView, blobs: Seq<Seq<u8>>, p: Seq<char>)
    requires
        writer_wf(w),
        paths_fit(w.files),
        manifest_len(w.files) <= 65535,
        blobs.len() == w.files.len(),
    ensures
        ({
            let v = spec_read_structure(pak_image(w, blobs))->Ok_0;
            &&& spec_read_structure(pak_image(w, blobs)) is Ok
            &&& known_codecs(v.manifest)
            &&& entries_sorted(v.manifest)
            &&& manifest_paths(v.manifest) == w.files.map_values(|f: StagedView| f.path)
            &&& manifest_paths(v.manifest).to_set().len() == w.files.len()
            &&& known_metadata(v.metadata) == set_metadata_pairs(w.metadata)
            &&& forall|i: int|
                0 <= i < w.files.len() && (#[trigger] w.files[i]).path == p ==> find_last(
                    v.manifest,
                    p,
                ) == Some(i)
            &&& !has_path(w.files, p) ==> find_last(v.manifest, p) is None
        }),
{
    lemma_read_after_write(w, blobs);
    let v = spec_read_structure(pak_image(w, blobs))->Ok_0;
    let m = v.manifest;
    let files = w.files;
    assert forall|j: int| 0 <= j < m.len() implies (#[trigger] m[j]).path == files[j].path
        && m[j].codec <= 2 by {}
    assert(manifest_paths(m) =~= files.map_values(|f: StagedView| f.path));
    assert forall|a: int, b: int|
        0 <= a < m.len() && 0 <= b < m.len() && a != b implies manifest_paths(m)[a]
        != manifest_paths(m)[b] by {
        if manifest_paths(m)[a] == manifest_paths(m)[b] {
            lemma_bytes_lt_irreflexive(path_bytes(files[a].path));
        }
    }
    manifest_paths(m).unique_seq_to_set();
    lemma_find_last(m, p);
    assert forall|i: int| 0 <= i < files.len() && (#[trigger] files[i]).path == p implies find_last(
        m,
        p,
    ) == Some(i) by {
        assert(m[i].path == p);
        match find_last(m, p) {
            Some(k) => {
                if k != i {
                    lemma_bytes_lt_irreflexive(path_bytes(p));
                    assert(m[k].path == p);
                    if k < i {
                        assert(bytes_lt(path_bytes(files[k].path), path_bytes(files[i].path)));
                    } else {
                        assert(bytes_lt(path_bytes(files[i].path), path_bytes(files[k].path)));
                    }
                }
            },
            None => {},
        }
    }
    if !has_path(files, p) {
        match find_last(m, p) {
            Some(k) => {
                assert(files[k].path == p);
            },
            None => {},
        }
    }
    let md = v.metadata;
    let expected = set_metadata_pairs(w.metadata);
    assert(known_metadata(md) =~= expected) by {
        reveal_with_fuel(known_metadata, 3);
        if md.len() == 2 {
            assert(md.drop_last().drop_last() =~= Seq::<MetaEntry>::empty());
        } else if md.len() == 1 {
            assert(md.drop_last() =~= Seq::<MetaEntry>::empty());
        }
    }
}

/// Getting a staged file from a written pak gives back exactly the bytes that were
/// staged, provided every blob decodes to its file's contents (which is what
/// `PakWriter::into_bytes` guarantees of the blobs it writes).
pub proof fn lemma_get_after_write(w: WriterView, blobs: Seq<Seq<u8>>, i: int)
    requires
        writer_wf(w),
        paths_fit(w.files),
        manifest_len(w.files) <= 65535,
        blobs.len() == w.files.len(),
        forall|j: int|
            0 <= j < w.files.len() ==> w.files[j].codec.spec_decode(#[trigger] blobs[j]) == Some(
                w.files[j].data,
            ),
        pak_image(w, blobs).len() <= u64::MAX,
        0 <= i < w.files.len(),
    ensures
        ({
            let image = pak_image(w, blobs);
            let v = spec_read_structure(image)->Ok_0;
            &&& find_last(v.manifest, w.files[i].path) == Some(i)
            &&& spec_get_entry(v, image, i) == Ok::<Seq<u8>, PakError>(
                w.files[i].data,
            )
        }),
{
    lemma_read_after_write(w, blobs);
    lemma_lookup_after_write(w, blobs, w.files[i].path);
    let image = pak_image(w, blobs);
    let v = spec_read_structure(image)->Ok_0;
    let m = v.manifest;
    let h = v.header;
    let files = w.files;
    let ml = manifest_len(files);
    let ms = metadata_entries(w);
    lemma_manifest_len(files, blobs);
    lemma_header_bytes_len(h);
    lemma_metadata_roundtrip(ms);
    let prefix = header_bytes(written_header(files.len(), ml as nat, ms.len())) + manifest_image(
        written_entries(files, blobs),
    ) + metadata_image(ms);
    assert(prefix.len() == 40 + ml + 10 * ms.len());
    assert(image == prefix + blobs.flatten());
    lemma_blob_in_flatten(blobs, i);
    let off = blob_offset(blobs, i);
    let blob = blobs[i];
    assert(h.data_offset == 40 + ml + 10 * ms.len());
    assert(m[i].offset == off);
    assert(m[i].compressed_size == blob.len());
    let start = h.data_offset + m[i].offset;
    assert(start + blob.len() <= image.len());
    if blob.len() == 0 {
        assert(blob =~= Seq::<u8>::empty());
    } else {
        assert(image.subrange(start, start + blob.len()) =~= blobs.flatten().subrange(
            off,
            off + blob.len(),
        ));
    }
    assert(spec_read_blob(h, m[i], image) == Ok::<Seq<u8>, PakError>(
        blob,
    ));
    lemma_codec_id_decode(files[i].codec, blob);
}

/// Reading a codec back from its id gives the same kind of codec (levels are not
/// stored and read back as 0), and every known id is the id of the codec it reads as.
pub proof fn lemma_codec_id_roundtrip(c: Codec, id: u8)
    ensures
        Codec::spec_from_id(c.spec_id()) == Some(
            match c {
                Codec::Raw => Codec::Raw,
                Codec::Zstd(_) => Codec::Zstd(0),
                Codec::Lz4(_) => Codec::Lz4(0),
            },
        ),
        Codec::spec_from_id(id) is Some <==> id <= 2,
        Codec::spec_from_id(id) matches Some(k) ==> k.spec_id() == id,
{
}

/// Reading a metadata key back from its id gives the same key, and every known id
/// is the id of the key it reads as.
pub proof fn lemma_meta_key_id_roundtrip(k: MetaKey, id: u16)
    ensures
        MetaKey::spec_from_id(k.spec_id()) == Some(k),
        MetaKey::spec_from_id(id) is Some <==> id <= 1,
        MetaKey::spec_from_id(id) matches Some(x) ==> x.spec_id() == id,
{
}

/// The files of a writer are determined by which files were staged, whatever the
/// order they were added in: two path-sorted file lists with the same members are
/// the same list, so they produce the same pak bytes.
pub proof fn lemma_staging_order_irrelevant(a: Seq<StagedView>, b: Seq<StagedView>)
    requires
        files_sorted(a),
        files_sorted(b),
        a.to_set() == b.to_set(),
    ensures
        a == b,
    decreases a.len(),
{
    if a.len() == 0 {
        if b.len() > 0 {
            assert(b.to_set().contains(b[0]));
        }
        assert(a =~= b);
    } else if b.len() == 0 {
        assert(a.to_set().contains(a[0]));
    } else {
        assert(a.to_set().contains(a[0]));
        assert(b.to_set().contains(b[0]));
        let j = choose|j: int| 0 <= j < b.len() && b[j] == a[0];
        let k = choose|k: int| 0 <= k < a.len() && a[k] == b[0];
        if j != 0 {
            assert(bytes_lt(path_bytes(b[0].path), path_bytes(b[j].path)));
            if k != 0 {
                assert(bytes_lt(path_bytes(a[0].path), path_bytes(a[k].path)));
                lemma_bytes_lt_asymmetric(
                    path_bytes(a[0].path),
                    path_bytes(b[0].path),
                );
            } else {
                lemma_bytes_lt_irreflexive(path_bytes(b[0].path));
            }
        }
        assert(a[0] == b[0]);
        let a1 = a.drop_first();
        let b1 = b.drop_first();
        assert(a1.to_set() =~= a.to_set().remove(a[0])) by {
            assert forall|x: StagedView| a1.to_set().contains(x) implies x != a[0] by {
                let t = choose|t: int| 0 <= t < a1.len() && a1[t] == x;
                assert(a[t + 1] == x);
                lemma_bytes_lt_irreflexive(path_bytes(x.path));
            }
            assert forall|x: StagedView| a.to_set().contains(x) && x != a[0] implies a1.to_set().contains(x) by {
                let t = choose|t: int| 0 <= t < a.len() && a[t] == x;
                assert(a1[t - 1] == x);
            }
        }
        assert(b1.to_set() =~= b.to_set().remove(b[0])) by {
            assert forall|x: StagedView| b1.to_set().contains(x) implies x != b[0] by {
                let t = choose|t: int| 0 <= t < b1.len() && b1[t] == x;
                assert(b[t + 1] == x);
                lemma_bytes_lt_irreflexive(path_bytes(x.path));
            }
            assert forall|x: StagedView| b.to_set().contains(x) && x != b[0] implies b1.to_set().contains(x) by {
                let t = choose|t: int| 0 <= t < b.len() && b[t] == x;
                assert(b1[t - 1] == x);
            }
        }
        lemma_staging_order_irrelevant(a1, b1);
        assert(a =~= b) by {
            assert forall|t: int| 0 <= t < a.len() implies a[t] == b[t] by {
                if t > 0 {
                    assert(a[t] == a1[t - 1]);
                    assert(b[t] == b1[t - 1]);
                }
            }
        }
    }
}

/// A file stored raw is stored verbatim: its blob is its contents, and its entry's
/// stored size equals its original size.
pub proof fn lemma_raw_entries_verbatim(files: Seq<StagedView>, i: int)
    requires
        0 <= i < files.len(),
        files[i].codec is Raw,
    ensures
        staged_blobs(files)[i] == files[i].data,
        written_entries(files, staged_blobs(files))[i].compressed_size == written_entries(
            files,
            staged_blobs(files),
        )[i].original_size,
{
}

/// Builds are reproducible: two writers that staged the same files (in whatever
/// order) and set the same metadata produce the same pak, or fail the same way.
pub proof fn lemma_reproducible_build(a: WriterView, b: WriterView)
    requires
        writer_wf(a),
        writer_wf(b),
        a.files.to_set() == b.files.to_set(),
        a.metadata == b.metadata,
    ensures
        build_outcome(a) == build_outcome(b),
{
    lemma_staging_order_irrelevant(a.files, b.files);
    assert(a == b);
}

/// Each codec is its own library: the blob stored for a zstd codec is the zstd
/// frame of the contents at that level, the blob stored for an LZ4 codec is the LZ4
/// frame, and raw contents are stored as they are. On reading, codec id 0 gives the
/// blob itself, id 1 decodes it as a zstd frame and id 2 as an LZ4 frame.
pub proof fn lemma_codec_libraries(data: Seq<u8>, blob: Seq<u8>, level: u8)
    ensures
        Codec::Raw.spec_encode(data) == Some(data),
        Codec::Zstd(level).spec_encode(data) == zstd_frame(data, level as i32),
        Codec::Lz4(level).spec_encode(data) == lz4_frame(data, level as u32),
        Codec::spec_from_id(0)->Some_0.spec_decode(blob) == Some(blob),
        Codec::spec_from_id(1)->Some_0.spec_decode(blob) == zstd_content(blob),
        Codec::spec_from_id(2)->Some_0.spec_decode(blob) == lz4_content(blob),
        Codec::Raw.spec_id() == 0,
        Codec::Zstd(level).spec_id() == 1,
        Codec::Lz4(level).spec_id() == 2,
{
}

/// The typed metadata of a pak is its stored pairs with a known key id (0 or 1), in
/// stored order, each key mapped to its `MetaKey`; pairs with any other key are
/// skipped and change nothing else.
pub proof fn lemma_known_metadata_filters(md: Seq<MetaEntry>)
    ensures
        known_metadata(md) == md.filter(|e: MetaEntry| e.key <= 1).map_values(
            |e: MetaEntry|
                (
                    if e.key == 0 {
                        MetaKey::ModifiedAt
                    } else {
                        MetaKey::ToolId
                    },
                    e.value,
                ),
        ),
    decreases md.len(),
{
    reveal(Seq::filter);
    if md.len() > 0 {
        lemma_known_metadata_filters(md.drop_last());
    } else {
        assert(md.filter(|e: MetaEntry| e.key <= 1) =~= seq![]);
    }
}

/// A stored pair with an unknown key leaves the typed metadata as it was, and one
/// with a known key adds exactly that pair at the end.
pub proof fn lemma_known_metadata_append(md: Seq<MetaEntry>, e: MetaEntry)
    ensures
        e.key > 1 ==> known_metadata(md.push(e)) == known_metadata(md),
        e.key == 0 ==> known_metadata(md.push(e)) == known_metadata(md).push(
            (MetaKey::ModifiedAt, e.value),
        ),
        e.key == 1 ==> known_metadata(md.push(e)) == known_metadata(md).push(
            (MetaKey::ToolId, e.value),
        ),
{
    assert(md.push(e).drop_last() =~= md);
}

/// Every file of a written pak keeps its own sizes: the manifest read back from the
/// pak records, for the file at index `i`, the length of its staged contents as the
/// original size and the length of its stored blob as the compressed size, under
/// its codec's id, whatever that codec is.
pub proof fn lemma_written_sizes(w: WriterView, blobs: Seq<Seq<u8>>, i: int)
    requires
        paths_fit(w.files),
        manifest_len(w.files) <= 65535,
        blobs.len() == w.files.len(),
        0 <= i < w.files.len(),
        w.files[i].data.len() <= u64::MAX,
        blobs[i].len() <= u64::MAX,
    ensures
        written_entries(w.files, blobs)[i].original_size == w.files[i].data.len(),
        written_entries(w.files, blobs)[i].compressed_size == blobs[i].len(),
        spec_read_structure(pak_image(w, blobs)) is Ok,
        spec_read_structure(pak_image(w, blobs))->Ok_0.manifest[i].original_size
            == w.files[i].data.len(),
        spec_read_structure(pak_image(w, blobs))->Ok_0.manifest[i].compressed_size
            == blobs[i].len(),
        spec_read_structure(pak_image(w, blobs))->Ok_0.manifest[i].codec
            == w.files[i].codec.spec_id(),
        spec_read_structure(pak_image(w, blobs))->Ok_0.manifest[i].path == w.files[i].path,
{
    lemma_read_after_write(w, blobs);
}

} // verus!
