//! The in-memory form of the first pak layout: a versioned header listing the files,
//! followed by their data.

use vstd::prelude::*;

verus! {

/// The magic for a pak file, used to validate the header; the first 4 bytes of a pak file.
pub const PAKFILE_MAGIC: [u8; 4] = [112, 107, 102, 115];

/// This is the format for a pak file header.
#[derive(Debug)]
pub struct PakFileHeader {
    /// This should always be "pkfs" (not null-terminated)
    magic: [u8; 4],
    /// Version of the pak file
    version: u32,
    /// The ID for the pak file; these should be unique for each pak file that you intend on loading
    id: u64,
    /// The number of files in the pak file
    entry_count: u64,
    /// List of all files in the pak file
    manifest: Vec<ManifestEntry>,
}

impl PakFileHeader {
    /// The header's magic bytes.
    pub closed spec fn spec_magic(&self) -> Seq<u8> {
        self.magic@
    }

    /// The header's version.
    pub closed spec fn spec_version(&self) -> u32 {
        self.version
    }

    /// The header's pak id.
    pub closed spec fn spec_id(&self) -> u64 {
        self.id
    }

    /// The header's entry count.
    pub closed spec fn spec_entry_count(&self) -> u64 {
        self.entry_count
    }

    /// The number of files the header lists.
    pub closed spec fn spec_manifest_len(&self) -> nat {
        self.manifest@.len()
    }
}

impl Default for PakFileHeader {
    /// An empty version-1 header with id 0.
    fn default() -> (r: Self)
        ensures
            r.spec_magic() == seq![112u8, 107u8, 102u8, 115u8],
            r.spec_version() == 1,
            r.spec_id() == 0,
            r.spec_entry_count() == 0,
            r.spec_manifest_len() == 0,
    {
        let r = PakFileHeader {
            magic: PAKFILE_MAGIC,
            version: 1,
            id: 0,
            entry_count: 0,
            manifest: Vec::new(),
        };
        assert(r.magic@ =~= seq![112u8, 107u8, 102u8, 115u8]);
        r
    }
}

/// The data region of a pak file.
#[derive(Debug)]
pub struct PakFileData {
    /// The files in the pak file
    data: [u8],
}

/// This represents the format for a manifest entry.
#[derive(Debug)]
pub struct ManifestEntry {
    /// The path to the file localized to the pak file
    file_path: String,
    /// The offset of the file stored in the pak file indexed from the start of the data portion
    file_offset: u64,
    /// The size of the file in bytes
    file_size: u64,
}

} // verus!
