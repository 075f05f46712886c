//! The data the engine works on: manifest records of an archive, and the
//! observations the surrounding binary gathers from the filesystem.

use vstd::prelude::*;

verus! {

/// One record of an archive's manifest: a relative path inside the archive
/// and the entry's uncompressed size in bytes.
pub struct ArchiveEntry {
    pub filename: String,
    pub unpacked_size: u64,
}

/// What a metadata read of one destination file observed.
pub enum FileStat {
    /// The file does not exist.
    Missing,
    /// The file exists with this size in bytes.
    Present { size: u64 },
    /// The metadata read failed for a reason other than absence.
    ReadFailed,
}

/// One physical part of an archive on disk, with the time elapsed since its
/// last modification, in nanoseconds; `None` when the clock reading failed
/// (a modification time in the future).
pub struct PartStat {
    pub path: String,
    pub elapsed_nanos: Option<u128>,
}

/// A planned modification-time update: set the file at `path` to the
/// modification time `mtime_nanos` (nanoseconds since the epoch).
pub struct MtimeUpdate {
    pub path: String,
    pub mtime_nanos: u128,
}

/// The views of a sequence of strings.
pub open spec fn string_views(s: Seq<String>) -> Seq<Seq<char>> {
    s.map_values(|x: String| x@)
}

} // verus!
