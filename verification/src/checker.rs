//! The completeness check: size-only comparison of an archive's manifest
//! against its destination directory, the idempotence gate that makes
//! re-processing an already extracted archive cheap.

use vstd::prelude::*;
use crate::manifest::ArchiveEntry;
use crate::manifest::FileStat;

verus! {

/// A metadata read failed while checking the entry at `index`.
#[derive(Debug, PartialEq, Eq)]
pub struct CheckError {
    pub index: usize,
}

/// A destination file satisfies its manifest entry: present with the exact
/// uncompressed size.
pub open spec fn entry_ok(entry: ArchiveEntry, stat: FileStat) -> bool {
    match stat {
        FileStat::Present { size } => size == entry.unpacked_size,
        _ => false,
    }
}

/// The check walked the manifest from entry `i` on: the first missing or
/// size-mismatched entry decides `Ok(false)`, a failing metadata read decides
/// an error, and a fully matching tail decides `Ok(true)`.
pub open spec fn check_from(
    entries: Seq<ArchiveEntry>,
    stats: Seq<FileStat>,
    i: int,
) -> Result<bool, CheckError>
    decreases entries.len() - i,
{
    if i < 0 || i >= entries.len() {
        Ok(true)
    } else {
        match stats[i] {
            FileStat::ReadFailed => Err(CheckError { index: i as usize }),
            FileStat::Missing => Ok(false),
            FileStat::Present { size } => if size == entries[i].unpacked_size {
                check_from(entries, stats, i + 1)
            } else {
                Ok(false)
            },
        }
    }
}

/// What the completeness check returns on a whole manifest.
pub open spec fn check_spec(entries: Seq<ArchiveEntry>, stats: Seq<FileStat>) -> Result<
    bool,
    CheckError,
> {
    check_from(entries, stats, 0)
}

/// Whether the archive behind `entries` is already extracted, judged from the
/// observed state `stats` of each entry's destination file: `stats[i]` is
/// what a metadata read of the destination of `entries[i]` observed.
pub fn is_already_extracted(entries: &Vec<ArchiveEntry>, stats: &Vec<FileStat>) -> (r: Result<
    bool,
    CheckError,
>)
    requires
        entries@.len() == stats@.len(),
    ensures
        r == check_spec(entries@, stats@),
{
    let n = entries.len();
    let mut i: usize = 0;
    while i < n
        invariant
            n == entries@.len(),
            entries@.len() == stats@.len(),
            i <= n,
            check_spec(entries@, stats@) == check_from(entries@, stats@, i as int),
        decreases n - i,
    {
        match stats[i] {
            FileStat::ReadFailed => {
                return Err(CheckError { index: i });
            },
            FileStat::Missing => {
                return Ok(false);
            },
            FileStat::Present { size } => {
                if size != entries[i].unpacked_size {
                    return Ok(false);
                }
            },
        }
        i += 1;
    }
    Ok(true)
}

/// Idempotence gate: when every manifest entry already has a size-matching
/// destination file, the check reports extracted, so a repeated run performs
/// no second extraction.
pub proof fn lemma_check_complete(entries: Seq<ArchiveEntry>, stats: Seq<FileStat>, i: int)
    requires
        entries.len() == stats.len(),
        0 <= i <= entries.len(),
        forall|j: int| 0 <= j < entries.len() ==> entry_ok(#[trigger] entries[j], stats[j]),
    ensures
        check_from(entries, stats, i) == Result::<bool, CheckError>::Ok(true),
    decreases entries.len() - i,
{
    if i < entries.len() {
        assert(entry_ok(entries[i], stats[i]));
        lemma_check_complete(entries, stats, i + 1);
    }
}

/// The check is monotonic per entry: as long as no metadata read failed, one
/// missing or size-mismatched entry makes the whole check false, whatever the
/// other entries hold.
pub proof fn lemma_check_monotonic(entries: Seq<ArchiveEntry>, stats: Seq<FileStat>, bad: int)
    requires
        entries.len() == stats.len(),
        forall|j: int| 0 <= j < stats.len() ==> #[trigger] stats[j] != FileStat::ReadFailed,
        0 <= bad < entries.len(),
        !entry_ok(entries[bad], stats[bad]),
    ensures
        check_spec(entries, stats) == Result::<bool, CheckError>::Ok(false),
{
    lemma_check_monotonic_from(entries, stats, 0, bad);
}

proof fn lemma_check_monotonic_from(
    entries: Seq<ArchiveEntry>,
    stats: Seq<FileStat>,
    i: int,
    bad: int,
)
    requires
        entries.len() == stats.len(),
        forall|j: int| 0 <= j < stats.len() ==> #[trigger] stats[j] != FileStat::ReadFailed,
        0 <= i <= bad < entries.len(),
        !entry_ok(entries[bad], stats[bad]),
    ensures
        check_from(entries, stats, i) == Result::<bool, CheckError>::Ok(false),
    decreases entries.len() - i,
{
    if i < bad {
        if entry_ok(entries[i], stats[i]) {
            lemma_check_monotonic_from(entries, stats, i + 1, bad);
        }
    }
}

} // verus!
