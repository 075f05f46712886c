use unarchive_queue::checker::is_already_extracted;
use unarchive_queue::manifest::ArchiveEntry;
use unarchive_queue::manifest::FileStat;
use unarchive_queue::manifest::PartStat;
use unarchive_queue::paths::parent_dir_of;
use unarchive_queue::queue::cruft_patterns;
use unarchive_queue::queue::UnarchiveQueue;

const HOUR_NANOS: u128 = 3_600 * 1_000_000_000;

fn entry(name: &str, size: u64) -> ArchiveEntry {
    ArchiveEntry { filename: name.to_string(), unpacked_size: size }
}

fn part(path: &str, elapsed: Option<u128>) -> PartStat {
    PartStat { path: path.to_string(), elapsed_nanos: elapsed }
}

#[test]
fn discovery_enqueues_only_root_archives() {
    let mut q = UnarchiveQueue::new(false, None);
    let paths = vec![
        "dl/show.part01.rar".to_string(),
        "dl/show.part02.rar".to_string(),
        "dl/other.rar".to_string(),
        "dl/notes.txt".to_string(),
    ];
    q.enqueue_root_archives(&paths);
    assert_eq!(q.process_next(), Some("dl/show.part01.rar".to_string()));
    assert_eq!(q.process_next(), Some("dl/other.rar".to_string()));
    assert_eq!(q.process_next(), None);
}

#[test]
fn multipart_archive_extracts_into_its_own_directory() {
    // directory holds show.part01.rar and show.part02.rar, nothing extracted,
    // no retention policy
    let mut q = UnarchiveQueue::new(false, None);
    let paths = vec![
        "dl/show.part01.rar".to_string(),
        "dl/show.part02.rar".to_string(),
    ];
    q.enqueue_root_archives(&paths);
    let next = q.process_next().expect("one root archive pending");
    assert_eq!(next, "dl/show.part01.rar");
    let dest = parent_dir_of(&next);
    assert_eq!(dest, "dl");

    // manifest of the archive: episode.mp4, 1000 bytes; not yet on disk
    let entries = vec![entry("episode.mp4", 1000)];
    let before = vec![FileStat::Missing];
    assert_eq!(is_already_extracted(&entries, &before), Ok(false));

    // after extraction the destination holds a size-matching copy
    let after = vec![FileStat::Present { size: 1000 }];
    assert_eq!(is_already_extracted(&entries, &after), Ok(true));

    // no nested archives, and without a policy no part is ever removed
    let updates = q.enqueue_nested(&entries, &dest, 7 * HOUR_NANOS);
    assert!(updates.is_empty());
    let parts = vec![
        part("dl/show.part01.rar", Some(2 * HOUR_NANOS)),
        part("dl/show.part02.rar", Some(2 * HOUR_NANOS)),
    ];
    assert!(q.parts_to_remove(&parts).is_empty());
    assert_eq!(q.process_next(), None);
}

#[test]
fn second_run_skips_extraction() {
    // idempotence: a run that finds size-matching copies of every entry
    // decides "already extracted" and plans nothing new
    let entries = vec![entry("episode.mp4", 1000), entry("extra/cut.mp4", 50)];
    let extracted = vec![
        FileStat::Present { size: 1000 },
        FileStat::Present { size: 50 },
    ];
    assert_eq!(is_already_extracted(&entries, &extracted), Ok(true));
    assert_eq!(is_already_extracted(&entries, &extracted), Ok(true));
}

#[test]
fn nested_archive_is_enqueued_and_processed() {
    // show.rar's manifest includes bonus.rar: it is enqueued behind the
    // remaining work and later processed as its own archive
    let mut q = UnarchiveQueue::new(false, None);
    let entries = vec![entry("episode.mp4", 1000), entry("bonus.rar", 2000)];
    let updates = q.enqueue_nested(&entries, "dl", 5 * HOUR_NANOS);
    assert_eq!(updates.len(), 1);
    assert_eq!(updates[0].path, "dl/bonus.rar");
    assert_eq!(q.process_next(), Some("dl/bonus.rar".to_string()));
    assert_eq!(q.process_next(), None);
}

#[test]
fn nested_archive_gets_the_container_timestamp() {
    // the planned modification time is the container's pre-processing one,
    // not the moment of extraction
    let mut q = UnarchiveQueue::new(false, None);
    let container_mtime: u128 = 123_456_789_000;
    let entries = vec![
        entry("sub/inner.part1.rar", 10),
        entry("sub/inner.part2.rar", 10),
        entry("readme.txt", 5),
    ];
    let updates = q.enqueue_nested(&entries, "dl/box", container_mtime);
    assert_eq!(updates.len(), 1);
    assert_eq!(updates[0].path, "dl/box/sub/inner.part1.rar");
    assert_eq!(updates[0].mtime_nanos, container_mtime);
}

#[test]
fn retention_removes_only_parts_strictly_older() {
    // threshold 24 hours: two parts 48 hours old go, one 1 hour old stays
    let threshold = 24 * HOUR_NANOS;
    let q = UnarchiveQueue::new(false, Some(threshold));
    let parts = vec![
        part("dl/archive.rar", Some(48 * HOUR_NANOS)),
        part("dl/archive.r00", Some(48 * HOUR_NANOS)),
        part("dl/archive.r01", Some(1 * HOUR_NANOS)),
    ];
    let removed = q.parts_to_remove(&parts);
    assert_eq!(
        removed,
        vec!["dl/archive.rar".to_string(), "dl/archive.r00".to_string()]
    );
}

#[test]
fn retention_boundaries() {
    let threshold = 24 * HOUR_NANOS;
    let q = UnarchiveQueue::new(false, Some(threshold));
    // age equal to the threshold is kept; one past it goes; a failed clock
    // reading counts as age zero and is kept
    assert!(!q.should_remove(Some(threshold), threshold));
    assert!(q.should_remove(Some(threshold + 1), threshold));
    assert!(!q.should_remove(None, threshold));
    assert!(!q.should_remove(Some(0), threshold));
}

#[test]
fn dry_run_plans_the_same_decisions() {
    let threshold = 24 * HOUR_NANOS;
    let mut wet = UnarchiveQueue::new(false, Some(threshold));
    let mut dry = UnarchiveQueue::new(true, Some(threshold));
    assert!(!wet.dry_run());
    assert!(dry.dry_run());

    let paths = vec!["dl/a.rar".to_string(), "dl/b.part03.rar".to_string()];
    wet.enqueue_root_archives(&paths);
    dry.enqueue_root_archives(&paths);

    let entries = vec![entry("inner.rar", 7)];
    let wet_updates = wet.enqueue_nested(&entries, "dl", 99);
    let dry_updates = dry.enqueue_nested(&entries, "dl", 99);
    assert_eq!(wet_updates.len(), dry_updates.len());
    assert_eq!(wet_updates[0].path, dry_updates[0].path);
    assert_eq!(wet_updates[0].mtime_nanos, dry_updates[0].mtime_nanos);

    let parts = vec![
        part("dl/a.rar", Some(48 * HOUR_NANOS)),
        part("dl/a.r00", Some(1 * HOUR_NANOS)),
    ];
    assert_eq!(wet.parts_to_remove(&parts), dry.parts_to_remove(&parts));

    loop {
        let a = wet.process_next();
        let b = dry.process_next();
        assert_eq!(a, b);
        if a.is_none() {
            break;
        }
    }
}

#[test]
fn queue_keeps_discovery_order_and_does_not_deduplicate() {
    let mut q = UnarchiveQueue::new(false, None);
    let paths = vec!["dl/a.rar".to_string(), "dl/a.rar".to_string()];
    q.enqueue_root_archives(&paths);
    assert_eq!(q.process_next(), Some("dl/a.rar".to_string()));
    assert_eq!(q.process_next(), Some("dl/a.rar".to_string()));
    assert_eq!(q.process_next(), None);
}

#[test]
fn cruft_families() {
    let (volumes, sidecars) = cruft_patterns();
    assert_eq!(volumes, "**/*.r??");
    assert_eq!(sidecars, "**/*.sfv");
}

#[test]
fn retention_is_disabled_without_a_policy() {
    let q = UnarchiveQueue::new(false, None);
    assert_eq!(q.remove_after(), None);
    let parts = vec![part("dl/old.rar", Some(1_000_000 * HOUR_NANOS))];
    assert!(q.parts_to_remove(&parts).is_empty());
}
