//! The processing queue: a FIFO work list of pending archive paths together
//! with the run's configuration, and the decisions the engine takes while an
//! archive is processed — which discovered paths to enqueue, which nested
//! archives to enqueue and re-stamp, and which physical parts the retention
//! policy removes.

use vstd::prelude::*;
use std::collections::VecDeque;
use crate::classifier::is_root_rar_file;
use crate::classifier::is_root_rar_spec;
use crate::manifest::ArchiveEntry;
use crate::manifest::MtimeUpdate;
use crate::manifest::PartStat;
use crate::manifest::string_views;
use crate::paths::join_path;
use crate::paths::join_path_spec;

verus! {

/// Discovery keeps exactly the paths that name a root archive.
pub open spec fn root_path_pred() -> spec_fn(Seq<char>) -> bool {
    |p: Seq<char>| is_root_rar_spec(p)
}

/// A part is old enough to remove: its observed age strictly exceeds the
/// threshold. A failed clock reading counts as age zero and so never removes.
pub open spec fn should_remove_spec(elapsed_nanos: Option<u128>, remove_after_nanos: u128) -> bool {
    match elapsed_nanos {
        Some(e) => e > remove_after_nanos,
        None => false,
    }
}

pub open spec fn part_old_pred(threshold: u128) -> spec_fn(PartStat) -> bool {
    |p: PartStat| should_remove_spec(p.elapsed_nanos, threshold)
}

/// The paths the retention pass removes: nothing without a policy, and with
/// one, the path of every observed part strictly older than the threshold, in
/// observation order.
pub open spec fn removal_spec(retention: Option<u128>, parts: Seq<PartStat>) -> Seq<Seq<char>> {
    match retention {
        None => Seq::<Seq<char>>::empty(),
        Some(t) => parts.filter(part_old_pred(t)).map_values(|p: PartStat| p.path@),
    }
}

/// The nested root archives of a manifest, joined onto the destination
/// directory, in manifest order.
pub open spec fn nested_paths_spec(names: Seq<Seq<char>>, dest: Seq<char>) -> Seq<Seq<char>> {
    names.filter(root_path_pred()).map_values(|n: Seq<char>| join_path_spec(dest, n))
}

pub open spec fn entry_names(entries: Seq<ArchiveEntry>) -> Seq<Seq<char>> {
    entries.map_values(|e: ArchiveEntry| e.filename@)
}

pub open spec fn update_paths(updates: Seq<MtimeUpdate>) -> Seq<Seq<char>> {
    updates.map_values(|u: MtimeUpdate| u.path@)
}

/// Filtering one more element keeps the filtered prefix and appends the
/// element exactly when it satisfies the predicate.
pub proof fn lemma_filter_push<A>(s: Seq<A>, pred: spec_fn(A) -> bool, x: A)
    ensures
        s.push(x).filter(pred) == if pred(x) {
            s.filter(pred).push(x)
        } else {
            s.filter(pred)
        },
{
    reveal(Seq::filter);
    assert(s.push(x).drop_last() =~= s);
    assert(s.push(x).last() == x);
}

/// Every element of a filtered sequence comes from the sequence itself.
pub proof fn lemma_filter_elem_origin<A>(s: Seq<A>, pred: spec_fn(A) -> bool, i: int)
    requires
        0 <= i < s.filter(pred).len(),
    ensures
        exists|j: int| 0 <= j < s.len() && s.filter(pred)[i] == #[trigger] s[j],
    decreases s.len(),
{
    reveal(Seq::filter);
    if s.len() > 0 {
        let d = s.drop_last();
        if pred(s.last()) && i == s.filter(pred).len() - 1 {
            assert(s.filter(pred)[i] == s[s.len() - 1]);
        } else {
            lemma_filter_elem_origin(d, pred, i);
            let j = choose|j: int| 0 <= j < d.len() && d.filter(pred)[i] == #[trigger] d[j];
            assert(s.filter(pred)[i] == s[j]);
        }
    }
}

/// FIFO work list of pending archive paths, together with the run's
/// configuration: the dry-run flag and the optional retention threshold in
/// nanoseconds. Paths are enqueued by discovery and by nested-archive
/// discovery, and leave from the front, one per processing step.
pub struct UnarchiveQueue {
    dry_run: bool,
    remove_after: Option<u128>,
    queue: VecDeque<String>,
}

impl UnarchiveQueue {
    /// The run suppresses all filesystem mutation.
    pub closed spec fn is_dry_run(&self) -> bool {
        self.dry_run
    }

    /// The retention threshold in nanoseconds; `None` disables every
    /// age-based removal.
    pub closed spec fn retention(&self) -> Option<u128> {
        self.remove_after
    }

    /// The pending archive paths, front of the queue first.
    pub closed spec fn pending(&self) -> Seq<Seq<char>> {
        string_views(self.queue@)
    }

    pub fn new(dry_run: bool, remove_after: Option<u128>) -> (q: UnarchiveQueue)
        ensures
            q.is_dry_run() == dry_run,
            q.retention() == remove_after,
            q.pending() == Seq::<Seq<char>>::empty(),
    {
        let q = UnarchiveQueue { dry_run, remove_after, queue: VecDeque::new() };
        proof {
            assert(q.pending() =~= Seq::<Seq<char>>::empty());
        }
        q
    }

    /// Whether the run is a dry run; a dry run decides and reports exactly as
    /// a real one, and the caller executes nothing.
    pub fn dry_run(&self) -> (b: bool)
        ensures
            b == self.is_dry_run(),
    {
        self.dry_run
    }

    /// The configured retention threshold in nanoseconds, if any.
    pub fn remove_after(&self) -> (r: Option<u128>)
        ensures
            r == self.retention(),
    {
        self.remove_after
    }

    /// Discovery: append to the queue, in order, exactly those of the given
    /// paths whose file name classifies as a root archive.
    pub fn enqueue_root_archives(&mut self, paths: &Vec<String>)
        ensures
            final(self).is_dry_run() == old(self).is_dry_run(),
            final(self).retention() == old(self).retention(),
            final(self).pending() == old(self).pending() + string_views(paths@).filter(
                root_path_pred(),
            ),
    {
        let n = paths.len();
        let mut i: usize = 0;
        proof {
            assert(string_views(paths@.take(0)) =~= Seq::<Seq<char>>::empty());
            assert(string_views(paths@.take(0)).filter(root_path_pred())
                =~= Seq::<Seq<char>>::empty());
            assert(string_views(self.queue@) =~= string_views(self.queue@) + string_views(
                paths@.take(0),
            ).filter(root_path_pred()));
        }
        while i < n
            invariant
                n == paths@.len(),
                i <= n,
                self.dry_run == old(self).dry_run,
                self.remove_after == old(self).remove_after,
                string_views(self.queue@) == string_views(old(self).queue@) + string_views(
                    paths@.take(i as int),
                ).filter(root_path_pred()),
            decreases n - i,
        {
            let ghost pre = string_views(paths@.take(i as int));
            let ghost post = string_views(paths@.take(i as int + 1));
            proof {
                assert(post =~= pre.push(paths@[i as int]@));
                lemma_filter_push(pre, root_path_pred(), paths@[i as int]@);
            }
            let p = &paths[i];
            if is_root_rar_file(p.as_str()) {
                let ghost q0 = self.queue@;
                let item = p.clone();
                self.queue.push_back(item);
                proof {
                    assert(string_views(self.queue@) =~= string_views(q0).push(paths@[i as int]@));
                    assert(string_views(self.queue@) =~= string_views(old(self).queue@)
                        + post.filter(root_path_pred()));
                }
            } else {
                proof {
                    assert(string_views(self.queue@) =~= string_views(old(self).queue@)
                        + post.filter(root_path_pred()));
                }
            }
            i += 1;
        }
        proof {
            assert(paths@.take(n as int) =~= paths@);
        }
    }

    /// Take the next pending archive path, if any, off the front of the
    /// queue; the caller then runs that archive's processing steps.
    pub fn process_next(&mut self) -> (r: Option<String>)
        ensures
            final(self).is_dry_run() == old(self).is_dry_run(),
            final(self).retention() == old(self).retention(),
            old(self).pending().len() == 0 ==> r is None && final(self).pending() == old(
                self,
            ).pending(),
            old(self).pending().len() > 0 ==> (r matches Some(p) && p@ == old(self).pending()[0]
                && final(self).pending() == old(self).pending().drop_first()),
    {
        let r = self.queue.pop_front();
        proof {
            if old(self).queue@.len() > 0 {
                assert(string_views(self.queue@) =~= string_views(old(self).queue@).drop_first());
            }
        }
        r
    }

    /// Nested-archive discovery: for every manifest entry classified as a
    /// root archive, append its destination path to the tail of the queue and
    /// plan to set that file's modification time to the container's
    /// pre-processing modification time — never to the time of extraction —
    /// so that the nested archive ages with its container.
    pub fn enqueue_nested(
        &mut self,
        entries: &Vec<ArchiveEntry>,
        dest: &str,
        container_mtime_nanos: u128,
    ) -> (updates: Vec<MtimeUpdate>)
        ensures
            final(self).is_dry_run() == old(self).is_dry_run(),
            final(self).retention() == old(self).retention(),
            update_paths(updates@) == nested_paths_spec(entry_names(entries@), dest@),
            forall|k: int|
                0 <= k < updates@.len() ==> #[trigger] updates@[k].mtime_nanos
                    == container_mtime_nanos,
            final(self).pending() == old(self).pending() + update_paths(updates@),
    {
        let mut updates: Vec<MtimeUpdate> = Vec::new();
        let n = entries.len();
        let mut i: usize = 0;
        proof {
            assert(entry_names(entries@.take(0)) =~= Seq::<Seq<char>>::empty());
            assert(update_paths(updates@) =~= nested_paths_spec(
                entry_names(entries@.take(0)),
                dest@,
            ));
            assert(string_views(self.queue@) =~= string_views(self.queue@) + update_paths(
                updates@,
            ));
        }
        while i < n
            invariant
                n == entries@.len(),
                i <= n,
                self.dry_run == old(self).dry_run,
                self.remove_after == old(self).remove_after,
                update_paths(updates@) == nested_paths_spec(
                    entry_names(entries@.take(i as int)),
                    dest@,
                ),
                forall|k: int|
                    0 <= k < updates@.len() ==> #[trigger] updates@[k].mtime_nanos
                        == container_mtime_nanos,
                string_views(self.queue@) == string_views(old(self).queue@) + update_paths(
                    updates@,
                ),
            decreases n - i,
        {
            let ghost pre = entry_names(entries@.take(i as int));
            let ghost post = entry_names(entries@.take(i as int + 1));
            let ghost nm = entries@[i as int].filename@;
            proof {
                assert(post =~= pre.push(nm));
                lemma_filter_push(pre, root_path_pred(), nm);
            }
            let e = &entries[i];
            if is_root_rar_file(e.filename.as_str()) {
                let joined = join_path(dest, e.filename.as_str());
                let ghost q0 = self.queue@;
                let ghost u0 = updates@;
                self.queue.push_back(joined.clone());
                updates.push(MtimeUpdate { path: joined, mtime_nanos: container_mtime_nanos });
                proof {
                    assert(update_paths(updates@) =~= update_paths(u0).push(
                        join_path_spec(dest@, nm),
                    ));
                    assert(update_paths(updates@) =~= nested_paths_spec(post, dest@));
                    assert(string_views(self.queue@) =~= string_views(q0).push(
                        join_path_spec(dest@, nm),
                    ));
                    assert(string_views(self.queue@) =~= string_views(old(self).queue@)
                        + update_paths(updates@));
                }
            } else {
                proof {
                    assert(nested_paths_spec(post, dest@) =~= nested_paths_spec(pre, dest@));
                }
            }
            i += 1;
        }
        proof {
            assert(entries@.take(n as int) =~= entries@);
        }
        updates
    }

    /// Whether one part, observed this much after its last modification, is
    /// past the given retention threshold.
    pub fn should_remove(&self, elapsed_nanos: Option<u128>, remove_after_nanos: u128) -> (r: bool)
        ensures
            r == should_remove_spec(elapsed_nanos, remove_after_nanos),
    {
        match elapsed_nanos {
            Some(e) => e > remove_after_nanos,
            None => false,
        }
    }

    /// The retention pass over the observed physical parts of one archive:
    /// the paths to remove, in observation order. Without a retention policy
    /// nothing is ever selected.
    pub fn parts_to_remove(&self, parts: &Vec<PartStat>) -> (r: Vec<String>)
        ensures
            string_views(r@) == removal_spec(self.retention(), parts@),
    {
        let mut r: Vec<String> = Vec::new();
        match self.remove_after {
            None => {
                proof {
                    assert(string_views(r@) =~= removal_spec(self.retention(), parts@));
                }
                r
            },
            Some(t) => {
                let n = parts.len();
                let mut i: usize = 0;
                proof {
                    assert(parts@.take(0).filter(part_old_pred(t)) =~= Seq::<PartStat>::empty());
                    assert(string_views(r@) =~= removal_spec(Some(t), parts@.take(0)));
                }
                while i < n
                    invariant
                        n == parts@.len(),
                        i <= n,
                        self.remove_after == Some(t),
                        string_views(r@) == removal_spec(Some(t), parts@.take(i as int)),
                    decreases n - i,
                {
                    let ghost pre = parts@.take(i as int);
                    let ghost post = parts@.take(i as int + 1);
                    proof {
                        assert(post =~= pre.push(parts@[i as int]));
                        lemma_filter_push(pre, part_old_pred(t), parts@[i as int]);
                    }
                    if self.should_remove(parts[i].elapsed_nanos, t) {
                        let ghost r0 = r@;
                        r.push(parts[i].path.clone());
                        proof {
                            assert(string_views(r@) =~= string_views(r0).push(
                                parts@[i as int].path@,
                            ));
                            assert(string_views(r@) =~= removal_spec(Some(t), post));
                        }
                    } else {
                        proof {
                            assert(string_views(r@) =~= removal_spec(Some(t), post));
                        }
                    }
                    i += 1;
                }
                proof {
                    assert(parts@.take(n as int) =~= parts@);
                }
                r
            },
        }
    }
}

/// The two glob families the cruft sweeper prunes after the queue drains:
/// secondary volume files and checksum sidecar files under the scanned root.
pub fn cruft_patterns() -> (r: (String, String))
    ensures
        r.0@ == "**/*.r??"@,
        r.1@ == "**/*.sfv"@,
{
    (String::from_str("**/*.r??"), String::from_str("**/*.sfv"))
}

/// The path selected at position `i` of the retention pass comes from an
/// observed part whose age strictly exceeds the threshold.
pub open spec fn selected_from_old_part(threshold: u128, parts: Seq<PartStat>, i: int) -> bool {
    exists|j: int|
        0 <= j < parts.len() && removal_spec(Some(threshold), parts)[i]
            == #[trigger] parts[j].path@ && should_remove_spec(parts[j].elapsed_nanos, threshold)
}

/// Every path the retention pass selects belongs to an observed part whose
/// age strictly exceeds the threshold.
pub open spec fn retention_selects_only_old(threshold: u128, parts: Seq<PartStat>) -> bool {
    forall|i: int|
        0 <= i < removal_spec(Some(threshold), parts).len()
            ==> #[trigger] selected_from_old_part(threshold, parts, i)
}

/// The retention pass never removes a part whose observed age is at or under
/// the threshold, and selects the path of every part strictly older,
/// regardless of the archive's extraction outcome: every selected path comes
/// from a part that `should_remove_spec` accepts, and every accepted part's
/// path is selected. Without a policy nothing is selected.
pub proof fn lemma_retention_threshold(threshold: u128, parts: Seq<PartStat>)
    ensures
        retention_selects_only_old(threshold, parts),
        forall|j: int|
            0 <= j < parts.len() && should_remove_spec(
                #[trigger] parts[j].elapsed_nanos,
                threshold,
            ) ==> removal_spec(Some(threshold), parts).contains(parts[j].path@),
        removal_spec(None, parts) == Seq::<Seq<char>>::empty(),
{
    let pred = part_old_pred(threshold);
    let kept = parts.filter(pred);
    assert forall|i: int|
        0 <= i < removal_spec(Some(threshold), parts).len() implies #[trigger] selected_from_old_part(
        threshold,
        parts,
        i,
    ) by {
        lemma_filter_elem_origin(parts, pred, i);
        let j = choose|j: int| 0 <= j < parts.len() && kept[i] == #[trigger] parts[j];
        parts.lemma_filter_pred(pred, i);
        assert(0 <= j < parts.len() && removal_spec(Some(threshold), parts)[i] == parts[j].path@
            && should_remove_spec(parts[j].elapsed_nanos, threshold));
    }
    assert forall|j: int|
        0 <= j < parts.len() && should_remove_spec(
            #[trigger] parts[j].elapsed_nanos,
            threshold,
        ) implies removal_spec(Some(threshold), parts).contains(parts[j].path@) by {
        parts.lemma_filter_contains(pred, j);
        let k = choose|k: int| 0 <= k < kept.len() && #[trigger] kept[k] == parts[j];
        assert(removal_spec(Some(threshold), parts)[k] == parts[j].path@);
    }
}

/// Dry run changes no decision: every choice the engine makes — what
/// discovery enqueues, the completeness verdict, the nested archives and
/// their planned timestamps, the parts the retention pass selects — is a
/// function of the retention policy, the queue and the observations alone,
/// never of the dry-run flag. Two configurations that agree on those plan
/// identically and differ only in whether the caller executes the plan.
pub proof fn lemma_dry_run_same_decisions(a: UnarchiveQueue, b: UnarchiveQueue, parts: Seq<PartStat>)
    requires
        a.retention() == b.retention(),
        a.pending() == b.pending(),
    ensures
        removal_spec(a.retention(), parts) == removal_spec(b.retention(), parts),
        a.pending().len() > 0 ==> a.pending()[0] == b.pending()[0],
{
}

} // verus!
