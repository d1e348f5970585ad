//! Building, describing, compacting and deleting snapshots.
use vstd::prelude::*;

use crate::api::{
    bad_request, conflict, copy_opt, not_found, opt_view, server_error, ApiError,
    CompactSnapshotRequest, CreateSnapshotRequest, DeleteSnapshotQuery, SnapshotInfo,
    SnapshotInfoDetail, SnapshotStatus,
};
use crate::boot::{build_snapshot_boot_config, copy_volumes, is_snapshot_boot, BootConfig};
use crate::chain::{
    collect_subtree, compute_ancestors, find_dependents, is_assembly_of, is_snapshot_of, known,
    lineage, lookup_snapshot_for_chain, resolve_assembly, resolve_snap_dir, subtree, unresolved,
    unresolved_text, walk_fails, Assembly, DirFacts, Known, LineageError,
};
use crate::daemon::{reaped, AppState, BulkCopy};
use crate::fork::{physical_bytes, Snapshot};
use crate::paths::{join_path, joined_path};
use crate::table::{ascending, Table};
use crate::tags::{is_safe_tag, safe_tag};
use crate::text::{dec, dec_string, join, joined, str_eq, views};

verus! {

/// The longest that a freshly booted guest is waited for.
pub const MAX_BOOT_WAIT_SECS: u64 = 60;

// ---------------------------------------------------------------------
// Building
// ---------------------------------------------------------------------

/// What is on disk for a request to build a snapshot.
#[derive(Debug, Clone, Copy, PartialEq, Eq, Structural)]
pub struct BuildFacts {
    pub kernel_exists: bool,
    pub rootfs_exists: bool,
    /// Whether the tag's directory holds a vmstate already.
    pub vmstate_exists: bool,
}

/// The answer to a request that is refused, or None where it is not.
pub open spec fn build_refusal(req: CreateSnapshotRequest, facts: BuildFacts) -> Option<Seq<char>> {
    if !safe_tag(req.tag@) {
        Some("tag must be 1-64 chars, ASCII alnum or dash/underscore"@)
    } else if !facts.kernel_exists {
        Some("kernel not found: "@ + req.kernel@)
    } else if !facts.rootfs_exists {
        Some("rootfs not found: "@ + req.rootfs@)
    } else if req.boot_wait_secs > MAX_BOOT_WAIT_SECS {
        Some("boot_wait_secs must be ≤ 60"@)
    } else if facts.vmstate_exists {
        Some("snapshot "@ + req.tag@ + " already exists; DELETE first"@)
    } else {
        None
    }
}

/// A build that has been admitted: what to boot, how long to let it run, and
/// where its snapshot goes.
#[derive(Debug)]
pub struct BuildPlan {
    pub tag: String,
    pub snap_dir: String,
    pub boot: BootConfig,
    pub boot_wait_secs: u64,
    pub metadata: Snapshot,
}

pub open spec fn is_build_plan(
    p: BuildPlan,
    s: AppState,
    req: CreateSnapshotRequest,
    temp_dir: Seq<char>,
) -> bool {
    &&& p.tag@ == req.tag@
    &&& p.snap_dir@ == joined_path(s.snapshot_root@, req.tag@)
    &&& p.boot_wait_secs == req.boot_wait_secs
    &&& is_snapshot_boot(
        p.boot,
        req.kernel@,
        req.rootfs@,
        joined_path(temp_dir, "forkd-snapshot-"@ + req.tag@),
        req.rw,
        opt_view(req.tap),
    )
    &&& p.metadata.vmstate@ == joined_path(p.snap_dir@, "vmstate"@)
    &&& p.metadata.memory@ == joined_path(p.snap_dir@, "memory.bin"@)
    &&& p.metadata.volumes@.len() == 0
    &&& p.metadata.parent_tag is None
    &&& p.metadata.parent_content_hash is None
}

/// What is recorded of a snapshot that is complete and was branched from
/// nothing that runs.
pub open spec fn is_ready_info(
    i: SnapshotInfo,
    tag: Seq<char>,
    dir: Seq<char>,
    now: u64,
    branched_from: Option<Seq<char>>,
) -> bool {
    &&& i.tag@ == tag
    &&& i.dir@ == dir
    &&& i.created_at_unix == now
    &&& opt_view(i.branched_from) == branched_from
    &&& i.pause_ms is None
    &&& i.diff_ms is None
    &&& i.diff_physical_bytes is None
    &&& i.diff_logical_bytes is None
    &&& i.warning is None
    &&& i.status == SnapshotStatus::Ready
}

fn ready_info(tag: &str, dir: &str, now: u64, branched_from: Option<String>) -> (r: SnapshotInfo)
    ensures
        is_ready_info(r, tag@, dir@, now, opt_view(branched_from)),
{
    SnapshotInfo {
        tag: tag.to_string(),
        dir: dir.to_string(),
        created_at_unix: now,
        branched_from,
        pause_ms: None,
        diff_ms: None,
        diff_physical_bytes: None,
        diff_logical_bytes: None,
        warning: None,
        status: SnapshotStatus::Ready,
    }
}

/// How a build ended.
#[derive(Debug, PartialEq, Eq)]
pub enum BuildOutcome {
    Done,
    Failed(String),
    Panicked(String),
}

impl AppState {
    /// Admits or refuses a request to build a snapshot.
    pub fn begin_snapshot(&self, req: &CreateSnapshotRequest, facts: BuildFacts, temp_dir: &str) -> (r:
        Result<BuildPlan, ApiError>)
        ensures
            match build_refusal(*req, facts) {
                Some(text) => r matches Err(e) && e.is(400, text),
                None => r matches Ok(p) && is_build_plan(p, *self, *req, temp_dir@),
            },
    {
        let tag = req.tag.as_str();
        if !is_safe_tag(tag) {
            return Err(bad_request("tag must be 1-64 chars, ASCII alnum or dash/underscore"));
        }
        if !facts.kernel_exists {
            let m = "kernel not found: ".to_string().concat(req.kernel.as_str());
            return Err(bad_request(m.as_str()));
        }
        if !facts.rootfs_exists {
            let m = "rootfs not found: ".to_string().concat(req.rootfs.as_str());
            return Err(bad_request(m.as_str()));
        }
        if req.boot_wait_secs > MAX_BOOT_WAIT_SECS {
            return Err(bad_request("boot_wait_secs must be ≤ 60"));
        }
        if facts.vmstate_exists {
            let m = "snapshot ".to_string().concat(tag).concat(" already exists; DELETE first");
            return Err(bad_request(m.as_str()));
        }
        let snap_dir = join_path(self.snapshot_root.as_str(), tag);
        let name = "forkd-snapshot-".to_string().concat(tag);
        let work_dir = join_path(temp_dir, name.as_str());
        let boot = build_snapshot_boot_config(
            req.kernel.as_str(),
            req.rootfs.as_str(),
            work_dir.as_str(),
            req.rw,
            &req.tap,
        );
        let metadata = Snapshot {
            vmstate: join_path(snap_dir.as_str(), "vmstate"),
            memory: join_path(snap_dir.as_str(), "memory.bin"),
            volumes: Vec::new(),
            parent_tag: None,
            parent_content_hash: None,
        };
        Ok(
            BuildPlan {
                tag: tag.to_string(),
                snap_dir,
                boot,
                boot_wait_secs: req.boot_wait_secs,
                metadata,
            },
        )
    }

    /// Ends a build: a snapshot that was written is registered.
    pub fn finish_snapshot(&mut self, plan: &BuildPlan, outcome: &BuildOutcome, now: u64) -> (r: Result<
        SnapshotInfo,
        ApiError,
    >)
        requires
            old(self).wf(),
        ensures
            final(self).wf(),
            *final(self) == (AppState { registry: final(self).registry, ..*old(self) }),
            final(self).registry.state.sandboxes == old(self).registry.state.sandboxes,
            final(self).registry.state.workspaces == old(self).registry.state.workspaces,
            match *outcome {
                BuildOutcome::Done => {
                    &&& r matches Ok(i) && is_ready_info(i, plan.tag@, plan.snap_dir@, now, None)
                        && final(self).registry.snapshots() == old(
                        self,
                    ).registry.snapshots().insert(plan.tag@, i)
                },
                BuildOutcome::Failed(e) => {
                    &&& r matches Err(x) && x.is(500, "snapshot: "@ + e@)
                    &&& final(self).registry == old(self).registry
                },
                BuildOutcome::Panicked(e) => {
                    &&& r matches Err(x) && x.is(500, "blocking task panicked: "@ + e@)
                    &&& final(self).registry == old(self).registry
                },
            },
    {
        match outcome {
            BuildOutcome::Done => {
                let info = ready_info(plan.tag.as_str(), plan.snap_dir.as_str(), now, None);
                self.registry.insert_snapshot(info.clone());
                Ok(info)
            },
            BuildOutcome::Failed(e) => {
                let m = "snapshot: ".to_string().concat(e.as_str());
                Err(server_error(m.as_str()))
            },
            BuildOutcome::Panicked(e) => {
                let m = "blocking task panicked: ".to_string().concat(e.as_str());
                Err(server_error(m.as_str()))
            },
        }
    }
}

// ---------------------------------------------------------------------
// Deleting
// ---------------------------------------------------------------------

/// What became of a tag's directory.
#[derive(Debug, PartialEq, Eq)]
pub enum DirRemoval {
    /// There was none.
    Absent,
    Removed,
    Failed(String),
}

/// Whether `deps` lists, in order, the snapshots that are diffs on top of
/// `tag`.
pub open spec fn are_dependents(
    s: AppState,
    disk: Table<DirFacts>,
    tag: Seq<char>,
    deps: Seq<Seq<char>>,
) -> bool {
    &&& ascending(deps)
    &&& forall|t: Seq<char>| #[trigger]
        deps.contains(t) <==> known(s.registry, disk).depends(t, tag)
}

pub open spec fn has_dependents(s: AppState, disk: Table<DirFacts>, tag: Seq<char>) -> bool {
    exists|t: Seq<char>| #[trigger] known(s.registry, disk).depends(t, tag)
}

pub open spec fn dependents_text(tag: Seq<char>, deps: Seq<Seq<char>>) -> Seq<char> {
    "snapshot `"@ + tag + "` is the parent of "@ + dec(deps.len()) + " chained snapshot(s): ["@
        + joined(deps, ", "@)
        + "]; rerun with `?cascade=true` to delete the whole subtree, or `?force=true` to orphan the children (they will fail to restore)"@
}

/// Why a request to delete `tag` is refused whatever there is: what it names
/// is no tag, or it asks for two ways to deal with dependents.
pub open spec fn delete_fault(tag: Seq<char>, q: DeleteSnapshotQuery) -> Option<Seq<char>> {
    if !safe_tag(tag) {
        Some("tag must be 1-64 chars, ASCII alnum or dash/underscore"@)
    } else if q.force && q.cascade {
        Some(
            "force and cascade are mutually exclusive — force orphans children, cascade deletes them; pick one"@,
        )
    } else {
        None
    }
}

/// Looks at a request to delete `tag` on its own.
pub fn check_delete(tag: &str, q: &DeleteSnapshotQuery) -> (r: Result<(), ApiError>)
    ensures
        match delete_fault(tag@, *q) {
            Some(m) => r matches Err(e) && e.is(400, m),
            None => r is Ok,
        },
{
    if !is_safe_tag(tag) {
        return Err(bad_request("tag must be 1-64 chars, ASCII alnum or dash/underscore"));
    }
    if q.force && q.cascade {
        return Err(
            bad_request(
                "force and cascade are mutually exclusive — force orphans children, cascade deletes them; pick one",
            ),
        );
    }
    Ok(())
}

/// What a request to delete `tag` deletes and in which order, or why it is
/// refused.
pub open spec fn is_delete_plan(
    s: AppState,
    tag: Seq<char>,
    q: DeleteSnapshotQuery,
    disk: Table<DirFacts>,
    r: Result<Vec<String>, ApiError>,
) -> bool {
    if let Some(m) = delete_fault(tag, q) {
        r matches Err(e) && e.is(400, m)
    } else if q.cascade {
        r matches Ok(v) && v@.len() > 0 && v@.last()@ == tag && subtree(
            known(s.registry, disk),
            tag,
            views(v@).reverse(),
        )
    } else if !q.force && has_dependents(s, disk, tag) {
        r matches Err(e) && exists|deps: Seq<Seq<char>>|
            #![trigger are_dependents(s, disk, tag, deps)]
            are_dependents(s, disk, tag, deps) && e.is(409, dependents_text(tag, deps))
    } else {
        r matches Ok(v) && views(v@) == seq![tag]
    }
}

impl AppState {
    /// Takes a request to delete `tag`. Where the request is in order, a copy
    /// of its memory that was in flight is reaped first; `copy` says how it
    /// ended.
    pub fn begin_delete(
        &mut self,
        tag: &str,
        q: DeleteSnapshotQuery,
        copy: &Option<BulkCopy>,
        disk: &Table<DirFacts>,
    ) -> (r: Result<Vec<String>, ApiError>)
        requires
            old(self).wf(),
        ensures
            final(self).wf(),
            if delete_fault(tag@, q) is Some {
                *final(self) == *old(self)
            } else {
                match *copy {
                    Some(how) => reaped(*old(self), *final(self), tag@, how),
                    None => *final(self) == *old(self),
                }
            },
            is_delete_plan(*final(self), tag@, q, *disk, r),
    {
        match check_delete(tag, &q) {
            Ok(_) => {},
            Err(e) => return Err(e),
        }
        match copy {
            Some(how) => {
                let _ = self.reap_live_branch(tag, how);
            },
            None => {},
        }
        self.plan_delete(tag, q, disk)
    }

    /// What a request to delete `tag` deletes, in order. A snapshot that
    /// others are built on is only deleted with them (`cascade`), leaves
    /// first, or at their cost (`force`).
    pub fn plan_delete(&self, tag: &str, q: DeleteSnapshotQuery, disk: &Table<DirFacts>) -> (r: Result<
        Vec<String>,
        ApiError,
    >)
        ensures
            is_delete_plan(*self, tag@, q, *disk, r),
    {
        match check_delete(tag, &q) {
            Ok(_) => {},
            Err(e) => return Err(e),
        }
        if q.cascade {
            let all = collect_subtree(&self.registry, disk, tag);
            let v = reversed(&all);
            assert(views(v@).reverse() =~= views(all@));
            assert(v@.last()@ == views(all@)[0]);
            return Ok(v);
        }
        let deps = find_dependents(&self.registry, disk, tag);
        if !q.force && deps.len() > 0 {
            let n = dec_string(deps.len() as u64);
            let list = join(&deps, ", ");
            let m = "snapshot `".to_string().concat(tag).concat("` is the parent of ").concat(
                n.as_str(),
            ).concat(" chained snapshot(s): [").concat(list.as_str()).concat(
                "]; rerun with `?cascade=true` to delete the whole subtree, or `?force=true` to orphan the children (they will fail to restore)",
            );
            proof {
                let d = views(deps@);
                assert(d.contains(d[0]));
                assert(known(self.registry, *disk).depends(d[0], tag@));
                assert(are_dependents(*self, *disk, tag@, d));
                assert(d.len() == deps@.len());
            }
            return Err(conflict(m.as_str()));
        }
        let mut one: Vec<String> = Vec::new();
        one.push(tag.to_string());
        proof {
            assert(views(one@) =~= seq![tag@]);
            if deps@.len() == 0 {
                assert forall|t: Seq<char>| !#[trigger] known(self.registry, *disk).depends(
                    t,
                    tag@,
                ) by {
                    assert(!views(deps@).contains(t));
                }
            }
        }
        Ok(one)
    }

    /// Drops one snapshot whose directory has been dealt with. Says whether
    /// there was one.
    pub fn delete_single_snapshot(&mut self, tag: &str, removal: &DirRemoval) -> (r: Result<
        bool,
        String,
    >)
        requires
            old(self).wf(),
        ensures
            final(self).wf(),
            *final(self) == (AppState { registry: final(self).registry, ..*old(self) }),
            final(self).registry.state.sandboxes == old(self).registry.state.sandboxes,
            final(self).registry.state.workspaces == old(self).registry.state.workspaces,
            final(self).registry.snapshots() == old(self).registry.snapshots().remove(tag@),
            match *removal {
                DirRemoval::Failed(e) => r matches Err(m) && m@ == "rm "@ + joined_path(
                    old(self).snapshot_root@,
                    tag@,
                ) + ": "@ + e@,
                DirRemoval::Removed => r == Ok::<bool, String>(true),
                DirRemoval::Absent => r == Ok::<bool, String>(
                    old(self).registry.snapshots().contains_key(tag@),
                ),
            },
    {
        let removed = self.registry.remove_snapshot(tag);
        match removal {
            DirRemoval::Failed(e) => {
                let dir = join_path(self.snapshot_root.as_str(), tag);
                Err("rm ".to_string().concat(dir.as_str()).concat(": ").concat(e.as_str()))
            },
            DirRemoval::Removed => Ok(true),
            DirRemoval::Absent => Ok(removed.is_some()),
        }
    }
}

fn reversed(v: &Vec<String>) -> (r: Vec<String>)
    ensures
        r@.len() == v@.len(),
        forall|i: int| 0 <= i < v@.len() ==> (#[trigger] r@[i])@ == v@[v@.len() - 1 - i]@,
{
    let mut r: Vec<String> = Vec::new();
    let mut i: usize = v.len();
    while i > 0
        invariant
            i <= v@.len(),
            r@.len() == v@.len() - i,
            forall|j: int| 0 <= j < r@.len() ==> (#[trigger] r@[j])@ == v@[v@.len() - 1 - j]@,
        decreases i,
    {
        i -= 1;
        r.push(v[i].clone());
    }
    r
}

/// What follows when one snapshot of a delete has been dealt with.
#[derive(Debug, PartialEq, Eq)]
pub enum DeleteStep {
    /// The next one is deleted.
    Next,
    /// It is over: the answer is 204, or says why not.
    Answer(Option<ApiError>),
}

/// What follows when `deleted` has been dealt with on the way to `tag`. An
/// error ends a cascade where it stands; of the others it does not matter
/// whether they were there, and `tag` comes last.
pub fn after_delete(tag: &str, deleted: &str, result: &Result<bool, String>) -> (r: DeleteStep)
    ensures
        match *result {
            Err(m) => r matches DeleteStep::Answer(Some(e)) && e.is(500, m@),
            Ok(found) => if deleted@ != tag@ {
                r is Next
            } else if found {
                r == DeleteStep::Answer(None)
            } else {
                r matches DeleteStep::Answer(Some(e)) && e.is(
                    404,
                    "snapshot "@ + tag@ + " not found"@,
                )
            },
        },
{
    match result {
        Err(m) => DeleteStep::Answer(Some(server_error(m.as_str()))),
        Ok(found) => {
            if !str_eq(deleted, tag) {
                DeleteStep::Next
            } else if *found {
                DeleteStep::Answer(None)
            } else {
                let m = "snapshot ".to_string().concat(tag);
                DeleteStep::Answer(Some(not_found(m.as_str())))
            }
        },
    }
}

/// When a cascade reaches a snapshot, whatever was a diff on top of it has
/// been deleted before it; the root goes last.
pub proof fn law_cascade_deletes_dependents_first(
    kn: crate::chain::Known,
    tag: Seq<char>,
    order: Seq<Seq<char>>,
    i: int,
    t: Seq<char>,
)
    requires
        subtree(kn, tag, order.reverse()),
        0 <= i < order.len(),
        kn.depends(t, order[i]),
        t != tag,
    ensures
        exists|j: int| 0 <= j < i && order[j] == t,
{
    let r = order.reverse();
    let n = order.len() as int;
    assert(r[n - 1 - i] == order[i]);
    crate::chain::law_subtree_is_the_descendants(kn, tag, r, order[i]);
    assert(r.contains(order[i]));
    assert(kn.depends(t, r[n - 1 - i]));
    assert(r.contains(t));
    let k = choose|k: int| 0 <= k < r.len() && r[k] == t;
    assert(r[0] == tag);
    crate::chain::law_subtree_backwards_is_leaves_first(kn, tag, r, n - 1 - i, k);
    assert(order[n - 1 - k] == t);
}

// ---------------------------------------------------------------------
// Describing
// ---------------------------------------------------------------------

/// What the file system says of a snapshot's files; None where a file cannot
/// be looked at.
#[derive(Debug, Clone, Copy, PartialEq, Eq, Structural)]
pub struct FileSizes {
    pub memory_len: Option<u64>,
    /// Allocated blocks of 512 bytes.
    pub memory_blocks: Option<u64>,
    pub vmstate_len: Option<u64>,
}

pub open spec fn or_zero(n: Option<u64>) -> u64 {
    match n {
        Some(v) => v,
        None => 0,
    }
}

pub open spec fn blocks_bytes(n: Option<u64>) -> int {
    match n {
        Some(b) => if b * 512 <= u64::MAX {
            b * 512
        } else {
            u64::MAX as int
        },
        None => 0,
    }
}

fn unwrap_or_zero(n: Option<u64>) -> (r: u64)
    ensures
        r == or_zero(n),
{
    match n {
        Some(v) => v,
        None => 0,
    }
}

impl AppState {
    /// Describes a snapshot: where it is, how large it is, what it is built
    /// from and what is built on it.
    pub fn snapshot_info(&self, tag: &str, disk: &Table<DirFacts>, sizes: FileSizes) -> (r: Result<
        SnapshotInfoDetail,
        ApiError,
    >)
        ensures
            if !safe_tag(tag@) {
                r matches Err(e) && e.is(
                    400,
                    "tag must be 1-64 chars, ASCII alnum or dash/underscore"@,
                )
            } else if !known(self.registry, *disk).resolves(tag@) {
                r matches Err(e) && e.is(404, "snapshot "@ + tag@ + " not found"@)
            } else {
                let kn = known(self.registry, *disk);
                match r {
                    Ok(d) => {
                        &&& d.tag@ == tag@
                        &&& d.dir@ == kn.dir_of(self.snapshot_root@, tag@)
                        &&& d.created_at_unix == (match self.registry.snapshots().get(tag@) {
                            Some(i) => Some(i.created_at_unix),
                            None => None,
                        })
                        &&& d.memory_logical_bytes == or_zero(sizes.memory_len)
                        &&& d.memory_physical_bytes == blocks_bytes(sizes.memory_blocks)
                        &&& d.vmstate_bytes == or_zero(sizes.vmstate_len)
                        &&& opt_view(d.parent_tag) == kn.parent(tag@)
                        &&& opt_view(d.parent_content_hash) == (if disk@.contains_key(tag@)
                            && disk@[tag@].meta is Some {
                            opt_view(disk@[tag@].meta->0.parent_content_hash)
                        } else {
                            None
                        })
                        &&& d.chain_depth == d.ancestors@.len()
                        &&& lineage(kn, seq![tag@] + views(d.ancestors@).reverse())
                        &&& are_dependents(*self, *disk, tag@, views(d.dependents@))
                    },
                    Err(e) => exists|why: LineageError|
                        #![trigger walk_fails(kn, self.snapshot_root@, tag@, why)]
                        walk_fails(kn, self.snapshot_root@, tag@, why) && e.is(
                            500,
                            "compute ancestors for `"@ + tag@ + "`: "@ + why.text(),
                        ),
                }
            },
    {
        if !is_safe_tag(tag) {
            return Err(bad_request("tag must be 1-64 chars, ASCII alnum or dash/underscore"));
        }
        let root = self.snapshot_root.as_str();
        let dir = match resolve_snap_dir(&self.registry, root, disk, tag) {
            Ok(d) => d,
            Err(_) => {
                let m = "snapshot ".to_string().concat(tag);
                return Err(not_found(m.as_str()));
            },
        };
        let meta = match lookup_snapshot_for_chain(&self.registry, root, disk, tag) {
            Ok(m) => m,
            Err(_) => {
                return vstd::pervasive::unreached();
            },
        };
        let (ancestors, chain_depth) = match compute_ancestors(&self.registry, root, disk, tag) {
            Ok(p) => p,
            Err(why) => {
                let w = why.message();
                let m = "compute ancestors for `".to_string().concat(tag).concat("`: ").concat(
                    w.as_str(),
                );
                assert(walk_fails(known(self.registry, *disk), self.snapshot_root@, tag@, why));
                return Err(server_error(m.as_str()));
            },
        };
        let dependents = find_dependents(&self.registry, disk, tag);
        let created_at_unix = match self.registry.get_snapshot(tag) {
            Some(i) => Some(i.created_at_unix),
            None => None,
        };
        let memory_physical_bytes: u64 = match sizes.memory_blocks {
            Some(b) => physical_bytes(b),
            None => 0,
        };
        Ok(
            SnapshotInfoDetail {
                tag: tag.to_string(),
                dir,
                created_at_unix,
                memory_logical_bytes: unwrap_or_zero(sizes.memory_len),
                memory_physical_bytes,
                vmstate_bytes: unwrap_or_zero(sizes.vmstate_len),
                parent_tag: copy_opt(&meta.parent_tag),
                parent_content_hash: copy_opt(&meta.parent_content_hash),
                chain_depth,
                dependents,
                ancestors,
            },
        )
    }
}

// ---------------------------------------------------------------------
// Compacting
// ---------------------------------------------------------------------

/// A compaction that has been admitted: the chain of `tag` is assembled in
/// `staging`, which then becomes `dest_dir`.
#[derive(Debug)]
pub struct CompactPlan {
    pub tag: String,
    /// The snapshot at the head of the chain.
    pub head: Snapshot,
    pub chain: Assembly,
    pub to: String,
    pub dest_dir: String,
    pub staging: String,
}

/// What an admitted compaction does.
pub open spec fn is_compact_plan(
    p: CompactPlan,
    kn: Known,
    root: Seq<char>,
    tag: Seq<char>,
    to: Seq<char>,
) -> bool {
    &&& p.tag@ == tag
    &&& p.to@ == to
    &&& is_snapshot_of(p.head, kn, root, tag)
    &&& is_assembly_of(p.chain, kn, root, tag)
    &&& p.dest_dir@ == joined_path(root, to)
    &&& p.staging@ == joined_path(root, ".compact-staging-"@ + to)
}

/// Where a compaction stopped.
#[derive(Debug, PartialEq, Eq)]
pub enum CompactFailure {
    Verify(String),
    Staging(String),
    Assemble(String),
    CopyVmstate { vmstate: String, error: String },
    Serialize(String),
    WriteMeta(String),
    Promote(String),
}

pub open spec fn compact_failure_text(p: CompactPlan, f: CompactFailure) -> Seq<char> {
    match f {
        CompactFailure::Verify(e) => "verify chain for `"@ + p.tag@ + "`: "@ + e@,
        CompactFailure::Staging(e) => "create staging "@ + p.staging@ + ": "@ + e@,
        CompactFailure::Assemble(e) => "assemble chain for `"@ + p.tag@ + "`: "@ + e@,
        CompactFailure::CopyVmstate { vmstate, error } => "copy vmstate from `"@ + p.tag@ + "` ("@
            + vmstate@ + "): "@ + error@,
        CompactFailure::Serialize(e) => "serialize compacted snapshot.json: "@ + e@,
        CompactFailure::WriteMeta(e) => "write staging snapshot.json "@ + joined_path(
            p.staging@,
            "snapshot.json"@,
        ) + ": "@ + e@,
        CompactFailure::Promote(e) => "promote staging "@ + p.staging@ + " → "@ + p.dest_dir@
            + ": "@ + e@,
    }
}

/// Whether the staging directory may have been filled when a compaction failed.
pub open spec fn leaves_staging(f: CompactFailure) -> bool {
    !(f is Verify || f is Staging)
}

/// How many of the steps of a compaction were done when it failed: the chain is
/// verified, the staging directory made, the memory assembled, the vmstate
/// copied, the metadata put into words and written, and all of it moved into
/// place.
pub open spec fn steps_done(f: CompactFailure) -> nat {
    match f {
        CompactFailure::Verify(_) => 0,
        CompactFailure::Staging(_) => 1,
        CompactFailure::Assemble(_) => 2,
        CompactFailure::CopyVmstate { .. } => 3,
        CompactFailure::Serialize(_) => 4,
        CompactFailure::WriteMeta(_) => 5,
        CompactFailure::Promote(_) => 6,
    }
}

/// A compaction that fails removes its staging directory exactly where it had
/// made one.
pub proof fn law_failed_compaction_cleans_up(f: CompactFailure)
    ensures
        leaves_staging(f) <==> steps_done(f) >= 2,
{
}

/// The answer to a compaction that failed, and whether the staging directory
/// is removed: it is where it may have been filled.
pub fn compact_failed(p: &CompactPlan, f: &CompactFailure) -> (r: (ApiError, bool))
    ensures
        r.0.is(500, compact_failure_text(*p, *f)),
        r.1 == leaves_staging(*f),
{
    let tag = p.tag.as_str();
    let staging = p.staging.as_str();
    match f {
        CompactFailure::Verify(e) => {
            let m = "verify chain for `".to_string().concat(tag).concat("`: ").concat(e.as_str());
            (server_error(m.as_str()), false)
        },
        CompactFailure::Staging(e) => {
            let m = "create staging ".to_string().concat(staging).concat(": ").concat(e.as_str());
            (server_error(m.as_str()), false)
        },
        CompactFailure::Assemble(e) => {
            let m = "assemble chain for `".to_string().concat(tag).concat("`: ").concat(
                e.as_str(),
            );
            (server_error(m.as_str()), true)
        },
        CompactFailure::CopyVmstate { vmstate, error } => {
            let m = "copy vmstate from `".to_string().concat(tag).concat("` (").concat(
                vmstate.as_str(),
            ).concat("): ").concat(error.as_str());
            (server_error(m.as_str()), true)
        },
        CompactFailure::Serialize(e) => {
            let m = "serialize compacted snapshot.json: ".to_string().concat(e.as_str());
            (server_error(m.as_str()), true)
        },
        CompactFailure::WriteMeta(e) => {
            let path = join_path(staging, "snapshot.json");
            let m = "write staging snapshot.json ".to_string().concat(path.as_str()).concat(
                ": ",
            ).concat(e.as_str());
            (server_error(m.as_str()), true)
        },
        CompactFailure::Promote(e) => {
            let m = "promote staging ".to_string().concat(staging).concat(" → ").concat(
                p.dest_dir.as_str(),
            ).concat(": ").concat(e.as_str());
            (server_error(m.as_str()), true)
        },
    }
}

/// What is recorded of a compacted snapshot.
pub open spec fn is_compact_metadata(r: Snapshot, p: CompactPlan) -> bool {
    &&& r.vmstate@ == joined_path(p.dest_dir@, "vmstate"@)
    &&& r.memory@ == joined_path(p.dest_dir@, "memory.bin"@)
    &&& r.volumes@ == p.head.volumes@
    &&& r.parent_tag is None
    &&& r.parent_content_hash is None
}

/// The metadata of a compacted snapshot: the head's volumes, no parent.
pub fn compact_metadata(p: &CompactPlan) -> (r: Snapshot)
    ensures
        is_compact_metadata(r, *p),
{
    Snapshot {
        vmstate: join_path(p.dest_dir.as_str(), "vmstate"),
        memory: join_path(p.dest_dir.as_str(), "memory.bin"),
        volumes: copy_volumes(&p.head.volumes),
        parent_tag: None,
        parent_content_hash: None,
    }
}

impl AppState {
    /// Admits or refuses a request to flatten the chain of `tag`.
    /// `dest_exists` says whether the target's directory is there already,
    /// `disk` what is on disk for the tags.
    pub fn begin_compact(
        &self,
        tag: &str,
        req: &CompactSnapshotRequest,
        dest_exists: bool,
        disk: &Table<DirFacts>,
    ) -> (r: Result<CompactPlan, ApiError>)
        ensures
            if !safe_tag(tag@) {
                r matches Err(e) && e.is(
                    400,
                    "source tag must be 1-64 chars, ASCII alnum or dash/underscore"@,
                )
            } else if !safe_tag(req.to@) {
                r matches Err(e) && e.is(
                    400,
                    "to tag must be 1-64 chars, ASCII alnum or dash/underscore"@,
                )
            } else if tag@ == req.to@ {
                r matches Err(e) && e.is(400, "compact target tag must differ from source tag"@)
            } else if dest_exists {
                r matches Err(e) && e.is(
                    409,
                    "compact target `"@ + req.to@ + "` already exists at "@ + joined_path(
                        self.snapshot_root@,
                        req.to@,
                    ),
                )
            } else {
                let kn = known(self.registry, *disk);
                match r {
                    Ok(p) => is_compact_plan(p, kn, self.snapshot_root@, tag@, req.to@),
                    Err(e) => exists|w: LineageError| #[trigger]
                        walk_fails(kn, self.snapshot_root@, tag@, w) && e.is(
                            500,
                            unresolved_text(tag@, w),
                        ),
                }
            },
    {
        if !is_safe_tag(tag) {
            return Err(
                bad_request("source tag must be 1-64 chars, ASCII alnum or dash/underscore"),
            );
        }
        if !is_safe_tag(req.to.as_str()) {
            return Err(bad_request("to tag must be 1-64 chars, ASCII alnum or dash/underscore"));
        }
        if str_eq(tag, req.to.as_str()) {
            return Err(bad_request("compact target tag must differ from source tag"));
        }
        let dest_dir = join_path(self.snapshot_root.as_str(), req.to.as_str());
        if dest_exists {
            let m = "compact target `".to_string().concat(req.to.as_str()).concat(
                "` already exists at ",
            ).concat(dest_dir.as_str());
            return Err(conflict(m.as_str()));
        }
        match resolve_assembly(&self.registry, self.snapshot_root.as_str(), disk, tag) {
            Ok((head, chain)) => {
                let name = ".compact-staging-".to_string().concat(req.to.as_str());
                let staging = join_path(self.snapshot_root.as_str(), name.as_str());
                Ok(
                    CompactPlan {
                        tag: tag.to_string(),
                        head,
                        chain,
                        to: req.to.clone(),
                        dest_dir,
                        staging,
                    },
                )
            },
            Err(w) => Err(unresolved(tag, &w)),
        }
    }

    /// Registers a compacted snapshot that is in place.
    pub fn finish_compact(&mut self, plan: &CompactPlan, now: u64) -> (r: SnapshotInfo)
        requires
            old(self).wf(),
        ensures
            final(self).wf(),
            *final(self) == (AppState { registry: final(self).registry, ..*old(self) }),
            final(self).registry.state.sandboxes == old(self).registry.state.sandboxes,
            final(self).registry.state.workspaces == old(self).registry.state.workspaces,
            final(self).registry.snapshots() == old(self).registry.snapshots().insert(plan.to@, r),
            is_ready_info(r, plan.to@, plan.dest_dir@, now, Some("compact:"@ + plan.tag@)),
    {
        let from = "compact:".to_string().concat(plan.tag.as_str());
        let info = ready_info(plan.to.as_str(), plan.dest_dir.as_str(), now, Some(from));
        self.registry.insert_snapshot(info.clone());
        info
    }
}

/// A staging directory is never taken for a snapshot, and no two targets share
/// one.
pub proof fn law_staging_is_no_snapshot(to: Seq<char>, other: Seq<char>)
    ensures
        !safe_tag(".compact-staging-"@ + to),
        to != other ==> ".compact-staging-"@ + to != ".compact-staging-"@ + other,
{
    reveal_strlit(".compact-staging-");
    let a = ".compact-staging-"@ + to;
    let b = ".compact-staging-"@ + other;
    assert(a[0] == '.');
    assert(!crate::tags::safe_tag_char(a[0]));
    let n = ".compact-staging-"@.len() as int;
    assert(a.skip(n) =~= to);
    assert(b.skip(n) =~= other);
}

/// A delete that is not forced leaves no snapshot without the one that it is
/// built on: whatever depends on something deleted is deleted too. It deletes
/// the tag that was named, and that one last.
pub proof fn law_delete_orphans_nobody(
    s: AppState,
    tag: Seq<char>,
    q: DeleteSnapshotQuery,
    disk: Table<DirFacts>,
    v: Vec<String>,
    i: int,
    t: Seq<char>,
)
    requires
        is_delete_plan(s, tag, q, disk, Ok::<Vec<String>, ApiError>(v)),
        0 <= i < v@.len(),
    ensures
        v@.last()@ == tag,
        !q.force && known(s.registry, disk).depends(t, v@[i]@) ==> views(v@).contains(t),
        !q.cascade ==> v@.len() == 1,
        !(q.force && q.cascade),
{
    let vs = views(v@);
    let kn = known(s.registry, disk);
    assert(vs[i] == v@[i]@);
    if q.cascade {
        let r = vs.reverse();
        let at = vs.len() - 1 - i;
        assert(r[at] == vs[i]);
        if kn.depends(t, r[at]) {
            assert(r.contains(t));
            let k = choose|k: int| 0 <= k < r.len() && r[k] == t;
            assert(vs[vs.len() - 1 - k] == t);
        }
    } else {
        assert(vs.len() == 1 && vs[0] == tag);
        if !q.force && kn.depends(t, tag) {
            assert(has_dependents(s, disk, tag));
        }
    }
}

/// A build is admitted exactly where its tag may be used and is not taken, its
/// kernel and root filesystem are there, and the guest is given a minute at
/// most.
pub proof fn law_build_is_admitted(req: CreateSnapshotRequest, facts: BuildFacts)
    ensures
        build_refusal(req, facts) is None <==> {
            &&& safe_tag(req.tag@)
            &&& facts.kernel_exists && facts.rootfs_exists
            &&& !facts.vmstate_exists
            &&& req.boot_wait_secs <= 60
        },
{
}

} // verus!
