//! Branching a running sandbox into a new snapshot: which requests are
//! refused and why, what is done to the source and in which order, and what
//! is recorded when it is over.
use vstd::prelude::*;

use crate::api::{
    bad_request, conflict, copy_opt, not_found, opt_view, server_error, service_unavailable,
    ApiError, BranchMode, BranchSandboxRequest, SandboxInfo, SnapshotInfo, SnapshotStatus,
};
use crate::boot::{copy_volumes, VolumeSpec};
use crate::daemon::AppState;
use crate::fork::Snapshot;
use crate::paths::{join_path, joined_path};
use crate::slots::{BranchSlot, BranchSlotError};
use crate::state::branched;
use crate::tags::{is_safe_tag, safe_tag};
use crate::text::{dec, dec_string, str_eq};
use crate::uffd::GuestRegionUffdMapping;

verus! {

/// What the daemon looked up outside its own state for one branch request.
#[derive(Debug)]
pub struct BranchFacts {
    /// Whether the new tag's directory already holds a vmstate.
    pub vmstate_exists: bool,
    /// The volumes of the snapshot that the sandbox was forked from.
    pub volumes: Result<Vec<VolumeSpec>, String>,
    /// Whether the sandbox's VM is there to be paused.
    pub vm_present: bool,
    /// Whether that VM's memory is a shared memfd.
    pub memfd_backed: bool,
    /// Whether the memory file of the sandbox's latest branch still exists.
    pub last_branch_exists: bool,
}

/// Why a branch request is refused.
#[derive(Debug, Clone, Copy, PartialEq, Eq, Structural)]
pub enum BranchRefusal {
    UnsafeTag,
    InFlight,
    AtCapacity,
    ModeAndLegacy,
    SeveralModes,
    WaitWithoutLive,
    TagExists,
    NoSandbox,
    ParentMismatch,
    ParentWithoutDiff,
    Volumes,
    NoVm,
    NotMemfd,
}

/// The tag of the new snapshot: the requested one, or one made of the
/// sandbox's id and the time.
pub open spec fn branch_tag_of(id: Seq<char>, tag: Option<Seq<char>>, now: nat) -> Seq<char> {
    match tag {
        Some(t) => t,
        None => "branch-"@ + id + "-"@ + dec(now),
    }
}

pub fn branch_tag(id: &str, req: &BranchSandboxRequest, now: u64) -> (r: String)
    ensures
        r@ == branch_tag_of(id@, opt_view(req.tag), now as nat),
{
    match &req.tag {
        Some(t) => t.clone(),
        None => {
            let n = dec_string(now);
            "branch-".to_string().concat(id).concat("-").concat(n.as_str())
        },
    }
}

/// Whether the request asks for a diff branch.
pub open spec fn wants_diff(req: BranchSandboxRequest) -> bool {
    match req.mode {
        Some(m) => m == BranchMode::Diff,
        None => req.diff,
    }
}

/// Whether the request asks for a live branch.
pub open spec fn wants_live(req: BranchSandboxRequest) -> bool {
    match req.mode {
        Some(m) => m == BranchMode::Live,
        None => req.live,
    }
}

/// Whether the request asks for more than one of the ways that exclude each
/// other.
pub open spec fn several_modes(req: BranchSandboxRequest) -> bool {
    ||| req.measure_diff && wants_diff(req)
    ||| req.measure_diff && wants_live(req)
    ||| wants_diff(req) && wants_live(req)
}

/// What is wrong with a request in itself, the tag apart.
pub open spec fn mode_refusal(req: BranchSandboxRequest) -> Option<BranchRefusal> {
    if req.mode is Some && (req.diff || req.live) {
        Some(BranchRefusal::ModeAndLegacy)
    } else if several_modes(req) {
        Some(BranchRefusal::SeveralModes)
    } else if !req.wait && !wants_live(req) {
        Some(BranchRefusal::WaitWithoutLive)
    } else {
        None
    }
}

/// What is wrong with a request given the sandbox it is about.
pub open spec fn source_refusal(
    req: BranchSandboxRequest,
    sandbox: Option<SandboxInfo>,
    facts: BranchFacts,
) -> Option<BranchRefusal> {
    if facts.vmstate_exists {
        Some(BranchRefusal::TagExists)
    } else {
        match sandbox {
            None => Some(BranchRefusal::NoSandbox),
            Some(sb) => if req.parent_tag matches Some(pt) && pt@ != sb.snapshot_tag@ {
                Some(BranchRefusal::ParentMismatch)
            } else if req.parent_tag is Some && !wants_diff(req) {
                Some(BranchRefusal::ParentWithoutDiff)
            } else if facts.volumes is Err {
                Some(BranchRefusal::Volumes)
            } else if !facts.vm_present {
                Some(BranchRefusal::NoVm)
            } else if wants_live(req) && !facts.memfd_backed {
                Some(BranchRefusal::NotMemfd)
            } else {
                None
            },
        }
    }
}

/// Why the request is refused, in the order in which things are looked at:
/// the tag, the slots, the modes, then the sandbox.
pub open spec fn branch_refusal(
    s: AppState,
    id: Seq<char>,
    req: BranchSandboxRequest,
    now: nat,
    facts: BranchFacts,
) -> Option<BranchRefusal> {
    let tag = branch_tag_of(id, opt_view(req.tag), now);
    if !safe_tag(tag) {
        Some(BranchRefusal::UnsafeTag)
    } else if s.branches.held().len() >= s.branches.cap() {
        Some(BranchRefusal::AtCapacity)
    } else if s.branches.held().contains(tag) {
        Some(BranchRefusal::InFlight)
    } else {
        match mode_refusal(req) {
            Some(why) => Some(why),
            None => source_refusal(req, s.registry.sandboxes().get(id), facts),
        }
    }
}

pub open spec fn refusal_status(why: BranchRefusal) -> u16 {
    match why {
        BranchRefusal::InFlight => 409,
        BranchRefusal::TagExists => 409,
        BranchRefusal::AtCapacity => 503,
        BranchRefusal::NoSandbox => 404,
        BranchRefusal::NoVm => 404,
        BranchRefusal::Volumes => 500,
        _ => 400,
    }
}

pub open spec fn refusal_text(
    why: BranchRefusal,
    id: Seq<char>,
    tag: Seq<char>,
    parent: Seq<char>,
    source: Seq<char>,
    volumes: Seq<char>,
) -> Seq<char> {
    match why {
        BranchRefusal::UnsafeTag => "tag must be 1-64 chars, ASCII alnum or dash/underscore"@,
        BranchRefusal::InFlight => "branch for tag '"@ + tag
            + "' is already in progress; retry once it completes"@,
        BranchRefusal::AtCapacity => "daemon is at its branch concurrency cap (4); retry shortly"@,
        BranchRefusal::ModeAndLegacy => "set either `mode` (canonical) OR the legacy `diff` / `live` booleans, not both"@,
        BranchRefusal::SeveralModes => "set at most one of `measure_diff` / `diff` / `live` (or use `mode`): measure_diff is the pure measurement hook (Full path + Diff sidecar timing); diff is the real diff-based BRANCH path; live is the v0.4 UFFD_WP-based path"@,
        BranchRefusal::WaitWithoutLive => "`wait: false` requires `live: true` (or `mode: \"live\"`)"@,
        BranchRefusal::TagExists => "snapshot "@ + tag + " already exists; DELETE first"@,
        BranchRefusal::NoSandbox => "sandbox "@ + id + " not found"@,
        BranchRefusal::ParentMismatch => "parent_tag `"@ + parent
            + "` must equal the source sandbox's snapshot_tag `"@ + source
            + "` — v0.5 chain edges only record the immediate parent the source was spawned from"@,
        BranchRefusal::ParentWithoutDiff => "parent_tag requires diff mode (set `mode: \"diff\"` or legacy `diff: true`) — Full BRANCH writes the whole memory so chaining has no semantic meaning; Live BRANCH on chained sources is carved out to v0.6"@,
        BranchRefusal::Volumes => "read source snapshot volumes from tag '"@ + source + "': "@
            + volumes,
        BranchRefusal::NoVm => "sandbox "@ + id + " not found"@,
        BranchRefusal::NotMemfd => "live BRANCH requires a memfd-backed sandbox (MemoryBackend::MemfdShared, Phase 5b); this one is file-backed"@,
    }
}

fn refuse(
    why: BranchRefusal,
    id: &str,
    tag: &str,
    parent: &str,
    source: &str,
    volumes: &str,
) -> (r: ApiError)
    ensures
        r.is(refusal_status(why), refusal_text(why, id@, tag@, parent@, source@, volumes@)),
{
    match why {
        BranchRefusal::UnsafeTag => bad_request(
            "tag must be 1-64 chars, ASCII alnum or dash/underscore",
        ),
        BranchRefusal::InFlight => {
            let m = "branch for tag '".to_string().concat(tag).concat(
                "' is already in progress; retry once it completes",
            );
            conflict(m.as_str())
        },
        BranchRefusal::AtCapacity => service_unavailable(
            "daemon is at its branch concurrency cap (4); retry shortly",
        ),
        BranchRefusal::ModeAndLegacy => bad_request(
            "set either `mode` (canonical) OR the legacy `diff` / `live` booleans, not both",
        ),
        BranchRefusal::SeveralModes => bad_request(
            "set at most one of `measure_diff` / `diff` / `live` (or use `mode`): measure_diff is the pure measurement hook (Full path + Diff sidecar timing); diff is the real diff-based BRANCH path; live is the v0.4 UFFD_WP-based path",
        ),
        BranchRefusal::WaitWithoutLive => bad_request(
            "`wait: false` requires `live: true` (or `mode: \"live\"`)",
        ),
        BranchRefusal::TagExists => {
            let m = "snapshot ".to_string().concat(tag).concat(" already exists; DELETE first");
            conflict(m.as_str())
        },
        BranchRefusal::NoSandbox | BranchRefusal::NoVm => {
            let m = "sandbox ".to_string().concat(id);
            not_found(m.as_str())
        },
        BranchRefusal::ParentMismatch => {
            let m = "parent_tag `".to_string().concat(parent).concat(
                "` must equal the source sandbox's snapshot_tag `",
            ).concat(source).concat(
                "` — v0.5 chain edges only record the immediate parent the source was spawned from",
            );
            bad_request(m.as_str())
        },
        BranchRefusal::ParentWithoutDiff => bad_request(
            "parent_tag requires diff mode (set `mode: \"diff\"` or legacy `diff: true`) — Full BRANCH writes the whole memory so chaining has no semantic meaning; Live BRANCH on chained sources is carved out to v0.6",
        ),
        BranchRefusal::Volumes => {
            let m = "read source snapshot volumes from tag '".to_string().concat(source).concat(
                "': ",
            ).concat(volumes);
            server_error(m.as_str())
        },
        BranchRefusal::NotMemfd => bad_request(
            "live BRANCH requires a memfd-backed sandbox (MemoryBackend::MemfdShared, Phase 5b); this one is file-backed",
        ),
    }
}

fn check_modes(req: &BranchSandboxRequest) -> (r: Option<BranchRefusal>)
    ensures
        r == mode_refusal(*req),
{
    if req.mode.is_some() && (req.diff || req.live) {
        return Some(BranchRefusal::ModeAndLegacy);
    }
    let (diff, live) = effective(req);
    if (req.measure_diff && diff) || (req.measure_diff && live) || (diff && live) {
        return Some(BranchRefusal::SeveralModes);
    }
    if !req.wait && !live {
        return Some(BranchRefusal::WaitWithoutLive);
    }
    None
}

fn effective(req: &BranchSandboxRequest) -> (r: (bool, bool))
    ensures
        r.0 == wants_diff(*req),
        r.1 == wants_live(*req),
{
    match req.mode {
        Some(BranchMode::Full) => (false, false),
        Some(BranchMode::Diff) => (true, false),
        Some(BranchMode::Live) => (false, true),
        None => (req.diff, req.live),
    }
}

fn check_source(req: &BranchSandboxRequest, sandbox: &Option<SandboxInfo>, facts: &BranchFacts) -> (r:
    Option<BranchRefusal>)
    ensures
        r == source_refusal(*req, *sandbox, *facts),
{
    if facts.vmstate_exists {
        return Some(BranchRefusal::TagExists);
    }
    match sandbox {
        None => Some(BranchRefusal::NoSandbox),
        Some(sb) => {
            let (diff, live) = effective(req);
            match &req.parent_tag {
                Some(pt) => {
                    if !str_eq(pt.as_str(), sb.snapshot_tag.as_str()) {
                        return Some(BranchRefusal::ParentMismatch);
                    }
                    if !diff {
                        return Some(BranchRefusal::ParentWithoutDiff);
                    }
                },
                None => {},
            }
            if facts.volumes.is_err() {
                Some(BranchRefusal::Volumes)
            } else if !facts.vm_present {
                Some(BranchRefusal::NoVm)
            } else if live && !facts.memfd_backed {
                Some(BranchRefusal::NotMemfd)
            } else {
                None
            }
        },
    }
}

/// A snapshot's metadata file, as found on disk.
#[derive(Debug)]
pub enum StoredMeta {
    Absent,
    /// There is one, and it cannot be read or makes no sense.
    Unreadable(String),
    Read(Snapshot),
}

/// The volumes of the snapshot that is stored under `tag`. A snapshot without
/// metadata has none. A tag that is no path component is not looked up.
pub fn read_snapshot_volumes(tag: &str, stored: &StoredMeta) -> (r: Result<Vec<VolumeSpec>, String>)
    ensures
        match (safe_tag(tag@), *stored) {
            (false, _) => r matches Err(e) && e@
                == "refusing to read snapshot with unsafe tag (defense in depth)"@,
            (true, StoredMeta::Absent) => r matches Ok(v) && v@.len() == 0,
            (true, StoredMeta::Unreadable(why)) => r matches Err(e) && e@ == why@,
            (true, StoredMeta::Read(snap)) => r matches Ok(v) && v@ == snap.volumes@,
        },
{
    if !is_safe_tag(tag) {
        return Err("refusing to read snapshot with unsafe tag (defense in depth)".to_string());
    }
    match stored {
        StoredMeta::Absent => Ok(Vec::new()),
        StoredMeta::Unreadable(why) => Err(why.clone()),
        StoredMeta::Read(snap) => Ok(copy_volumes(&snap.volumes)),
    }
}

/// How much space to reserve for the new memory file.
#[derive(Debug, Clone, Copy, PartialEq, Eq, Structural)]
pub enum Reservation {
    /// None: the length of the source is not known, or zero.
    Skip,
    Reserve { len: i64 },
    /// The length of the source is more than a file offset can hold.
    TooLarge,
}

/// What to reserve given the length of the source's memory file.
pub fn reservation(source_len: Option<u64>) -> (r: Reservation)
    ensures
        match source_len {
            None => r == Reservation::Skip,
            Some(n) => if n == 0 {
                r == Reservation::Skip
            } else if n > i64::MAX {
                r == Reservation::TooLarge
            } else {
                r matches Reservation::Reserve { len } && len == n
            },
        },
{
    match source_len {
        None => Reservation::Skip,
        Some(n) => {
            if n == 0 {
                Reservation::Skip
            } else if n > i64::MAX as u64 {
                Reservation::TooLarge
            } else {
                Reservation::Reserve { len: n as i64 }
            }
        },
    }
}

/// The memory file that a diff of this sandbox goes on top of: that of its
/// latest branch while that exists, else that of the snapshot it was forked
/// from.
pub open spec fn diff_base(sb: SandboxInfo, root: Seq<char>, last_branch_exists: bool) -> Seq<char> {
    match sb.last_branch_memory_path {
        Some(p) => if last_branch_exists {
            p@
        } else {
            joined_path(joined_path(root, sb.snapshot_tag@), "memory.bin"@)
        },
        None => joined_path(joined_path(root, sb.snapshot_tag@), "memory.bin"@),
    }
}

fn pick_diff_base(sb: &SandboxInfo, root: &str, last_branch_exists: bool) -> (r: String)
    ensures
        r@ == diff_base(*sb, root@, last_branch_exists),
{
    let dir = join_path(root, sb.snapshot_tag.as_str());
    let fallback = join_path(dir.as_str(), "memory.bin");
    match &sb.last_branch_memory_path {
        Some(p) => if last_branch_exists {
            p.clone()
        } else {
            fallback
        },
        None => fallback,
    }
}

/// A branch that has been admitted.
#[derive(Debug)]
pub struct BranchPlan {
    pub slot: BranchSlot,
    pub id: String,
    pub tag: String,
    pub snap_dir: String,
    pub mode: BranchMode,
    pub measure_diff: bool,
    pub wait: bool,
    pub volumes: Vec<VolumeSpec>,
    /// What a diff goes on top of, and how large the memory file will be.
    pub source_memory: String,
    pub parent_tag: Option<String>,
}

pub open spec fn effective_mode(req: BranchSandboxRequest) -> BranchMode {
    if wants_live(req) {
        BranchMode::Live
    } else if wants_diff(req) {
        BranchMode::Diff
    } else {
        BranchMode::Full
    }
}

/// A request that is not refused is branched the way it names, by `mode` or by
/// one of the older flags, and in full where it names none; only a full branch
/// measures a diff on the side, and only a live one is not waited for.
pub proof fn law_branch_goes_the_way_it_was_asked(req: BranchSandboxRequest)
    requires
        mode_refusal(req) is None,
    ensures
        req.mode matches Some(m) ==> effective_mode(req) == m && !req.diff && !req.live,
        req.diff ==> effective_mode(req) == BranchMode::Diff,
        req.live ==> effective_mode(req) == BranchMode::Live,
        req.mode is None && !req.diff && !req.live ==> effective_mode(req) == BranchMode::Full,
        req.measure_diff ==> effective_mode(req) == BranchMode::Full,
        !req.wait ==> effective_mode(req) == BranchMode::Live,
{
}

/// A request that names one way only, and asks for nothing that goes with
/// another, has nothing wrong with its modes.
pub proof fn law_one_way_is_not_refused(req: BranchSandboxRequest)
    requires
        req.mode is None || !req.diff && !req.live,
        !(req.diff && req.live),
        req.measure_diff ==> effective_mode(req) == BranchMode::Full,
        !req.wait ==> effective_mode(req) == BranchMode::Live,
    ensures
        mode_refusal(req) is None,
{
}

/// What an admitted branch does.
pub open spec fn is_plan(
    p: BranchPlan,
    s: AppState,
    id: Seq<char>,
    req: BranchSandboxRequest,
    now: nat,
    facts: BranchFacts,
) -> bool {
    let tag = branch_tag_of(id, opt_view(req.tag), now);
    &&& p.slot.tag() == tag
    &&& p.id@ == id
    &&& p.tag@ == tag
    &&& p.snap_dir@ == joined_path(s.snapshot_root@, tag)
    &&& p.mode == effective_mode(req)
    &&& p.measure_diff == req.measure_diff
    &&& p.wait == req.wait
    &&& facts.volumes matches Ok(v) && p.volumes@ == v@
    &&& p.source_memory@ == diff_base(
        s.registry.sandboxes()[id],
        s.snapshot_root@,
        facts.last_branch_exists,
    )
    &&& opt_view(p.parent_tag) == opt_view(req.parent_tag)
}

/// The texts that a refusal may quote.
pub open spec fn quoted(
    s: AppState,
    id: Seq<char>,
    req: BranchSandboxRequest,
    facts: BranchFacts,
) -> (Seq<char>, Seq<char>, Seq<char>) {
    (
        match req.parent_tag {
            Some(p) => p@,
            None => Seq::empty(),
        },
        match s.registry.sandboxes().get(id) {
            Some(sb) => sb.snapshot_tag@,
            None => Seq::empty(),
        },
        match facts.volumes {
            Ok(_) => Seq::empty(),
            Err(e) => e@,
        },
    )
}

impl AppState {
    /// Admits or refuses a request to branch sandbox `id`. An admitted branch
    /// holds the slot of its tag; a refused one holds none.
    pub fn begin_branch(
        &mut self,
        id: &str,
        req: &BranchSandboxRequest,
        now: u64,
        facts: &BranchFacts,
    ) -> (r: Result<BranchPlan, ApiError>)
        requires
            old(self).wf(),
        ensures
            final(self).wf(),
            *final(self) == (AppState { branches: final(self).branches, ..*old(self) }),
            final(self).branches.cap() == old(self).branches.cap(),
            match branch_refusal(*old(self), id@, *req, now as nat, *facts) {
                Some(why) => {
                    &&& r matches Err(e) && e.is(
                        refusal_status(why),
                        refusal_text(
                            why,
                            id@,
                            branch_tag_of(id@, opt_view(req.tag), now as nat),
                            quoted(*old(self), id@, *req, *facts).0,
                            quoted(*old(self), id@, *req, *facts).1,
                            quoted(*old(self), id@, *req, *facts).2,
                        ),
                    )
                    &&& final(self).branches.held() == old(self).branches.held()
                },
                None => {
                    &&& r matches Ok(p) && is_plan(p, *old(self), id@, *req, now as nat, *facts)
                    &&& final(self).branches.held() == old(self).branches.held().insert(
                        branch_tag_of(id@, opt_view(req.tag), now as nat),
                    )
                },
            },
    {
        let tag = branch_tag(id, req, now);
        let sandbox = self.registry.get_sandbox(id);
        let parent = match &req.parent_tag {
            Some(p) => p.clone(),
            None => String::new(),
        };
        let source = match &sandbox {
            Some(sb) => sb.snapshot_tag.clone(),
            None => String::new(),
        };
        let volumes_error = match &facts.volumes {
            Ok(_) => String::new(),
            Err(e) => e.clone(),
        };
        if !is_safe_tag(tag.as_str()) {
            return Err(
                refuse(
                    BranchRefusal::UnsafeTag,
                    id,
                    tag.as_str(),
                    parent.as_str(),
                    source.as_str(),
                    volumes_error.as_str(),
                ),
            );
        }
        let slot = match self.try_acquire_branch_slot(tag.as_str()) {
            Ok(slot) => slot,
            Err(BranchSlotError::AlreadyInFlight) => {
                return Err(
                    refuse(
                        BranchRefusal::InFlight,
                        id,
                        tag.as_str(),
                        parent.as_str(),
                        source.as_str(),
                        volumes_error.as_str(),
                    ),
                );
            },
            Err(BranchSlotError::CapacityExceeded) => {
                return Err(
                    refuse(
                        BranchRefusal::AtCapacity,
                        id,
                        tag.as_str(),
                        parent.as_str(),
                        source.as_str(),
                        volumes_error.as_str(),
                    ),
                );
            },
        };
        let why = match check_modes(req) {
            Some(w) => Some(w),
            None => check_source(req, &sandbox, facts),
        };
        match why {
            Some(w) => {
                self.release_branch_slot(slot);
                proof {
                    crate::slots::law_release_undoes_acquire(
                        old(self).branches.held(),
                        tag@,
                    );
                }
                Err(
                    refuse(
                        w,
                        id,
                        tag.as_str(),
                        parent.as_str(),
                        source.as_str(),
                        volumes_error.as_str(),
                    ),
                )
            },
            None => {
                let volumes = match &facts.volumes {
                    Ok(v) => copy_volumes(v),
                    Err(_) => Vec::new(),
                };
                let source_memory = match &sandbox {
                    Some(sb) => pick_diff_base(
                        sb,
                        self.snapshot_root.as_str(),
                        facts.last_branch_exists,
                    ),
                    None => String::new(),
                };
                let (diff, live) = effective(req);
                let mode = if live {
                    BranchMode::Live
                } else if diff {
                    BranchMode::Diff
                } else {
                    BranchMode::Full
                };
                let snap_dir = join_path(self.snapshot_root.as_str(), tag.as_str());
                Ok(
                    BranchPlan {
                        slot,
                        id: id.to_string(),
                        tag,
                        snap_dir,
                        mode,
                        measure_diff: req.measure_diff,
                        wait: req.wait,
                        volumes,
                        source_memory,
                        parent_tag: copy_opt(&req.parent_tag),
                    },
                )
            },
        }
    }
}

// ---------------------------------------------------------------------
// What is done to the source
// ---------------------------------------------------------------------

/// One step of a branch.
#[derive(Debug, Clone, Copy, PartialEq, Eq, Structural)]
pub enum BranchStep {
    /// Make the directory of the new snapshot.
    CreateDir,
    /// Reserve the space of its memory file.
    Preallocate,
    /// Start copying the diff's base into the memory file.
    StartCopy,
    /// Map the source's memory and protect it from writes.
    ArmWriteProtect,
    Pause,
    /// Take a diff snapshot, note what it cost and throw it away.
    MeasureDiff,
    TakeFull,
    TakeDiff,
    /// Write the state of the vCPUs and devices, no memory.
    TakeVmstate,
    Resume,
    /// Wait for the copy of the base.
    JoinCopy,
    /// Merge the diff into the copied base.
    ApplyDiff,
    /// Copy the pages that the guest has not written to.
    DriveBulkCopy,
    /// Leave that copy to a background thread.
    HandOver,
}

pub open spec fn steps_of(mode: BranchMode, measure_diff: bool, wait: bool) -> Seq<BranchStep> {
    match mode {
        BranchMode::Full => if measure_diff {
            seq![
                BranchStep::CreateDir,
                BranchStep::Preallocate,
                BranchStep::Pause,
                BranchStep::MeasureDiff,
                BranchStep::TakeFull,
                BranchStep::Resume,
            ]
        } else {
            seq![
                BranchStep::CreateDir,
                BranchStep::Preallocate,
                BranchStep::Pause,
                BranchStep::TakeFull,
                BranchStep::Resume,
            ]
        },
        BranchMode::Diff => seq![
            BranchStep::CreateDir,
            BranchStep::Preallocate,
            BranchStep::StartCopy,
            BranchStep::Pause,
            BranchStep::TakeDiff,
            BranchStep::Resume,
            BranchStep::JoinCopy,
            BranchStep::ApplyDiff,
        ],
        BranchMode::Live => seq![
            BranchStep::CreateDir,
            BranchStep::Preallocate,
            BranchStep::ArmWriteProtect,
            BranchStep::Pause,
            BranchStep::TakeVmstate,
            BranchStep::Resume,
            if wait {
                BranchStep::DriveBulkCopy
            } else {
                BranchStep::HandOver
            },
        ],
    }
}

/// The steps of a branch, in order.
pub fn branch_steps(mode: BranchMode, measure_diff: bool, wait: bool) -> (r: Vec<BranchStep>)
    ensures
        r@ == steps_of(mode, measure_diff, wait),
{
    let mut v: Vec<BranchStep> = Vec::new();
    v.push(BranchStep::CreateDir);
    v.push(BranchStep::Preallocate);
    match mode {
        BranchMode::Full => {
            v.push(BranchStep::Pause);
            if measure_diff {
                v.push(BranchStep::MeasureDiff);
            }
            v.push(BranchStep::TakeFull);
            v.push(BranchStep::Resume);
        },
        BranchMode::Diff => {
            v.push(BranchStep::StartCopy);
            v.push(BranchStep::Pause);
            v.push(BranchStep::TakeDiff);
            v.push(BranchStep::Resume);
            v.push(BranchStep::JoinCopy);
            v.push(BranchStep::ApplyDiff);
        },
        BranchMode::Live => {
            v.push(BranchStep::ArmWriteProtect);
            v.push(BranchStep::Pause);
            v.push(BranchStep::TakeVmstate);
            v.push(BranchStep::Resume);
            if wait {
                v.push(BranchStep::DriveBulkCopy);
            } else {
                v.push(BranchStep::HandOver);
            }
        },
    }
    assert(v@ =~= steps_of(mode, measure_diff, wait));
    v
}

/// Whether a step that fails makes the branch fail. Space that cannot be
/// reserved is done without; and a source that does not resume leaves a
/// snapshot that is whole, unless the capture still goes on.
pub open spec fn fatal(mode: BranchMode, step: BranchStep) -> bool {
    !(step == BranchStep::Preallocate || (step == BranchStep::Resume && mode != BranchMode::Live))
}

pub fn step_is_fatal(mode: BranchMode, step: BranchStep) -> (r: bool)
    ensures
        r == fatal(mode, step),
{
    match step {
        BranchStep::Preallocate => false,
        BranchStep::Resume => mode == BranchMode::Live,
        _ => true,
    }
}

/// Whether the source is resumed at once where a step fails: a live branch
/// never leaves its source paused.
pub open spec fn resumed_on_failure(step: BranchStep) -> bool {
    step == BranchStep::TakeVmstate
}

pub fn step_resumes_on_failure(step: BranchStep) -> (r: bool)
    ensures
        r == resumed_on_failure(step),
{
    match step {
        BranchStep::TakeVmstate => true,
        _ => false,
    }
}

/// The index of the pause and of the resume in the steps of a branch.
pub open spec fn pause_window(mode: BranchMode, measure_diff: bool) -> (int, int) {
    match mode {
        BranchMode::Full => (2, if measure_diff {
            5
        } else {
            4
        }),
        BranchMode::Diff => (3, 5),
        BranchMode::Live => (3, 5),
    }
}

pub open spec fn is_snapshot_step(s: BranchStep) -> bool {
    ||| s == BranchStep::MeasureDiff
    ||| s == BranchStep::TakeFull
    ||| s == BranchStep::TakeDiff
    ||| s == BranchStep::TakeVmstate
}

/// The source is paused once and resumed once; only snapshots are taken in
/// between, and none is taken otherwise. Copying and merging memory files
/// never happens while the source is paused.
pub proof fn law_pause_window_holds_only_snapshots(mode: BranchMode, measure_diff: bool, wait: bool, i: int)
    requires
        0 <= i < steps_of(mode, measure_diff, wait).len(),
    ensures
        ({
            let steps = steps_of(mode, measure_diff, wait);
            let (pause, resume) = pause_window(mode, measure_diff);
            &&& 0 <= pause < resume < steps.len()
            &&& steps[i] == BranchStep::Pause <==> i == pause
            &&& steps[i] == BranchStep::Resume <==> i == resume
            &&& is_snapshot_step(steps[i]) <==> pause < i < resume
        }),
{
}

/// A diff is merged after its base has been copied in full, and the base
/// starts to be copied before the source is paused.
pub proof fn law_diff_is_merged_last(measure_diff: bool, wait: bool)
    ensures
        ({
            let steps = steps_of(BranchMode::Diff, measure_diff, wait);
            let (pause, resume) = pause_window(BranchMode::Diff, measure_diff);
            &&& steps[pause - 1] == BranchStep::StartCopy
            &&& steps[resume + 1] == BranchStep::JoinCopy
            &&& steps[resume + 2] == BranchStep::ApplyDiff
            &&& steps.len() == resume + 3
        }),
{
}

// ---------------------------------------------------------------------
// Live branches
// ---------------------------------------------------------------------

/// Why a live branch cannot be set up.
#[derive(Debug, Clone, Copy, PartialEq, Eq, Structural)]
pub enum LiveSetupError {
    NotMemfd,
    TooLarge { size: u64 },
    Empty,
    NoRegions,
}

impl LiveSetupError {
    pub open spec fn text(self) -> Seq<char> {
        match self {
            LiveSetupError::NotMemfd => "live BRANCH requires a memfd-backed sandbox (MemoryBackend::MemfdShared, Phase 5b); this one is file-backed"@,
            LiveSetupError::TooLarge { size } => "memfd region size "@ + dec(size as nat)
                + " doesn't fit in usize"@,
            LiveSetupError::Empty => "live BRANCH: memfd region is empty"@,
            LiveSetupError::NoRegions => "FC returned 0 regions in the WP handshake"@,
        }
    }

    pub fn message(&self) -> (r: String)
        ensures
            r@ == self.text(),
    {
        match self {
            LiveSetupError::NotMemfd => "live BRANCH requires a memfd-backed sandbox (MemoryBackend::MemfdShared, Phase 5b); this one is file-backed".to_string(),
            LiveSetupError::TooLarge { size } => {
                let n = dec_string(*size);
                "memfd region size ".to_string().concat(n.as_str()).concat(
                    " doesn't fit in usize",
                )
            },
            LiveSetupError::Empty => "live BRANCH: memfd region is empty".to_string(),
            LiveSetupError::NoRegions => "FC returned 0 regions in the WP handshake".to_string(),
        }
    }
}

/// How much memory to map for a live branch, given the length of the VM's
/// memfd (`None`: it has none).
pub fn live_region_size(memfd_size: Option<u64>) -> (r: Result<usize, LiveSetupError>)
    ensures
        match memfd_size {
            None => r == Err::<usize, LiveSetupError>(LiveSetupError::NotMemfd),
            Some(n) => if n > usize::MAX {
                r == Err::<usize, LiveSetupError>(LiveSetupError::TooLarge { size: n })
            } else if n == 0 {
                r == Err::<usize, LiveSetupError>(LiveSetupError::Empty)
            } else {
                r matches Ok(s) && s == n
            },
        },
{
    match memfd_size {
        None => Err(LiveSetupError::NotMemfd),
        Some(n) => {
            if n > usize::MAX as u64 {
                Err(LiveSetupError::TooLarge { size: n })
            } else if n == 0 {
                Err(LiveSetupError::Empty)
            } else {
                Ok(n as usize)
            }
        },
    }
}

/// The address at which the guest's process maps its memory: that of the
/// first region it reports.
pub fn live_fault_base(regions: &Vec<GuestRegionUffdMapping>) -> (r: Result<u64, LiveSetupError>)
    ensures
        match r {
            Ok(a) => regions@.len() > 0 && a == regions@[0].base_host_virt_addr,
            Err(e) => regions@.len() == 0 && e == LiveSetupError::NoRegions,
        },
{
    if regions.len() == 0 {
        return Err(LiveSetupError::NoRegions);
    }
    Ok(regions[0].base_host_virt_addr)
}

/// The socket over which the write-protection descriptor comes.
pub fn live_handshake_socket(snap_dir: &str) -> (r: String)
    ensures
        r@ == joined_path(snap_dir@, ".wp.sock"@),
{
    join_path(snap_dir, ".wp.sock")
}

// ---------------------------------------------------------------------
// When it is over
// ---------------------------------------------------------------------

/// What a diff snapshot cost.
#[derive(Debug, Clone, Copy, PartialEq, Eq, Structural)]
pub struct DiffMetrics {
    pub ms: u64,
    pub physical_bytes: u64,
    pub logical_bytes: u64,
}

/// How the work of a branch ended.
#[derive(Debug, PartialEq, Eq)]
pub enum BranchOutcome {
    /// The worker is gone, and the VM with it.
    Panicked(String),
    /// A step failed.
    Failed(String),
    /// The parent's memory file could not be hashed.
    HashFailed { memory: String, error: String },
    /// The metadata could not be encoded.
    SerializeFailed(String),
    /// The metadata could not be written.
    WriteFailed(String),
    /// The snapshot is on disk, or its memory is still being copied.
    Written { pause_ms: Option<u64>, diff: Option<DiffMetrics> },
}

/// A branch that came to nothing.
#[derive(Debug, PartialEq, Eq)]
pub struct BranchFailure {
    pub error: ApiError,
    /// Whether the source's VM goes back among the live ones; else it is
    /// stopped, or lost already.
    pub keep_vm: bool,
    /// The directory to remove.
    pub remove_dir: Option<String>,
}

/// The answer to a branch that came to something: 201 where it is complete,
/// 202 where its memory is still being copied.
#[derive(Debug, PartialEq, Eq)]
pub struct BranchReply {
    pub status: u16,
    /// Whether the source's VM goes back among the live ones; else it is
    /// stopped.
    pub keep_vm: bool,
    pub info: SnapshotInfo,
}

pub open spec fn outcome_error(p: BranchPlan, o: BranchOutcome) -> Seq<char> {
    match o {
        BranchOutcome::Panicked(e) => "blocking task panicked: "@ + e@,
        BranchOutcome::Failed(e) => "branch: "@ + e@,
        BranchOutcome::HashFailed { memory, error } => "hash parent `"@ + (match p.parent_tag {
            Some(t) => t@,
            None => Seq::empty(),
        }) + "` memory at "@ + memory@ + ": "@ + error@,
        BranchOutcome::SerializeFailed(e) => "serialize snapshot.json: "@ + e@,
        BranchOutcome::WriteFailed(e) => "write snapshot.json: "@ + e@,
        BranchOutcome::Written { pause_ms, diff } => Seq::empty(),
    }
}

/// What is recorded beside the files of a branch.
pub open spec fn is_branch_metadata(
    r: Snapshot,
    p: BranchPlan,
    parent_hash: Option<Seq<char>>,
) -> bool {
    &&& r.vmstate@ == joined_path(p.snap_dir@, "vmstate"@)
    &&& r.memory@ == joined_path(p.snap_dir@, "memory.bin"@)
    &&& r.volumes@ == p.volumes@
    &&& opt_view(r.parent_tag) == opt_view(p.parent_tag)
    &&& opt_view(r.parent_content_hash) == parent_hash
}

/// The metadata of the new snapshot. `parent_hash` is what the parent's memory
/// file hashes to, where the branch records one.
pub fn branch_metadata(p: &BranchPlan, parent_hash: &Option<String>) -> (r: Snapshot)
    requires
        p.parent_tag is Some <==> parent_hash is Some,
    ensures
        is_branch_metadata(r, *p, opt_view(*parent_hash)),
{
    Snapshot {
        vmstate: join_path(p.snap_dir.as_str(), "vmstate"),
        memory: join_path(p.snap_dir.as_str(), "memory.bin"),
        volumes: copy_volumes(&p.volumes),
        parent_tag: copy_opt(&p.parent_tag),
        parent_content_hash: copy_opt(parent_hash),
    }
}

pub open spec fn is_branch_info(
    i: SnapshotInfo,
    p: BranchPlan,
    o: BranchOutcome,
    now: u64,
    status: SnapshotStatus,
) -> bool {
    &&& i.tag@ == p.tag@
    &&& i.dir@ == p.snap_dir@
    &&& i.created_at_unix == now
    &&& opt_view(i.branched_from) == Some(p.id@)
    &&& i.warning is None
    &&& i.status == status
    &&& o matches BranchOutcome::Written { pause_ms, diff } && {
        &&& i.pause_ms == pause_ms
        &&& match diff {
            Some(d) => i.diff_ms == Some(d.ms) && i.diff_physical_bytes == Some(d.physical_bytes)
                && i.diff_logical_bytes == Some(d.logical_bytes),
            None => i.diff_ms is None && i.diff_physical_bytes is None && i.diff_logical_bytes
                is None,
        }
    }
}

/// The directory that a branch which came to nothing leaves behind, where it is
/// known to be done with it.
pub open spec fn branch_remains(p: BranchPlan, o: BranchOutcome) -> Option<Seq<char>> {
    if o is Panicked {
        None
    } else {
        Some(p.snap_dir@)
    }
}

/// What is removed when a branch came to nothing is the directory that its
/// files would have been in, unless the worker was lost and may still write
/// there.
pub proof fn law_failed_branch_leaves_no_files(
    p: BranchPlan,
    o: BranchOutcome,
    meta: Snapshot,
    parent_hash: Option<Seq<char>>,
)
    requires
        is_branch_metadata(meta, p, parent_hash),
    ensures
        branch_remains(p, o) is None <==> o is Panicked,
        branch_remains(p, o) matches Some(dir) ==> meta.vmstate@ == joined_path(dir, "vmstate"@)
            && meta.memory@ == joined_path(dir, "memory.bin"@),
{
}

/// A branch reports what its diff cost: how long it took, what it holds, and
/// how large it would be without holes.
pub proof fn law_branch_reports_its_cost(
    i: SnapshotInfo,
    p: BranchPlan,
    pause_ms: Option<u64>,
    d: DiffMetrics,
    now: u64,
    status: SnapshotStatus,
)
    requires
        is_branch_info(i, p, BranchOutcome::Written { pause_ms, diff: Some(d) }, now, status),
        d.physical_bytes <= d.logical_bytes,
    ensures
        i.diff_physical_bytes is Some && i.diff_logical_bytes is Some,
        i.diff_physical_bytes->0 <= i.diff_logical_bytes->0,
        i.diff_logical_bytes->0 == d.logical_bytes,
        i.diff_ms == Some(d.ms),
        i.pause_ms == pause_ms,
{
}

/// The sandboxes after a branch of `id` wrote its memory to `path`.
pub open spec fn marked(
    before: Map<Seq<char>, SandboxInfo>,
    after: Map<Seq<char>, SandboxInfo>,
    id: Seq<char>,
    path: Seq<char>,
) -> bool {
    if before.contains_key(id) {
        &&& after == before.insert(id, after[id])
        &&& branched(before[id], after[id], path)
    } else {
        after == before
    }
}

impl AppState {
    /// Ends a branch. Its slot is given back in every case, and the source's VM
    /// is kept while its sandbox has not been deleted. A branch that
    /// wrote its snapshot is counted on the sandbox, and the snapshot is
    /// registered, or put in flight where its memory is still being copied;
    /// one that did not changes nothing else.
    pub fn finish_branch(&mut self, plan: BranchPlan, outcome: BranchOutcome, now: u64) -> (r: Result<
        BranchReply,
        BranchFailure,
    >)
        requires
            old(self).wf(),
            plan.slot.tag() == plan.tag@,
        ensures
            final(self).wf(),
            final(self).snapshot_root == old(self).snapshot_root,
            final(self).prewarm_scratch_dir == old(self).prewarm_scratch_dir,
            final(self).branches.cap() == old(self).branches.cap(),
            final(self).branches.held() == old(self).branches.held().remove(plan.tag@),
            final(self).registry.state.workspaces == old(self).registry.state.workspaces,
            match r {
                Ok(reply) => {
                    let background = plan.mode == BranchMode::Live && !plan.wait;
                    &&& outcome is Written
                    &&& reply.keep_vm == old(self).registry.sandboxes().contains_key(plan.id@)
                    &&& reply.status == (if background {
                        202u16
                    } else {
                        201u16
                    })
                    &&& is_branch_info(
                        reply.info,
                        plan,
                        outcome,
                        now,
                        if background {
                            SnapshotStatus::Writing
                        } else {
                            SnapshotStatus::Ready
                        },
                    )
                    &&& marked(
                        old(self).registry.sandboxes(),
                        final(self).registry.sandboxes(),
                        plan.id@,
                        joined_path(plan.snap_dir@, "memory.bin"@),
                    )
                    &&& if background {
                        &&& final(self).live_in_flight@ == old(self).live_in_flight@.insert(
                            plan.tag@,
                            reply.info,
                        )
                        &&& final(self).registry.snapshots() == old(self).registry.snapshots()
                    } else {
                        &&& final(self).live_in_flight == old(self).live_in_flight
                        &&& final(self).registry.snapshots() == old(
                            self,
                        ).registry.snapshots().insert(plan.tag@, reply.info)
                    }
                },
                Err(f) => {
                    &&& !(outcome is Written)
                    &&& f.keep_vm == (!(outcome is Panicked) && old(
                        self,
                    ).registry.sandboxes().contains_key(plan.id@))
                    &&& f.error.is(500, outcome_error(plan, outcome))
                    &&& opt_view(f.remove_dir) == branch_remains(plan, outcome)
                    &&& final(self).registry == old(self).registry
                    &&& final(self).live_in_flight == old(self).live_in_flight
                },
            },
    {
        let BranchPlan {
            slot,
            id,
            tag,
            snap_dir,
            mode,
            measure_diff: _,
            wait,
            volumes: _,
            source_memory: _,
            parent_tag,
        } = plan;
        self.release_branch_slot(slot);
        let keep_vm = self.registry.get_sandbox(id.as_str()).is_some();
        match outcome {
            BranchOutcome::Panicked(e) => {
                let m = "blocking task panicked: ".to_string().concat(e.as_str());
                Err(BranchFailure { error: server_error(m.as_str()), keep_vm: false, remove_dir: None })
            },
            BranchOutcome::Failed(e) => {
                let m = "branch: ".to_string().concat(e.as_str());
                Err(
                    BranchFailure {
                        error: server_error(m.as_str()),
                        keep_vm,
                        remove_dir: Some(snap_dir),
                    },
                )
            },
            BranchOutcome::HashFailed { memory, error } => {
                let parent = match parent_tag {
                    Some(t) => t,
                    None => String::new(),
                };
                let m = "hash parent `".to_string().concat(parent.as_str()).concat(
                    "` memory at ",
                ).concat(memory.as_str()).concat(": ").concat(error.as_str());
                Err(
                    BranchFailure {
                        error: server_error(m.as_str()),
                        keep_vm,
                        remove_dir: Some(snap_dir),
                    },
                )
            },
            BranchOutcome::SerializeFailed(e) => {
                let m = "serialize snapshot.json: ".to_string().concat(e.as_str());
                Err(
                    BranchFailure {
                        error: server_error(m.as_str()),
                        keep_vm,
                        remove_dir: Some(snap_dir),
                    },
                )
            },
            BranchOutcome::WriteFailed(e) => {
                let m = "write snapshot.json: ".to_string().concat(e.as_str());
                Err(
                    BranchFailure {
                        error: server_error(m.as_str()),
                        keep_vm,
                        remove_dir: Some(snap_dir),
                    },
                )
            },
            BranchOutcome::Written { pause_ms, diff } => {
                let head = join_path(snap_dir.as_str(), "memory.bin");
                let _ = self.registry.mark_branched(id.as_str(), head.as_str());
                let background = mode == BranchMode::Live && !wait;
                let (diff_ms, diff_physical_bytes, diff_logical_bytes) = match diff {
                    Some(d) => (Some(d.ms), Some(d.physical_bytes), Some(d.logical_bytes)),
                    None => (None, None, None),
                };
                let info = SnapshotInfo {
                    tag: tag.clone(),
                    dir: snap_dir,
                    created_at_unix: now,
                    branched_from: Some(id),
                    pause_ms,
                    diff_ms,
                    diff_physical_bytes,
                    diff_logical_bytes,
                    warning: None,
                    status: if background {
                        SnapshotStatus::Writing
                    } else {
                        SnapshotStatus::Ready
                    },
                };
                if background {
                    let _ = self.live_in_flight.insert(tag, info.clone());
                    Ok(BranchReply { status: 202, keep_vm, info })
                } else {
                    self.registry.insert_snapshot(info.clone());
                    Ok(BranchReply { status: 201, keep_vm, info })
                }
            },
        }
    }
}

/// The next diff of a sandbox goes on top of the branch that has just been
/// taken, while its memory file exists.
pub proof fn law_next_diff_builds_on_this_branch(
    before: Map<Seq<char>, SandboxInfo>,
    after: Map<Seq<char>, SandboxInfo>,
    id: Seq<char>,
    path: Seq<char>,
    root: Seq<char>,
)
    requires
        before.contains_key(id),
        marked(before, after, id, path),
    ensures
        diff_base(after[id], root, true) == path,
        diff_base(after[id], root, false) == joined_path(
            joined_path(root, before[id].snapshot_tag@),
            "memory.bin"@,
        ),
        after[id].has_branched,
{
}

/// What a refused branch is answered. Where nothing is wrong with the request
/// itself: 503 while as many branches are written as there may be, 409 while
/// the same tag is being written or where it is there already, and 404 for a
/// sandbox that is not there.
pub proof fn law_refused_branch_is_answered(
    s: AppState,
    id: Seq<char>,
    req: BranchSandboxRequest,
    now: nat,
    facts: BranchFacts,
)
    requires
        mode_refusal(req) is None,
        safe_tag(branch_tag_of(id, opt_view(req.tag), now)),
    ensures
        ({
            let tag = branch_tag_of(id, opt_view(req.tag), now);
            let full = s.branches.held().len() >= s.branches.cap();
            let held = s.branches.held().contains(tag);
            let there = s.registry.sandboxes().contains_key(id);
            let why = branch_refusal(s, id, req, now, facts);
            &&& full ==> why is Some && refusal_status(why->0) == 503
            &&& !full && (held || facts.vmstate_exists) ==> why is Some && refusal_status(why->0)
                == 409
            &&& !full && !held && !facts.vmstate_exists && !there ==> why is Some
                && refusal_status(why->0) == 404
            &&& !full && !held && !facts.vmstate_exists && there && req.parent_tag is None && (
            facts.volumes is Ok) && !facts.vm_present ==> why is Some && refusal_status(why->0)
                == 404
            &&& why is None ==> !full && !held && !facts.vmstate_exists && there && facts.vm_present
        }),
{
}

/// A branch that asks for what cannot be is the request's own fault, whatever
/// there is: an unsafe tag, ways that exclude each other, a parent that the
/// sandbox was not forked from or that a branch in full does not need, or a
/// live branch of memory that is not shared.
pub proof fn law_faulty_branch_is_a_bad_request(
    s: AppState,
    id: Seq<char>,
    req: BranchSandboxRequest,
    now: nat,
    facts: BranchFacts,
)
    requires
        s.branches.held().len() < s.branches.cap(),
        !s.branches.held().contains(branch_tag_of(id, opt_view(req.tag), now)),
        !facts.vmstate_exists,
        s.registry.sandboxes().contains_key(id),
        facts.volumes is Ok,
        facts.vm_present,
    ensures
        ({
            let tag = branch_tag_of(id, opt_view(req.tag), now);
            let why = branch_refusal(s, id, req, now, facts);
            let from = s.registry.sandboxes()[id].snapshot_tag@;
            &&& why is Some ==> refusal_status(why->0) == 400
            &&& why is None <==> {
                &&& safe_tag(tag)
                &&& mode_refusal(req) is None
                &&& req.parent_tag is Some ==> req.parent_tag->0@ == from && effective_mode(req)
                    == BranchMode::Diff
                &&& effective_mode(req) == BranchMode::Live ==> facts.memfd_backed
            }
        }),
{
}

} // verus!
