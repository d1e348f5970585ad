//! Workspaces: named sandboxes that can be suspended to a snapshot and resumed
//! from it, across restarts of the daemon.
use vstd::prelude::*;

use crate::api::{
    bad_request, conflict, not_found, opt_view, server_error, service_unavailable, ApiError,
    CreateWorkspaceRequest, SnapshotInfo, SnapshotStatus, SuspendWorkspaceRequest, WorkspaceInfo,
    WorkspaceStatus,
};
use crate::branch::BranchStep;
use crate::chain::{is_fallback, load_snapshot_with_fallback};
use crate::daemon::{sandbox_id, AppState};
use crate::fork::{ForkOpts, MemoryBackend, Snapshot};
use crate::netns::{free, pick_netns_offset};
use crate::paths::{join_path, joined_path};
use crate::sandboxes::{
    is_new_sandbox, new_sandbox, not_written, not_written_text, still_written, still_written_text,
    CreatePlan, RunningChild,
};
use crate::slots::{BranchSlot, BranchSlotError};
use crate::tags::{is_safe_tag, safe_tag};
use crate::text::{chars_of, dec, dec_string, str_eq, string_of};

verus! {

/// A workspace entry makes sense: it names a live sandbox exactly while it
/// runs, and a suspended one has a snapshot to come back from.
pub open spec fn workspace_ok(ws: WorkspaceInfo) -> bool {
    &&& ws.status == WorkspaceStatus::Running <==> ws.live_sandbox_id is Some
    &&& ws.status == WorkspaceStatus::Suspended ==> ws.current_state_tag is Some
}

pub open spec fn workspaces_ok(m: Map<Seq<char>, WorkspaceInfo>) -> bool {
    forall|k: Seq<char>| #[trigger] m.contains_key(k) ==> workspace_ok(m[k])
}

/// The tag that a workspace is suspended to: one for each workspace, written
/// over by each suspend.
pub open spec fn state_tag_of(name: Seq<char>) -> Seq<char> {
    "ws-"@ + name + "-state"@
}

pub fn state_tag(name: &str) -> (r: String)
    ensures
        r@ == state_tag_of(name@),
{
    "ws-".to_string().concat(name).concat("-state")
}

/// Workspaces never write over each other's state.
pub proof fn law_state_tags_are_distinct(a: Seq<char>, b: Seq<char>)
    requires
        state_tag_of(a) == state_tag_of(b),
    ensures
        a == b,
{
    let n = "ws-"@.len() as int;
    let m = "-state"@.len() as int;
    assert(state_tag_of(a).subrange(n, state_tag_of(a).len() - m) =~= a);
    assert(state_tag_of(b).subrange(n, state_tag_of(b).len() - m) =~= b);
}

// ---------------------------------------------------------------------
// Spawning
// ---------------------------------------------------------------------

/// The directory of a snapshot that a workspace is spawned from: the
/// registered one, else the one below the snapshot root.
pub open spec fn spawn_dir_of(s: AppState, tag: Seq<char>) -> Seq<char> {
    match s.registry.snapshots().get(tag) {
        Some(i) => i.dir@,
        None => joined_path(s.snapshot_root@, tag),
    }
}

/// What a plan for the one sandbox of a workspace says.
pub open spec fn is_spawn_plan(
    p: CreatePlan,
    s: AppState,
    tag: Seq<char>,
    per_child_netns: bool,
    memory_limit_mib: Option<u64>,
    meta: Option<Snapshot>,
    live: Seq<Option<String>>,
    temp_dir: Seq<char>,
) -> bool {
    &&& p.tag@ == tag
    &&& match meta {
        Some(m) => p.snapshot.same(m),
        None => is_fallback(p.snapshot, spawn_dir_of(s, tag)),
    }
    &&& p.opts.n == 1
    &&& p.opts.per_child_netns == per_child_netns
    &&& p.opts.memory_limit_mib == memory_limit_mib
    &&& if per_child_netns {
        &&& free(live, p.opts.netns_offset as nat, 1)
        &&& forall|o: nat| o < p.opts.netns_offset ==> !#[trigger] free(live, o, 1)
    } else {
        p.opts.netns_offset == 0
    }
    &&& p.opts.netns_offset < usize::MAX
    &&& p.opts.prewarm_scratch_dir is None
    &&& p.opts.memory_backend == MemoryBackend::File
    &&& p.opts.enable_diff_snapshots
    &&& p.work_dir@ == joined_path(
        temp_dir,
        "forkd-workspace-"@ + tag + "-o"@ + dec(p.opts.netns_offset as nat),
    )
    &&& p.assembled is None
    &&& p.chain is None
}

impl AppState {
    pub fn spawn_dir(&self, tag: &str) -> (r: String)
        ensures
            r@ == spawn_dir_of(*self, tag@),
    {
        match self.registry.get_snapshot(tag) {
            Some(i) => i.dir,
            None => join_path(self.snapshot_root.as_str(), tag),
        }
    }

    /// Plans the one sandbox of a workspace. Only a snapshot that is written in
    /// full can be restored. `vmstate_exists` and `meta` say what is in the
    /// snapshot's directory, `live` in which namespaces the live sandboxes
    /// are.
    pub fn spawn_one_for_workspace(
        &self,
        tag: &str,
        per_child_netns: bool,
        memory_limit_mib: Option<u64>,
        vmstate_exists: bool,
        meta: &Option<Snapshot>,
        live: &Vec<Option<String>>,
        temp_dir: &str,
    ) -> (r: Result<CreatePlan, String>)
        requires
            live@.len() < usize::MAX,
        ensures
            match r {
                Ok(p) => {
                    &&& vmstate_exists
                    &&& self.status_of(tag@) == SnapshotStatus::Ready
                    &&& is_spawn_plan(
                        p,
                        *self,
                        tag@,
                        per_child_netns,
                        memory_limit_mib,
                        *meta,
                        live@,
                        temp_dir@,
                    )
                },
                Err(e) => if !vmstate_exists {
                    e@ == "snapshot "@ + tag@ + " not found"@
                } else if self.status_of(tag@) == SnapshotStatus::Writing {
                    e@ == still_written_text(tag@)
                } else {
                    self.status_of(tag@) == SnapshotStatus::Failed && e@ == not_written_text(tag@)
                },
            },
    {
        if !vmstate_exists {
            return Err("snapshot ".to_string().concat(tag).concat(" not found"));
        }
        match self.snapshot_status(tag) {
            SnapshotStatus::Writing => {
                return Err(still_written(tag));
            },
            SnapshotStatus::Failed => {
                return Err(not_written(tag));
            },
            SnapshotStatus::Ready => {},
        }
        let dir = self.spawn_dir(tag);
        let snapshot = load_snapshot_with_fallback(dir.as_str(), meta);
        let netns_offset: usize = if per_child_netns {
            pick_netns_offset(live, 1)
        } else {
            0
        };
        let opts = ForkOpts {
            n: 1,
            per_child_netns,
            memory_limit_mib,
            netns_offset,
            prewarm_scratch_dir: None,
            memory_backend: MemoryBackend::File,
            enable_diff_snapshots: true,
        };
        let o = dec_string(netns_offset as u64);
        let name = "forkd-workspace-".to_string().concat(tag).concat("-o").concat(o.as_str());
        Ok(
            CreatePlan {
                tag: tag.to_string(),
                snapshot,
                opts,
                work_dir: join_path(temp_dir, name.as_str()),
                assembled: None,
                chain: None,
            },
        )
    }
}

/// What is answered when a workspace's sandbox could not be spawned.
pub fn spawn_failed(panicked: bool, e: &str) -> (r: ApiError)
    ensures
        r.is(500, (if panicked {
            "blocking task panicked: "@
        } else {
            "spawn workspace sandbox: "@
        }) + e@),
{
    let m = if panicked {
        "blocking task panicked: ".to_string().concat(e)
    } else {
        "spawn workspace sandbox: ".to_string().concat(e)
    };
    server_error(m.as_str())
}

// ---------------------------------------------------------------------
// Creating, looking up, deleting
// ---------------------------------------------------------------------

/// The id of a workspace, after its first sandbox.
pub open spec fn workspace_id(sandbox: Seq<char>) -> Seq<char> {
    "ws-"@ + (if sandbox.len() <= 16 {
        sandbox
    } else {
        sandbox.take(16)
    })
}

fn new_workspace_id(sandbox: &str) -> (r: String)
    ensures
        r@ == workspace_id(sandbox@),
{
    let v = chars_of(sandbox);
    if v.len() <= 16 {
        "ws-".to_string().concat(sandbox)
    } else {
        let head = string_of(&v, 0, 16);
        assert(head@ =~= sandbox@.take(16));
        "ws-".to_string().concat(head.as_str())
    }
}

/// What is left to clean up when a workspace has been deleted.
#[derive(Debug, PartialEq, Eq)]
pub struct WorkspaceRemains {
    /// The sandbox whose VM is to be stopped.
    pub sandbox: Option<String>,
    /// The directory of the workspace's own snapshot. The snapshot that it was
    /// made from stays: others may use it.
    pub state_dir: Option<String>,
}

/// What a new workspace changes.
pub open spec fn is_new_workspace(
    before: AppState,
    after: AppState,
    req: CreateWorkspaceRequest,
    child: RunningChild,
    now: u64,
    seq: nat,
    r: WorkspaceInfo,
) -> bool {
    let id = sandbox_id(now as nat, seq);
    let sb = after.registry.sandboxes()[id];
    &&& after.registry.sandboxes() == before.registry.sandboxes().insert(id, sb)
    &&& is_new_sandbox(sb, req.snapshot_tag@, req.memory_limit_mib, child, now, seq)
    &&& after.registry.workspaces() == before.registry.workspaces().insert(req.name@, r)
    &&& r.id@ == workspace_id(id)
    &&& r.name@ == req.name@
    &&& r.source_snapshot_tag@ == req.snapshot_tag@
    &&& r.current_state_tag is None
    &&& r.status == WorkspaceStatus::Running
    &&& opt_view(r.live_sandbox_id) == Some(id)
    &&& r.created_at_unix == now
    &&& r.last_active_unix == now
    &&& r.last_branch_memory_path is None
}

/// Deleting a workspace that has just been made leaves nothing of it, and names
/// its guest as the one to stop.
pub proof fn law_delete_undoes_new_workspace(
    before: AppState,
    made: AppState,
    after: AppState,
    req: CreateWorkspaceRequest,
    child: RunningChild,
    now: u64,
    seq: nat,
    ws: WorkspaceInfo,
    left: WorkspaceRemains,
)
    requires
        !before.registry.workspaces().contains_key(req.name@),
        !before.registry.sandboxes().contains_key(sandbox_id(now as nat, seq)),
        is_new_workspace(before, made, req, child, now, seq, ws),
        made.registry.snapshots() == before.registry.snapshots(),
        is_forgotten(made, after, req.name@, left),
    ensures
        after.registry.workspaces() == before.registry.workspaces(),
        after.registry.sandboxes() == before.registry.sandboxes(),
        after.registry.snapshots() == before.registry.snapshots(),
        left.state_dir is None,
        left.sandbox is Some && made.registry.sandboxes().contains_key(left.sandbox->0@)
            && made.registry.sandboxes()[left.sandbox->0@].pid == Some(child.pid),
{
    assert(made.registry.workspaces().remove(req.name@) =~= before.registry.workspaces());
    assert(made.registry.sandboxes().remove(sandbox_id(now as nat, seq))
        =~= before.registry.sandboxes());
}

/// The guest of a new workspace comes from the snapshot that was named and is
/// limited as asked, and the first suspend by diff goes on top of that
/// snapshot's memory.
pub proof fn law_new_workspace_is_as_asked(
    before: AppState,
    after: AppState,
    req: CreateWorkspaceRequest,
    child: RunningChild,
    now: u64,
    seq: nat,
    ws: WorkspaceInfo,
    last_branch_exists: bool,
)
    requires
        is_new_workspace(before, after, req, child, now, seq, ws),
    ensures
        ws.live_sandbox_id is Some,
        ({
            let sb = after.registry.sandboxes()[ws.live_sandbox_id->0@];
            &&& sb.memory_limit_mib == req.memory_limit_mib
            &&& sb.snapshot_tag@ == req.snapshot_tag@
            &&& opt_view(sb.netns) == opt_view(child.netns)
        }),
        suspend_base(after, ws, last_branch_exists) == joined_path(
            joined_path(after.snapshot_root@, req.snapshot_tag@),
            "memory.bin"@,
        ),
        workspace_ok(ws),
{
}

/// What forgetting a workspace changes, and what it leaves to clean up.
pub open spec fn is_forgotten(
    before: AppState,
    after: AppState,
    name: Seq<char>,
    left: WorkspaceRemains,
) -> bool {
    let ws = before.registry.workspaces()[name];
    &&& after.registry.workspaces() == before.registry.workspaces().remove(name)
    &&& opt_view(left.sandbox) == opt_view(ws.live_sandbox_id)
    &&& after.registry.sandboxes() == (match ws.live_sandbox_id {
        Some(id) => before.registry.sandboxes().remove(id@),
        None => before.registry.sandboxes(),
    })
    &&& opt_view(left.state_dir) == (match ws.current_state_tag {
        Some(t) => Some(joined_path(before.snapshot_root@, t@)),
        None => None,
    })
    &&& after.registry.snapshots() == (match ws.current_state_tag {
        Some(t) => before.registry.snapshots().remove(t@),
        None => before.registry.snapshots(),
    })
}

impl AppState {
    /// Admits or refuses a new workspace.
    pub fn begin_workspace(&self, req: &CreateWorkspaceRequest) -> (r: Result<(), ApiError>)
        ensures
            if !safe_tag(req.name@) {
                r matches Err(e) && e.is(
                    400,
                    "workspace name must be 1-64 chars, ASCII alnum or dash/underscore"@,
                )
            } else if !safe_tag(req.snapshot_tag@) {
                r matches Err(e) && e.is(
                    400,
                    "snapshot_tag must be 1-64 chars, ASCII alnum or dash/underscore"@,
                )
            } else if self.registry.workspaces().contains_key(req.name@) {
                r matches Err(e) && e.is(
                    409,
                    "workspace "@ + req.name@ + " already exists; DELETE first"@,
                )
            } else {
                r is Ok
            },
    {
        if !is_safe_tag(req.name.as_str()) {
            return Err(
                bad_request("workspace name must be 1-64 chars, ASCII alnum or dash/underscore"),
            );
        }
        if !is_safe_tag(req.snapshot_tag.as_str()) {
            return Err(
                bad_request("snapshot_tag must be 1-64 chars, ASCII alnum or dash/underscore"),
            );
        }
        if self.registry.get_workspace(req.name.as_str()).is_some() {
            let m = "workspace ".to_string().concat(req.name.as_str()).concat(
                " already exists; DELETE first",
            );
            return Err(conflict(m.as_str()));
        }
        Ok(())
    }

    /// Records a new workspace and the sandbox that runs for it.
    pub fn finish_workspace(
        &mut self,
        req: &CreateWorkspaceRequest,
        child: &RunningChild,
        now: u64,
        seq: u64,
    ) -> (r: WorkspaceInfo)
        requires
            old(self).wf(),
        ensures
            final(self).wf(),
            *final(self) == (AppState { registry: final(self).registry, ..*old(self) }),
            final(self).registry.state.snapshots == old(self).registry.state.snapshots,
            is_new_workspace(*old(self), *final(self), *req, *child, now, seq as nat, r),
            workspaces_ok(old(self).registry.workspaces()) ==> workspaces_ok(
                final(self).registry.workspaces(),
            ),
    {
        let sb = new_sandbox(req.snapshot_tag.as_str(), req.memory_limit_mib, child, now, seq);
        let id = sb.id.clone();
        self.registry.insert_sandbox(sb);
        let ws = WorkspaceInfo {
            id: new_workspace_id(id.as_str()),
            name: req.name.clone(),
            source_snapshot_tag: req.snapshot_tag.clone(),
            current_state_tag: None,
            status: WorkspaceStatus::Running,
            live_sandbox_id: Some(id),
            created_at_unix: now,
            last_active_unix: now,
            last_branch_memory_path: None,
        };
        self.registry.insert_workspace(ws.clone());
        ws
    }

    /// What is recorded of a workspace.
    pub fn workspace(&self, name: &str) -> (r: Result<WorkspaceInfo, ApiError>)
        ensures
            match r {
                Ok(ws) => self.registry.workspaces().contains_key(name@) && ws
                    == self.registry.workspaces()[name@],
                Err(e) => !self.registry.workspaces().contains_key(name@) && e.is(
                    404,
                    "workspace "@ + name@ + " not found"@,
                ),
            },
    {
        match self.registry.get_workspace(name) {
            Some(ws) => Ok(ws),
            None => {
                let m = "workspace ".to_string().concat(name);
                Err(not_found(m.as_str()))
            },
        }
    }

    /// Forgets a workspace, its sandbox and its own snapshot.
    pub fn delete_workspace(&mut self, name: &str) -> (r: Result<WorkspaceRemains, ApiError>)
        requires
            old(self).wf(),
        ensures
            final(self).wf(),
            *final(self) == (AppState { registry: final(self).registry, ..*old(self) }),
            match r {
                Ok(left) => {
                    &&& old(self).registry.workspaces().contains_key(name@)
                    &&& is_forgotten(*old(self), *final(self), name@, left)
                },
                Err(e) => {
                    &&& !old(self).registry.workspaces().contains_key(name@)
                    &&& e.is(404, "workspace "@ + name@ + " not found"@)
                    &&& final(self).registry == old(self).registry
                },
            },
            workspaces_ok(old(self).registry.workspaces()) ==> workspaces_ok(
                final(self).registry.workspaces(),
            ),
    {
        let ws = match self.workspace(name) {
            Ok(ws) => ws,
            Err(e) => {
                return Err(e);
            },
        };
        match &ws.live_sandbox_id {
            Some(id) => {
                let _ = self.registry.remove_sandbox(id.as_str());
            },
            None => {},
        }
        let state_dir = match &ws.current_state_tag {
            Some(t) => {
                let _ = self.registry.remove_snapshot(t.as_str());
                Some(join_path(self.snapshot_root.as_str(), t.as_str()))
            },
            None => None,
        };
        let _ = self.registry.remove_workspace(name);
        Ok(WorkspaceRemains { sandbox: ws.live_sandbox_id, state_dir })
    }
}

// ---------------------------------------------------------------------
// Suspending
// ---------------------------------------------------------------------

/// A suspend that came to nothing.
#[derive(Debug, PartialEq, Eq)]
pub struct SuspendFailure {
    pub error: ApiError,
    /// The directory to remove.
    pub remove_dir: Option<String>,
}

fn refused(error: ApiError) -> (r: SuspendFailure)
    ensures
        r.error == error,
        r.remove_dir is None,
{
    SuspendFailure { error, remove_dir: None }
}

/// What the daemon looked up outside its own state for one suspend.
#[derive(Debug, Clone, Copy, PartialEq, Eq, Structural)]
pub struct SuspendFacts {
    /// Whether the state tag's directory holds a vmstate.
    pub vmstate_exists: bool,
    /// Whether the memory file of the latest suspend still exists.
    pub last_branch_exists: bool,
    /// Whether the sandbox's VM is there to be paused.
    pub vm_present: bool,
}

/// Why a suspend is refused.
#[derive(Debug, Clone, Copy, PartialEq, Eq, Structural)]
pub enum SuspendRefusal {
    NoWorkspace,
    NotRunning,
    NoSandbox,
    UnsafeTag,
    AtCapacity,
    InFlight,
    NoVm,
}

pub open spec fn suspend_refusal(s: AppState, name: Seq<char>, facts: SuspendFacts) -> Option<
    SuspendRefusal,
> {
    match s.registry.workspaces().get(name) {
        None => Some(SuspendRefusal::NoWorkspace),
        Some(ws) => if ws.status != WorkspaceStatus::Running {
            Some(SuspendRefusal::NotRunning)
        } else if ws.live_sandbox_id is None {
            Some(SuspendRefusal::NoSandbox)
        } else if !safe_tag(state_tag_of(name)) {
            Some(SuspendRefusal::UnsafeTag)
        } else if s.branches.held().len() >= s.branches.cap() {
            Some(SuspendRefusal::AtCapacity)
        } else if s.branches.held().contains(state_tag_of(name)) {
            Some(SuspendRefusal::InFlight)
        } else if !facts.vm_present {
            Some(SuspendRefusal::NoVm)
        } else {
            None
        },
    }
}

pub open spec fn suspend_status(why: SuspendRefusal) -> u16 {
    match why {
        SuspendRefusal::NoWorkspace => 404,
        SuspendRefusal::NotRunning => 400,
        SuspendRefusal::NoSandbox => 500,
        SuspendRefusal::UnsafeTag => 500,
        SuspendRefusal::AtCapacity => 503,
        SuspendRefusal::InFlight => 409,
        SuspendRefusal::NoVm => 404,
    }
}

pub open spec fn status_text(status: WorkspaceStatus) -> Seq<char> {
    match status {
        WorkspaceStatus::Running => "Running"@,
        WorkspaceStatus::Suspended => "Suspended"@,
        WorkspaceStatus::Stale => "Stale"@,
    }
}

fn status_name(status: WorkspaceStatus) -> (r: String)
    ensures
        r@ == status_text(status),
{
    match status {
        WorkspaceStatus::Running => "Running".to_string(),
        WorkspaceStatus::Suspended => "Suspended".to_string(),
        WorkspaceStatus::Stale => "Stale".to_string(),
    }
}

pub open spec fn suspend_text(
    why: SuspendRefusal,
    name: Seq<char>,
    status: WorkspaceStatus,
    sandbox: Seq<char>,
) -> Seq<char> {
    match why {
        SuspendRefusal::NoWorkspace => "workspace "@ + name + " not found"@,
        SuspendRefusal::NotRunning => "workspace "@ + name + " is "@ + status_text(status)
            + ", not Running — suspend requires a live sandbox"@,
        SuspendRefusal::NoSandbox => "inconsistent state: Running but no live_sandbox_id"@,
        SuspendRefusal::UnsafeTag => "derived state tag failed validation (workspace name pathological?)"@,
        SuspendRefusal::AtCapacity => "daemon at branch concurrency cap (4); retry shortly"@,
        SuspendRefusal::InFlight => "suspend for workspace '"@ + name + "' already in flight"@,
        SuspendRefusal::NoVm => "workspace's live sandbox "@ + sandbox + " is gone not found"@,
    }
}

/// The memory file that a diff suspend goes on top of: that of the latest
/// suspend while it exists, else that of the snapshot the workspace was made
/// from.
pub open spec fn suspend_base(s: AppState, ws: WorkspaceInfo, last_branch_exists: bool) -> Seq<char> {
    match ws.last_branch_memory_path {
        Some(p) => if last_branch_exists {
            p@
        } else {
            joined_path(joined_path(s.snapshot_root@, ws.source_snapshot_tag@), "memory.bin"@)
        },
        None => joined_path(joined_path(s.snapshot_root@, ws.source_snapshot_tag@), "memory.bin"@),
    }
}

/// A suspend that has been admitted.
#[derive(Debug)]
pub struct SuspendPlan {
    pub slot: BranchSlot,
    pub name: String,
    pub sandbox: String,
    pub state_tag: String,
    pub snap_dir: String,
    pub diff: bool,
    /// Whether the directory is cleared first. It is not where it holds what
    /// the diff goes on top of.
    pub clear: bool,
    /// What to copy to the new memory file before a diff is merged into it;
    /// None where it is in that place already, or where there is no diff.
    pub copy_from: Option<String>,
}

pub open spec fn is_suspend_plan(
    p: SuspendPlan,
    s: AppState,
    name: Seq<char>,
    diff: bool,
    facts: SuspendFacts,
) -> bool {
    let ws = s.registry.workspaces()[name];
    let base = suspend_base(s, ws, facts.last_branch_exists);
    let dir = joined_path(s.snapshot_root@, state_tag_of(name));
    let in_place = diff && base == joined_path(dir, "memory.bin"@);
    &&& p.slot.tag() == state_tag_of(name)
    &&& p.name@ == name
    &&& opt_view(ws.live_sandbox_id) == Some(p.sandbox@)
    &&& p.state_tag@ == state_tag_of(name)
    &&& p.snap_dir@ == dir
    &&& p.diff == diff
    &&& p.clear == (facts.vmstate_exists && !in_place)
    &&& opt_view(p.copy_from) == (if diff && !in_place {
        Some(base)
    } else {
        None
    })
}

fn pick_suspend_base(ws: &WorkspaceInfo, root: &str, last_branch_exists: bool) -> (r: String)
    ensures
        r@ == (match ws.last_branch_memory_path {
            Some(p) => if last_branch_exists {
                p@
            } else {
                joined_path(joined_path(root@, ws.source_snapshot_tag@), "memory.bin"@)
            },
            None => joined_path(joined_path(root@, ws.source_snapshot_tag@), "memory.bin"@),
        }),
{
    let dir = join_path(root, ws.source_snapshot_tag.as_str());
    let fallback = join_path(dir.as_str(), "memory.bin");
    match &ws.last_branch_memory_path {
        Some(p) => if last_branch_exists {
            p.clone()
        } else {
            fallback
        },
        None => fallback,
    }
}

impl AppState {
    /// Admits or refuses a request to suspend workspace `name`. From the time
    /// that the slot is held, an earlier state snapshot is no longer
    /// registered; where the VM turns out to be gone, its directory is removed
    /// too.
    pub fn begin_suspend(&mut self, name: &str, req: &SuspendWorkspaceRequest, facts: SuspendFacts) -> (r:
        Result<SuspendPlan, SuspendFailure>)
        requires
            old(self).wf(),
        ensures
            final(self).wf(),
            final(self).snapshot_root == old(self).snapshot_root,
            final(self).prewarm_scratch_dir == old(self).prewarm_scratch_dir,
            final(self).live_in_flight == old(self).live_in_flight,
            final(self).branches.cap() == old(self).branches.cap(),
            final(self).registry.state.sandboxes == old(self).registry.state.sandboxes,
            final(self).registry.state.workspaces == old(self).registry.state.workspaces,
            ({
                let why = suspend_refusal(*old(self), name@, facts);
                let reached = why is None || why == Some(SuspendRefusal::NoVm);
                final(self).registry.snapshots() == (if reached && facts.vmstate_exists {
                    old(self).registry.snapshots().remove(state_tag_of(name@))
                } else {
                    old(self).registry.snapshots()
                })
            }),
            match suspend_refusal(*old(self), name@, facts) {
                Some(why) => {
                    let ws = old(self).registry.workspaces()[name@];
                    &&& r matches Err(f) && f.error.is(
                        suspend_status(why),
                        suspend_text(
                            why,
                            name@,
                            ws.status,
                            match ws.live_sandbox_id {
                                Some(id) => id@,
                                None => Seq::empty(),
                            },
                        ),
                    ) && opt_view(f.remove_dir) == (if why == SuspendRefusal::NoVm
                        && facts.vmstate_exists {
                        Some(joined_path(old(self).snapshot_root@, state_tag_of(name@)))
                    } else {
                        None
                    })
                    &&& final(self).branches.held() == old(self).branches.held()
                },
                None => {
                    &&& r matches Ok(p) && is_suspend_plan(p, *old(self), name@, req.diff, facts)
                    &&& final(self).branches.held() == old(self).branches.held().insert(
                        state_tag_of(name@),
                    )
                },
            },
    {
        let ws = match self.workspace(name) {
            Ok(ws) => ws,
            Err(e) => {
                return Err(refused(e));
            },
        };
        if ws.status != WorkspaceStatus::Running {
            let st = status_name(ws.status);
            let m = "workspace ".to_string().concat(name).concat(" is ").concat(
                st.as_str(),
            ).concat(", not Running — suspend requires a live sandbox");
            return Err(refused(bad_request(m.as_str())));
        }
        let sandbox = match &ws.live_sandbox_id {
            Some(id) => id.clone(),
            None => {
                return Err(
                    refused(server_error("inconsistent state: Running but no live_sandbox_id")),
                );
            },
        };
        let tag = state_tag(name);
        if !is_safe_tag(tag.as_str()) {
            return Err(
                refused(
                    server_error(
                        "derived state tag failed validation (workspace name pathological?)",
                    ),
                ),
            );
        }
        let slot = match self.try_acquire_branch_slot(tag.as_str()) {
            Ok(slot) => slot,
            Err(BranchSlotError::AlreadyInFlight) => {
                let m = "suspend for workspace '".to_string().concat(name).concat(
                    "' already in flight",
                );
                return Err(refused(conflict(m.as_str())));
            },
            Err(BranchSlotError::CapacityExceeded) => {
                return Err(
                    refused(
                        service_unavailable("daemon at branch concurrency cap (4); retry shortly"),
                    ),
                );
            },
        };
        let snap_dir = join_path(self.snapshot_root.as_str(), tag.as_str());
        if facts.vmstate_exists {
            let _ = self.registry.remove_snapshot(tag.as_str());
        }
        if !facts.vm_present {
            self.release_branch_slot(slot);
            proof {
                crate::slots::law_release_undoes_acquire(old(self).branches.held(), tag@);
            }
            let m = "workspace's live sandbox ".to_string().concat(sandbox.as_str()).concat(
                " is gone",
            );
            proof {
                reveal_strlit(" is gone");
                reveal_strlit(" not found");
                reveal_strlit(" is gone not found");
                assert(m@ + " not found"@ =~= "workspace's live sandbox "@ + sandbox@
                    + " is gone not found"@);
            }
            return Err(
                SuspendFailure {
                    error: not_found(m.as_str()),
                    remove_dir: if facts.vmstate_exists {
                        Some(snap_dir)
                    } else {
                        None
                    },
                },
            );
        }
        let memory = join_path(snap_dir.as_str(), "memory.bin");
        let base = pick_suspend_base(&ws, self.snapshot_root.as_str(), facts.last_branch_exists);
        let in_place = req.diff && str_eq(base.as_str(), memory.as_str());
        Ok(
            SuspendPlan {
                slot,
                name: name.to_string(),
                sandbox,
                state_tag: tag,
                snap_dir,
                diff: req.diff,
                clear: facts.vmstate_exists && !in_place,
                copy_from: if req.diff && !in_place {
                    Some(base)
                } else {
                    None
                },
            },
        )
    }
}

pub open spec fn suspend_steps_of(diff: bool) -> Seq<BranchStep> {
    if diff {
        seq![
            BranchStep::CreateDir,
            BranchStep::StartCopy,
            BranchStep::Pause,
            BranchStep::TakeDiff,
            BranchStep::Resume,
            BranchStep::JoinCopy,
            BranchStep::ApplyDiff,
        ]
    } else {
        seq![BranchStep::CreateDir, BranchStep::Pause, BranchStep::TakeFull, BranchStep::Resume]
    }
}

/// The steps of a suspend, in order. It fails where one of them does.
pub fn suspend_steps(diff: bool) -> (r: Vec<BranchStep>)
    ensures
        r@ == suspend_steps_of(diff),
{
    let mut v: Vec<BranchStep> = Vec::new();
    v.push(BranchStep::CreateDir);
    if diff {
        v.push(BranchStep::StartCopy);
    }
    v.push(BranchStep::Pause);
    if diff {
        v.push(BranchStep::TakeDiff);
        v.push(BranchStep::Resume);
        v.push(BranchStep::JoinCopy);
        v.push(BranchStep::ApplyDiff);
    } else {
        v.push(BranchStep::TakeFull);
        v.push(BranchStep::Resume);
    }
    assert(v@ =~= suspend_steps_of(diff));
    v
}

/// The metadata of a state snapshot.
pub fn suspend_metadata(p: &SuspendPlan) -> (r: Snapshot)
    ensures
        is_fallback(r, p.snap_dir@),
{
    load_snapshot_with_fallback(p.snap_dir.as_str(), &None)
}

/// How the work of a suspend ended.
#[derive(Debug, PartialEq, Eq)]
pub enum SuspendOutcome {
    Panicked(String),
    Failed(String),
    SerializeFailed(String),
    WriteFailed(String),
    Written { pause_ms: Option<u64> },
}

pub open spec fn suspend_error(o: SuspendOutcome) -> Seq<char> {
    match o {
        SuspendOutcome::Panicked(e) => "blocking task panicked: "@ + e@,
        SuspendOutcome::Failed(e) => "suspend: "@ + e@,
        SuspendOutcome::SerializeFailed(e) => "serialize snapshot.json: "@ + e@,
        SuspendOutcome::WriteFailed(e) => "write snapshot.json: "@ + e@,
        SuspendOutcome::Written { pause_ms } => "workspace vanished during suspend"@,
    }
}

/// Whether the guest is gone when a suspend is over: unless the worker was lost
/// it is stopped, whether or not its state was written.
pub open spec fn stops_guest(o: SuspendOutcome) -> bool {
    !(o is Panicked)
}

/// The directory that a suspend which came to nothing leaves behind, where it
/// is known to be done with it.
pub open spec fn suspend_remains(p: SuspendPlan, o: SuspendOutcome) -> Option<Seq<char>> {
    if o is Panicked || o is Written {
        None
    } else {
        Some(p.snap_dir@)
    }
}

/// A suspend that is over has stopped its guest, and left either its state or
/// nothing: what could not be written in full is removed. Only where the worker
/// was lost nothing is touched.
pub proof fn law_suspend_leaves_all_or_nothing(
    p: SuspendPlan,
    o: SuspendOutcome,
    meta: Snapshot,
)
    requires
        is_fallback(meta, p.snap_dir@),
    ensures
        o is Panicked ==> !stops_guest(o) && suspend_remains(p, o) is None,
        o is Written ==> stops_guest(o) && suspend_remains(p, o) is None,
        !(o is Panicked) && !(o is Written) ==> stops_guest(o) && suspend_remains(p, o) is Some
            && meta.memory@ == joined_path(suspend_remains(p, o)->0, "memory.bin"@)
            && meta.vmstate@ == joined_path(suspend_remains(p, o)->0, "vmstate"@),
{
}

pub open spec fn is_state_info(i: SnapshotInfo, p: SuspendPlan, pause_ms: Option<u64>, now: u64) -> bool {
    &&& i.tag@ == p.state_tag@
    &&& i.dir@ == p.snap_dir@
    &&& i.created_at_unix == now
    &&& opt_view(i.branched_from) == Some(p.sandbox@)
    &&& i.pause_ms == pause_ms
    &&& i.diff_ms is None
    &&& i.diff_physical_bytes is None
    &&& i.diff_logical_bytes is None
    &&& i.warning is None
    &&& i.status == SnapshotStatus::Ready
}

/// A workspace entry after its state has been written.
pub open spec fn is_suspended(ws: WorkspaceInfo, after: WorkspaceInfo, p: SuspendPlan, now: u64) -> bool {
    &&& after == (WorkspaceInfo {
        status: WorkspaceStatus::Suspended,
        live_sandbox_id: None,
        current_state_tag: after.current_state_tag,
        last_active_unix: now,
        last_branch_memory_path: after.last_branch_memory_path,
        ..ws
    })
    &&& opt_view(after.current_state_tag) == Some(p.state_tag@)
    &&& opt_view(after.last_branch_memory_path) == Some(joined_path(p.snap_dir@, "memory.bin"@))
}

impl AppState {
    /// Ends a suspend: the sandbox is gone whether or not its state could be
    /// written, except where the worker was lost. The slot is given back in
    /// every case.
    pub fn finish_suspend(&mut self, plan: SuspendPlan, outcome: SuspendOutcome, now: u64) -> (r: Result<
        WorkspaceInfo,
        SuspendFailure,
    >)
        requires
            old(self).wf(),
            plan.slot.tag() == plan.state_tag@,
        ensures
            final(self).wf(),
            final(self).snapshot_root == old(self).snapshot_root,
            final(self).prewarm_scratch_dir == old(self).prewarm_scratch_dir,
            final(self).live_in_flight == old(self).live_in_flight,
            final(self).branches.cap() == old(self).branches.cap(),
            final(self).branches.held() == old(self).branches.held().remove(plan.state_tag@),
            final(self).registry.sandboxes() == (if stops_guest(outcome) {
                old(self).registry.sandboxes().remove(plan.sandbox@)
            } else {
                old(self).registry.sandboxes()
            }),
            match outcome {
                SuspendOutcome::Written { pause_ms } => {
                    let info = final(self).registry.snapshots()[plan.state_tag@];
                    &&& final(self).registry.snapshots() == old(self).registry.snapshots().insert(
                        plan.state_tag@,
                        info,
                    )
                    &&& is_state_info(info, plan, pause_ms, now)
                },
                _ => final(self).registry.snapshots() == old(self).registry.snapshots(),
            },
            match r {
                Ok(ws) => {
                    &&& outcome is Written
                    &&& old(self).registry.workspaces().contains_key(plan.name@)
                    &&& is_suspended(old(self).registry.workspaces()[plan.name@], ws, plan, now)
                    &&& final(self).registry.workspaces() == old(self).registry.workspaces().insert(
                        plan.name@,
                        ws,
                    )
                },
                Err(f) => {
                    &&& outcome is Written ==> !old(self).registry.workspaces().contains_key(
                        plan.name@,
                    )
                    &&& f.error.is(500, suspend_error(outcome))
                    &&& opt_view(f.remove_dir) == suspend_remains(plan, outcome)
                    &&& final(self).registry.workspaces() == old(self).registry.workspaces()
                },
            },
            workspaces_ok(old(self).registry.workspaces()) ==> workspaces_ok(
                final(self).registry.workspaces(),
            ),
    {
        let SuspendPlan { slot, name, sandbox, state_tag, snap_dir, diff: _, clear: _, copy_from: _ } =
            plan;
        self.release_branch_slot(slot);
        match outcome {
            SuspendOutcome::Panicked(e) => {
                let m = "blocking task panicked: ".to_string().concat(e.as_str());
                Err(SuspendFailure { error: server_error(m.as_str()), remove_dir: None })
            },
            SuspendOutcome::Failed(e) => {
                let _ = self.registry.remove_sandbox(sandbox.as_str());
                let m = "suspend: ".to_string().concat(e.as_str());
                Err(SuspendFailure { error: server_error(m.as_str()), remove_dir: Some(snap_dir) })
            },
            SuspendOutcome::SerializeFailed(e) => {
                let _ = self.registry.remove_sandbox(sandbox.as_str());
                let m = "serialize snapshot.json: ".to_string().concat(e.as_str());
                Err(SuspendFailure { error: server_error(m.as_str()), remove_dir: Some(snap_dir) })
            },
            SuspendOutcome::WriteFailed(e) => {
                let _ = self.registry.remove_sandbox(sandbox.as_str());
                let m = "write snapshot.json: ".to_string().concat(e.as_str());
                Err(SuspendFailure { error: server_error(m.as_str()), remove_dir: Some(snap_dir) })
            },
            SuspendOutcome::Written { pause_ms } => {
                let _ = self.registry.remove_sandbox(sandbox.as_str());
                let memory = join_path(snap_dir.as_str(), "memory.bin");
                let info = SnapshotInfo {
                    tag: state_tag.clone(),
                    dir: snap_dir,
                    created_at_unix: now,
                    branched_from: Some(sandbox),
                    pause_ms,
                    diff_ms: None,
                    diff_physical_bytes: None,
                    diff_logical_bytes: None,
                    warning: None,
                    status: SnapshotStatus::Ready,
                };
                self.registry.insert_snapshot(info);
                match self.registry.get_workspace(name.as_str()) {
                    Some(ws) => {
                        let mut next = ws;
                        next.status = WorkspaceStatus::Suspended;
                        next.live_sandbox_id = None;
                        next.current_state_tag = Some(state_tag);
                        next.last_active_unix = now;
                        next.last_branch_memory_path = Some(memory);
                        let _ = self.registry.update_workspace(name.as_str(), next.clone());
                        Ok(next)
                    },
                    None => Err(
                        SuspendFailure {
                            error: server_error("workspace vanished during suspend"),
                            remove_dir: None,
                        },
                    ),
                }
            },
        }
    }
}

// ---------------------------------------------------------------------
// Resuming
// ---------------------------------------------------------------------

/// The snapshot that a workspace comes back from: that of its latest suspend,
/// else the one that it was made from.
pub open spec fn resume_tag(ws: WorkspaceInfo) -> Seq<char> {
    match ws.current_state_tag {
        Some(t) => t@,
        None => ws.source_snapshot_tag@,
    }
}

/// A workspace entry after it has come back.
pub open spec fn is_resumed(ws: WorkspaceInfo, after: WorkspaceInfo, id: Seq<char>, now: u64) -> bool {
    &&& after == (WorkspaceInfo {
        status: WorkspaceStatus::Running,
        live_sandbox_id: after.live_sandbox_id,
        last_active_unix: now,
        ..ws
    })
    &&& opt_view(after.live_sandbox_id) == Some(id)
}

impl AppState {
    /// The tag to spawn from in order to resume workspace `name`.
    pub fn begin_resume(&self, name: &str) -> (r: Result<String, ApiError>)
        ensures
            match self.registry.workspaces().get(name@) {
                None => r matches Err(e) && e.is(404, "workspace "@ + name@ + " not found"@),
                Some(ws) => if ws.status == WorkspaceStatus::Running {
                    r matches Err(e) && e.is(
                        400,
                        "workspace "@ + name@ + " is already Running (sandbox "@ + (
                        match ws.live_sandbox_id {
                            Some(id) => id@,
                            None => "?"@,
                        }) + ")"@,
                    )
                } else {
                    r matches Ok(t) && t@ == resume_tag(ws)
                },
            },
    {
        let ws = match self.workspace(name) {
            Ok(ws) => ws,
            Err(e) => {
                return Err(e);
            },
        };
        if ws.status == WorkspaceStatus::Running {
            let id = match &ws.live_sandbox_id {
                Some(id) => id.clone(),
                None => "?".to_string(),
            };
            let m = "workspace ".to_string().concat(name).concat(
                " is already Running (sandbox ",
            ).concat(id.as_str()).concat(")");
            return Err(bad_request(m.as_str()));
        }
        match ws.current_state_tag {
            Some(t) => Ok(t),
            None => Ok(ws.source_snapshot_tag),
        }
    }

    /// Records that workspace `name` runs again, in a sandbox spawned from
    /// `tag`.
    pub fn finish_resume(&mut self, name: &str, tag: &str, child: &RunningChild, now: u64, seq: u64) -> (r:
        Result<WorkspaceInfo, ApiError>)
        requires
            old(self).wf(),
        ensures
            final(self).wf(),
            *final(self) == (AppState { registry: final(self).registry, ..*old(self) }),
            final(self).registry.state.snapshots == old(self).registry.state.snapshots,
            ({
                let id = sandbox_id(now as nat, seq as nat);
                let sb = final(self).registry.sandboxes()[id];
                &&& final(self).registry.sandboxes() == old(self).registry.sandboxes().insert(id, sb)
                &&& is_new_sandbox(sb, tag@, None, *child, now, seq as nat)
            }),
            match r {
                Ok(ws) => {
                    &&& old(self).registry.workspaces().contains_key(name@)
                    &&& is_resumed(
                        old(self).registry.workspaces()[name@],
                        ws,
                        sandbox_id(now as nat, seq as nat),
                        now,
                    )
                    &&& final(self).registry.workspaces() == old(self).registry.workspaces().insert(
                        name@,
                        ws,
                    )
                },
                Err(e) => {
                    &&& !old(self).registry.workspaces().contains_key(name@)
                    &&& e.is(500, "workspace vanished during resume"@)
                    &&& final(self).registry.workspaces() == old(self).registry.workspaces()
                },
            },
            workspaces_ok(old(self).registry.workspaces()) ==> workspaces_ok(
                final(self).registry.workspaces(),
            ),
    {
        let sb = new_sandbox(tag, None, child, now, seq);
        let id = sb.id.clone();
        self.registry.insert_sandbox(sb);
        match self.registry.get_workspace(name) {
            Some(ws) => {
                let mut next = ws;
                next.status = WorkspaceStatus::Running;
                next.live_sandbox_id = Some(id);
                next.last_active_unix = now;
                let _ = self.registry.update_workspace(name, next.clone());
                Ok(next)
            },
            None => Err(server_error("workspace vanished during resume")),
        }
    }
}

/// What has been suspended comes back from what the suspend wrote, and the
/// next diff goes on top of it.
pub proof fn law_resume_undoes_suspend(
    s: AppState,
    ws: WorkspaceInfo,
    suspended: WorkspaceInfo,
    resumed: WorkspaceInfo,
    p: SuspendPlan,
    id: Seq<char>,
    now: u64,
    later: u64,
)
    requires
        is_suspended(ws, suspended, p, now),
        is_resumed(suspended, resumed, id, later),
    ensures
        resume_tag(suspended) == p.state_tag@,
        suspend_base(s, resumed, true) == joined_path(p.snap_dir@, "memory.bin"@),
        resumed.status == WorkspaceStatus::Running,
        resumed.name == ws.name,
        resumed.id == ws.id,
        resumed.source_snapshot_tag == ws.source_snapshot_tag,
        resumed.created_at_unix == ws.created_at_unix,
{
}

/// A restart leaves every workspace entry making sense, and none running
/// without a sandbox that runs.
pub proof fn law_restart_keeps_workspaces_ok(
    workspaces: Map<Seq<char>, WorkspaceInfo>,
    sandboxes: Map<Seq<char>, crate::api::SandboxInfo>,
)
    requires
        workspaces_ok(workspaces),
    ensures
        workspaces_ok(
            workspaces.map_values(|w: WorkspaceInfo| crate::state::settled(w, sandboxes)),
        ),
{
}

/// What a refused suspend is answered: 404 where the workspace or its guest is
/// not there, 400 where it does not run, 503 and 409 where no more can be
/// written or this one is being written already.
pub proof fn law_refused_suspend_is_answered(s: AppState, name: Seq<char>, facts: SuspendFacts)
    requires
        workspaces_ok(s.registry.workspaces()),
        safe_tag(state_tag_of(name)),
    ensures
        ({
            let why = suspend_refusal(s, name, facts);
            let there = s.registry.workspaces().contains_key(name);
            let runs = there && s.registry.workspaces()[name].status == WorkspaceStatus::Running;
            let full = s.branches.held().len() >= s.branches.cap();
            let held = s.branches.held().contains(state_tag_of(name));
            &&& !there ==> why is Some && suspend_status(why->0) == 404
            &&& there && !runs ==> why is Some && suspend_status(why->0) == 400
            &&& runs && full ==> why is Some && suspend_status(why->0) == 503
            &&& runs && !full && held ==> why is Some && suspend_status(why->0) == 409
            &&& runs && !full && !held && !facts.vm_present ==> why is Some && suspend_status(
                why->0,
            ) == 404
            &&& why is None <==> runs && !full && !held && facts.vm_present
        }),
{
}

} // verus!
