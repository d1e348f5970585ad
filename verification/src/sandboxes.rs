//! Forking sandboxes from a snapshot, and talking to the agents in them.
use vstd::prelude::*;

use crate::api::{
    bad_request, conflict, copy_opt, not_found, opt_view, server_error, ApiError,
    CreateSandboxRequest, EvalRequest, EvalResponse, ExecRequest, ExecResponse, SandboxInfo,
    SnapshotStatus,
};
use crate::chain::{
    is_assembly_of, is_snapshot_of, known, lookup_snapshot_for_chain, resolve_assembly, unresolved,
    unresolved_text, walk_fails, Assembly, DirFacts, LineageError,
};
use crate::daemon::{new_sandbox_id, sandbox_id, AppState};
use crate::fork::{
    eval_at, eval_line, exec_at, exec_line, exec_wait, netns_path_of, ping_at, ping_line,
    AgentRequest, ForkOpts, MemoryBackend, Snapshot,
};
use crate::json::{json_document, parse_json, signed_member, signed_members,
    string_member, string_members};
use crate::netns::{free, pick_netns_offset};
use crate::paths::{join_path, joined_path};
use crate::table::Table;
use crate::tags::{is_safe_tag, safe_tag};
use crate::text::{contains, dec, dec_string, occurs, trim, trimmed, views};

verus! {

/// The most sandboxes that one request can fork.
pub const MAX_SANDBOXES: usize = 1000;

/// Where a guest's agent listens. Each namespace has its own network, so all
/// guests share the address.
pub open spec fn guest_addr() -> Seq<char> {
    "10.42.0.2:8888"@
}

/// Why a fork request is refused.
#[derive(Debug, Clone, Copy, PartialEq, Eq, Structural)]
pub enum CreateRefusal {
    NoneAsked,
    TooMany,
    UnsafeTag,
    StillWritten,
    NotWritten,
    UnknownTag,
    LiveOnChain,
}

/// Why the request is refused, in the order in which things are looked at.
pub open spec fn create_refusal(s: AppState, req: CreateSandboxRequest, disk: Table<DirFacts>) -> Option<
    CreateRefusal,
> {
    let kn = known(s.registry, disk);
    if req.n == 0 {
        Some(CreateRefusal::NoneAsked)
    } else if req.n > MAX_SANDBOXES {
        Some(CreateRefusal::TooMany)
    } else if !safe_tag(req.snapshot_tag@) {
        Some(CreateRefusal::UnsafeTag)
    } else if s.status_of(req.snapshot_tag@) == SnapshotStatus::Writing {
        Some(CreateRefusal::StillWritten)
    } else if s.status_of(req.snapshot_tag@) == SnapshotStatus::Failed {
        Some(CreateRefusal::NotWritten)
    } else if !kn.resolves(req.snapshot_tag@) {
        Some(CreateRefusal::UnknownTag)
    } else if req.live_fork && kn.parent(req.snapshot_tag@) is Some {
        Some(CreateRefusal::LiveOnChain)
    } else {
        None
    }
}

/// What is said of a snapshot whose memory is still being copied.
pub open spec fn still_written_text(tag: Seq<char>) -> Seq<char> {
    "snapshot "@ + tag + " is still being written; retry once it is ready"@
}

pub(crate) fn still_written(tag: &str) -> (r: String)
    ensures
        r@ == still_written_text(tag@),
{
    "snapshot ".to_string().concat(tag).concat(" is still being written; retry once it is ready")
}

/// What is said of a snapshot whose memory could not be copied.
pub open spec fn not_written_text(tag: Seq<char>) -> Seq<char> {
    "snapshot "@ + tag + " could not be written in full; it cannot be restored"@
}

pub(crate) fn not_written(tag: &str) -> (r: String)
    ensures
        r@ == not_written_text(tag@),
{
    "snapshot ".to_string().concat(tag).concat(
        " could not be written in full; it cannot be restored",
    )
}

pub open spec fn create_refusal_status(why: CreateRefusal) -> u16 {
    match why {
        CreateRefusal::StillWritten => 409,
        CreateRefusal::NotWritten => 409,
        CreateRefusal::UnknownTag => 404,
        _ => 400,
    }
}

pub open spec fn create_refusal_text(why: CreateRefusal, tag: Seq<char>) -> Seq<char> {
    match why {
        CreateRefusal::NoneAsked => "n must be ≥ 1"@,
        CreateRefusal::TooMany => "n must be ≤ 1000 (sanity cap)"@,
        CreateRefusal::UnsafeTag => "snapshot_tag must be 1-64 chars, ASCII alnum or dash/underscore"@,
        CreateRefusal::StillWritten => still_written_text(tag),
        CreateRefusal::NotWritten => not_written_text(tag),
        CreateRefusal::UnknownTag => "snapshot "@ + tag + " not found"@,
        CreateRefusal::LiveOnChain => "live_fork=true on a chained snapshot is not yet supported (v0.5 carve-out); spawn with live_fork=false or use a base snapshot"@,
    }
}

fn refuse(why: CreateRefusal, tag: &str) -> (r: ApiError)
    ensures
        r.is(create_refusal_status(why), create_refusal_text(why, tag@)),
{
    match why {
        CreateRefusal::NoneAsked => bad_request("n must be ≥ 1"),
        CreateRefusal::TooMany => bad_request("n must be ≤ 1000 (sanity cap)"),
        CreateRefusal::UnsafeTag => bad_request(
            "snapshot_tag must be 1-64 chars, ASCII alnum or dash/underscore",
        ),
        CreateRefusal::StillWritten => {
            let m = still_written(tag);
            conflict(m.as_str())
        },
        CreateRefusal::NotWritten => {
            let m = not_written(tag);
            conflict(m.as_str())
        },
        CreateRefusal::UnknownTag => {
            let m = "snapshot ".to_string().concat(tag);
            not_found(m.as_str())
        },
        CreateRefusal::LiveOnChain => bad_request(
            "live_fork=true on a chained snapshot is not yet supported (v0.5 carve-out); spawn with live_fork=false or use a base snapshot",
        ),
    }
}

/// A fork that has been admitted.
#[derive(Debug)]
pub struct CreatePlan {
    pub tag: String,
    pub snapshot: Snapshot,
    pub opts: ForkOpts,
    pub work_dir: String,
    /// Where to assemble the memory of a chained snapshot before it is
    /// restored. In a directory of its own: the files beside the children's
    /// sockets are swept away first.
    pub assembled: Option<String>,
    /// How that memory is put together.
    pub chain: Option<Assembly>,
}

/// What a plan restores.
pub open spec fn is_source_of(r: Snapshot, p: CreatePlan) -> bool {
    &&& r.memory@ == (match p.assembled {
        Some(m) => m@,
        None => p.snapshot.memory@,
    })
    &&& r.vmstate@ == p.snapshot.vmstate@
    &&& r.volumes@ == p.snapshot.volumes@
    &&& opt_view(r.parent_tag) == opt_view(p.snapshot.parent_tag)
    &&& opt_view(r.parent_content_hash) == opt_view(p.snapshot.parent_content_hash)
}

impl CreatePlan {
    /// What is restored: the snapshot, with the assembled memory in place of
    /// the memory of a chained one.
    pub fn source(&self) -> (r: Snapshot)
        ensures
            is_source_of(r, *self),
    {
        let mut s = self.snapshot.copy();
        if let Some(m) = &self.assembled {
            s.memory = m.clone();
        }
        s
    }
}

pub open spec fn work_dir_of(temp_dir: Seq<char>, tag: Seq<char>, offset: nat) -> Seq<char> {
    joined_path(temp_dir, "forkd-daemon-"@ + tag + "-o"@ + dec(offset))
}

pub open spec fn assembled_path(work_dir: Seq<char>) -> Seq<char> {
    joined_path(joined_path(work_dir, "chainstage"@), "memory-assembled.bin"@)
}

/// What an admitted fork does.
pub open spec fn is_create_plan(
    p: CreatePlan,
    s: AppState,
    req: CreateSandboxRequest,
    disk: Table<DirFacts>,
    live: Seq<Option<String>>,
    temp_dir: Seq<char>,
) -> bool {
    let kn = known(s.registry, disk);
    let tag = req.snapshot_tag@;
    &&& p.tag@ == tag
    &&& is_snapshot_of(p.snapshot, kn, s.snapshot_root@, tag)
    &&& p.opts.n == req.n
    &&& p.opts.per_child_netns == req.per_child_netns
    &&& p.opts.memory_limit_mib == req.memory_limit_mib
    &&& if req.per_child_netns {
        &&& free(live, p.opts.netns_offset as nat, req.n as nat)
        &&& forall|o: nat| o < p.opts.netns_offset ==> !#[trigger] free(live, o, req.n as nat)
    } else {
        p.opts.netns_offset == 0
    }
    &&& p.opts.netns_offset + p.opts.n <= usize::MAX
    &&& opt_view(p.opts.prewarm_scratch_dir) == (if req.prewarm {
        Some(s.prewarm_scratch_dir@)
    } else {
        None
    })
    &&& p.opts.memory_backend == (if req.live_fork {
        MemoryBackend::MemfdShared
    } else {
        MemoryBackend::File
    })
    &&& p.opts.enable_diff_snapshots
    &&& p.work_dir@ == work_dir_of(temp_dir, tag, p.opts.netns_offset as nat)
    &&& opt_view(p.assembled) == (if kn.parent(tag) is Some {
        Some(assembled_path(p.work_dir@))
    } else {
        None
    })
    &&& match p.chain {
        Some(a) => kn.parent(tag) is Some && is_assembly_of(a, kn, s.snapshot_root@, tag),
        None => kn.parent(tag) is None,
    }
}

impl AppState {
    /// Admits or refuses a request to fork sandboxes; a chained snapshot whose
    /// chain does not lead to a base cannot be forked. `disk` says what is on
    /// disk for the tags, `live` in which namespaces the live sandboxes are.
    pub fn begin_create(
        &self,
        req: &CreateSandboxRequest,
        disk: &Table<DirFacts>,
        live: &Vec<Option<String>>,
        temp_dir: &str,
    ) -> (r: Result<CreatePlan, ApiError>)
        requires
            (live@.len() + 1) * 1000 <= usize::MAX,
        ensures
            match create_refusal(*self, *req, *disk) {
                Some(why) => r matches Err(e) && e.is(
                    create_refusal_status(why),
                    create_refusal_text(why, req.snapshot_tag@),
                ),
                None => match r {
                    Ok(p) => is_create_plan(p, *self, *req, *disk, live@, temp_dir@),
                    Err(e) => {
                        let kn = known(self.registry, *disk);
                        let tag = req.snapshot_tag@;
                        &&& kn.parent(tag) is Some
                        &&& exists|w: LineageError| #[trigger]
                            walk_fails(kn, self.snapshot_root@, tag, w) && e.is(
                                500,
                                unresolved_text(tag, w),
                            )
                    },
                },
            },
    {
        let tag = req.snapshot_tag.as_str();
        if req.n == 0 {
            return Err(refuse(CreateRefusal::NoneAsked, tag));
        }
        if req.n > MAX_SANDBOXES {
            return Err(refuse(CreateRefusal::TooMany, tag));
        }
        if !is_safe_tag(tag) {
            return Err(refuse(CreateRefusal::UnsafeTag, tag));
        }
        match self.snapshot_status(tag) {
            SnapshotStatus::Writing => {
                return Err(refuse(CreateRefusal::StillWritten, tag));
            },
            SnapshotStatus::Failed => {
                return Err(refuse(CreateRefusal::NotWritten, tag));
            },
            SnapshotStatus::Ready => {},
        }
        let snapshot = match lookup_snapshot_for_chain(
            &self.registry,
            self.snapshot_root.as_str(),
            disk,
            tag,
        ) {
            Ok(s) => s,
            Err(_) => {
                return Err(refuse(CreateRefusal::UnknownTag, tag));
            },
        };
        let chained = snapshot.parent_tag.is_some();
        if req.live_fork && chained {
            return Err(refuse(CreateRefusal::LiveOnChain, tag));
        }
        let chain = if chained {
            match resolve_assembly(&self.registry, self.snapshot_root.as_str(), disk, tag) {
                Ok(p) => Some(p.1),
                Err(w) => {
                    return Err(unresolved(tag, &w));
                },
            }
        } else {
            None
        };
        proof {
            assert((live@.len() + 1) * req.n <= (live@.len() + 1) * 1000) by (nonlinear_arith)
                requires
                    req.n <= 1000,
            ;
        }
        let netns_offset: usize = if req.per_child_netns {
            pick_netns_offset(live, req.n)
        } else {
            0
        };
        let opts = ForkOpts {
            n: req.n,
            per_child_netns: req.per_child_netns,
            memory_limit_mib: req.memory_limit_mib,
            netns_offset,
            prewarm_scratch_dir: if req.prewarm {
                Some(self.prewarm_scratch_dir.clone())
            } else {
                None
            },
            memory_backend: if req.live_fork {
                MemoryBackend::MemfdShared
            } else {
                MemoryBackend::File
            },
            enable_diff_snapshots: true,
        };
        let o = dec_string(netns_offset as u64);
        let name = "forkd-daemon-".to_string().concat(tag).concat("-o").concat(o.as_str());
        let work_dir = join_path(temp_dir, name.as_str());
        let assembled = if chained {
            let stage = join_path(work_dir.as_str(), "chainstage");
            Some(join_path(stage.as_str(), "memory-assembled.bin"))
        } else {
            None
        };
        Ok(CreatePlan { tag: tag.to_string(), snapshot, opts, work_dir, assembled, chain })
    }
}

// ---------------------------------------------------------------------
// Retrying
// ---------------------------------------------------------------------

/// Whether an error says that the kernel has not let go of a device or a
/// cgroup yet.
pub open spec fn says_busy(e: Seq<char>) -> bool {
    ||| occurs(e, "Resource busy"@)
    ||| occurs(e, "Device or resource busy"@)
    ||| occurs(e, "os error 16"@)
}

/// How long to wait after attempt `attempt` (counted from 0) failed.
pub open spec fn backoff_ms(attempt: int) -> u64 {
    if attempt == 0 {
        50
    } else if attempt == 1 {
        200
    } else {
        800
    }
}

pub open spec fn retry_wait(attempt: nat, error: Seq<char>) -> Option<u64> {
    if says_busy(error) && attempt < 3 {
        Some(backoff_ms(attempt as int))
    } else {
        None
    }
}

/// Only what the kernel still holds on to is tried again, four times in all,
/// with longer and longer waits; and in all no longer than a little over a
/// second is waited.
pub proof fn law_restores_are_tried_again(error: Seq<char>, attempt: nat)
    ensures
        retry_wait(attempt, error) is Some <==> attempt + 1 < 4 && says_busy(error),
        retry_wait(attempt, error) is Some && retry_wait(attempt + 1, error) is Some ==> retry_wait(
            attempt,
            error,
        )->0 < retry_wait(attempt + 1, error)->0,
        retry_wait(attempt, error) matches Some(ms) ==> 0 < ms,
        says_busy(error) ==> retry_wait(0, error)->0 + retry_wait(1, error)->0 + retry_wait(
            2,
            error,
        )->0 == 1050,
{
}

/// After a failed attempt to restore: for how many milliseconds to wait before
/// the next one, or None to give up. There are four attempts at most.
pub fn retry_after(attempt: usize, error: &str) -> (r: Option<u64>)
    ensures
        r == retry_wait(attempt as nat, error@),
{
    let busy = contains(error, "Resource busy") || contains(error, "Device or resource busy")
        || contains(error, "os error 16");
    if !busy || attempt >= 3 {
        None
    } else if attempt == 0 {
        Some(50)
    } else if attempt == 1 {
        Some(200)
    } else {
        Some(800)
    }
}

/// What is answered when the children could not be restored.
pub fn create_failed(panicked: bool, e: &str) -> (r: ApiError)
    ensures
        r.is(500, (if panicked {
            "blocking task panicked: "@
        } else {
            "restore_many: "@
        }) + e@),
{
    let m = if panicked {
        "blocking task panicked: ".to_string().concat(e)
    } else {
        "restore_many: ".to_string().concat(e)
    };
    server_error(m.as_str())
}

// ---------------------------------------------------------------------
// Recording what has been forked
// ---------------------------------------------------------------------

/// A child that runs.
#[derive(Debug, PartialEq, Eq)]
pub struct RunningChild {
    pub netns: Option<String>,
    pub pid: u32,
}

pub open spec fn is_new_sandbox(
    i: SandboxInfo,
    tag: Seq<char>,
    memory_limit_mib: Option<u64>,
    child: RunningChild,
    now: u64,
    seq: nat,
) -> bool {
    &&& i.id@ == sandbox_id(now as nat, seq)
    &&& i.snapshot_tag@ == tag
    &&& opt_view(i.netns) == opt_view(child.netns)
    &&& i.guest_addr@ == guest_addr()
    &&& i.created_at_unix == now
    &&& i.pid == Some(child.pid)
    &&& i.memory_limit_mib == memory_limit_mib
    &&& !i.has_branched
    &&& i.last_branch_memory_path is None
    &&& i.branch_count == 0
}

pub fn new_sandbox(
    tag: &str,
    memory_limit_mib: Option<u64>,
    child: &RunningChild,
    now: u64,
    seq: u64,
) -> (r: SandboxInfo)
    ensures
        is_new_sandbox(r, tag@, memory_limit_mib, *child, now, seq as nat),
{
    SandboxInfo {
        id: new_sandbox_id(now, seq),
        snapshot_tag: tag.to_string(),
        netns: copy_opt(&child.netns),
        guest_addr: "10.42.0.2:8888".to_string(),
        created_at_unix: now,
        pid: Some(child.pid),
        memory_limit_mib,
        has_branched: false,
        last_branch_memory_path: None,
        branch_count: 0,
    }
}

/// The sandboxes after `infos` have been recorded, one after the other.
pub open spec fn with_sandboxes(m: Map<Seq<char>, SandboxInfo>, infos: Seq<SandboxInfo>) -> Map<
    Seq<char>,
    SandboxInfo,
>
    decreases infos.len(),
{
    if infos.len() == 0 {
        m
    } else {
        with_sandboxes(m, infos.drop_last()).insert(infos.last().id@, infos.last())
    }
}

impl AppState {
    /// Records the children of a fork. `first_seq` numbers the first of them.
    pub fn record_children(
        &mut self,
        tag: &str,
        memory_limit_mib: Option<u64>,
        children: &Vec<RunningChild>,
        now: u64,
        first_seq: u64,
    ) -> (r: Vec<SandboxInfo>)
        requires
            old(self).wf(),
            first_seq + children@.len() <= u64::MAX,
        ensures
            final(self).wf(),
            *final(self) == (AppState { registry: final(self).registry, ..*old(self) }),
            final(self).registry.state.snapshots == old(self).registry.state.snapshots,
            final(self).registry.state.workspaces == old(self).registry.state.workspaces,
            r@.len() == children@.len(),
            forall|i: int|
                0 <= i < r@.len() ==> is_new_sandbox(
                    #[trigger] r@[i],
                    tag@,
                    memory_limit_mib,
                    children@[i],
                    now,
                    (first_seq + i) as nat,
                ),
            final(self).registry.sandboxes() == with_sandboxes(old(self).registry.sandboxes(), r@),
    {
        let mut infos: Vec<SandboxInfo> = Vec::new();
        let mut i: usize = 0;
        while i < children.len()
            invariant
                i <= children.len(),
                self.wf(),
                first_seq + children@.len() <= u64::MAX,
                *self == (AppState { registry: self.registry, ..*old(self) }),
                self.registry.state.snapshots == old(self).registry.state.snapshots,
                self.registry.state.workspaces == old(self).registry.state.workspaces,
                infos@.len() == i,
                forall|j: int|
                    0 <= j < i ==> is_new_sandbox(
                        #[trigger] infos@[j],
                        tag@,
                        memory_limit_mib,
                        children@[j],
                        now,
                        (first_seq + j) as nat,
                    ),
                self.registry.sandboxes() == with_sandboxes(
                    old(self).registry.sandboxes(),
                    infos@,
                ),
            decreases children.len() - i,
        {
            let info = new_sandbox(
                tag,
                memory_limit_mib,
                &children[i],
                now,
                first_seq + i as u64,
            );
            let ghost before = infos@;
            self.registry.insert_sandbox(info.clone());
            infos.push(info);
            assert(infos@.drop_last() =~= before);
            i += 1;
        }
        infos
    }

    /// Forgets a sandbox. Its VM is stopped in either case.
    pub fn delete_sandbox(&mut self, id: &str) -> (r: Result<SandboxInfo, ApiError>)
        requires
            old(self).wf(),
        ensures
            final(self).wf(),
            *final(self) == (AppState { registry: final(self).registry, ..*old(self) }),
            final(self).registry.state.snapshots == old(self).registry.state.snapshots,
            final(self).registry.state.workspaces == old(self).registry.state.workspaces,
            final(self).registry.sandboxes() == old(self).registry.sandboxes().remove(id@),
            match r {
                Ok(sb) => old(self).registry.sandboxes().contains_key(id@) && sb == old(
                    self,
                ).registry.sandboxes()[id@],
                Err(e) => !old(self).registry.sandboxes().contains_key(id@) && e.is(
                    404,
                    "sandbox "@ + id@ + " not found"@,
                ),
            },
    {
        match self.registry.remove_sandbox(id) {
            Some(sb) => Ok(sb),
            None => {
                let m = "sandbox ".to_string().concat(id);
                Err(not_found(m.as_str()))
            },
        }
    }

    /// What is recorded of a sandbox.
    pub fn sandbox(&self, id: &str) -> (r: Result<SandboxInfo, ApiError>)
        ensures
            match r {
                Ok(sb) => self.registry.sandboxes().contains_key(id@) && sb
                    == self.registry.sandboxes()[id@],
                Err(e) => !self.registry.sandboxes().contains_key(id@) && e.is(
                    404,
                    "sandbox "@ + id@ + " not found"@,
                ),
            },
    {
        match self.registry.get_sandbox(id) {
            Some(sb) => Ok(sb),
            None => {
                let m = "sandbox ".to_string().concat(id);
                Err(not_found(m.as_str()))
            },
        }
    }
}

proof fn lemma_with_sandboxes(m: Map<Seq<char>, SandboxInfo>, infos: Seq<SandboxInfo>, i: int)
    requires
        0 <= i < infos.len(),
        forall|a: int, b: int|
            0 <= a < b < infos.len() ==> (#[trigger] infos[a]).id@ != (#[trigger] infos[b]).id@,
    ensures
        with_sandboxes(m, infos).contains_key(infos[i].id@),
        with_sandboxes(m, infos)[infos[i].id@] == infos[i],
    decreases infos.len(),
{
    if i < infos.len() - 1 {
        lemma_with_sandboxes(m, infos.drop_last(), i);
    }
}

/// Every child of a fork can be looked up under the id that was answered, and
/// no two share one.
pub proof fn law_forked_children_are_recorded(
    m: Map<Seq<char>, SandboxInfo>,
    infos: Seq<SandboxInfo>,
    now: nat,
    first_seq: nat,
    i: int,
)
    requires
        0 <= i < infos.len(),
        forall|j: int|
            0 <= j < infos.len() ==> (#[trigger] infos[j]).id@ == sandbox_id(
                now,
                (first_seq + j) as nat,
            ),
    ensures
        with_sandboxes(m, infos).contains_key(infos[i].id@),
        with_sandboxes(m, infos)[infos[i].id@] == infos[i],
        forall|j: int| 0 <= j < infos.len() && j != i ==> (#[trigger] infos[j]).id@ != infos[i].id@,
{
    assert forall|a: int, b: int| 0 <= a < b < infos.len() implies (#[trigger] infos[a]).id@ != (
    #[trigger] infos[b]).id@ by {
        if infos[a].id@ == infos[b].id@ {
            crate::daemon::law_sandbox_ids_do_not_repeat(
                now,
                (first_seq + a) as nat,
                now,
                (first_seq + b) as nat,
            );
        }
    }
    lemma_with_sandboxes(m, infos, i);
}

// ---------------------------------------------------------------------
// The agents
// ---------------------------------------------------------------------

/// Whether a request goes to the agent of a sandbox.
pub open spec fn reaches(a: AgentRequest, sb: SandboxInfo) -> bool {
    &&& a.addr@ == sb.guest_addr@
    &&& opt_view(a.netns_path) == netns_path_of(opt_view(sb.netns))
}

impl AppState {
    /// The request that runs a command in sandbox `id`.
    pub fn begin_exec(&self, id: &str, req: &ExecRequest) -> (r: Result<AgentRequest, ApiError>)
        ensures
            match r {
                Ok(a) => {
                    &&& self.registry.sandboxes().contains_key(id@)
                    &&& req.args@.len() > 0
                    &&& reaches(a, self.registry.sandboxes()[id@])
                    &&& a.line@ == exec_line(views(req.args@), req.timeout_secs)
                    &&& a.connect_secs == 5
                    &&& a.read_secs == exec_wait(req.timeout_secs)
                },
                Err(e) => if !self.registry.sandboxes().contains_key(id@) {
                    e.is(404, "sandbox "@ + id@ + " not found"@)
                } else {
                    req.args@.len() == 0 && e.is(400, "args must contain at least one element"@)
                },
            },
    {
        match self.sandbox(id) {
            Ok(sb) => {
                if req.args.len() == 0 {
                    return Err(bad_request("args must contain at least one element"));
                }
                Ok(exec_at(&sb.netns, sb.guest_addr.as_str(), &req.args, req.timeout_secs))
            },
            Err(e) => Err(e),
        }
    }

    /// The request that evaluates an expression in sandbox `id`.
    pub fn begin_eval(&self, id: &str, req: &EvalRequest) -> (r: Result<AgentRequest, ApiError>)
        ensures
            match r {
                Ok(a) => {
                    &&& self.registry.sandboxes().contains_key(id@)
                    &&& reaches(a, self.registry.sandboxes()[id@])
                    &&& a.line@ == eval_line(req.code@)
                    &&& a.connect_secs == 5
                    &&& a.read_secs == Some(30u64)
                },
                Err(e) => !self.registry.sandboxes().contains_key(id@) && e.is(
                    404,
                    "sandbox "@ + id@ + " not found"@,
                ),
            },
    {
        match self.sandbox(id) {
            Ok(sb) => Ok(eval_at(&sb.netns, sb.guest_addr.as_str(), req.code.as_str())),
            Err(e) => Err(e),
        }
    }

    /// The request that asks whether the agent of sandbox `id` is there.
    pub fn begin_ping(&self, id: &str) -> (r: Result<AgentRequest, ApiError>)
        ensures
            match r {
                Ok(a) => {
                    &&& self.registry.sandboxes().contains_key(id@)
                    &&& reaches(a, self.registry.sandboxes()[id@])
                    &&& a.line@ == ping_line()
                    &&& a.connect_secs == 2
                    &&& a.read_secs == Some(3u64)
                },
                Err(e) => !self.registry.sandboxes().contains_key(id@) && e.is(
                    404,
                    "sandbox "@ + id@ + " not found"@,
                ),
            },
    {
        match self.sandbox(id) {
            Ok(sb) => Ok(ping_at(&sb.netns, sb.guest_addr.as_str())),
            Err(e) => Err(e),
        }
    }
}

/// What the agent's answer to `exec` becomes.
pub fn exec_response(a: &crate::fork::ExecResponse) -> (r: ExecResponse)
    ensures
        r.stdout@ == a.stdout@,
        r.stderr@ == a.stderr@,
        r.exit_code == a.exit_code,
{
    ExecResponse {
        stdout: a.stdout.clone(),
        stderr: a.stderr.clone(),
        exit_code: a.exit_code as i64,
    }
}

/// What the members of the agent's answer to `eval` become: without an exit
/// code the evaluation counts as a success.
pub fn eval_response(result: Option<String>, error: Option<String>, exit_code: Option<i64>) -> (r:
    EvalResponse)
    ensures
        r.result == result,
        r.error == error,
        r.exit_code == (match exit_code {
            Some(c) => c,
            None => 0,
        }),
{
    EvalResponse {
        result,
        error,
        exit_code: match exit_code {
            Some(c) => c,
            None => 0,
        },
    }
}

/// Reads the agent's answer to `eval`: a JSON document with white space around
/// it. None where it is no such document.
pub fn read_eval_answer(answer: &str) -> (r: Option<EvalResponse>)
    ensures
        match json_document(trim(answer@)) {
            Some(v) => {
                &&& r is Some
                &&& opt_view(r->0.result) == string_members(v).get("result"@)
                &&& opt_view(r->0.error) == string_members(v).get("error"@)
                &&& r->0.exit_code == (match signed_members(v).get("exit_code"@) {
                    Some(c) => c,
                    None => 0,
                })
            },
            None => r is None,
        },
{
    let t = trimmed(answer);
    match parse_json(t.as_str()) {
        Ok(v) => Some(
            eval_response(
                string_member(&v, "result"),
                string_member(&v, "error"),
                signed_member(&v, "exit_code"),
            ),
        ),
        Err(_) => None,
    }
}

/// What is answered when an agent could not be reached or made no sense.
pub fn agent_failed(verb: &str, panicked: bool, e: &str) -> (r: ApiError)
    ensures
        r.is(500, if panicked {
            "blocking task panicked: "@ + e@
        } else {
            verb@ + ": "@ + e@
        }),
{
    let m = if panicked {
        "blocking task panicked: ".to_string().concat(e)
    } else {
        verb.to_string().concat(": ").concat(e)
    };
    server_error(m.as_str())
}

/// What a refused fork is answered: 404 for a tag that names nothing, 409 for a
/// snapshot that is not whole, and 400 where the request itself is at fault.
pub proof fn law_refused_fork_is_answered(
    s: AppState,
    req: CreateSandboxRequest,
    disk: Table<DirFacts>,
)
    ensures
        ({
            let kn = known(s.registry, disk);
            let tag = req.snapshot_tag@;
            let sound = 1 <= req.n <= 1000 && safe_tag(tag);
            let whole = s.status_of(tag) == SnapshotStatus::Ready;
            let why = create_refusal(s, req, disk);
            &&& !sound ==> why is Some && create_refusal_status(why->0) == 400
            &&& sound && !whole ==> why is Some && create_refusal_status(why->0) == 409
            &&& sound && whole && !kn.resolves(tag) ==> why is Some && create_refusal_status(why->0)
                == 404
            &&& sound && whole && kn.resolves(tag) ==> (why is Some <==> req.live_fork && kn.parent(
                tag,
            ) is Some)
            &&& sound && whole && kn.resolves(tag) && why is Some ==> create_refusal_status(why->0)
                == 400
        }),
{
}

} // verus!
