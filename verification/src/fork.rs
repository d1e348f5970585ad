//! Forking children from a snapshot: which processes to start where, what to
//! ask of each, and how to reach the agent inside.
use vstd::prelude::*;

use crate::api::{copy_opt, opt_view};
use crate::boot::{copy_volumes, VolumeSpec};
use crate::cgroup::mib_to_bytes;
use crate::firecracker::{
    pause_call, pause_of, resume_call, resume_of, snapshot_create, snapshot_create_call, snapshot_load,
    snapshot_load_call, ApiCall, Call, SnapshotKind,
};
use crate::json::{json_string, json_strings_array, quote, quote_array};
use crate::paths::{file_name, join_path, joined_path, path_name};
use crate::text::{dec, dec_string, law_dec_reads_back, views};

verus! {

/// A paused guest on disk.
#[derive(Debug, PartialEq, Eq)]
pub struct Snapshot {
    pub vmstate: String,
    pub memory: String,
    pub volumes: Vec<VolumeSpec>,
    /// The tag that `memory` is a diff on top of, if it is one.
    pub parent_tag: Option<String>,
    /// What the parent's memory file hashed to when this one was taken.
    pub parent_content_hash: Option<String>,
}

impl Snapshot {
    /// Whether the two describe the same files.
    pub open spec fn same(self, other: Snapshot) -> bool {
        &&& self.vmstate == other.vmstate
        &&& self.memory == other.memory
        &&& self.volumes@ == other.volumes@
        &&& self.parent_tag == other.parent_tag
        &&& self.parent_content_hash == other.parent_content_hash
    }

    pub fn copy(&self) -> (r: Snapshot)
        ensures
            r.same(*self),
    {
        Snapshot {
            vmstate: self.vmstate.clone(),
            memory: self.memory.clone(),
            volumes: copy_volumes(&self.volumes),
            parent_tag: copy_opt(&self.parent_tag),
            parent_content_hash: copy_opt(&self.parent_content_hash),
        }
    }
}

/// A diff snapshot on disk: as long as a full one, with holes for the pages
/// that were not written.
#[derive(Debug, PartialEq, Eq)]
pub struct DiffSnapshot {
    pub vmstate: String,
    pub memory_diff: String,
    pub logical_size_bytes: u64,
    pub physical_size_bytes: u64,
    pub volumes: Vec<VolumeSpec>,
}

/// What a file takes on disk, from its count of 512-byte blocks; the largest
/// number where that does not fit.
pub fn physical_bytes(blocks: u64) -> (r: u64)
    ensures
        r == (if blocks * 512 <= u64::MAX {
            blocks * 512
        } else {
            u64::MAX as int
        }),
{
    match blocks.checked_mul(512) {
        Some(b) => b,
        None => u64::MAX,
    }
}

/// What backs a child's memory.
#[derive(Debug, PartialEq, Eq)]
pub enum MemoryBackend {
    /// A private mapping of the snapshot's memory file.
    File,
    /// A page-fault handler behind a socket; not served yet.
    Userfault { handler_sock: String },
    /// A shared mapping of a memfd filled from the memory file.
    MemfdShared,
}

impl Default for MemoryBackend {
    fn default() -> (r: Self)
        ensures
            r == MemoryBackend::File,
    {
        MemoryBackend::File
    }
}

/// How to fork.
#[derive(Debug, PartialEq, Eq)]
pub struct ForkOpts {
    pub n: usize,
    pub per_child_netns: bool,
    pub memory_limit_mib: Option<u64>,
    /// Added to the index in a child's namespace and cgroup names.
    pub netns_offset: usize,
    /// Where to write throwaway snapshots that warm the children up.
    pub prewarm_scratch_dir: Option<String>,
    pub memory_backend: MemoryBackend,
    pub enable_diff_snapshots: bool,
}

impl Default for ForkOpts {
    fn default() -> (r: Self)
        ensures
            r.n == 1,
            !r.per_child_netns,
            r.memory_limit_mib is None,
            r.netns_offset == 0,
            r.prewarm_scratch_dir is None,
            r.memory_backend == MemoryBackend::File,
            !r.enable_diff_snapshots,
    {
        ForkOpts {
            n: 1,
            per_child_netns: false,
            memory_limit_mib: None,
            netns_offset: 0,
            prewarm_scratch_dir: None,
            memory_backend: MemoryBackend::File,
            enable_diff_snapshots: false,
        }
    }
}

/// The cgroup leaf of one child.
#[derive(Debug, PartialEq, Eq)]
pub struct CgroupLeaf {
    pub name: String,
    pub memory_max_bytes: u64,
}

/// The calls that warm one child up, and the files they leave behind. The
/// child is let run again whether or not the snapshot succeeds.
#[derive(Debug, PartialEq, Eq)]
pub struct Prewarm {
    pub vmstate: String,
    pub memory: String,
    pub pause: ApiCall,
    pub create: ApiCall,
    pub resume: ApiCall,
}

/// What to start and set up for one child.
#[derive(Debug, PartialEq, Eq)]
pub struct ChildPlan {
    pub sock: String,
    pub console: String,
    pub netns: Option<String>,
    /// The command that runs the child, and its arguments.
    pub argv: Vec<String>,
    pub cgroup: Option<CgroupLeaf>,
    /// The call that restores it.
    pub load: ApiCall,
    pub prewarm: Option<Prewarm>,
}

/// The network namespace of index `k`.
pub open spec fn netns_name(k: nat) -> Seq<char> {
    "forkd-child-"@ + dec(k)
}

/// The cgroup leaf of index `k`.
pub open spec fn leaf_name(k: nat) -> Seq<char> {
    "child-"@ + dec(k)
}

/// The command that starts a guest process, inside a namespace or not.
pub open spec fn spawn_argv(netns: Option<Seq<char>>, sock: Seq<char>) -> Seq<Seq<char>> {
    match netns {
        Some(ns) => seq!["ip"@, "netns"@, "exec"@, ns, "firecracker"@, "--api-sock"@, sock],
        None => seq!["firecracker"@, "--api-sock"@, sock],
    }
}

pub fn spawn_command(netns: &Option<String>, sock: &str) -> (r: Vec<String>)
    ensures
        views(r@) == spawn_argv(opt_view(*netns), sock@),
{
    let mut v: Vec<String> = Vec::new();
    match netns {
        Some(ns) => {
            v.push("ip".to_string());
            v.push("netns".to_string());
            v.push("exec".to_string());
            v.push(ns.clone());
        },
        None => {},
    }
    v.push("firecracker".to_string());
    v.push("--api-sock".to_string());
    v.push(sock.to_string());
    assert(views(v@) =~= spawn_argv(opt_view(*netns), sock@));
    v
}

/// The name that keys a child's throwaway files: that of its socket, or its
/// pid where the socket has none.
pub open spec fn prewarm_key(sock: Seq<char>, pid: nat) -> Seq<char> {
    match path_name(sock) {
        Some(name) => name,
        None => "pid"@ + dec(pid),
    }
}

pub open spec fn is_prewarm(p: Prewarm, scratch: Seq<char>, sock: Seq<char>, pid: nat) -> bool {
    let key = prewarm_key(sock, pid);
    let vmstate = joined_path(scratch, ".prewarm-vmstate-"@ + key + ".bin"@);
    let memory = joined_path(scratch, ".prewarm-memory-"@ + key + ".bin"@);
    &&& p.vmstate@ == vmstate
    &&& p.memory@ == memory
    &&& p.pause@ == pause_of()
    &&& p.create@ == snapshot_create(vmstate, memory, SnapshotKind::Full)
    &&& p.resume@ == resume_of()
}

/// How to warm up the guest behind `sock`.
pub fn prewarm(scratch_dir: &str, sock: &str, pid: u32) -> (r: Prewarm)
    ensures
        is_prewarm(r, scratch_dir@, sock@, pid as nat),
{
    let key = match file_name(sock) {
        Some(name) => name,
        None => {
            let n = dec_string(pid as u64);
            "pid".to_string().concat(n.as_str())
        },
    };
    let v = ".prewarm-vmstate-".to_string().concat(key.as_str()).concat(".bin");
    let m = ".prewarm-memory-".to_string().concat(key.as_str()).concat(".bin");
    let vmstate = join_path(scratch_dir, v.as_str());
    let memory = join_path(scratch_dir, m.as_str());
    let create = snapshot_create_call(vmstate.as_str(), memory.as_str(), SnapshotKind::Full);
    Prewarm { vmstate, memory, pause: pause_call(), create, resume: resume_call() }
}

pub open spec fn with_context(context: Seq<char>, e: Seq<char>) -> Seq<char> {
    context + ": "@ + e
}

/// How a warm-up went, from how its calls went: a failed snapshot is reported
/// before a failed resume.
pub fn prewarm_result(create: Result<(), String>, resume: Result<(), String>) -> (r: Result<
    (),
    String,
>)
    ensures
        match (create, resume) {
            (Err(e), _) => r matches Err(m) && m@ == with_context("prewarm: snapshot/create"@, e@),
            (Ok(_), Err(e)) => r matches Err(m) && m@ == with_context("prewarm: resume"@, e@),
            (Ok(_), Ok(_)) => r is Ok,
        },
{
    match create {
        Err(e) => Err(
            "prewarm: snapshot/create".to_string().concat(": ").concat(e.as_str()),
        ),
        Ok(_) => match resume {
            Err(e) => Err("prewarm: resume".to_string().concat(": ").concat(e.as_str())),
            Ok(_) => Ok(()),
        },
    }
}

pub open spec fn child_sock(work_dir: Seq<char>, i: nat) -> Seq<char> {
    joined_path(work_dir, "child-"@ + dec(i) + ".sock"@)
}

pub open spec fn child_console(work_dir: Seq<char>, i: nat) -> Seq<char> {
    joined_path(work_dir, "child-"@ + dec(i) + ".console"@)
}

/// What child `i` (counted from 1) of a fork gets. Its files are numbered
/// within the batch; its namespace and cgroup carry the offset too.
pub open spec fn is_child(c: ChildPlan, opts: ForkOpts, work_dir: Seq<char>, i: nat) -> bool {
    let k = (opts.netns_offset + i) as nat;
    &&& c.sock@ == child_sock(work_dir, i)
    &&& c.console@ == child_console(work_dir, i)
    &&& opt_view(c.netns) == (if opts.per_child_netns {
        Some(netns_name(k))
    } else {
        None
    })
    &&& views(c.argv@) == spawn_argv(opt_view(c.netns), c.sock@)
    &&& match opts.memory_limit_mib {
        Some(mib) => c.cgroup matches Some(leaf) && leaf.name@ == leaf_name(k)
            && leaf.memory_max_bytes == (if mib * 1048576 <= u64::MAX {
            mib * 1048576
        } else {
            u64::MAX as int
        }),
        None => c.cgroup is None,
    }
    &&& match opts.prewarm_scratch_dir {
        Some(dir) => c.prewarm matches Some(p) && is_prewarm(p, dir@, c.sock@, 0),
        None => c.prewarm is None,
    }
}

/// The call that restores a child from `snap`: from the snapshot's memory
/// file, or from a memfd that it shares.
pub open spec fn load_of(snap: Snapshot, opts: ForkOpts, memfd: Seq<char>) -> Call {
    if opts.memory_backend is MemfdShared {
        snapshot_load(snap.vmstate@, memfd, true, opts.enable_diff_snapshots)
    } else {
        snapshot_load(snap.vmstate@, snap.memory@, false, opts.enable_diff_snapshots)
    }
}

fn child(snap: &Snapshot, opts: &ForkOpts, work_dir: &str, i: usize, memfd: &str) -> (c: ChildPlan)
    requires
        opts.netns_offset + i <= usize::MAX,
    ensures
        is_child(c, *opts, work_dir@, i as nat),
        c.load@ == load_of(*snap, *opts, memfd@),
{
    let load = match &opts.memory_backend {
        MemoryBackend::MemfdShared => snapshot_load_call(
            snap.vmstate.as_str(),
            memfd,
            true,
            opts.enable_diff_snapshots,
        ),
        _ => snapshot_load_call(
            snap.vmstate.as_str(),
            snap.memory.as_str(),
            false,
            opts.enable_diff_snapshots,
        ),
    };
    let n = dec_string(i as u64);
    let k: usize = opts.netns_offset + i;
    let global = dec_string(k as u64);
    let sock_name = "child-".to_string().concat(n.as_str()).concat(".sock");
    let console_name = "child-".to_string().concat(n.as_str()).concat(".console");
    let sock = join_path(work_dir, sock_name.as_str());
    let console = join_path(work_dir, console_name.as_str());
    let netns = if opts.per_child_netns {
        Some("forkd-child-".to_string().concat(global.as_str()))
    } else {
        None
    };
    let argv = spawn_command(&netns, sock.as_str());
    let cgroup = match opts.memory_limit_mib {
        Some(mib) => Some(
            CgroupLeaf {
                name: "child-".to_string().concat(global.as_str()),
                memory_max_bytes: mib_to_bytes(mib),
            },
        ),
        None => None,
    };
    let warm = match &opts.prewarm_scratch_dir {
        Some(dir) => Some(prewarm(dir.as_str(), sock.as_str(), 0)),
        None => None,
    };
    ChildPlan { sock, console, netns, argv, cgroup, load, prewarm: warm }
}

/// Why a fork cannot be planned.
#[derive(Debug, Clone, Copy, PartialEq, Eq, Structural)]
pub enum ForkError {
    /// The page-fault handler backend is not served yet.
    UserfaultUnsupported,
}

impl ForkError {
    pub fn message(&self) -> (r: String)
        ensures
            r@
                == "MemoryBackend::Userfault is v0.3 scaffolding and not yet implemented — see docs/design/userfaultfd.md for status"@,
    {
        "MemoryBackend::Userfault is v0.3 scaffolding and not yet implemented — see docs/design/userfaultfd.md for status".to_string()
    }
}

impl Snapshot {
    /// Plans `n` children restored from this snapshot. Where the backend is a
    /// shared memfd, `memfds` holds the path of each child's.
    pub fn restore_many_with(&self, opts: &ForkOpts, work_dir: &str, memfds: &Vec<String>) -> (r:
        Result<Vec<ChildPlan>, ForkError>)
        requires
            opts.netns_offset + opts.n <= usize::MAX,
            opts.memory_backend is MemfdShared ==> memfds@.len() == opts.n,
        ensures
            match r {
                Ok(children) => {
                    &&& !(opts.memory_backend is Userfault)
                    &&& children@.len() == opts.n
                    &&& forall|i: int|
                        0 <= i < opts.n ==> is_child(
                            #[trigger] children@[i],
                            *opts,
                            work_dir@,
                            (i + 1) as nat,
                        ) && children@[i].load@ == load_of(*self, *opts, memfds@[i]@)
                },
                Err(e) => opts.memory_backend is Userfault && e == ForkError::UserfaultUnsupported,
            },
    {
        let shared = match &opts.memory_backend {
            MemoryBackend::File => false,
            MemoryBackend::MemfdShared => true,
            MemoryBackend::Userfault { handler_sock: _ } => {
                return Err(ForkError::UserfaultUnsupported);
            },
        };
        let mut children: Vec<ChildPlan> = Vec::new();
        let mut i: usize = 0;
        while i < opts.n
            invariant
                i <= opts.n,
                opts.netns_offset + opts.n <= usize::MAX,
                shared == (opts.memory_backend is MemfdShared),
                shared ==> memfds@.len() == opts.n,
                children@.len() == i,
                forall|j: int|
                    0 <= j < i ==> is_child(
                        #[trigger] children@[j],
                        *opts,
                        work_dir@,
                        (j + 1) as nat,
                    ) && children@[j].load@ == load_of(*self, *opts, memfds@[j]@),
            decreases opts.n - i,
        {
            let c = if shared {
                child(self, opts, work_dir, i + 1, memfds[i].as_str())
            } else {
                child(self, opts, work_dir, i + 1, "")
            };
            children.push(c);
            i += 1;
        }
        Ok(children)
    }

    /// Plans `n` children with nothing special about them.
    pub fn restore_many(&self, n: usize, work_dir: &str) -> (r: Vec<ChildPlan>)
        ensures
            r@.len() == n,
            forall|i: int|
                0 <= i < n ==> {
                    &&& (#[trigger] r@[i]).sock@ == child_sock(work_dir@, (i + 1) as nat)
                    &&& r@[i].console@ == child_console(work_dir@, (i + 1) as nat)
                    &&& r@[i].netns is None
                    &&& views(r@[i].argv@) == spawn_argv(None, r@[i].sock@)
                    &&& r@[i].cgroup is None
                    &&& r@[i].load@ == snapshot_load(self.vmstate@, self.memory@, false, false)
                    &&& r@[i].prewarm is None
                },
    {
        let opts = ForkOpts {
            n,
            per_child_netns: false,
            memory_limit_mib: None,
            netns_offset: 0,
            prewarm_scratch_dir: None,
            memory_backend: MemoryBackend::File,
            enable_diff_snapshots: false,
        };
        let none: Vec<String> = Vec::new();
        match self.restore_many_with(&opts, work_dir, &none) {
            Ok(children) => children,
            Err(_) => vstd::pervasive::unreached(),
        }
    }
}

/// Children never share a network namespace or a cgroup leaf: not within a
/// batch, and not across batches whose index ranges are disjoint.
pub proof fn law_child_indices_do_not_collide(k: nat, m: nat)
    requires
        k != m,
    ensures
        netns_name(k) != netns_name(m),
        leaf_name(k) != leaf_name(m),
{
    let max = if k < m { m } else { k };
    law_dec_reads_back(k, max);
    law_dec_reads_back(m, max);
    if netns_name(k) == netns_name(m) {
        let n = "forkd-child-"@.len() as int;
        assert(netns_name(k).skip(n) =~= dec(k));
        assert(netns_name(m).skip(n) =~= dec(m));
    }
    if leaf_name(k) == leaf_name(m) {
        let n = "child-"@.len() as int;
        assert(leaf_name(k).skip(n) =~= dec(k));
        assert(leaf_name(m).skip(n) =~= dec(m));
    }
}

/// Children of one batch have sockets of their own.
pub proof fn law_child_sockets_are_distinct(work_dir: Seq<char>, i: nat, j: nat)
    requires
        i != j,
    ensures
        child_sock(work_dir, i) != child_sock(work_dir, j),
{
    reveal_strlit("child-");
    reveal_strlit(".sock");
    reveal_strlit("/");
    let max = if i < j { j } else { i };
    law_dec_reads_back(i, max);
    law_dec_reads_back(j, max);
    let a = "child-"@ + dec(i) + ".sock"@;
    let b = "child-"@ + dec(j) + ".sock"@;
    assert(a[0] == 'c' && b[0] == 'c');
    if child_sock(work_dir, i) == child_sock(work_dir, j) {
        let base = if work_dir.len() > 0 && work_dir.last() != '/' {
            work_dir + "/"@
        } else {
            work_dir
        };
        assert(child_sock(work_dir, i) =~= base + a);
        assert(child_sock(work_dir, j) =~= base + b);
        assert((base + a).skip(base.len() as int) =~= a);
        assert((base + b).skip(base.len() as int) =~= b);
        assert(a =~= b);
        assert(a.subrange(6, a.len() - 5) =~= dec(i));
        assert(b.subrange(6, b.len() - 5) =~= dec(j));
    }
}

// ---------------------------------------------------------------------
// The agent inside a guest
// ---------------------------------------------------------------------

/// What the agent answers to `exec`.
#[derive(Debug, PartialEq, Eq)]
pub struct ExecResponse {
    pub stdout: String,
    pub stderr: String,
    pub exit_code: i32,
    pub error: Option<String>,
}

/// One request to the agent: where to connect, what to send and how long to
/// wait for the answer.
#[derive(Debug, PartialEq, Eq)]
pub struct AgentRequest {
    pub addr: String,
    /// The namespace file to enter first, where the guest has one.
    pub netns_path: Option<String>,
    pub line: String,
    pub connect_secs: u64,
    /// None: longer than can be counted in seconds of 64 bits.
    pub read_secs: Option<u64>,
}

pub open spec fn exec_line(args: Seq<Seq<char>>, timeout_secs: u64) -> Seq<char> {
    "{\"action\":\"exec\",\"args\":"@ + json_strings_array(args) + ",\"timeout\":"@ + dec(
        timeout_secs as nat,
    ) + "}\n"@
}

pub open spec fn eval_line(code: Seq<char>) -> Seq<char> {
    "{\"action\":\"eval\",\"code\":"@ + json_string(code) + "}\n"@
}

pub open spec fn ping_line() -> Seq<char> {
    "{\"action\":\"ping\"}\n"@
}

/// For how long the answer to a command is waited for; None is for ever.
pub open spec fn exec_wait(timeout_secs: u64) -> Option<u64> {
    if timeout_secs + 5 <= u64::MAX {
        Some((timeout_secs + 5) as u64)
    } else {
        None
    }
}

pub open spec fn netns_path_of(netns: Option<Seq<char>>) -> Option<Seq<char>> {
    match netns {
        Some(ns) => Some("/var/run/netns/"@ + ns),
        None => None,
    }
}

fn netns_path(netns: &Option<String>) -> (r: Option<String>)
    ensures
        opt_view(r) == netns_path_of(opt_view(*netns)),
{
    match netns {
        Some(ns) => Some("/var/run/netns/".to_string().concat(ns.as_str())),
        None => None,
    }
}

/// Runs a command in the guest: the answer may come five seconds after the
/// command's own time limit.
pub fn exec_at(netns: &Option<String>, addr: &str, args: &Vec<String>, timeout_secs: u64) -> (r:
    AgentRequest)
    ensures
        r.addr@ == addr@,
        opt_view(r.netns_path) == netns_path_of(opt_view(*netns)),
        r.line@ == exec_line(views(args@), timeout_secs),
        r.connect_secs == 5,
        r.read_secs == exec_wait(timeout_secs),
{
    let a = quote_array(args);
    let t = dec_string(timeout_secs);
    let line = "{\"action\":\"exec\",\"args\":".to_string().concat(a.as_str()).concat(
        ",\"timeout\":",
    ).concat(t.as_str()).concat("}\n");
    AgentRequest {
        addr: addr.to_string(),
        netns_path: netns_path(netns),
        line,
        connect_secs: 5,
        read_secs: timeout_secs.checked_add(5),
    }
}

/// Runs a command in the guest of a network namespace.
pub fn exec_in_netns(netns: &str, addr: &str, args: &Vec<String>, timeout_secs: u64) -> (r:
    AgentRequest)
    ensures
        r.addr@ == addr@,
        opt_view(r.netns_path) == Some("/var/run/netns/"@ + netns@),
        r.line@ == exec_line(views(args@), timeout_secs),
        r.connect_secs == 5,
        r.read_secs == exec_wait(timeout_secs),
{
    let ns = Some(netns.to_string());
    exec_at(&ns, addr, args, timeout_secs)
}

/// Evaluates an expression in the guest's warmed interpreter.
pub fn eval_at(netns: &Option<String>, addr: &str, code: &str) -> (r: AgentRequest)
    ensures
        r.addr@ == addr@,
        opt_view(r.netns_path) == netns_path_of(opt_view(*netns)),
        r.line@ == eval_line(code@),
        r.connect_secs == 5,
        r.read_secs == Some(30u64),
{
    let c = quote(code);
    let line = "{\"action\":\"eval\",\"code\":".to_string().concat(c.as_str()).concat("}\n");
    AgentRequest {
        addr: addr.to_string(),
        netns_path: netns_path(netns),
        line,
        connect_secs: 5,
        read_secs: Some(30),
    }
}

/// Evaluates an expression in the guest of a network namespace.
pub fn eval_in_netns(netns: &str, addr: &str, code: &str) -> (r: AgentRequest)
    ensures
        r.addr@ == addr@,
        opt_view(r.netns_path) == Some("/var/run/netns/"@ + netns@),
        r.line@ == eval_line(code@),
        r.connect_secs == 5,
        r.read_secs == Some(30u64),
{
    let ns = Some(netns.to_string());
    eval_at(&ns, addr, code)
}

/// Asks whether the agent is there.
pub fn ping_at(netns: &Option<String>, addr: &str) -> (r: AgentRequest)
    ensures
        r.addr@ == addr@,
        opt_view(r.netns_path) == netns_path_of(opt_view(*netns)),
        r.line@ == ping_line(),
        r.connect_secs == 2,
        r.read_secs == Some(3u64),
{
    AgentRequest {
        addr: addr.to_string(),
        netns_path: netns_path(netns),
        line: "{\"action\":\"ping\"}\n".to_string(),
        connect_secs: 2,
        read_secs: Some(3),
    }
}

/// Asks whether the agent of the guest of a network namespace is there.
pub fn ping_in_netns(netns: &str, addr: &str) -> (r: AgentRequest)
    ensures
        r.addr@ == addr@,
        opt_view(r.netns_path) == Some("/var/run/netns/"@ + netns@),
        r.line@ == ping_line(),
        r.connect_secs == 2,
        r.read_secs == Some(3u64),
{
    let ns = Some(netns.to_string());
    ping_at(&ns, addr)
}

} // verus!
