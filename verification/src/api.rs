//! Request and response types of the controller's REST API, with the values
//! that a field takes when a request leaves it out.
use vstd::prelude::*;

use crate::table::Record;

verus! {

pub open spec fn opt_view(s: Option<String>) -> Option<Seq<char>> {
    match s {
        Some(t) => Some(t@),
        None => None,
    }
}

/// A copy of an optional string.
pub fn copy_opt(s: &Option<String>) -> (r: Option<String>)
    ensures
        r == *s,
{
    match s {
        Some(t) => Some(t.clone()),
        None => None,
    }
}

/// `POST /v1/snapshots`: build a snapshot from a kernel and a root filesystem.
#[derive(Debug, Clone, PartialEq, Eq)]
pub struct CreateSnapshotRequest {
    pub tag: String,
    pub kernel: String,
    pub rootfs: String,
    pub rw: bool,
    pub tap: Option<String>,
    pub boot_wait_secs: u64,
}

/// Seconds a freshly booted guest gets to settle when a request names none.
pub fn default_boot_wait() -> (n: u64)
    ensures
        n == 10,
{
    10
}

/// Where a snapshot's files on disk stand.
#[derive(Debug, Clone, Copy, PartialEq, Eq, Structural)]
pub enum SnapshotStatus {
    /// `memory.bin` is still being streamed; the tag cannot be forked yet.
    Writing,
    /// Complete; the tag can be forked.
    Ready,
    /// The background copy failed; the entry is kept for diagnosis only.
    Failed,
}

pub fn default_snapshot_status() -> (s: SnapshotStatus)
    ensures
        s == SnapshotStatus::Ready,
{
    SnapshotStatus::Ready
}

/// What the controller records of one snapshot.
#[derive(Debug, PartialEq, Eq)]
pub struct SnapshotInfo {
    pub tag: String,
    pub dir: String,
    pub created_at_unix: u64,
    /// The sandbox that was branched, or `compact:<tag>` for a flattened chain.
    pub branched_from: Option<String>,
    /// How long the source was paused.
    pub pause_ms: Option<u64>,
    pub diff_ms: Option<u64>,
    pub diff_physical_bytes: Option<u64>,
    pub diff_logical_bytes: Option<u64>,
    /// An advisory for the client.
    pub warning: Option<String>,
    pub status: SnapshotStatus,
}

impl Clone for SnapshotInfo {
    fn clone(&self) -> (r: Self)
        ensures
            r == *self,
    {
        SnapshotInfo {
            tag: self.tag.clone(),
            dir: self.dir.clone(),
            created_at_unix: self.created_at_unix,
            branched_from: copy_opt(&self.branched_from),
            pause_ms: self.pause_ms,
            diff_ms: self.diff_ms,
            diff_physical_bytes: self.diff_physical_bytes,
            diff_logical_bytes: self.diff_logical_bytes,
            warning: copy_opt(&self.warning),
            status: self.status,
        }
    }
}

impl Record for SnapshotInfo {
    fn duplicate(&self) -> (r: Self) {
        self.clone()
    }
}

/// How a branch captures the source's memory.
#[derive(Debug, Clone, Copy, PartialEq, Eq, Structural)]
pub enum BranchMode {
    Full,
    Diff,
    Live,
}

/// `POST /v1/sandboxes/:id/branch`: snapshot a running sandbox into a new tag.
#[derive(Debug, Clone, PartialEq, Eq)]
pub struct BranchSandboxRequest {
    /// Tag of the new snapshot; generated when absent.
    pub tag: Option<String>,
    /// Take a throwaway diff snapshot first and report what it cost.
    pub measure_diff: bool,
    /// Older spelling of `mode: diff`.
    pub diff: bool,
    /// Older spelling of `mode: live`.
    pub live: bool,
    pub mode: Option<BranchMode>,
    /// `false` answers as soon as the source runs again (live mode only).
    pub wait: bool,
    /// Records the new snapshot as a diff on top of this tag.
    pub parent_tag: Option<String>,
}

pub fn default_wait() -> (b: bool)
    ensures
        b,
{
    true
}

/// `POST /v1/sandboxes`: fork sandboxes from a snapshot tag.
#[derive(Debug, Clone, PartialEq, Eq)]
pub struct CreateSandboxRequest {
    pub snapshot_tag: String,
    pub n: usize,
    pub per_child_netns: bool,
    pub memory_limit_mib: Option<u64>,
    pub prewarm: bool,
    pub live_fork: bool,
}

pub fn default_one() -> (n: usize)
    ensures
        n == 1,
{
    1
}

/// What the controller records of one sandbox.
#[derive(Debug, PartialEq, Eq)]
pub struct SandboxInfo {
    pub id: String,
    pub snapshot_tag: String,
    pub netns: Option<String>,
    pub guest_addr: String,
    pub created_at_unix: u64,
    pub pid: Option<u32>,
    pub memory_limit_mib: Option<u64>,
    /// Whether any branch has been taken from this sandbox.
    pub has_branched: bool,
    /// The memory file of the latest branch, the base of the next diff.
    pub last_branch_memory_path: Option<String>,
    pub branch_count: u32,
}

impl Clone for SandboxInfo {
    fn clone(&self) -> (r: Self)
        ensures
            r == *self,
    {
        SandboxInfo {
            id: self.id.clone(),
            snapshot_tag: self.snapshot_tag.clone(),
            netns: copy_opt(&self.netns),
            guest_addr: self.guest_addr.clone(),
            created_at_unix: self.created_at_unix,
            pid: self.pid,
            memory_limit_mib: self.memory_limit_mib,
            has_branched: self.has_branched,
            last_branch_memory_path: copy_opt(&self.last_branch_memory_path),
            branch_count: self.branch_count,
        }
    }
}

impl Record for SandboxInfo {
    fn duplicate(&self) -> (r: Self) {
        self.clone()
    }
}

#[derive(Debug, Clone, Copy, PartialEq, Eq, Structural)]
pub enum WorkspaceStatus {
    /// Drives a live sandbox.
    Running,
    /// Saved to its state tag; no live sandbox.
    Suspended,
    /// Was running when the daemon went down; its sandbox is gone.
    Stale,
}

/// `POST /v1/workspaces`.
#[derive(Debug, Clone, PartialEq, Eq)]
pub struct CreateWorkspaceRequest {
    pub name: String,
    pub snapshot_tag: String,
    pub per_child_netns: bool,
    pub memory_limit_mib: Option<u64>,
}

/// What the controller records of one workspace.
#[derive(Debug, PartialEq, Eq)]
pub struct WorkspaceInfo {
    pub id: String,
    pub name: String,
    pub source_snapshot_tag: String,
    /// The snapshot of the latest suspend.
    pub current_state_tag: Option<String>,
    pub status: WorkspaceStatus,
    pub live_sandbox_id: Option<String>,
    pub created_at_unix: u64,
    pub last_active_unix: u64,
    pub last_branch_memory_path: Option<String>,
}

impl Clone for WorkspaceInfo {
    fn clone(&self) -> (r: Self)
        ensures
            r == *self,
    {
        WorkspaceInfo {
            id: self.id.clone(),
            name: self.name.clone(),
            source_snapshot_tag: self.source_snapshot_tag.clone(),
            current_state_tag: copy_opt(&self.current_state_tag),
            status: self.status,
            live_sandbox_id: copy_opt(&self.live_sandbox_id),
            created_at_unix: self.created_at_unix,
            last_active_unix: self.last_active_unix,
            last_branch_memory_path: copy_opt(&self.last_branch_memory_path),
        }
    }
}

impl Record for WorkspaceInfo {
    fn duplicate(&self) -> (r: Self) {
        self.clone()
    }
}

/// `POST /v1/workspaces/:name/suspend`.
#[derive(Debug, Clone, Copy, PartialEq, Eq)]
pub struct SuspendWorkspaceRequest {
    pub diff: bool,
}

impl Default for SuspendWorkspaceRequest {
    fn default() -> (r: Self)
        ensures
            !r.diff,
    {
        SuspendWorkspaceRequest { diff: false }
    }
}

/// `POST /v1/sandboxes/:id/exec`.
#[derive(Debug, Clone, PartialEq, Eq)]
pub struct ExecRequest {
    pub args: Vec<String>,
    pub timeout_secs: u64,
}

pub fn default_exec_timeout() -> (n: u64)
    ensures
        n == 30,
{
    30
}

#[derive(Debug, Clone, PartialEq, Eq)]
pub struct ExecResponse {
    pub stdout: String,
    pub stderr: String,
    pub exit_code: i64,
}

/// `POST /v1/sandboxes/:id/eval`.
#[derive(Debug, Clone, PartialEq, Eq)]
pub struct EvalRequest {
    pub code: String,
}

#[derive(Debug, Clone, PartialEq, Eq)]
pub struct EvalResponse {
    pub result: Option<String>,
    pub error: Option<String>,
    pub exit_code: i64,
}

/// `DELETE /v1/snapshots/:tag` options.
#[derive(Debug, Clone, Copy, PartialEq, Eq)]
pub struct DeleteSnapshotQuery {
    /// Delete although chained snapshots depend on the tag.
    pub force: bool,
    /// Delete the dependent snapshots too.
    pub cascade: bool,
}

/// `POST /v1/snapshots/:tag/compact`.
#[derive(Debug, Clone, PartialEq, Eq)]
pub struct CompactSnapshotRequest {
    pub to: String,
}

/// `GET /v1/snapshots/:tag/info`.
#[derive(Debug, Clone, PartialEq, Eq)]
pub struct SnapshotInfoDetail {
    pub tag: String,
    pub dir: String,
    pub created_at_unix: Option<u64>,
    pub memory_logical_bytes: u64,
    pub memory_physical_bytes: u64,
    pub vmstate_bytes: u64,
    pub parent_tag: Option<String>,
    pub parent_content_hash: Option<String>,
    /// Diff links between the tag and its base.
    pub chain_depth: usize,
    /// Tags recorded as diffs on top of this one.
    pub dependents: Vec<String>,
    /// The chain below this tag, base first.
    pub ancestors: Vec<String>,
}

#[derive(Debug, PartialEq, Eq)]
pub struct ErrorBody {
    pub error: String,
}

#[derive(Debug, Clone, PartialEq, Eq)]
pub struct VersionResponse {
    pub version: String,
    pub api: String,
}

/// The URL prefix of the API.
pub const API_VERSION: &'static str = "v1";

/// `GET /version`.
pub fn version(build: &str) -> (r: VersionResponse)
    ensures
        r.version@ == build@,
        r.api@ == "v1"@,
{
    VersionResponse { version: build.to_string(), api: "v1".to_string() }
}

/// What the health check answers.
pub fn healthz() -> (r: String)
    ensures
        r@ == "{\"ok\":true}"@,
{
    "{\"ok\":true}".to_string()
}

/// An answer other than success: a status code and its explanation.
#[derive(Debug, PartialEq, Eq)]
pub struct ApiError {
    pub status: u16,
    pub body: ErrorBody,
}

impl ApiError {
    pub open spec fn is(self, status: u16, message: Seq<char>) -> bool {
        self.status == status && self.body.error@ == message
    }

    pub fn new(status: u16, message: &str) -> (r: ApiError)
        ensures
            r.is(status, message@),
    {
        ApiError { status, body: ErrorBody { error: message.to_string() } }
    }
}

pub fn bad_request(message: &str) -> (r: ApiError)
    ensures
        r.is(400, message@),
{
    ApiError::new(400, message)
}

pub fn not_found(what: &str) -> (r: ApiError)
    ensures
        r.is(404, what@ + " not found"@),
{
    let text = what.to_string().concat(" not found");
    ApiError::new(404, text.as_str())
}

pub fn conflict(message: &str) -> (r: ApiError)
    ensures
        r.is(409, message@),
{
    ApiError::new(409, message)
}

pub fn server_error(message: &str) -> (r: ApiError)
    ensures
        r.is(500, message@),
{
    ApiError::new(500, message)
}

pub fn service_unavailable(message: &str) -> (r: ApiError)
    ensures
        r.is(503, message@),
{
    ApiError::new(503, message)
}

} // verus!
