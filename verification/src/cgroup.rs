//! Memory limits of child VMs through cgroup v2: one leaf per child below
//! `/sys/fs/cgroup/forkd`.
use vstd::prelude::*;

use crate::paths::{join_path, joined_path};
use crate::state::holds_str;
use crate::text::{dec, dec_string, law_dec_reads_back, parse_dec, split_words, words};

verus! {

/// The parent of all leaves.
pub const FORKD_PARENT: &'static str = "/sys/fs/cgroup/forkd";

/// MiB in bytes; the largest number where that does not fit.
pub fn mib_to_bytes(mib: u64) -> (r: u64)
    ensures
        r == (if mib * 1048576 <= u64::MAX {
            mib * 1048576
        } else {
            u64::MAX as int
        }),
{
    match mib.checked_mul(1048576) {
        Some(b) => b,
        None => u64::MAX,
    }
}

/// Whether the memory controller is among the enabled ones.
pub open spec fn memory_enabled(subtree_control: Seq<char>) -> bool {
    words(subtree_control).contains("memory"@)
}

pub fn has_memory_controller(subtree_control: &str) -> (r: bool)
    ensures
        r == memory_enabled(subtree_control@),
{
    let w = split_words(subtree_control);
    holds_str(&w, "memory")
}

/// Why children cannot be limited.
#[derive(Debug, Clone, Copy, PartialEq, Eq, Structural)]
pub enum CgroupError {
    /// No unified hierarchy at `/sys/fs/cgroup`.
    NotMounted,
    /// The root does not hand the memory controller down.
    NoMemoryController,
}

impl CgroupError {
    pub open spec fn text(self) -> Seq<char> {
        match self {
            CgroupError::NotMounted => "cgroup v2 not mounted at /sys/fs/cgroup — enable unified hierarchy (kernel cgroup_v2=1, or boot with systemd.unified_cgroup_hierarchy=1)"@,
            CgroupError::NoMemoryController => "cgroup v2 root subtree_control does not include 'memory' — this is unusual; check /sys/fs/cgroup/cgroup.subtree_control"@,
        }
    }

    pub fn message(&self) -> (r: String)
        ensures
            r@ == self.text(),
    {
        match self {
            CgroupError::NotMounted => "cgroup v2 not mounted at /sys/fs/cgroup — enable unified hierarchy (kernel cgroup_v2=1, or boot with systemd.unified_cgroup_hierarchy=1)".to_string(),
            CgroupError::NoMemoryController => "cgroup v2 root subtree_control does not include 'memory' — this is unusual; check /sys/fs/cgroup/cgroup.subtree_control".to_string(),
        }
    }
}

/// What has to be done before leaves can be made.
#[derive(Debug, Clone, Copy, PartialEq, Eq, Structural)]
pub struct ParentSteps {
    /// Make the parent directory.
    pub create: bool,
    /// Write `+memory` to its `cgroup.subtree_control`.
    pub enable_memory: bool,
}

pub open spec fn parent_steps(
    mounted: bool,
    root_subtree: Seq<char>,
    parent_exists: bool,
    parent_subtree: Seq<char>,
) -> Result<ParentSteps, CgroupError> {
    if !mounted {
        Err(CgroupError::NotMounted)
    } else if !memory_enabled(root_subtree) {
        Err(CgroupError::NoMemoryController)
    } else {
        Ok(
            ParentSteps {
                create: !parent_exists,
                enable_memory: !memory_enabled(parent_subtree),
            },
        )
    }
}

/// Where the host can limit memory at all, the parent is there and hands the
/// memory controller down once the steps have been taken, and nothing is done
/// that was done before.
pub proof fn law_leaves_can_be_limited(
    mounted: bool,
    root_subtree: Seq<char>,
    parent_exists: bool,
    parent_subtree: Seq<char>,
)
    ensures
        ({
            let r = parent_steps(mounted, root_subtree, parent_exists, parent_subtree);
            &&& r is Ok <==> mounted && words(root_subtree).contains("memory"@)
            &&& r matches Ok(s) ==> {
                &&& parent_exists != s.create
                &&& words(parent_subtree).contains("memory"@) != s.enable_memory
            }
            &&& r == Err::<ParentSteps, CgroupError>(CgroupError::NotMounted) <==> !mounted
        }),
{
}

/// What the parent of all leaves needs, given what the host shows: whether
/// cgroup v2 is mounted, which controllers the root hands down, whether the
/// parent is there and which controllers it hands down.
pub fn ensure_parent(
    mounted: bool,
    root_subtree: &str,
    parent_exists: bool,
    parent_subtree: &str,
) -> (r: Result<ParentSteps, CgroupError>)
    ensures
        r == parent_steps(mounted, root_subtree@, parent_exists, parent_subtree@),
{
    if !mounted {
        return Err(CgroupError::NotMounted);
    }
    if !has_memory_controller(root_subtree) {
        return Err(CgroupError::NoMemoryController);
    }
    Ok(
        ParentSteps {
            create: !parent_exists,
            enable_memory: !has_memory_controller(parent_subtree),
        },
    )
}

/// A file and the text to write to it.
#[derive(Debug, PartialEq, Eq)]
pub struct FileWrite {
    pub path: String,
    pub text: String,
}

/// The leaf of one child, and what to write there, in order.
#[derive(Debug, PartialEq, Eq)]
pub struct Placement {
    pub dir: String,
    pub limit: FileWrite,
    pub attach: FileWrite,
}

pub open spec fn is_placement(
    r: Placement,
    name: Seq<char>,
    pid: nat,
    memory_max_bytes: nat,
) -> bool {
    let dir = joined_path("/sys/fs/cgroup/forkd"@, name);
    &&& r.dir@ == dir
    &&& r.limit.path@ == joined_path(dir, "memory.max"@)
    &&& r.limit.text@ == dec(memory_max_bytes)
    &&& r.attach.path@ == joined_path(dir, "cgroup.procs"@)
    &&& r.attach.text@ == dec(pid)
}

/// The kernel reads back the limit and the process that were given: both are
/// decimal numbers, each in a file of its own in the leaf.
pub proof fn law_placement_reads_back(
    r: Placement,
    name: Seq<char>,
    pid: nat,
    memory_max_bytes: nat,
    max: nat,
)
    requires
        is_placement(r, name, pid, memory_max_bytes),
        pid <= max,
        memory_max_bytes <= max,
    ensures
        parse_dec(r.limit.text@, max) == Some(memory_max_bytes),
        parse_dec(r.attach.text@, max) == Some(pid),
        r.limit.path@ != r.attach.path@,
{
    law_dec_reads_back(pid, max);
    law_dec_reads_back(memory_max_bytes, max);
    reveal_strlit("memory.max");
    reveal_strlit("cgroup.procs");
    reveal_strlit("/");
    assert("memory.max"@[0] == 'm' && "cgroup.procs"@[0] == 'c');
    assert("memory.max"@.len() == 10 && "cgroup.procs"@.len() == 12);
    assert(r.limit.path@.len() != r.attach.path@.len());
}

/// Puts the process `pid` under the leaf `name` with a limit on its memory:
/// the limit is written before the process is attached.
pub fn place_child(name: &str, pid: u32, memory_max_bytes: u64) -> (r: Placement)
    ensures
        is_placement(r, name@, pid as nat, memory_max_bytes as nat),
{
    let dir = join_path("/sys/fs/cgroup/forkd", name);
    let limit = FileWrite {
        path: join_path(dir.as_str(), "memory.max"),
        text: dec_string(memory_max_bytes),
    };
    let attach = FileWrite {
        path: join_path(dir.as_str(), "cgroup.procs"),
        text: dec_string(pid as u64),
    };
    Placement { dir, limit, attach }
}

} // verus!
