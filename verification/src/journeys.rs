//! What requests lead to, from what was asked to the guest that runs.
use vstd::prelude::*;

use crate::api::{
    opt_view, BranchSandboxRequest, CreateSandboxRequest, CreateSnapshotRequest, SandboxInfo,
    SnapshotInfo, SnapshotStatus,
};
use crate::boot::{is_ext4, BootConfig, VolumeSpec};
use crate::branch::{diff_base, is_branch_metadata, is_plan, BranchFacts, BranchPlan, StoredMeta};
use crate::chain::{
    assembles, is_assembly_of, is_chain, is_fallback, is_snapshot_of, known, link_tags,
    Assembly, ChainLink, DirFacts, Known,
};
use crate::cli::{
    is_fork_plan, is_run_plan, is_snapshot_plan, law_volume_reads_back, reads_as, ForkFacts,
    ForkPlan, RunPlan, SnapshotArgs, SnapshotFacts, SnapshotPlan,
};
use crate::daemon::{reaped, AppState, BulkCopy};
use crate::firecracker::{boot_calls_of, snapshot_create, SnapshotKind};
use crate::fork::{
    is_child, law_child_indices_do_not_collide, law_child_sockets_are_distinct, load_of, netns_name,
    netns_path_of, AgentRequest, ChildPlan, ForkOpts, Snapshot,
};
use crate::image::logged;
use crate::machine::{
    asked, law_boot_gives_the_configured_machine, law_restored_child_runs,
    law_snapshot_is_saved_as_asked, Ask, Drive, Machine, Phase,
};
use crate::merge::{law_merge_gives_later_memory, merged, Extent};
use crate::netns::{free, law_picked_namespaces_are_unused};
use crate::paths::{joined_path, path_extension};
use crate::sandboxes::{
    create_refusal, guest_addr, is_create_plan, is_new_sandbox, is_source_of, reaches, CreatePlan,
    CreateRefusal, RunningChild, MAX_SANDBOXES,
};
use crate::snapshots::{
    is_build_plan, is_compact_metadata, is_compact_plan, BuildPlan, CompactPlan,
};
use crate::table::Table;
use crate::tags::safe_tag;
use crate::text::views;
use crate::workspaces::{
    is_forgotten, is_spawn_plan, is_state_info, is_suspend_plan, spawn_dir_of, SuspendFacts,
    SuspendPlan, WorkspaceRemains,
};

verus! {

// ---------------------------------------------------------------------
// Children
// ---------------------------------------------------------------------

/// Whether a child's memory is limited to `mib` MiB, or to all that can be
/// counted where that is less; without a limit it has no group of its own.
pub open spec fn held_to(c: ChildPlan, mib: Option<u64>) -> bool {
    match mib {
        Some(m) => c.cgroup matches Some(leaf) && leaf.memory_max_bytes == (if m * 1024 * 1024
            <= u64::MAX {
            m * 1024 * 1024
        } else {
            u64::MAX as int
        }),
        None => c.cgroup is None,
    }
}

/// Whether the child is started, by its command, in a namespace that none of
/// the live sandboxes is in.
pub open spec fn in_unused_namespace(c: ChildPlan, live: Seq<Option<String>>) -> bool {
    c.netns matches Some(ns) && {
        &&& views(c.argv@).take(4) == seq!["ip"@, "netns"@, "exec"@, ns@]
        &&& forall|k: int|
            0 <= k < live.len() && (#[trigger] live[k]) is Some ==> live[k]->0@ != ns@
    }
}

/// Whether the child's command starts Firecracker where it is, in no namespace
/// of its own.
pub open spec fn in_no_namespace(c: ChildPlan) -> bool {
    c.netns is None && views(c.argv@)[0] == "firecracker"@
}

/// Whether the child's process listens on the child's socket.
pub open spec fn listens(c: ChildPlan) -> bool {
    let a = views(c.argv@);
    a.len() >= 2 && a.last() == c.sock@ && a[a.len() - 2] == "--api-sock"@
}

/// The metadata that is on disk for a tag.
pub open spec fn stored(disk: Table<DirFacts>, tag: Seq<char>) -> Option<Snapshot> {
    if disk@.contains_key(tag) {
        disk@[tag].meta
    } else {
        None
    }
}

proof fn lemma_child(
    c: ChildPlan,
    opts: ForkOpts,
    work_dir: Seq<char>,
    i: nat,
    live: Seq<Option<String>>,
)
    requires
        is_child(c, opts, work_dir, i),
        1 <= i <= opts.n,
        opts.netns_offset + opts.n <= usize::MAX,
        opts.per_child_netns ==> free(live, opts.netns_offset as nat, opts.n as nat),
    ensures
        held_to(c, opts.memory_limit_mib),
        listens(c),
        opts.per_child_netns ==> in_unused_namespace(c, live),
        !opts.per_child_netns ==> in_no_namespace(c),
        opts.prewarm_scratch_dir is Some <==> c.prewarm is Some,
{
    let k = (opts.netns_offset + i) as nat;
    if opts.per_child_netns {
        let ns = netns_name(k);
        assert(c.netns is Some && c.netns->0@ == ns);
        assert(views(c.argv@).take(4) =~= seq!["ip"@, "netns"@, "exec"@, ns]);
        assert forall|j: int| 0 <= j < live.len() && (#[trigger] live[j]) is Some implies live[j]->0@
            != ns by {
            law_picked_namespaces_are_unused(
                live,
                opts.netns_offset as nat,
                opts.n as nat,
                k,
                j,
            );
        }
    }
}

/// Every sandbox of a fork runs, from the snapshot that was asked for: from
/// its memory file, from the memory assembled for a chain, or from the memfd it
/// shares where the fork is live. It keeps track of what it writes, so that it
/// can be branched by diff; its memory is limited as asked; and where
/// namespaces were asked for it has one that is not in use.
pub proof fn law_forked_sandbox_is_as_asked(
    p: CreatePlan,
    s: AppState,
    req: CreateSandboxRequest,
    disk: Table<DirFacts>,
    live: Seq<Option<String>>,
    temp_dir: Seq<char>,
    src: Snapshot,
    c: ChildPlan,
    i: nat,
    memfd: Seq<char>,
)
    requires
        is_create_plan(p, s, req, disk, live, temp_dir),
        is_source_of(src, p),
        1 <= i <= req.n,
        is_child(c, p.opts, p.work_dir@, i),
        c.load@ == load_of(src, p.opts, memfd),
    ensures
        ({
            let chained = known(s.registry, disk).parent(req.snapshot_tag@) is Some;
            &&& Machine::fresh().after(seq![c.load@]) matches Some(m)
            &&& m.phase == Phase::Running
            &&& m.track_dirty
            &&& m.restored matches Some((vmstate, memory, shared))
            &&& shared == req.live_fork
            &&& req.live_fork ==> memory == memfd
            &&& !req.live_fork && chained ==> p.assembled is Some && memory == p.assembled->0@
            &&& match stored(disk, req.snapshot_tag@) {
                Some(meta) => vmstate == meta.vmstate@ && (!req.live_fork && !chained ==> memory
                    == meta.memory@),
                None => {
                    let dir = known(s.registry, disk).dir_of(s.snapshot_root@, req.snapshot_tag@);
                    vmstate == joined_path(dir, "vmstate"@) && (!req.live_fork ==> memory
                        == joined_path(dir, "memory.bin"@))
                },
            }
        }),
        held_to(c, req.memory_limit_mib),
        listens(c),
        req.per_child_netns ==> in_unused_namespace(c, live),
        !req.per_child_netns ==> in_no_namespace(c),
        req.prewarm <==> c.prewarm is Some,
{
    lemma_child(c, p.opts, p.work_dir@, i, live);
    law_restored_child_runs(src, p.opts, memfd);
}

/// No two sandboxes of one fork share a socket, a namespace or a memory limit.
pub proof fn law_forked_sandboxes_are_apart(
    opts: ForkOpts,
    work_dir: Seq<char>,
    c: ChildPlan,
    d: ChildPlan,
    i: nat,
    j: nat,
)
    requires
        is_child(c, opts, work_dir, i),
        is_child(d, opts, work_dir, j),
        i != j,
    ensures
        c.sock@ != d.sock@,
        opts.per_child_netns ==> c.netns is Some && d.netns is Some && c.netns->0@ != d.netns->0@,
        opts.memory_limit_mib is Some ==> c.cgroup is Some && d.cgroup is Some
            && c.cgroup->0.name@ != d.cgroup->0.name@,
{
    law_child_sockets_are_distinct(work_dir, i, j);
    law_child_indices_do_not_collide(
        (opts.netns_offset + i) as nat,
        (opts.netns_offset + j) as nat,
    );
}

/// A child of a local fork runs from the snapshot's own files, limited and
/// placed as asked.
pub proof fn law_local_fork_runs_the_snapshot(
    p: ForkPlan,
    n: usize,
    per_child_netns: bool,
    memory_limit_mib: Option<u64>,
    f: ForkFacts,
    dir: Seq<char>,
    work_dir: Seq<char>,
    c: ChildPlan,
    i: nat,
    memfd: Seq<char>,
)
    requires
        is_fork_plan(p, n, per_child_netns, memory_limit_mib, f, dir, work_dir),
        1 <= i <= n,
        is_child(c, p.opts, p.work_dir@, i),
        c.load@ == load_of(p.snapshot, p.opts, memfd),
    ensures
        ({
            &&& Machine::fresh().after(seq![c.load@]) matches Some(m)
            &&& m.phase == Phase::Running
            &&& m.restored == Some(
                match f.stored {
                    StoredMeta::Read(meta) => (meta.vmstate@, meta.memory@, false),
                    _ => (joined_path(dir, "vmstate"@), joined_path(dir, "memory.bin"@), false),
                },
            )
        }),
        held_to(c, memory_limit_mib),
        listens(c),
        per_child_netns ==> in_unused_namespace(c, Seq::empty()),
        !per_child_netns ==> in_no_namespace(c),
        c.prewarm is None,
{
    lemma_child(c, p.opts, p.work_dir@, i, Seq::empty());
    law_restored_child_runs(p.snapshot, p.opts, memfd);
}

// ---------------------------------------------------------------------
// From a snapshot to its children
// ---------------------------------------------------------------------

/// What a built snapshot saves is what a sandbox forked from its tag is
/// restored from.
pub proof fn law_fork_restores_what_was_built(
    b: BuildPlan,
    before: AppState,
    breq: CreateSnapshotRequest,
    build_dir: Seq<char>,
    p: CreatePlan,
    s: AppState,
    req: CreateSandboxRequest,
    disk: Table<DirFacts>,
    live: Seq<Option<String>>,
    temp_dir: Seq<char>,
    src: Snapshot,
    memfd: Seq<char>,
)
    requires
        is_build_plan(b, before, breq, build_dir),
        req.snapshot_tag@ == breq.tag@,
        !req.live_fork,
        disk@.contains_key(breq.tag@),
        disk@[breq.tag@].meta == Some(b.metadata),
        is_create_plan(p, s, req, disk, live, temp_dir),
        is_source_of(src, p),
    ensures
        ({
            let save = snapshot_create(b.metadata.vmstate@, b.metadata.memory@, SnapshotKind::Full);
            &&& Machine::fresh().after(seq![load_of(src, p.opts, memfd)]) matches Some(m)
            &&& m.phase == Phase::Running
            &&& m.restored matches Some((vmstate, memory, shared))
            &&& asked(save) == Some(Ask::Save { vmstate, memory, kind: SnapshotKind::Full })
            &&& vmstate == joined_path(b.snap_dir@, "vmstate"@)
            &&& memory == joined_path(b.snap_dir@, "memory.bin"@)
            &&& !shared
        }),
{
    law_restored_child_runs(src, p.opts, memfd);
    law_snapshot_is_saved_as_asked(
        b.metadata.vmstate@,
        b.metadata.memory@,
        SnapshotKind::Full,
    );
}

/// A sandbox forked from a branch that stands on its own is restored from the
/// files in the branch's directory, and has the volumes of the sandbox that
/// was branched.
pub proof fn law_fork_restores_what_was_branched(
    b: BranchPlan,
    before: AppState,
    id: Seq<char>,
    breq: BranchSandboxRequest,
    now: nat,
    facts: BranchFacts,
    meta: Snapshot,
    p: CreatePlan,
    s: AppState,
    req: CreateSandboxRequest,
    disk: Table<DirFacts>,
    live: Seq<Option<String>>,
    temp_dir: Seq<char>,
    src: Snapshot,
    memfd: Seq<char>,
)
    requires
        is_plan(b, before, id, breq, now, facts),
        breq.parent_tag is None,
        is_branch_metadata(meta, b, None),
        req.snapshot_tag@ == b.tag@,
        !req.live_fork,
        disk@.contains_key(b.tag@),
        disk@[b.tag@].meta == Some(meta),
        is_create_plan(p, s, req, disk, live, temp_dir),
        is_source_of(src, p),
    ensures
        ({
            &&& Machine::fresh().after(seq![load_of(src, p.opts, memfd)]) matches Some(m)
            &&& m.phase == Phase::Running
            &&& m.restored == Some(
                (joined_path(b.snap_dir@, "vmstate"@), joined_path(b.snap_dir@, "memory.bin"@), false),
            )
        }),
        facts.volumes matches Ok(v) && src.volumes@ == v@,
{
    law_restored_child_runs(src, p.opts, memfd);
}

/// A sandbox forked from a compacted snapshot is restored from the files in
/// the target's directory, with the volumes of the head, and needs no chain.
pub proof fn law_fork_restores_what_was_compacted(
    b: CompactPlan,
    meta: Snapshot,
    p: CreatePlan,
    s: AppState,
    req: CreateSandboxRequest,
    disk: Table<DirFacts>,
    live: Seq<Option<String>>,
    temp_dir: Seq<char>,
    src: Snapshot,
    memfd: Seq<char>,
)
    requires
        is_compact_metadata(meta, b),
        req.snapshot_tag@ == b.to@,
        !req.live_fork,
        disk@.contains_key(b.to@),
        disk@[b.to@].meta == Some(meta),
        is_create_plan(p, s, req, disk, live, temp_dir),
        is_source_of(src, p),
    ensures
        ({
            &&& Machine::fresh().after(seq![load_of(src, p.opts, memfd)]) matches Some(m)
            &&& m.phase == Phase::Running
            &&& m.restored == Some(
                (joined_path(b.dest_dir@, "vmstate"@), joined_path(b.dest_dir@, "memory.bin"@), false),
            )
        }),
        src.volumes@ == b.head.volumes@,
        p.chain is None,
{
    law_restored_child_runs(src, p.opts, memfd);
}

/// A workspace that is resumed runs from the files that its suspend wrote, and
/// can be suspended by diff again; its memory is limited as asked, and where it
/// has a namespace it is one that is not in use.
pub proof fn law_resumed_workspace_runs_its_suspended_state(
    w: SuspendPlan,
    before: AppState,
    name: Seq<char>,
    diff: bool,
    facts: SuspendFacts,
    meta: Option<Snapshot>,
    p: CreatePlan,
    s: AppState,
    per_child_netns: bool,
    memory_limit_mib: Option<u64>,
    live: Seq<Option<String>>,
    temp_dir: Seq<char>,
    src: Snapshot,
    c: ChildPlan,
    memfd: Seq<char>,
)
    requires
        is_suspend_plan(w, before, name, diff, facts),
        is_spawn_plan(
            p,
            s,
            w.state_tag@,
            per_child_netns,
            memory_limit_mib,
            meta,
            live,
            temp_dir,
        ),
        match meta {
            Some(m) => is_fallback(m, w.snap_dir@),
            None => spawn_dir_of(s, w.state_tag@) == w.snap_dir@,
        },
        is_source_of(src, p),
        is_child(c, p.opts, p.work_dir@, 1),
        c.load@ == load_of(src, p.opts, memfd),
    ensures
        Machine::fresh().after(seq![c.load@]) == Some(
            Machine {
                phase: Phase::Running,
                track_dirty: true,
                restored: Some(
                    (
                        joined_path(w.snap_dir@, "vmstate"@),
                        joined_path(w.snap_dir@, "memory.bin"@),
                        false,
                    ),
                ),
                ..Machine::fresh()
            },
        ),
        held_to(c, memory_limit_mib),
        listens(c),
        per_child_netns ==> in_unused_namespace(c, live),
        !per_child_netns ==> in_no_namespace(c),
{
    lemma_child(c, p.opts, p.work_dir@, 1, live);
    law_restored_child_runs(src, p.opts, memfd);
}

// ---------------------------------------------------------------------
// Chains
// ---------------------------------------------------------------------

/// A file: what it holds, with zeros for its holes, and where it holds data.
pub ghost struct Sparse {
    pub bytes: Seq<u8>,
    pub data: Seq<Extent>,
}

/// What the first `n` diffs of an assembly make of its base.
pub open spec fn put_together(files: Map<Seq<char>, Sparse>, a: Assembly, n: int) -> Seq<u8>
    decreases n,
{
    if n <= 0 {
        files[a.base@].bytes
    } else {
        let diff = files[a.diffs@[n - 1]@];
        merged(put_together(files, a, n - 1), diff.bytes, diff.data)
    }
}

/// Where the memory of a tag is.
pub open spec fn memory_file(kn: Known, root: Seq<char>, tag: Seq<char>) -> Seq<char> {
    if kn.disk.contains_key(tag) && kn.disk[tag].meta is Some {
        kn.disk[tag].meta->0.memory@
    } else {
        joined_path(kn.dir_of(root, tag), "memory.bin"@)
    }
}

/// The hash of its parent's memory that a tag recorded.
pub open spec fn recorded_hash(kn: Known, tag: Seq<char>) -> Option<Seq<char>> {
    if kn.disk.contains_key(tag) && kn.disk[tag].meta is Some {
        opt_view(kn.disk[tag].meta->0.parent_content_hash)
    } else {
        None
    }
}

/// Whether the file of `tag` holds what a snapshot of `mem[tag]` left: all of
/// it for a base, and for a diff at least what differs from its parent.
pub open spec fn filed(
    files: Map<Seq<char>, Sparse>,
    mem: Map<Seq<char>, Seq<u8>>,
    kn: Known,
    root: Seq<char>,
    tag: Seq<char>,
) -> bool {
    let f = files[memory_file(kn, root, tag)];
    match kn.parent(tag) {
        None => f.bytes == mem[tag],
        Some(parent) => {
            &&& logged(mem[parent], mem[tag], f.data)
            &&& forall|k: int|
                0 <= k < mem[tag].len() && #[trigger] crate::merge::is_data(f.data, k)
                    ==> f.bytes[k] == mem[tag][k]
        },
    }
}

proof fn lemma_put_together(
    links: Seq<ChainLink>,
    a: Assembly,
    kn: Known,
    root: Seq<char>,
    tag: Seq<char>,
    files: Map<Seq<char>, Sparse>,
    mem: Map<Seq<char>, Seq<u8>>,
    n: int,
)
    requires
        is_chain(links, kn, root, tag),
        assembles(a, links),
        forall|t: Seq<char>| kn.resolves(t) ==> #[trigger] filed(files, mem, kn, root, t),
        0 <= n < links.len(),
    ensures
        put_together(files, a, n) == mem[links[n].tag@],
    decreases n,
{
    let up = link_tags(links).reverse();
    let at = links.len() - 1 - n;
    assert(up[at] == links[n].tag@);
    assert(kn.resolves(up[at])) by {
        if n > 0 {
            assert(kn.parent(up[at]) == Some(up[at + 1]));
        }
    }
    let t = links[n].tag@;
    assert(filed(files, mem, kn, root, t));
    assert(is_snapshot_of(links[n].snapshot, kn, root, t));
    assert(links[n].snapshot.memory@ == memory_file(kn, root, t));
    if n > 0 {
        lemma_put_together(links, a, kn, root, tag, files, mem, n - 1);
        let q = links[n - 1].tag@;
        assert(up[at + 1] == q);
        assert(kn.parent(up[at]) == Some(up[at + 1]));
        let f = files[memory_file(kn, root, t)];
        assert(a.diffs@[n - 1]@ == memory_file(kn, root, t));
        law_merge_gives_later_memory(mem[q], f.bytes, f.data, mem[t]);
    }
}

/// The memory that is assembled for a chain is the memory that the guest had
/// when its head was taken. Before that, the memory file of every parent is
/// held against the hash that its child recorded.
pub proof fn law_chain_assembles_to_its_head(
    a: Assembly,
    kn: Known,
    root: Seq<char>,
    tag: Seq<char>,
    files: Map<Seq<char>, Sparse>,
    mem: Map<Seq<char>, Seq<u8>>,
)
    requires
        is_assembly_of(a, kn, root, tag),
        forall|t: Seq<char>| kn.resolves(t) ==> #[trigger] filed(files, mem, kn, root, t),
    ensures
        put_together(files, a, a.diffs@.len() as int) == mem[tag],
        kn.parent(tag) matches Some(q) ==> exists|k: int|
            0 <= k < a.checks@.len() && (#[trigger] a.checks@[k]).0@ == memory_file(kn, root, q)
                && opt_view(a.checks@[k].1) == recorded_hash(kn, tag),
{
    let links = choose|links: Seq<ChainLink>| #[trigger]
        is_chain(links, kn, root, tag) && assembles(a, links);
    let n = links.len() - 1;
    lemma_put_together(links, a, kn, root, tag, files, mem, n);
    let up = link_tags(links).reverse();
    assert(up[0] == links[n].tag@);
    if n > 0 {
        assert(up[1] == links[n - 1].tag@);
        assert(kn.parent(up[0]) == Some(up[1]));
        assert(is_snapshot_of(links[n].snapshot, kn, root, tag));
        assert(is_snapshot_of(links[n - 1].snapshot, kn, root, links[n - 1].tag@));
        assert(a.checks@[n - 1].0@ == links[n - 1].snapshot.memory@);
    }
}

/// A compacted snapshot stands for what the head of its chain did: its memory
/// file holds the head's memory in full, and it has the head's volumes.
pub proof fn law_compaction_keeps_the_head(
    p: CompactPlan,
    meta: Snapshot,
    kn: Known,
    root: Seq<char>,
    tag: Seq<char>,
    to: Seq<char>,
    files: Map<Seq<char>, Sparse>,
    mem: Map<Seq<char>, Seq<u8>>,
)
    requires
        is_compact_plan(p, kn, root, tag, to),
        is_compact_metadata(meta, p),
        forall|t: Seq<char>| kn.resolves(t) ==> #[trigger] filed(files, mem, kn, root, t),
    ensures
        put_together(files, p.chain, p.chain.diffs@.len() as int) == mem[tag],
        meta.memory@ == joined_path(joined_path(root, to), "memory.bin"@),
        meta.parent_tag is None,
        kn.disk.contains_key(tag) ==> (kn.disk[tag].meta matches Some(m) ==> meta.volumes@
            == m.volumes@),
{
    law_chain_assembles_to_its_head(p.chain, kn, root, tag, files, mem);
}

// ---------------------------------------------------------------------
// From a request to the guest that is snapshotted
// ---------------------------------------------------------------------

/// Whether a machine has the one interface behind `tap`, or none.
pub open spec fn connected(m: Machine, tap: Option<Seq<char>>) -> bool {
    match tap {
        Some(t) => m.nics.len() == 1 && m.nics[0].tap == t,
        None => m.nics.len() == 0,
    }
}

/// Whether a command line has the root mounted for writing exactly where it
/// may be, and ends by giving the guest the address that its agent is looked
/// for at exactly where it is connected.
pub open spec fn roots_and_reaches(args: Seq<char>, writable: bool, connected: bool) -> bool {
    let root = if writable {
        "console=ttyS0 reboot=k panic=1 pci=off root=/dev/vda rw init=/forkd-init.sh"@
    } else {
        "console=ttyS0 reboot=k panic=1 pci=off root=/dev/vda ro"@
    };
    let ip = "10.42.0.2"@;
    &&& guest_addr() == ip + ":8888"@
    &&& args == root + (if connected {
        " ip="@ + ip + "::10.42.0.1:255.255.255.0::eth0:off"@
    } else {
        Seq::empty()
    })
}

/// What is built runs the kernel and the root filesystem of the request. The
/// guest may write to its root exactly where that was asked for or the image is
/// an ext4 one, and it has the tap that was named.
pub proof fn law_build_boots_what_was_asked(
    b: BuildPlan,
    s: AppState,
    req: CreateSnapshotRequest,
    temp_dir: Seq<char>,
)
    requires
        is_build_plan(b, s, req, temp_dir),
    ensures
        ({
            &&& Machine::fresh().after(boot_calls_of(b.boot)) matches Some(m)
            &&& m.phase == Phase::Running
            &&& m.kernel matches Some((image, args)) && image == req.kernel@
                && roots_and_reaches(args, req.rw || is_ext4(req.rootfs@), req.tap is Some)
            &&& m.size == Some((512nat, 2nat))
            &&& m.drives == seq![
                Drive {
                    path: req.rootfs@,
                    read_only: !req.rw && !is_ext4(req.rootfs@),
                    root: true,
                },
            ]
            &&& connected(m, opt_view(req.tap))
        }),
        b.boot_wait_secs == req.boot_wait_secs,
{
    law_boot_gives_the_configured_machine(b.boot);
    reveal_strlit("10.42.0.2");
    reveal_strlit("10.42.0.1");
    reveal_strlit("255.255.255.0");
    reveal_strlit("eth0");
    reveal_strlit("::");
    reveal_strlit(":");
    reveal_strlit(":off");
    reveal_strlit("ip=");
    reveal_strlit(" ip=");
    reveal_strlit(" ");
    reveal_strlit("::10.42.0.1:255.255.255.0::eth0:off");
    reveal_strlit(":8888");
    reveal_strlit("10.42.0.2:8888");
    assert(guest_addr() =~= "10.42.0.2"@ + ":8888"@);
    let args = b.boot.boot_args@;
    let net = "ip="@ + "10.42.0.2"@ + "::"@ + "10.42.0.1"@ + ":"@ + "255.255.255.0"@ + "::"@
        + "eth0"@ + ":off"@;
    let tail = " ip="@ + "10.42.0.2"@ + "::10.42.0.1:255.255.255.0::eth0:off"@;
    assert(" "@ + net =~= tail);
    assert(args + " "@ + net =~= args + (" "@ + net));
    assert(args + Seq::<char>::empty() =~= args);
}

/// What the command line snapshots runs the kernel and the root filesystem that
/// it names, with the memory that it names, and with its volumes in order.
pub proof fn law_local_snapshot_boots_what_was_asked(
    p: SnapshotPlan,
    a: SnapshotArgs,
    f: SnapshotFacts,
    data_dir: Seq<char>,
    work_dir: Seq<char>,
)
    requires
        is_snapshot_plan(p, a, f, data_dir, work_dir),
    ensures
        ({
            &&& Machine::fresh().after(boot_calls_of(p.boot)) matches Some(m)
            &&& m.phase == Phase::Running
            &&& m.kernel matches Some((image, _)) && image == a.kernel->0@
            &&& m.drives.len() == a.volumes@.len() + 1
            &&& m.drives[0].path == a.rootfs->0@ && m.drives[0].root
            &&& m.drives[0].read_only == (!a.rw && path_extension(a.rootfs->0@) != Some("ext4"@))
            &&& m.size matches Some((mem_mib, _)) && (a.mem_size_mib matches Some(mib) ==> mem_mib
                == mib)
            &&& connected(m, opt_view(a.tap))
        }),
{
    law_boot_gives_the_configured_machine(p.boot);
}

/// A volume that the command line declares as host path, guest path and flag is
/// a drive of the guest, from that host path, that cannot be written to exactly
/// where the flag is `ro`.
pub proof fn law_local_volume_is_attached_as_declared(
    p: SnapshotPlan,
    a: SnapshotArgs,
    f: SnapshotFacts,
    data_dir: Seq<char>,
    work_dir: Seq<char>,
    i: int,
    host: Seq<char>,
    guest: Seq<char>,
    flag: Option<bool>,
)
    requires
        is_snapshot_plan(p, a, f, data_dir, work_dir),
        0 <= i < a.volumes@.len(),
        host.len() > 0,
        guest.len() > 0,
        !host.contains(':'),
        !guest.contains(':'),
        a.volumes@[i]@ == host + ":"@ + guest + (match flag {
            Some(ro) => if ro {
                ":ro"@
            } else {
                ":rw"@
            },
            None => Seq::empty(),
        }),
    ensures
        ({
            &&& Machine::fresh().after(boot_calls_of(p.boot)) matches Some(m)
            &&& m.drives[i + 1] == Drive {
                path: host,
                read_only: flag == Some(true),
                root: false,
            }
        }),
{
    let v = p.metadata.volumes@[i];
    assert(reads_as(a.volumes@[i]@, v));
    lemma_declared(v, host, guest, flag);
    lemma_attached(p.boot, i);
}

proof fn lemma_declared(v: VolumeSpec, host: Seq<char>, guest: Seq<char>, flag: Option<bool>)
    requires
        host.len() > 0,
        guest.len() > 0,
        !host.contains(':'),
        !guest.contains(':'),
        reads_as(
            host + ":"@ + guest + (match flag {
                Some(ro) => if ro {
                    ":ro"@
                } else {
                    ":rw"@
                },
                None => Seq::empty(),
            }),
            v,
        ),
    ensures
        v.host_path@ == host,
        v.guest_path@ == guest,
        v.read_only == (flag == Some(true)),
{
    law_volume_reads_back(host, guest, flag == Some(true));
    reveal_strlit("ro");
    reveal_strlit("rw");
    assert("ro"@[1] == 'o' && "rw"@[1] == 'w');
    let plain = host + ":"@ + guest;
    assert(plain + Seq::<char>::empty() =~= plain);
}

proof fn lemma_attached(cfg: BootConfig, i: int)
    requires
        0 <= i < cfg.volumes@.len(),
    ensures
        Machine::fresh().after(boot_calls_of(cfg)) matches Some(m) && m.drives[i + 1] == (Drive {
            path: cfg.volumes@[i].host_path@,
            read_only: cfg.volumes@[i].read_only,
            root: false,
        }),
{
    law_boot_gives_the_configured_machine(cfg);
}

// ---------------------------------------------------------------------
// What the daemon records
// ---------------------------------------------------------------------

/// A snapshot whose memory is still being copied cannot be forked from. When
/// the copy is done it can be, and when the copy came to nothing it never can.
pub proof fn law_snapshot_is_forked_only_once_it_is_whole(
    before: AppState,
    after: AppState,
    tag: Seq<char>,
    how: BulkCopy,
    req: CreateSandboxRequest,
    disk: Table<DirFacts>,
)
    requires
        before.live_in_flight@.contains_key(tag),
        reaped(before, after, tag, how),
        req.snapshot_tag@ == tag,
        safe_tag(tag),
        1 <= req.n <= MAX_SANDBOXES,
    ensures
        create_refusal(before, req, disk) == Some(CreateRefusal::StillWritten),
        how is Done ==> (create_refusal(after, req, disk) is None || known(
            after.registry,
            disk,
        ).parent(tag) is Some && req.live_fork),
        !(how is Done) ==> create_refusal(after, req, disk) == Some(CreateRefusal::NotWritten),
{
}

/// The first diff of a sandbox goes on top of the memory that it was restored
/// from, and its agent is reached in the namespace that it was started in.
pub proof fn law_new_sandbox_starts_from_its_snapshot(
    i: SandboxInfo,
    tag: Seq<char>,
    memory_limit_mib: Option<u64>,
    child: RunningChild,
    now: u64,
    seq: nat,
    root: Seq<char>,
    last_branch_exists: bool,
)
    requires
        is_new_sandbox(i, tag, memory_limit_mib, child, now, seq),
    ensures
        diff_base(i, root, last_branch_exists) == joined_path(
            joined_path(root, tag),
            "memory.bin"@,
        ),
        i.memory_limit_mib == memory_limit_mib,
        match child.netns {
            Some(ns) => netns_path_of(opt_view(i.netns)) == Some("/var/run/netns/"@ + ns@),
            None => netns_path_of(opt_view(i.netns)) is None,
        },
{
}

/// Deleting a workspace takes its sandbox and the snapshot of its own state
/// with it, and nothing else: the directory that goes is the one that its
/// suspends write, and the snapshot that it was made from stays.
pub proof fn law_deleted_workspace_takes_only_its_own(
    before: AppState,
    after: AppState,
    name: Seq<char>,
    left: WorkspaceRemains,
    w: SuspendPlan,
    diff: bool,
    facts: SuspendFacts,
    tag: Seq<char>,
    id: Seq<char>,
)
    requires
        is_forgotten(before, after, name, left),
        is_suspend_plan(w, before, name, diff, facts),
        ({
            let own = opt_view(before.registry.workspaces()[name].current_state_tag);
            own is None || own == Some(w.state_tag@)
        }),
    ensures
        before.registry.workspaces()[name].current_state_tag is Some ==> opt_view(left.state_dir)
            == Some(w.snap_dir@),
        before.registry.workspaces()[name].current_state_tag is None ==> left.state_dir is None,
        tag != w.state_tag@ ==> (after.registry.snapshots().contains_key(tag)
            <==> before.registry.snapshots().contains_key(tag))
            && after.registry.snapshots()[tag] == before.registry.snapshots()[tag],
        left.sandbox matches Some(own) && own@ == w.sandbox@,
        !after.registry.sandboxes().contains_key(w.sandbox@),
        id != w.sandbox@ ==> (after.registry.sandboxes().contains_key(id)
            <==> before.registry.sandboxes().contains_key(id))
            && after.registry.sandboxes()[id] == before.registry.sandboxes()[id],
        !after.registry.workspaces().contains_key(name),
{
}

/// What a suspend leaves in the registry is a snapshot that a resume finds
/// ready, in the directory that the suspend wrote.
pub proof fn law_suspended_state_is_ready(
    s: AppState,
    w: SuspendPlan,
    info: SnapshotInfo,
    pause_ms: Option<u64>,
    now: u64,
)
    requires
        is_state_info(info, w, pause_ms, now),
        s.registry.snapshots().contains_key(w.state_tag@),
        s.registry.snapshots()[w.state_tag@] == info,
        !s.live_in_flight@.contains_key(w.state_tag@),
    ensures
        s.status_of(w.state_tag@) == SnapshotStatus::Ready,
        spawn_dir_of(s, w.state_tag@) == w.snap_dir@,
{
}

/// A sandbox's agent is reached at the address that its guest was given when it
/// was booted, in the very namespace that its process was started in.
pub proof fn law_agent_is_reached_where_it_runs(
    c: ChildPlan,
    opts: ForkOpts,
    work_dir: Seq<char>,
    k: nat,
    child: RunningChild,
    i: SandboxInfo,
    tag: Seq<char>,
    memory_limit_mib: Option<u64>,
    now: u64,
    seq: nat,
    a: AgentRequest,
)
    requires
        is_child(c, opts, work_dir, k),
        opt_view(child.netns) == opt_view(c.netns),
        is_new_sandbox(i, tag, memory_limit_mib, child, now, seq),
        reaches(a, i),
    ensures
        a.addr@ == "10.42.0.2:8888"@,
        opts.per_child_netns ==> opt_view(a.netns_path) == Some(
            "/var/run/netns/"@ + views(c.argv@)[3],
        ),
        !opts.per_child_netns ==> a.netns_path is None,
{
}

/// A one-shot run boots the root filesystem that was built from its image, with
/// the kernel and the tap that were named, and forks one guest from it.
pub proof fn law_run_boots_its_image(
    r: RunPlan,
    image: Seq<char>,
    cache: Seq<char>,
    kernel: Seq<char>,
    tap: Seq<char>,
    temp_dir: Seq<char>,
    p: SnapshotPlan,
    f: SnapshotFacts,
    data_dir: Seq<char>,
    work_dir: Seq<char>,
    memfd: Seq<char>,
)
    requires
        is_run_plan(r, image, cache, kernel, tap, temp_dir),
        is_snapshot_plan(p, r.snapshot, f, data_dir, work_dir),
    ensures
        p.tag@ == r.tag@,
        ({
            &&& Machine::fresh().after(boot_calls_of(p.boot)) matches Some(m)
            &&& m.phase == Phase::Running
            &&& m.kernel matches Some((k, _)) && k == kernel
            &&& m.drives.len() == 1
            &&& m.drives[0].path == r.rootfs@ && !m.drives[0].read_only
            &&& connected(m, Some(tap))
        }),
        r.opts.n == 1,
        Machine::fresh().after(seq![load_of(p.metadata, r.opts, memfd)]) matches Some(m)
            && m.phase == Phase::Running && m.restored == Some(
            (p.metadata.vmstate@, p.metadata.memory@, false),
        ),
{
    law_boot_gives_the_configured_machine(p.boot);
    law_restored_child_runs(p.metadata, r.opts, memfd);
}

} // verus!
