use forkd::api::{
    default_boot_wait, default_exec_timeout, default_one, default_snapshot_status, default_wait,
    healthz, version, ApiError, BranchMode, BranchSandboxRequest, CompactSnapshotRequest,
    CreateSandboxRequest, CreateSnapshotRequest, CreateWorkspaceRequest, DeleteSnapshotQuery,
    EvalRequest, ExecRequest, SandboxInfo, SnapshotInfo, SnapshotStatus, SuspendWorkspaceRequest,
    WorkspaceStatus,
};
use forkd::boot::VolumeSpec;
use forkd::branch::{
    branch_metadata, branch_steps, branch_tag, live_fault_base, live_handshake_socket,
    live_region_size, read_snapshot_volumes, reservation, step_is_fatal, step_resumes_on_failure, BranchFacts,
    BranchOutcome, BranchStep, DiffMetrics, LiveSetupError, Reservation, StoredMeta,
};
use forkd::chain::{
    assembly, collect_subtree, compute_ancestors, enumerate_all_snapshot_tags, find_dependents,
    load_snapshot_with_fallback, lookup_snapshot_for_chain, resolve_chain, resolve_snap_dir,
    verify_parent_hashes, DirFacts, LineageError,
};
use forkd::daemon::{new_sandbox_id, AppState, BulkCopy};
use forkd::fork::{ExecResponse, MemoryBackend, Snapshot};
use forkd::netns::{netns_index, pick_netns_offset};
use forkd::sandboxes::{
    agent_failed, create_failed, eval_response, exec_response, read_eval_answer, retry_after,
    RunningChild,
};
use forkd::slots::{BranchSlotError, DEFAULT_BRANCH_CONCURRENCY};
use forkd::snapshots::{
    after_delete, check_delete, compact_failed, compact_metadata, BuildFacts, BuildOutcome, CompactFailure,
    DeleteStep, DirRemoval, FileSizes,
};
use forkd::state::Registry;
use forkd::table::Table;
use forkd::uffd::GuestRegionUffdMapping;
use forkd::workspaces::{
    spawn_failed, state_tag, suspend_metadata, suspend_steps, SuspendFacts, SuspendOutcome,
};

fn state_with_cap(cap: usize) -> AppState {
    AppState::new(Registry::load_or_init(None), "/snaps", cap, "/prewarm")
}

fn test_state() -> AppState {
    state_with_cap(DEFAULT_BRANCH_CONCURRENCY)
}

fn nothing_on_disk() -> Table<DirFacts> {
    Table::new()
}

fn write_base_snapshot(disk: &mut Table<DirFacts>, tag: &str) {
    let snap = Snapshot {
        vmstate: format!("/snaps/{tag}/vmstate"),
        memory: format!("/snaps/{tag}/memory.bin"),
        volumes: Vec::new(),
        parent_tag: None,
        parent_content_hash: None,
    };
    disk.insert(tag.into(), DirFacts { on_disk: true, meta: Some(snap) });
}

fn chained(tag: &str, parent: &str, hash: &str) -> Snapshot {
    Snapshot {
        vmstate: format!("/snaps/{tag}/vmstate"),
        memory: format!("/snaps/{tag}/diff.bin"),
        volumes: Vec::new(),
        parent_tag: Some(parent.into()),
        parent_content_hash: Some(hash.into()),
    }
}

fn write_chained_snapshot(disk: &mut Table<DirFacts>, tag: &str, parent: &str, hash: &str) {
    disk.insert(
        tag.into(),
        DirFacts { on_disk: true, meta: Some(chained(tag, parent, hash)) },
    );
}

fn register_fake_sandbox(state: &mut AppState, tag: &str) -> String {
    let id = "sb-test-1".to_string();
    state.registry.insert_sandbox(SandboxInfo {
        id: id.clone(),
        snapshot_tag: tag.into(),
        netns: None,
        guest_addr: "10.42.0.2:8888".into(),
        created_at_unix: 7,
        pid: None,
        memory_limit_mib: None,
        has_branched: false,
        last_branch_memory_path: None,
        branch_count: 0,
    });
    id
}

fn branch_request() -> BranchSandboxRequest {
    BranchSandboxRequest {
        tag: None,
        measure_diff: false,
        diff: false,
        live: false,
        mode: None,
        wait: true,
        parent_tag: None,
    }
}

fn branch_facts() -> BranchFacts {
    BranchFacts {
        vmstate_exists: false,
        volumes: Ok(Vec::new()),
        vm_present: true,
        memfd_backed: true,
        last_branch_exists: false,
    }
}

fn branch_status(req: &BranchSandboxRequest) -> u16 {
    let mut s = test_state();
    s.begin_branch("nope", req, 1_700_000_000, &branch_facts()).unwrap_err().status
}

fn snapshot_request(tag: &str) -> CreateSnapshotRequest {
    CreateSnapshotRequest {
        tag: tag.into(),
        kernel: "/dev/null".into(),
        rootfs: "/dev/null".into(),
        rw: false,
        tap: None,
        boot_wait_secs: default_boot_wait(),
    }
}

fn present() -> BuildFacts {
    BuildFacts { kernel_exists: true, rootfs_exists: true, vmstate_exists: false }
}

fn sandbox_request(tag: &str, n: usize) -> CreateSandboxRequest {
    CreateSandboxRequest {
        snapshot_tag: tag.into(),
        n,
        per_child_netns: false,
        memory_limit_mib: None,
        prewarm: false,
        live_fork: false,
    }
}

fn text(e: &ApiError) -> &str {
    &e.body.error
}

#[test]
fn load_snapshot_with_fallback_missing_dir_returns_base() {
    let snap = load_snapshot_with_fallback("/tmp/load-fallback-missing", &None);
    assert!(snap.parent_tag.is_none());
    assert_eq!(snap.memory, "/tmp/load-fallback-missing/memory.bin");
}

#[test]
fn load_snapshot_with_fallback_parses_chained_json() {
    let meta = Some(chained("py-plus-pandas", "py-base", "h-pin"));
    let snap = load_snapshot_with_fallback("/snaps/py-plus-pandas", &meta);
    assert_eq!(snap.parent_tag.as_deref(), Some("py-base"));
    assert_eq!(snap.parent_content_hash.as_deref(), Some("h-pin"));
    assert!(snap.memory.ends_with("diff.bin"));
}

#[test]
fn resolve_snap_dir_falls_back_to_disk_when_not_registered() {
    let state = test_state();
    let mut disk = nothing_on_disk();
    write_base_snapshot(&mut disk, "py-base");
    let resolved =
        resolve_snap_dir(&state.registry, &state.snapshot_root, &disk, "py-base").unwrap();
    assert_eq!(resolved, "/snaps/py-base");
}

#[test]
fn resolve_snap_dir_errors_on_unknown_tag() {
    let state = test_state();
    let err = resolve_snap_dir(&state.registry, &state.snapshot_root, &nothing_on_disk(), "ghost")
        .unwrap_err();
    let msg = err.message();
    assert!(msg.contains("ghost"), "error must name the missing tag: {msg}");
}

#[test]
fn lookup_snapshot_for_chain_threads_through_to_load() {
    let state = test_state();
    let mut disk = nothing_on_disk();
    write_base_snapshot(&mut disk, "py-base");
    write_chained_snapshot(&mut disk, "py-plus-pandas", "py-base", "h-pin");
    let base =
        lookup_snapshot_for_chain(&state.registry, &state.snapshot_root, &disk, "py-base").unwrap();
    assert!(base.parent_tag.is_none());
    let chained =
        lookup_snapshot_for_chain(&state.registry, &state.snapshot_root, &disk, "py-plus-pandas")
            .unwrap();
    assert_eq!(chained.parent_tag.as_deref(), Some("py-base"));
}

#[test]
fn branch_parent_tag_mismatch_returns_400() {
    let mut state = test_state();
    let sandbox_id = register_fake_sandbox(&mut state, "py-base");
    let mut req = branch_request();
    req.tag = Some("py-plus-pandas".into());
    req.diff = true;
    req.parent_tag = Some("some-other-base".into());
    let e = state.begin_branch(&sandbox_id, &req, 1, &branch_facts()).unwrap_err();
    assert_eq!(e.status, 400);
    let s = text(&e);
    assert!(
        s.contains("some-other-base") && s.contains("py-base"),
        "error must name both expected and actual: {s}"
    );
}

#[test]
fn branch_parent_tag_with_full_mode_returns_400() {
    let mut state = test_state();
    let sandbox_id = register_fake_sandbox(&mut state, "py-base");
    let mut req = branch_request();
    req.tag = Some("py-plus-pandas".into());
    req.parent_tag = Some("py-base".into());
    let e = state.begin_branch(&sandbox_id, &req, 1, &branch_facts()).unwrap_err();
    assert_eq!(e.status, 400);
    let s = text(&e);
    assert!(
        s.contains("parent_tag") && s.contains("diff"),
        "error must mention parent_tag and diff: {s}"
    );
}

#[test]
fn spawn_chained_with_live_fork_returns_400() {
    let state = test_state();
    let mut disk = nothing_on_disk();
    write_base_snapshot(&mut disk, "py-base");
    write_chained_snapshot(&mut disk, "py-plus-pandas", "py-base", "h");
    let mut req = sandbox_request("py-plus-pandas", 1);
    req.live_fork = true;
    let e = state.begin_create(&req, &disk, &Vec::new(), "/tmp").unwrap_err();
    assert_eq!(e.status, 400);
    let s = text(&e);
    assert!(
        s.contains("live_fork") && s.contains("chained"),
        "error must mention the carve-out: {s}"
    );
}

fn no_sizes() -> FileSizes {
    FileSizes { memory_len: None, memory_blocks: None, vmstate_len: None }
}

#[test]
fn snapshot_info_reports_chain_depth_and_dependents() {
    let state = test_state();
    let mut disk = nothing_on_disk();
    write_base_snapshot(&mut disk, "py-base");
    write_chained_snapshot(&mut disk, "py-numpy", "py-base", "h1");
    write_chained_snapshot(&mut disk, "py-pandas", "py-numpy", "h2");

    let sizes = FileSizes { memory_len: Some(4096), memory_blocks: Some(3), vmstate_len: Some(12) };
    let detail = state.snapshot_info("py-base", &disk, sizes).unwrap();
    assert_eq!(detail.tag, "py-base");
    assert_eq!(detail.parent_tag, None);
    assert_eq!(detail.chain_depth, 0);
    assert_eq!(detail.ancestors, Vec::<String>::new());
    assert_eq!(detail.dependents, vec!["py-numpy".to_string()]);
    assert_eq!(detail.memory_logical_bytes, 4096);
    assert_eq!(detail.memory_physical_bytes, 1536);
    assert_eq!(detail.vmstate_bytes, 12);
    assert_eq!(detail.created_at_unix, None);

    let detail = state.snapshot_info("py-numpy", &disk, no_sizes()).unwrap();
    assert_eq!(detail.chain_depth, 1);
    assert_eq!(detail.ancestors, vec!["py-base".to_string()]);
    assert_eq!(detail.dependents, vec!["py-pandas".to_string()]);
    assert_eq!(detail.parent_content_hash.as_deref(), Some("h1"));

    let detail = state.snapshot_info("py-pandas", &disk, no_sizes()).unwrap();
    assert_eq!(detail.chain_depth, 2);
    assert_eq!(detail.ancestors, vec!["py-base".to_string(), "py-numpy".to_string()]);
    assert!(detail.dependents.is_empty());
}

#[test]
fn snapshot_info_missing_returns_404() {
    let e = test_state()
        .snapshot_info("does-not-exist", &nothing_on_disk(), no_sizes())
        .unwrap_err();
    assert_eq!(e.status, 404);
}

fn query(force: bool, cascade: bool) -> DeleteSnapshotQuery {
    DeleteSnapshotQuery { force, cascade }
}

#[test]
fn delete_snapshot_with_dependents_returns_409() {
    let state = test_state();
    let mut disk = nothing_on_disk();
    write_base_snapshot(&mut disk, "py-base");
    write_chained_snapshot(&mut disk, "py-numpy", "py-base", "h");
    let e = state.plan_delete("py-base", query(false, false), &disk).unwrap_err();
    assert_eq!(e.status, 409);
    let s = text(&e);
    assert!(
        s.contains("py-numpy") && s.contains("cascade") && s.contains("force"),
        "409 body must list children + name both escape hatches: {s}"
    );
}

#[test]
fn delete_snapshot_cascade_deletes_subtree() {
    let mut state = test_state();
    let mut disk = nothing_on_disk();
    write_base_snapshot(&mut disk, "py-base");
    write_chained_snapshot(&mut disk, "py-numpy", "py-base", "h1");
    write_chained_snapshot(&mut disk, "py-pandas", "py-numpy", "h2");
    let order = state.plan_delete("py-base", query(false, true), &disk).unwrap();
    assert_eq!(order, vec!["py-pandas", "py-numpy", "py-base"]);
    for t in &order {
        let r = state.delete_single_snapshot(t, &DirRemoval::Removed);
        assert_eq!(r, Ok(true));
        let next = after_delete("py-base", t, &r);
        if t == "py-base" {
            assert_eq!(next, DeleteStep::Answer(None));
        } else {
            assert_eq!(next, DeleteStep::Next);
        }
    }
}

#[test]
fn delete_snapshot_force_orphans_children() {
    let state = test_state();
    let mut disk = nothing_on_disk();
    write_base_snapshot(&mut disk, "py-base");
    write_chained_snapshot(&mut disk, "py-numpy", "py-base", "h");
    let order = state.plan_delete("py-base", query(true, false), &disk).unwrap();
    assert_eq!(order, vec!["py-base"]);
}

#[test]
fn delete_snapshot_cascade_and_force_together_returns_400() {
    let mut disk = nothing_on_disk();
    write_base_snapshot(&mut disk, "py-base");
    let e = test_state().plan_delete("py-base", query(true, true), &disk).unwrap_err();
    assert_eq!(e.status, 400);
}

#[test]
fn compact_snapshot_rejects_existing_target_tag() {
    let req = CompactSnapshotRequest { to: "py-base-flat".into() };
    let e = test_state().begin_compact("py-base", &req, true, &nothing_on_disk()).unwrap_err();
    assert_eq!(e.status, 409);
}

#[test]
fn compact_snapshot_same_from_and_to_returns_400() {
    let req = CompactSnapshotRequest { to: "py-base".into() };
    let e = test_state().begin_compact("py-base", &req, false, &nothing_on_disk()).unwrap_err();
    assert_eq!(e.status, 400);
}

#[test]
fn healthz_returns_ok() {
    assert_eq!(healthz(), "{\"ok\":true}");
}

#[test]
fn version_has_build_info() {
    let v = version("0.4.0");
    assert_eq!(v.api, "v1");
    assert_eq!(v.version, "0.4.0");
}

#[test]
fn end_to_end_version_round_trips() {
    let v = version("0.4.0");
    assert_eq!(v.api, "v1");
    assert!(!v.version.is_empty());
}

#[test]
fn metrics_emits_prometheus_text() {
    let s = test_state().metrics("0.4.0");
    assert!(s.contains("forkd_sandboxes_active 0"));
    assert!(s.contains("forkd_build_info"));
    assert!(s.contains("forkd_branches_in_flight 0"));
    assert!(
        s.contains(&format!("forkd_branch_concurrency_cap {DEFAULT_BRANCH_CONCURRENCY}")),
        "expected cap to surface as the test_state default; got body:\n{s}"
    );
}

#[test]
fn end_to_end_healthz_and_metrics() {
    assert_eq!(healthz(), "{\"ok\":true}");
    let body = test_state().metrics("0.4.0");
    assert!(body.contains("forkd_sandboxes_active 0"));
    assert!(body.contains("forkd_build_info"));
}

#[test]
fn metrics_branches_in_flight_tracks_slot_acquisitions() {
    let mut state = test_state();
    let slot_a = state.try_acquire_branch_slot("t1").unwrap();
    let slot_b = state.try_acquire_branch_slot("t2").unwrap();
    let s = state.metrics("0.4.0");
    assert!(
        s.contains("forkd_branches_in_flight 2"),
        "expected 2 in-flight branches while two slots are held; got:\n{s}"
    );
    state.release_branch_slot(slot_a);
    state.release_branch_slot(slot_b);
    let s = state.metrics("0.4.0");
    assert!(
        s.contains("forkd_branches_in_flight 0"),
        "expected gauge to return to 0 after slot drops; got:\n{s}"
    );
}

#[test]
fn empty_sandbox_list() {
    assert!(test_state().registry.list_sandboxes().is_empty());
}

#[test]
fn missing_sandbox_returns_404() {
    assert_eq!(test_state().sandbox("does-not-exist").unwrap_err().status, 404);
}

#[test]
fn create_snapshot_rejects_unsafe_tag() {
    let e = test_state()
        .begin_snapshot(&snapshot_request("../etc/passwd"), present(), "/tmp")
        .unwrap_err();
    assert_eq!(e.status, 400);
}

#[test]
fn branch_slot_same_tag_serialises() {
    let mut s = test_state();
    let a = s.try_acquire_branch_slot("foo").expect("first acquire should succeed");
    let err = s
        .try_acquire_branch_slot("foo")
        .expect_err("second acquire on same tag should fail");
    assert_eq!(err, BranchSlotError::AlreadyInFlight);
    s.release_branch_slot(a);
    let _b = s
        .try_acquire_branch_slot("foo")
        .expect("re-acquire after drop should succeed");
}

#[test]
fn branch_slot_different_tags_parallel() {
    let mut s = test_state();
    let _a = s.try_acquire_branch_slot("foo").unwrap();
    let _b = s
        .try_acquire_branch_slot("bar")
        .expect("different tag should not collide");
}

#[test]
fn branch_slot_global_cap_blocks() {
    let mut s = state_with_cap(2);
    let _a = s.try_acquire_branch_slot("t1").unwrap();
    let _b = s.try_acquire_branch_slot("t2").unwrap();
    let err = s.try_acquire_branch_slot("t3").expect_err("third slot should be refused");
    assert_eq!(err, BranchSlotError::CapacityExceeded);
}

#[test]
fn branch_slot_capacity_recovers_on_drop() {
    let mut s = state_with_cap(1);
    let a = s.try_acquire_branch_slot("t1").unwrap();
    assert!(s.try_acquire_branch_slot("t2").is_err());
    s.release_branch_slot(a);
    let _b = s.try_acquire_branch_slot("t2").expect("slot should free up after Drop");
}

#[test]
fn create_snapshot_rejects_missing_kernel() {
    let mut req = snapshot_request("ok");
    req.kernel = "/nonexistent".into();
    let facts = BuildFacts { kernel_exists: false, rootfs_exists: true, vmstate_exists: false };
    let e = test_state().begin_snapshot(&req, facts, "/tmp").unwrap_err();
    assert_eq!(e.status, 400);
    assert_eq!(text(&e), "kernel not found: /nonexistent");
}

#[test]
fn delete_snapshot_missing_returns_404() {
    let mut s = test_state();
    let disk = nothing_on_disk();
    let order = s.plan_delete("does-not-exist", query(false, false), &disk).unwrap();
    assert_eq!(order, vec!["does-not-exist"]);
    let r = s.delete_single_snapshot("does-not-exist", &DirRemoval::Absent);
    match after_delete("does-not-exist", "does-not-exist", &r) {
        DeleteStep::Answer(Some(e)) => assert_eq!(e.status, 404),
        other => panic!("{other:?}"),
    }
}

#[test]
fn create_sandbox_missing_snapshot_returns_404() {
    let e = test_state()
        .begin_create(&sandbox_request("does-not-exist", 1), &nothing_on_disk(), &Vec::new(), "/tmp")
        .unwrap_err();
    assert_eq!(e.status, 404);
}

#[test]
fn end_to_end_404_for_missing_snapshot() {
    let e = test_state()
        .begin_create(&sandbox_request("does-not-exist", 1), &nothing_on_disk(), &Vec::new(), "/tmp")
        .unwrap_err();
    assert_eq!(e.status, 404);
    assert!(text(&e).contains("does-not-exist"));
}

#[test]
fn create_sandbox_rejects_unsafe_snapshot_tag_traversal() {
    let e = test_state()
        .begin_create(&sandbox_request("../../etc/passwd", 1), &nothing_on_disk(), &Vec::new(), "/tmp")
        .unwrap_err();
    assert_eq!(e.status, 400);
}

#[test]
fn create_snapshot_rejects_boot_wait_over_cap() {
    let mut req = snapshot_request("ok");
    req.boot_wait_secs = 999999;
    let e = test_state().begin_snapshot(&req, present(), "/tmp").unwrap_err();
    assert_eq!(e.status, 400);
}

#[test]
fn create_sandbox_rejects_unsafe_snapshot_tag_chars() {
    let e = test_state()
        .begin_create(&sandbox_request("tag with space", 1), &nothing_on_disk(), &Vec::new(), "/tmp")
        .unwrap_err();
    assert_eq!(e.status, 400);
}

#[test]
fn create_sandbox_rejects_zero_n() {
    let e = test_state()
        .begin_create(&sandbox_request("x", 0), &nothing_on_disk(), &Vec::new(), "/tmp")
        .unwrap_err();
    assert_eq!(e.status, 400);
}

#[test]
fn ping_missing_sandbox_returns_404() {
    assert_eq!(test_state().begin_ping("missing").unwrap_err().status, 404);
}

#[test]
fn exec_empty_args_returns_400() {
    let mut s = test_state();
    s.registry.insert_sandbox(SandboxInfo {
        id: "sb-fake".into(),
        snapshot_tag: "x".into(),
        netns: None,
        guest_addr: "127.0.0.1:1".into(),
        created_at_unix: 1,
        pid: Some(99999999),
        memory_limit_mib: None,
        has_branched: false,
        last_branch_memory_path: None,
        branch_count: 0,
    });
    let req = ExecRequest { args: Vec::new(), timeout_secs: default_exec_timeout() };
    assert_eq!(s.begin_exec("sb-fake", &req).unwrap_err().status, 400);
}

#[test]
fn delete_sandbox_missing_returns_404() {
    assert_eq!(test_state().delete_sandbox("nope").unwrap_err().status, 404);
}

#[test]
fn branch_missing_sandbox_returns_404() {
    assert_eq!(branch_status(&branch_request()), 404);
}

#[test]
fn branch_rejects_unsafe_tag() {
    let mut req = branch_request();
    req.tag = Some("../etc/passwd".into());
    assert_eq!(branch_status(&req), 400);
}

#[test]
fn branch_rejects_mode_plus_legacy_bools() {
    for (mode, diff, live) in [
        (BranchMode::Live, false, true),
        (BranchMode::Diff, true, false),
        (BranchMode::Full, false, true),
        (BranchMode::Diff, false, true),
    ] {
        let mut req = branch_request();
        req.mode = Some(mode);
        req.diff = diff;
        req.live = live;
        assert_eq!(branch_status(&req), 400, "expected 400 for body: {req:?}");
    }
}

#[test]
fn branch_mode_full_for_missing_sandbox_returns_404_not_400() {
    let mut req = branch_request();
    req.mode = Some(BranchMode::Full);
    assert_eq!(branch_status(&req), 404);
}

#[test]
fn branch_mode_diff_alone_validates() {
    let mut req = branch_request();
    req.mode = Some(BranchMode::Diff);
    assert_eq!(branch_status(&req), 404);
}

#[test]
fn branch_mode_live_validates() {
    let mut req = branch_request();
    req.mode = Some(BranchMode::Live);
    assert_eq!(branch_status(&req), 404);
}

#[test]
fn branch_mode_live_with_wait_false_validates() {
    let mut req = branch_request();
    req.mode = Some(BranchMode::Live);
    req.wait = false;
    assert_eq!(branch_status(&req), 404);
}

#[test]
fn branch_rejects_mode_full_with_wait_false() {
    let mut req = branch_request();
    req.mode = Some(BranchMode::Full);
    req.wait = false;
    assert_eq!(branch_status(&req), 400);
}

#[test]
fn branch_rejects_wait_false_without_live() {
    for (diff, measure) in [(false, false), (true, false), (false, true)] {
        let mut req = branch_request();
        req.wait = false;
        req.diff = diff;
        req.measure_diff = measure;
        assert_eq!(branch_status(&req), 400, "expected 400 for body: {req:?}");
    }
}

#[test]
fn branch_rejects_multiple_modes_at_once() {
    for (diff, measure, live) in [
        (true, false, true),
        (false, true, true),
        (true, true, false),
        (true, true, true),
    ] {
        let mut req = branch_request();
        req.diff = diff;
        req.measure_diff = measure;
        req.live = live;
        assert_eq!(branch_status(&req), 400, "expected 400 for body: {req:?}");
    }
}

#[test]
fn defaults_of_requests() {
    assert_eq!(default_boot_wait(), 10);
    assert_eq!(default_exec_timeout(), 30);
    assert_eq!(default_one(), 1);
    assert!(default_wait());
    assert_eq!(default_snapshot_status(), SnapshotStatus::Ready);
}

#[test]
fn lineages_are_walked_from_the_oldest() {
    let state = test_state();
    let mut disk = nothing_on_disk();
    write_base_snapshot(&mut disk, "a");
    write_chained_snapshot(&mut disk, "b", "a", "ha");
    write_chained_snapshot(&mut disk, "c", "b", "hb");
    write_chained_snapshot(&mut disk, "loop1", "loop2", "x");
    write_chained_snapshot(&mut disk, "loop2", "loop1", "x");
    write_chained_snapshot(&mut disk, "orphan", "gone", "x");
    let r = &state.registry;
    let (ancestors, depth) = compute_ancestors(r, "/snaps", &disk, "c").unwrap();
    assert_eq!(ancestors, vec!["a", "b"]);
    assert_eq!(depth, 2);
    assert!(matches!(
        compute_ancestors(r, "/snaps", &disk, "loop1").unwrap_err(),
        LineageError::Cycle { .. }
    ));
    assert!(matches!(
        compute_ancestors(r, "/snaps", &disk, "orphan").unwrap_err(),
        LineageError::Missing(_)
    ));
    let links = resolve_chain(r, "/snaps", &disk, "c").unwrap();
    let tags: Vec<&str> = links.iter().map(|l| l.tag.as_str()).collect();
    assert_eq!(tags, vec!["a", "b", "c"]);
    let plan = assembly(&links);
    assert_eq!(plan.base, "/snaps/a/memory.bin");
    assert_eq!(plan.diffs, vec!["/snaps/b/diff.bin", "/snaps/c/diff.bin"]);
    assert_eq!(
        plan.checks,
        vec![
            ("/snaps/a/memory.bin".to_string(), Some("ha".to_string())),
            ("/snaps/b/diff.bin".to_string(), Some("hb".to_string())),
        ]
    );
    let hashes = |a: &str, b: &str| vec![a.to_string(), b.to_string()];
    assert_eq!(verify_parent_hashes(&plan, &hashes("ha", "hb")), Ok(()));
    let e = verify_parent_hashes(&plan, &hashes("ha", "hx")).unwrap_err();
    assert_eq!(e.message(), "/snaps/b/diff.bin hashes to hx, but its child recorded hb");
    assert_eq!(find_dependents(r, &disk, "a"), vec!["b"]);
    assert_eq!(collect_subtree(r, &disk, "a"), vec!["a", "b", "c"]);
    assert_eq!(
        enumerate_all_snapshot_tags(r, &disk),
        vec!["a", "b", "c", "loop1", "loop2", "orphan"]
    );
}

#[test]
fn cyclic_lineages_are_deleted_once() {
    let state = test_state();
    let mut disk = nothing_on_disk();
    write_chained_snapshot(&mut disk, "p", "q", "x");
    write_chained_snapshot(&mut disk, "q", "p", "x");
    let order = state.plan_delete("p", query(false, true), &disk).unwrap();
    assert_eq!(order, vec!["q", "p"]);
}

#[test]
fn deletions_report_what_went_wrong() {
    let mut s = test_state();
    let r = s.delete_single_snapshot("t", &DirRemoval::Failed("busy".into()));
    assert_eq!(r, Err("rm /snaps/t: busy".to_string()));
    for root in ["t", "base"] {
        match after_delete(root, "t", &r) {
            DeleteStep::Answer(Some(e)) => {
                assert_eq!((e.status, text(&e)), (500, "rm /snaps/t: busy"))
            }
            other => panic!("{other:?}"),
        }
    }
    assert_eq!(after_delete("base", "t", &Ok(false)), DeleteStep::Next);
}

#[test]
fn subtrees_are_listed_in_pre_order() {
    let s = test_state();
    let mut disk = nothing_on_disk();
    write_base_snapshot(&mut disk, "r");
    write_chained_snapshot(&mut disk, "a", "r", "h");
    write_chained_snapshot(&mut disk, "b", "r", "h");
    write_chained_snapshot(&mut disk, "c", "a", "h");
    write_chained_snapshot(&mut disk, "d", "b", "h");
    assert_eq!(collect_subtree(&s.registry, &disk, "r"), vec!["r", "a", "c", "b", "d"]);
    assert_eq!(collect_subtree(&s.registry, &disk, "b"), vec!["b", "d"]);
    let order = s.plan_delete("r", query(false, true), &disk).unwrap();
    assert_eq!(order, vec!["d", "b", "c", "a", "r"]);
}

fn branch_in_background(s: &mut AppState) {
    let id = register_fake_sandbox(s, "py");
    let mut req = branch_request();
    req.tag = Some("bg".into());
    req.live = true;
    req.wait = false;
    let plan = s.begin_branch(&id, &req, 1, &branch_facts()).unwrap();
    s.finish_branch(plan, BranchOutcome::Written { pause_ms: None, diff: None }, 2).unwrap();
}

#[test]
fn deleting_a_tag_in_flight_reaps_it() {
    let mut s = test_state();
    branch_in_background(&mut s);
    let disk = nothing_on_disk();
    assert_eq!(s.delete_single_snapshot("bg", &DirRemoval::Absent), Ok(false));
    assert_eq!(s.snapshot_status("bg"), SnapshotStatus::Writing);
    let order = s.begin_delete("bg", query(false, false), &Some(BulkCopy::Done), &disk).unwrap();
    assert_eq!(order, vec!["bg"]);
    assert_eq!(s.snapshot_status("bg"), SnapshotStatus::Ready);
    assert_eq!(s.delete_single_snapshot("bg", &DirRemoval::Removed), Ok(true));
    assert!(s.list_snapshots().is_empty());
    assert!(s.begin_delete("..", query(false, false), &None, &disk).is_err());
}

#[test]
fn a_refused_delete_leaves_a_copy_in_flight() {
    let mut s = test_state();
    branch_in_background(&mut s);
    let disk = nothing_on_disk();
    let e = s.begin_delete("bg", query(true, true), &Some(BulkCopy::Done), &disk).unwrap_err();
    assert_eq!(e.status, 400);
    assert_eq!(s.snapshot_status("bg"), SnapshotStatus::Writing);
    assert_eq!(check_delete("bg", &query(true, true)).unwrap_err(), e);
    assert_eq!(check_delete("../bg", &query(false, false)).unwrap_err().status, 400);
    assert!(check_delete("bg", &query(true, false)).is_ok());
}

#[test]
fn snapshots_that_failed_are_not_restored() {
    let mut s = test_state();
    branch_in_background(&mut s);
    let mut disk = nothing_on_disk();
    write_base_snapshot(&mut disk, "bg");
    let spawn = |s: &AppState| {
        s.spawn_one_for_workspace("bg", false, None, true, &None, &Vec::new(), "/tmp")
            .map(|p| p.tag)
    };
    assert!(spawn(&s).unwrap_err().contains("still being written"));
    assert!(s.reap_live_branch("bg", &BulkCopy::Panicked));
    let e = s.begin_create(&sandbox_request("bg", 1), &disk, &Vec::new(), "/tmp").unwrap_err();
    assert_eq!(e.status, 409);
    assert_eq!(text(&e), "snapshot bg could not be written in full; it cannot be restored");
    assert_eq!(spawn(&s).unwrap_err(), text(&e));
}

#[test]
fn snapshots_are_built_and_listed() {
    let mut s = test_state();
    let mut req = snapshot_request("ok");
    req.rootfs = "/r.ext4".into();
    req.tap = Some("forkd-tap0".into());
    let plan = s.begin_snapshot(&req, present(), "/tmp").unwrap();
    assert_eq!(plan.snap_dir, "/snaps/ok");
    assert_eq!(plan.boot.work_dir, "/tmp/forkd-snapshot-ok");
    assert_eq!(plan.metadata.vmstate, "/snaps/ok/vmstate");
    assert!(!plan.boot.rootfs_read_only);
    let e = s.finish_snapshot(&plan, &BuildOutcome::Failed("no kvm".into()), 5).unwrap_err();
    assert_eq!(e.status, 500);
    let e = s.finish_snapshot(&plan, &BuildOutcome::Panicked("oops".into()), 5).unwrap_err();
    assert_eq!(text(&e), "blocking task panicked: oops");
    assert!(s.list_snapshots().is_empty());
    let info = s.finish_snapshot(&plan, &BuildOutcome::Done, 5).unwrap();
    assert_eq!(info.created_at_unix, 5);
    assert_eq!(info.status, SnapshotStatus::Ready);
    assert_eq!(s.list_snapshots(), vec![info]);
    let mut again = present();
    again.vmstate_exists = true;
    assert_eq!(s.begin_snapshot(&req, again, "/tmp").unwrap_err().status, 400);
    let mut missing = present();
    missing.rootfs_exists = false;
    assert_eq!(
        text(&s.begin_snapshot(&req, missing, "/tmp").unwrap_err()),
        "rootfs not found: /r.ext4"
    );
}

#[test]
fn sandboxes_are_created_in_free_namespaces() {
    let mut s = test_state();
    let mut disk = nothing_on_disk();
    write_base_snapshot(&mut disk, "py");
    let live = vec![Some("forkd-child-1".to_string()), None, Some("forkd-child-4".to_string())];
    let mut req = sandbox_request("py", 2);
    req.per_child_netns = true;
    req.prewarm = true;
    req.live_fork = true;
    let plan = s.begin_create(&req, &disk, &live, "/tmp").unwrap();
    assert_eq!(plan.opts.netns_offset, 1);
    assert_eq!(plan.work_dir, "/tmp/forkd-daemon-py-o1");
    assert_eq!(plan.opts.prewarm_scratch_dir.as_deref(), Some("/prewarm"));
    assert_eq!(plan.opts.memory_backend, MemoryBackend::MemfdShared);
    assert_eq!(plan.assembled, None);
    let children = vec![
        RunningChild { netns: Some("forkd-child-2".into()), pid: 11 },
        RunningChild { netns: Some("forkd-child-3".into()), pid: 12 },
    ];
    let infos = s.record_children("py", Some(256), &children, 0x65a1b2c3, 1);
    assert_eq!(infos.len(), 2);
    assert_eq!(infos[0].id, "sb-65a1b2c3-0001");
    assert_eq!(infos[1].id, "sb-65a1b2c3-0002");
    assert_eq!(infos[1].pid, Some(12));
    assert_eq!(s.registry.list_sandboxes(), infos);
    let gone = s.delete_sandbox("sb-65a1b2c3-0001").unwrap();
    assert_eq!(gone.pid, Some(11));
    assert_eq!(s.registry.list_sandboxes().len(), 1);
}

#[test]
fn chained_snapshots_are_assembled_before_the_fork() {
    let s = test_state();
    let mut disk = nothing_on_disk();
    write_base_snapshot(&mut disk, "a");
    write_chained_snapshot(&mut disk, "b", "a", "h");
    let plan = s.begin_create(&sandbox_request("b", 1), &disk, &Vec::new(), "/tmp").unwrap();
    assert_eq!(
        plan.assembled.as_deref(),
        Some("/tmp/forkd-daemon-b-o0/chainstage/memory-assembled.bin")
    );
    assert_eq!(plan.snapshot.memory, "/snaps/b/diff.bin");
    let source = plan.source();
    assert_eq!(source.memory, "/tmp/forkd-daemon-b-o0/chainstage/memory-assembled.bin");
    assert_eq!(source.vmstate, "/snaps/b/vmstate");
    let chain = plan.chain.unwrap();
    assert_eq!(chain.base, "/snaps/a/memory.bin");
    assert_eq!(chain.diffs, vec!["/snaps/b/diff.bin".to_string()]);
    assert_eq!(chain.checks, vec![("/snaps/a/memory.bin".to_string(), Some("h".to_string()))]);
    let flat = CompactSnapshotRequest { to: "flat".into() };
    let compact = s.begin_compact("b", &flat, false, &disk).unwrap();
    assert_eq!(compact.chain.base, chain.base);
    assert_eq!(compact.chain.diffs, chain.diffs);
    let plain = s.begin_create(&sandbox_request("a", 1), &disk, &Vec::new(), "/tmp").unwrap();
    assert_eq!(plain.source().memory, "/snaps/a/memory.bin");
    assert!(plain.chain.is_none());
}

#[test]
fn chains_without_a_base_are_not_forked() {
    let s = test_state();
    let mut disk = nothing_on_disk();
    write_chained_snapshot(&mut disk, "x", "y", "h");
    write_chained_snapshot(&mut disk, "y", "x", "h");
    write_chained_snapshot(&mut disk, "lost", "nowhere", "h");
    let e = s.begin_create(&sandbox_request("x", 1), &disk, &Vec::new(), "/tmp").unwrap_err();
    assert_eq!(e.status, 500);
    assert!(text(&e).starts_with("resolve chain for `x`: chain cycle detected"), "{}", text(&e));
    let e = s.begin_create(&sandbox_request("lost", 1), &disk, &Vec::new(), "/tmp").unwrap_err();
    assert!(text(&e).contains("nowhere"), "{}", text(&e));
}

#[test]
fn at_most_a_thousand_sandboxes_are_created() {
    let e = test_state()
        .begin_create(&sandbox_request("x", 1001), &nothing_on_disk(), &Vec::new(), "/tmp")
        .unwrap_err();
    assert_eq!((e.status, text(&e)), (400, "n must be ≤ 1000 (sanity cap)"));
}

#[test]
fn namespaces_are_picked_in_gaps() {
    assert_eq!(netns_index("forkd-child-12"), Some(12));
    assert_eq!(netns_index("forkd-child-x"), None);
    assert_eq!(netns_index("other"), None);
    let ns = |i: usize| Some(format!("forkd-child-{i}"));
    assert_eq!(pick_netns_offset(&Vec::new(), 3), 0);
    assert_eq!(pick_netns_offset(&vec![ns(1), ns(2)], 1), 2);
    assert_eq!(pick_netns_offset(&vec![ns(2)], 1), 0);
    assert_eq!(pick_netns_offset(&vec![ns(3)], 2), 0);
    assert_eq!(pick_netns_offset(&vec![ns(3)], 3), 3);
}

#[test]
fn busy_namespaces_are_tried_again() {
    assert_eq!(retry_after(0, "open tap: Resource busy (os error 16)"), Some(50));
    assert_eq!(retry_after(1, "Device or resource busy"), Some(200));
    assert_eq!(retry_after(2, "Resource busy"), Some(800));
    assert_eq!(retry_after(3, "Resource busy"), None);
    assert_eq!(retry_after(0, "no such file"), None);
    assert_eq!(create_failed(false, "x").body.error, "restore_many: x");
    assert_eq!(create_failed(true, "x").body.error, "blocking task panicked: x");
}

#[test]
fn agents_are_addressed_in_their_namespace() {
    let mut s = test_state();
    let child = RunningChild { netns: Some("forkd-child-7".into()), pid: 1 };
    let id = s.record_children("t", None, &vec![child], 1, 1)[0].id.clone();
    let req = ExecRequest { args: vec!["ls".into()], timeout_secs: 5 };
    let a = s.begin_exec(&id, &req).unwrap();
    assert_eq!(a.addr, "10.42.0.2:8888");
    assert_eq!(a.netns_path.as_deref(), Some("/var/run/netns/forkd-child-7"));
    assert_eq!(a.line, "{\"action\":\"exec\",\"args\":[\"ls\"],\"timeout\":5}\n");
    let e = s.begin_eval(&id, &EvalRequest { code: "1".into() }).unwrap();
    assert_eq!(e.line, "{\"action\":\"eval\",\"code\":\"1\"}\n");
    assert_eq!(s.begin_eval("zzz", &EvalRequest { code: "1".into() }).unwrap_err().status, 404);
    assert_eq!(s.begin_ping(&id).unwrap().line, "{\"action\":\"ping\"}\n");
    assert_eq!(agent_failed("exec", true, "p").body.error, "blocking task panicked: p");
    assert_eq!(agent_failed("exec", false, "p").status, 500);
}

#[test]
fn agent_answers_become_replies() {
    let a = ExecResponse { stdout: "o".into(), stderr: "e".into(), exit_code: -3, error: None };
    let r = exec_response(&a);
    assert_eq!((r.stdout.as_str(), r.stderr.as_str(), r.exit_code), ("o", "e", -3));
    let r = read_eval_answer("{\"result\":\"2\",\"exit_code\":4}").unwrap();
    assert_eq!((r.result.as_deref(), r.error, r.exit_code), (Some("2"), None, 4));
    assert_eq!(read_eval_answer("{\"error\":\"boom\"}").unwrap().error.as_deref(), Some("boom"));
    assert_eq!(read_eval_answer("{\"exit_code\":-2}").unwrap().exit_code, -2);
    assert!(read_eval_answer("]").is_none());
    assert_eq!(eval_response(None, None, None).exit_code, 0);
}

#[test]
fn branches_are_planned_and_recorded() {
    let mut s = test_state();
    let id = register_fake_sandbox(&mut s, "py");
    let mut req = branch_request();
    req.mode = Some(BranchMode::Diff);
    req.parent_tag = Some("py".into());
    let mut facts = branch_facts();
    facts.volumes = Ok(vec![VolumeSpec {
        host_path: "/h".into(),
        guest_path: "/g".into(),
        read_only: true,
    }]);
    assert_eq!(branch_tag(&id, &req, 9), "branch-sb-test-1-9");
    let plan = s.begin_branch(&id, &req, 9, &facts).unwrap();
    assert_eq!(plan.tag, "branch-sb-test-1-9");
    assert_eq!(plan.mode, BranchMode::Diff);
    assert_eq!(plan.source_memory, "/snaps/py/memory.bin");
    assert_eq!(plan.volumes.len(), 1);
    assert!(s.metrics("x").contains("forkd_branches_in_flight 1"));
    let again = s.begin_branch(&id, &req, 9, &facts).unwrap_err();
    assert_eq!(again.status, 409);
    let meta = branch_metadata(&plan, &Some("h".into()));
    assert_eq!(meta.parent_tag.as_deref(), Some("py"));
    assert_eq!(meta.parent_content_hash.as_deref(), Some("h"));
    assert_eq!(meta.volumes.len(), 1);
    let diff = DiffMetrics { ms: 3, physical_bytes: 512, logical_bytes: 4096 };
    let reply = s
        .finish_branch(plan, BranchOutcome::Written { pause_ms: Some(7), diff: Some(diff) }, 10)
        .unwrap();
    assert_eq!(reply.status, 201);
    assert_eq!(reply.info.branched_from.as_deref(), Some("sb-test-1"));
    assert_eq!(reply.info.pause_ms, Some(7));
    assert_eq!(reply.info.diff_physical_bytes, Some(512));
    assert!(s.metrics("x").contains("forkd_branches_in_flight 0"));
    let sb = s.sandbox(&id).unwrap();
    assert!(sb.has_branched);
    assert_eq!(sb.branch_count, 1);
    assert_eq!(
        sb.last_branch_memory_path.as_deref(),
        Some("/snaps/branch-sb-test-1-9/memory.bin")
    );
    let mut next = branch_request();
    next.tag = Some("second".into());
    next.diff = true;
    facts.last_branch_exists = true;
    let p = s.begin_branch(&id, &next, 11, &facts).unwrap();
    assert_eq!(p.source_memory, "/snaps/branch-sb-test-1-9/memory.bin");
}

#[test]
fn failed_branches_free_their_slot() {
    for outcome in [
        BranchOutcome::Panicked("x".into()),
        BranchOutcome::Failed("x".into()),
        BranchOutcome::HashFailed { memory: "/m".into(), error: "x".into() },
        BranchOutcome::SerializeFailed("x".into()),
        BranchOutcome::WriteFailed("x".into()),
    ] {
        let mut s = test_state();
        let id = register_fake_sandbox(&mut s, "py");
        let mut req = branch_request();
        req.tag = Some("t".into());
        let plan = s.begin_branch(&id, &req, 1, &branch_facts()).unwrap();
        let f = s.finish_branch(plan, outcome, 2).unwrap_err();
        assert_eq!(f.error.status, 500);
        assert!(s.list_snapshots().is_empty());
        assert!(!s.sandbox(&id).unwrap().has_branched);
        assert!(s.try_acquire_branch_slot("t").is_ok());
    }
}

#[test]
fn branches_are_refused_for_one_reason_at_a_time() {
    let mut s = state_with_cap(1);
    let id = register_fake_sandbox(&mut s, "py");
    let mut req = branch_request();
    req.tag = Some("t".into());
    let mut facts = branch_facts();
    facts.vmstate_exists = true;
    assert_eq!(s.begin_branch(&id, &req, 1, &facts).unwrap_err().status, 409);
    facts.vmstate_exists = false;
    facts.volumes = Err("bad json".into());
    let e = s.begin_branch(&id, &req, 1, &facts).unwrap_err();
    assert_eq!(text(&e), "read source snapshot volumes from tag 'py': bad json");
    facts.volumes = Ok(Vec::new());
    facts.vm_present = false;
    assert_eq!(s.begin_branch(&id, &req, 1, &facts).unwrap_err().status, 404);
    facts.vm_present = true;
    facts.memfd_backed = false;
    req.live = true;
    assert_eq!(s.begin_branch(&id, &req, 1, &facts).unwrap_err().status, 400);
    let slot = s.try_acquire_branch_slot("other").unwrap();
    assert_eq!(s.begin_branch(&id, &req, 1, &facts).unwrap_err().status, 503);
    s.release_branch_slot(slot);
    facts.memfd_backed = true;
    assert!(s.begin_branch(&id, &req, 1, &facts).is_ok());
}

#[test]
fn live_branches_in_the_background_become_snapshots() {
    let mut s = test_state();
    let id = register_fake_sandbox(&mut s, "py");
    let mut req = branch_request();
    req.tag = Some("bg".into());
    req.mode = Some(BranchMode::Live);
    req.wait = false;
    let plan = s.begin_branch(&id, &req, 1, &branch_facts()).unwrap();
    let reply = s
        .finish_branch(plan, BranchOutcome::Written { pause_ms: Some(1), diff: None }, 2)
        .unwrap();
    assert_eq!(reply.status, 202);
    assert!(reply.keep_vm);
    assert_eq!(reply.info.status, SnapshotStatus::Writing);
    assert_eq!(s.list_snapshots()[0].status, SnapshotStatus::Writing);
    let mut disk = nothing_on_disk();
    write_base_snapshot(&mut disk, "bg");
    assert_eq!(
        s.begin_create(&sandbox_request("bg", 1), &disk, &Vec::new(), "/tmp").unwrap_err().status,
        409
    );
    assert!(!s.reap_live_branch("none", &BulkCopy::Done));
    s.reap_finished_live_branches(&vec![("bg".to_string(), BulkCopy::Done)]);
    let listed = s.list_snapshots();
    assert_eq!(listed[0].status, SnapshotStatus::Ready);
    assert!(s.begin_create(&sandbox_request("bg", 1), &disk, &Vec::new(), "/tmp").is_ok());
}

#[test]
fn vms_of_deleted_sandboxes_do_not_come_back() {
    for (deleted, outcome) in [
        (true, BranchOutcome::Written { pause_ms: None, diff: None }),
        (true, BranchOutcome::Failed("x".into())),
        (false, BranchOutcome::Failed("x".into())),
        (false, BranchOutcome::Panicked("x".into())),
    ] {
        let mut s = test_state();
        let id = register_fake_sandbox(&mut s, "py");
        let mut req = branch_request();
        req.tag = Some("t".into());
        let plan = s.begin_branch(&id, &req, 1, &branch_facts()).unwrap();
        if deleted {
            s.delete_sandbox(&id).unwrap();
        }
        let lost = matches!(outcome, BranchOutcome::Panicked(_));
        let keep = match s.finish_branch(plan, outcome, 2) {
            Ok(reply) => reply.keep_vm,
            Err(f) => f.keep_vm,
        };
        assert_eq!(keep, !deleted && !lost);
    }
}

#[test]
fn live_branches_that_fail_are_marked() {
    for how in [BulkCopy::Failed("io".into()), BulkCopy::Panicked] {
        let mut s = test_state();
        let id = register_fake_sandbox(&mut s, "py");
        let mut req = branch_request();
        req.tag = Some("bg".into());
        req.live = true;
        req.wait = false;
        let plan = s.begin_branch(&id, &req, 1, &branch_facts()).unwrap();
        s.finish_branch(plan, BranchOutcome::Written { pause_ms: None, diff: None }, 2).unwrap();
        assert!(s.reap_live_branch("bg", &how));
        let infos: Vec<SnapshotInfo> = s.list_snapshots();
        assert_eq!(infos[0].status, SnapshotStatus::Failed);
    }
}

#[test]
fn guests_are_paused_for_the_snapshot_alone() {
    for mode in [BranchMode::Full, BranchMode::Diff, BranchMode::Live] {
        let steps = branch_steps(mode, false, true);
        let pause = steps.iter().position(|s| *s == BranchStep::Pause).unwrap();
        let resume = steps.iter().position(|s| *s == BranchStep::Resume).unwrap();
        assert!(pause < resume);
        for s in &steps[pause + 1..resume] {
            assert!(
                matches!(s, BranchStep::TakeFull | BranchStep::TakeDiff | BranchStep::TakeVmstate),
                "{s:?}"
            );
        }
        assert!(step_is_fatal(mode, BranchStep::Pause));
        assert_eq!(step_is_fatal(mode, BranchStep::Resume), mode == BranchMode::Live);
    }
    assert!(!step_is_fatal(BranchMode::Full, BranchStep::Preallocate));
    assert!(step_resumes_on_failure(BranchStep::TakeVmstate));
    assert!(!step_resumes_on_failure(BranchStep::TakeFull));
    assert!(branch_steps(BranchMode::Full, true, true).contains(&BranchStep::MeasureDiff));
    assert_eq!(branch_steps(BranchMode::Diff, false, true).last(), Some(&BranchStep::ApplyDiff));
    assert!(branch_steps(BranchMode::Live, false, false).contains(&BranchStep::HandOver));
    assert!(!branch_steps(BranchMode::Live, false, true).contains(&BranchStep::HandOver));
}

#[test]
fn live_branches_need_a_region() {
    assert_eq!(live_region_size(Some(4096)), Ok(4096));
    assert_eq!(live_region_size(None), Err(LiveSetupError::NotMemfd));
    assert_eq!(live_region_size(Some(0)), Err(LiveSetupError::Empty));
    assert_eq!(live_fault_base(&Vec::new()), Err(LiveSetupError::NoRegions));
    let region = GuestRegionUffdMapping {
        base_host_virt_addr: 0x7000,
        size: 1,
        offset: 0,
        page_size_kib: 4,
    };
    assert_eq!(live_fault_base(&vec![region]), Ok(0x7000));
    assert!(live_handshake_socket("/snaps/t").starts_with("/snaps/t/"));
    assert_eq!(
        LiveSetupError::NoRegions.message(),
        "FC returned 0 regions in the WP handshake"
    );
    assert_eq!(reservation(None), Reservation::Skip);
    assert_eq!(reservation(Some(10)), Reservation::Reserve { len: 10 });
    assert_eq!(reservation(Some(u64::MAX)), Reservation::TooLarge);
}

#[test]
fn volumes_of_a_snapshot_are_read() {
    assert_eq!(read_snapshot_volumes("t", &StoredMeta::Absent), Ok(Vec::new()));
    assert!(read_snapshot_volumes("../t", &StoredMeta::Absent).unwrap_err().contains("unsafe tag"));
    assert_eq!(read_snapshot_volumes("t", &StoredMeta::Unreadable("e".into())), Err("e".into()));
    let mut snap = chained("t", "p", "h");
    snap.volumes.push(VolumeSpec { host_path: "/h".into(), guest_path: "/g".into(), read_only: false });
    assert_eq!(read_snapshot_volumes("t", &StoredMeta::Read(snap)).unwrap().len(), 1);
}

#[test]
fn chains_are_compacted_into_a_snapshot_of_their_own() {
    let mut s = test_state();
    let req = CompactSnapshotRequest { to: "flat".into() };
    let mut disk = nothing_on_disk();
    write_base_snapshot(&mut disk, "a");
    write_chained_snapshot(&mut disk, "b", "a", "h");
    write_chained_snapshot(&mut disk, "lost", "nowhere", "h");
    let plan = s.begin_compact("b", &req, false, &disk).unwrap();
    assert_eq!(plan.chain.base, "/snaps/a/memory.bin");
    assert_eq!(plan.chain.diffs, vec!["/snaps/b/diff.bin".to_string()]);
    assert_eq!(plan.head.vmstate, "/snaps/b/vmstate");
    let e = s.begin_compact("lost", &req, false, &disk).unwrap_err();
    assert_eq!(e.status, 500);
    assert!(text(&e).starts_with("resolve chain for `lost`: "), "{}", text(&e));
    assert_eq!(plan.dest_dir, "/snaps/flat");
    assert_eq!(plan.staging, "/snaps/.compact-staging-flat");
    assert_eq!(s.begin_compact("..", &req, false, &disk).unwrap_err().status, 400);
    let bad = CompactSnapshotRequest { to: "..".into() };
    assert_eq!(s.begin_compact("b", &bad, false, &disk).unwrap_err().status, 400);
    let meta = compact_metadata(&plan);
    assert_eq!(meta.parent_tag, None);
    assert_eq!(meta.memory, "/snaps/flat/memory.bin");
    let info = s.finish_compact(&plan, 8);
    assert_eq!(info.tag, "flat");
    assert_eq!(s.list_snapshots(), vec![info]);
    for f in [
        CompactFailure::Verify("e".into()),
        CompactFailure::Staging("e".into()),
        CompactFailure::Assemble("e".into()),
        CompactFailure::CopyVmstate { vmstate: "/v".into(), error: "e".into() },
        CompactFailure::Serialize("e".into()),
        CompactFailure::WriteMeta("e".into()),
        CompactFailure::Promote("e".into()),
    ] {
        let (e, _remove) = compact_failed(&plan, &f);
        assert!(text(&e).ends_with(": e"), "{}", text(&e));
    }
    assert!(compact_failed(&plan, &CompactFailure::Promote("e".into())).1);
}

fn workspace_request(name: &str) -> CreateWorkspaceRequest {
    CreateWorkspaceRequest {
        name: name.into(),
        snapshot_tag: "py".into(),
        per_child_netns: true,
        memory_limit_mib: Some(64),
    }
}

fn child(pid: u32) -> RunningChild {
    RunningChild { netns: Some("forkd-child-1".into()), pid }
}

#[test]
fn workspaces_come_and_go() {
    let mut s = test_state();
    assert_eq!(s.begin_workspace(&workspace_request("a b")).unwrap_err().status, 400);
    assert!(s.begin_workspace(&workspace_request("dev")).is_ok());
    let ws = s.finish_workspace(&workspace_request("dev"), &child(5), 3, 1);
    assert_eq!(ws.status, WorkspaceStatus::Running);
    assert_eq!(s.begin_workspace(&workspace_request("dev")).unwrap_err().status, 409);
    assert_eq!(s.workspace("dev").unwrap(), ws);
    assert_eq!(s.workspace("x").unwrap_err().status, 404);
    let sandbox = ws.live_sandbox_id.clone().unwrap();
    assert_eq!(s.sandbox(&sandbox).unwrap().snapshot_tag, "py");
    let left = s.delete_workspace("dev").unwrap();
    assert_eq!(left.sandbox, Some(sandbox.clone()));
    assert!(s.sandbox(&sandbox).is_err());
    assert_eq!(s.delete_workspace("dev").unwrap_err().status, 404);
}

#[test]
fn workspaces_suspend_and_resume() {
    let mut s = test_state();
    let ws = s.finish_workspace(&workspace_request("dev"), &child(5), 3, 1);
    let sandbox = ws.live_sandbox_id.unwrap();
    let facts = SuspendFacts { vmstate_exists: false, last_branch_exists: false, vm_present: true };
    let req = SuspendWorkspaceRequest { diff: false };
    let plan = s.begin_suspend("dev", &req, facts).unwrap();
    assert_eq!(plan.state_tag, "ws-dev-state");
    assert_eq!(state_tag("dev"), "ws-dev-state");
    assert_eq!(plan.sandbox, sandbox);
    assert_eq!(s.begin_suspend("dev", &req, facts).unwrap_err().error.status, 409);
    assert_eq!(suspend_metadata(&plan).memory, "/snaps/ws-dev-state/memory.bin");
    assert!(suspend_steps(false).contains(&BranchStep::TakeFull));
    assert!(suspend_steps(true).contains(&BranchStep::TakeDiff));
    let ws = s.finish_suspend(plan, SuspendOutcome::Written { pause_ms: Some(2) }, 9).unwrap();
    assert_eq!(ws.status, WorkspaceStatus::Suspended);
    assert_eq!(ws.current_state_tag.as_deref(), Some("ws-dev-state"));
    assert_eq!(ws.live_sandbox_id, None);
    assert!(s.sandbox(&sandbox).is_err());
    assert_eq!(s.begin_suspend("dev", &req, facts).unwrap_err().error.status, 400);

    let tag = s.begin_resume("dev").unwrap();
    assert_eq!(tag, "ws-dev-state");
    let meta = Some(chained("ws-dev-state", "x", "h"));
    let spawn = s
        .spawn_one_for_workspace(&tag, true, None, true, &meta, &Vec::new(), "/tmp")
        .unwrap();
    assert_eq!(spawn.work_dir, "/tmp/forkd-workspace-ws-dev-state-o0");
    assert_eq!(spawn.opts.n, 1);
    let ws = s.finish_resume("dev", &tag, &child(6), 12, 2).unwrap();
    assert_eq!(ws.status, WorkspaceStatus::Running);
    assert_eq!(ws.last_active_unix, 12);
    assert!(ws.live_sandbox_id.is_some());
    assert_eq!(s.begin_resume("dev").unwrap_err().status, 400);
    assert_eq!(s.begin_resume("none").unwrap_err().status, 404);
    assert_eq!(s.begin_suspend("none", &req, facts).unwrap_err().error.status, 404);
}

#[test]
fn failed_suspends_leave_the_workspace_running() {
    for outcome in [
        SuspendOutcome::Panicked("x".into()),
        SuspendOutcome::Failed("x".into()),
        SuspendOutcome::SerializeFailed("x".into()),
        SuspendOutcome::WriteFailed("x".into()),
    ] {
        let mut s = test_state();
        s.finish_workspace(&workspace_request("dev"), &child(5), 3, 1);
        let facts =
            SuspendFacts { vmstate_exists: false, last_branch_exists: false, vm_present: true };
        let plan = s.begin_suspend("dev", &SuspendWorkspaceRequest::default(), facts).unwrap();
        assert_eq!(s.finish_suspend(plan, outcome, 4).unwrap_err().error.status, 500);
        assert_eq!(s.workspace("dev").unwrap().status, WorkspaceStatus::Running);
        assert!(s.try_acquire_branch_slot("ws-dev-state").is_ok());
    }
    assert_eq!(spawn_failed(false, "x").body.error, "spawn workspace sandbox: x");
}

#[test]
fn missing_vms_cannot_be_suspended() {
    let mut s = test_state();
    s.finish_workspace(&workspace_request("dev"), &child(5), 3, 1);
    let facts = SuspendFacts { vmstate_exists: false, last_branch_exists: false, vm_present: false };
    let f = s.begin_suspend("dev", &SuspendWorkspaceRequest::default(), facts).unwrap_err();
    assert_eq!((f.error.status, f.remove_dir), (404, None));
    let stale = SuspendFacts { vmstate_exists: true, ..facts };
    let f = s.begin_suspend("dev", &SuspendWorkspaceRequest::default(), stale).unwrap_err();
    assert_eq!(f.error.status, 404);
    assert_eq!(f.remove_dir.as_deref(), Some("/snaps/ws-dev-state"));
    assert!(s.try_acquire_branch_slot("ws-dev-state").is_ok());
}

#[test]
fn sandbox_ids_tell_time_and_sequence() {
    assert_eq!(new_sandbox_id(0x65a1b2c3, 1), "sb-65a1b2c3-0001");
    assert_eq!(new_sandbox_id(1, 0x12345), "sb-1-12345");
}
