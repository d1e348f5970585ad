use forkd::boot::VolumeSpec;
use forkd::branch::StoredMeta;
use forkd::cli::{
    build_arguments, find_script, load_snapshot_meta, parse_volume, plan_fork, plan_run,
    plan_snapshot, run_workdir, script_candidates, ForkFacts, ForkRefusal, SnapshotArgs,
    SnapshotFacts, SnapshotRefusal, VolumeSyntax,
};
use forkd::client::{
    authorization, branch_call, branch_summary, check_command, endpoint, eval_output,
    exec_outcome, expression, kill, kill_result, ls, needs_listing, ping_again,
    read_branch_answer, read_eval_output, read_pong, read_sandboxes, show_pong, CallError,
    EvalAnswer, EvalOutput, SandboxRow,
};
use forkd::fork::{ExecResponse, Snapshot};
use forkd::hub::{
    begin_unpack, check_download, default_registry_url, find_version, images, local_snapshot,
    pack_file, parse_target, push_file, rootfs_file, slug, unpack_over, unpack_tag, ImageRow,
    LocalError, Package, PackageVersion, Target,
};
use forkd::paths::{data_dir, extension, file_name, is_inside, join_path, snapshot_dir};
use forkd::table::Table;
use forkd::tags::{is_safe_tag, validate_tag, TagError};
use forkd::workdirs::{
    check_removal, cleanup_workdir, dir_size_bytes, is_scratch_name, leftover_line, leftovers,
    plan_sweep, preflight_workdir, removable, workdir_has_live_process, ProcEntry, RemovalCheck,
    Sweep, WorkdirEnd,
};

#[test]
fn parse_volume_basic() {
    let v = parse_volume("/var/lib/forkd/vol/pyagent.img:/opt/cache").unwrap();
    assert_eq!(v.host_path, "/var/lib/forkd/vol/pyagent.img");
    assert_eq!(v.guest_path, "/opt/cache");
    assert!(!v.read_only);
}

#[test]
fn parse_volume_read_only() {
    let v = parse_volume("/var/lib/forkd/vol/models.img:/models:ro").unwrap();
    assert!(v.read_only);
}

#[test]
fn parse_volume_explicit_rw() {
    let v = parse_volume("/host.img:/guest:rw").unwrap();
    assert!(!v.read_only);
}

#[test]
fn parse_volume_rejects_missing_guest() {
    assert!(parse_volume("/host.img").is_err());
    assert!(parse_volume("/host.img:").is_err());
    assert!(parse_volume(":/guest").is_err());
}

#[test]
fn parse_volume_rejects_bad_flag() {
    assert!(parse_volume("/host.img:/guest:wat").is_err());
}

#[test]
fn volume_errors_say_what_is_wrong() {
    let e = parse_volume("/a:/b:c:d").unwrap_err();
    assert_eq!(
        e,
        VolumeSyntax::BadFlag { spec_text: "/a:/b:c:d".into(), flag: "c:d".into() }
    );
    assert_eq!(
        e.message(),
        "invalid --volume spec '/a:/b:c:d'; trailing flag must be 'ro' or 'rw', got 'c:d'"
    );
    assert_eq!(
        parse_volume("x").unwrap_err().message(),
        "invalid --volume spec 'x'; expected HOST:GUEST or HOST:GUEST:ro"
    );
}

#[test]
fn snapshot_dir_uses_data_dir() {
    let d = snapshot_dir(&data_dir(&None, &Some("/home/u".into())), "foo");
    assert!(d.ends_with("forkd/snapshots/foo"));
    assert_eq!(d, "/home/u/.local/share/forkd/snapshots/foo");
    assert_eq!(data_dir(&Some("/x".into()), &Some("/home/u".into())), "/x/forkd");
    assert_eq!(data_dir(&None, &None), "/tmp/.local/share/forkd");
}

#[test]
fn paths_are_taken_apart() {
    assert_eq!(join_path("/a", "b"), "/a/b");
    assert_eq!(join_path("/a/", "b"), "/a/b");
    assert_eq!(join_path("/a", "/b"), "/b");
    assert_eq!(file_name("/a/b.txt").as_deref(), Some("b.txt"));
    assert_eq!(file_name("/a/..").as_deref(), None);
    assert_eq!(extension("/a/b.tar.ext4").as_deref(), Some("ext4"));
    assert_eq!(extension("/a/.ext4").as_deref(), None);
    assert!(is_inside("/tmp/w/child-1.console", "/tmp/w"));
    assert!(is_inside("/tmp//w/./x", "/tmp/w/"));
    assert!(!is_inside("/tmp/work/x", "/tmp/w"));
    assert!(!is_inside("socket:[123]", "/tmp/w"));
    assert!(is_inside("/tmp/w", "/tmp/w"));
}

#[test]
fn safe_tags_are_plain_names() {
    assert!(is_safe_tag("py-base_1"));
    assert!(is_safe_tag(&"x".repeat(64)));
    assert!(!is_safe_tag(&"x".repeat(65)));
    assert!(!is_safe_tag(""));
    assert!(!is_safe_tag("a.b"));
    assert!(!is_safe_tag("../etc/passwd"));
    assert!(!is_safe_tag("tag with space"));
    assert!(!is_safe_tag("é"));
}

#[test]
fn command_line_tags_are_one_component() {
    assert!(validate_tag("py.base-1_x").is_ok());
    assert!(validate_tag("_x").is_ok());
    assert_eq!(validate_tag(""), Err(TagError::Empty));
    assert_eq!(TagError::Empty.message(), "invalid tag: empty");
    let long = "x".repeat(65);
    assert_eq!(
        validate_tag(&long).unwrap_err().message(),
        format!("invalid tag '{long}': longer than 64 chars (got 65)")
    );
    assert_eq!(
        validate_tag("../etc").unwrap_err().message(),
        "invalid tag '../etc': must start with a letter, digit, or '_' (got '.'). Tags cannot start with '.' or '-' or path separators."
    );
    assert_eq!(
        validate_tag("a/b").unwrap_err(),
        TagError::BadChar { tag: "a/b".into(), c: '/' }
    );
    assert_eq!(
        validate_tag("a\tb").unwrap_err().message(),
        "invalid tag 'a\tb': illegal character '\\t'. Allowed: letters, digits, '.', '_', '-'."
    );
}

#[test]
fn slugs_keep_letters_and_digits() {
    assert_eq!(slug("python:3.12-slim"), "python-3-12-slim");
    assert_eq!(slug("--a/é--"), "a-é");
    assert_eq!(slug("::"), "");
    assert_eq!(pack_file("py.base"), "py-base.forkd-snapshot.tar.zst");
    assert_eq!(rootfs_file("ubuntu:24.04"), "ubuntu-24-04.ext4");
    assert_eq!(push_file(12, "py.base-1"), "forkd-push-12-pybase1.tar.zst");
}

#[test]
fn pull_targets_are_told_apart() {
    assert_eq!(
        parse_target("https://h/p.tar.zst"),
        Ok(Target::Url("https://h/p.tar.zst".into()))
    );
    assert_eq!(
        parse_target("deeplethe/python-numpy"),
        Ok(Target::Package { name: "deeplethe/python-numpy".into(), version: "latest".into() })
    );
    assert_eq!(
        parse_target("o/n@1.2@x"),
        Ok(Target::Package { name: "o/n".into(), version: "1.2@x".into() })
    );
    assert!(parse_target("plain").unwrap_err().contains("invalid pull target 'plain'"));
    assert!(parse_target("a/b c").is_err());
    assert!(default_registry_url().ends_with("/registry.json"));
}

#[test]
fn versions_are_looked_up() {
    let mut versions: Table<PackageVersion> = Table::new();
    versions.insert(
        "latest".into(),
        PackageVersion { url: "https://h/x".into(), sha256: Some("AB".into()) },
    );
    let mut packages: Table<Package> = Table::new();
    packages.insert("o/n".into(), Package { versions, listed: vec!["latest".into(), "a\"b".into()] });
    let v = find_version(&packages, "o/n", "latest", "https://r").unwrap();
    assert_eq!(v.url, "https://h/x");
    assert_eq!(v.sha256.as_deref(), Some("AB"));
    assert_eq!(
        find_version(&packages, "o/n", "9", "https://r").unwrap_err(),
        "package 'o/n' has no version '9'. Available: [\"latest\", \"a\\\"b\"]"
    );
    assert_eq!(
        find_version(&packages, "o/x", "9", "https://r").unwrap_err(),
        "package 'o/x' not in registry at https://r. Run `curl https://r` to see what's available."
    );
    assert!(check_download(&Some("AB".into()), "ab").is_ok());
    assert!(check_download(&None, "ab").is_ok());
    assert!(check_download(&Some("AC".into()), "ab").unwrap_err().contains("sha256 mismatch"));
}

#[test]
fn packs_are_unpacked_under_names_that_can_be_used() {
    assert_eq!(unpack_tag(&Some("mine".into()), "../x").unwrap(), "mine");
    assert_eq!(unpack_tag(&None, "py").unwrap(), "py");
    assert_eq!(
        unpack_tag(&None, "../x").unwrap_err(),
        "pack manifest declares an invalid tag \"../x\": invalid tag '../x': must start with a letter, digit, or '_' (got '.'). Tags cannot start with '.' or '-' or path separators.. Pass --tag <safe-name> to override."
    );
    assert_eq!(begin_unpack("/p", false, &None).unwrap_err(), "pack file not found: /p");
    assert!(begin_unpack("/p", true, &Some("..".into())).is_err());
    assert!(begin_unpack("/p", true, &Some("ok".into())).is_ok());
    assert_eq!(unpack_over("t", "/d", true, true), Ok(true));
    assert_eq!(unpack_over("t", "/d", false, false), Ok(false));
    assert_eq!(
        unpack_over("t", "/d", true, false).unwrap_err(),
        "tag 't' already exists at /d; pass --force to overwrite"
    );
    assert_eq!(local_snapshot("/d", "py", true).unwrap(), "/d/snapshots/py");
    let e = local_snapshot("/d", "py", false).unwrap_err();
    assert_eq!(
        e.message(),
        "snapshot tag 'py' not found at /d/snapshots/py\nrun 'forkd snapshot --tag py ...' first"
    );
    assert!(matches!(local_snapshot("/d", "/x", true), Err(LocalError::Tag(_))));
}

#[test]
fn images_are_listed_in_columns() {
    assert!(images("/r", &Vec::new()).starts_with("no local snapshots at /r\n"));
    let rows = vec![ImageRow { tag: "py".into(), size: "1 MiB".into(), has_rootfs: false }];
    assert_eq!(
        images("/r", &rows),
        format!("{:<32}  {:>12}  ROOTFS?\n{:<32}  {:>12}  —\n", "TAG", "SIZE", "py", "1 MiB")
    );
}

fn proc_entry(name: &str, fds: Option<Vec<Option<&str>>>) -> ProcEntry {
    ProcEntry {
        name: name.into(),
        fds: fds.map(|v| v.into_iter().map(|f| f.map(String::from)).collect()),
    }
}

#[test]
fn work_dirs_in_use_are_noticed() {
    let dir = "/tmp/forkd-fork-x";
    let idle = vec![
        proc_entry("1", Some(vec![Some("/dev/null"), Some("/tmp/forkd-fork-xy/child")])),
        proc_entry("self", None),
    ];
    assert!(!workdir_has_live_process(&Some(idle), dir));
    let busy = vec![proc_entry("2", Some(vec![Some("/tmp/forkd-fork-x/child-1.console")]))];
    assert!(workdir_has_live_process(&Some(busy), dir));
    assert!(workdir_has_live_process(&None, dir));
    assert!(workdir_has_live_process(&Some(vec![proc_entry("3", None)]), dir));
    assert!(workdir_has_live_process(&Some(vec![proc_entry("4", Some(vec![None]))]), dir));
}

#[test]
fn runs_start_in_clean_directories() {
    assert_eq!(preflight_workdir("/tmp/forkd-fork-x", "fork", "x", false, false), Ok(false));
    assert_eq!(preflight_workdir("/tmp/forkd-fork-x", "fork", "x", true, false), Ok(true));
    assert!(preflight_workdir("/tmp/forkd-fork-x", "fork", "x", true, true)
        .unwrap_err()
        .starts_with("another `forkd fork` looks active on tag 'x'"));
    assert_eq!(
        preflight_workdir("/home/x", "fork", "x", true, false).unwrap_err(),
        "internal error: preflight refusing unexpected path: /home/x"
    );
    assert_eq!(cleanup_workdir("/tmp/forkd-run-x", true), WorkdirEnd::Remove);
    assert_eq!(cleanup_workdir("/home/x", true), WorkdirEnd::Refuse);
    assert_eq!(cleanup_workdir("/home/x", false), WorkdirEnd::Nothing);
}

#[test]
fn sweeps_take_only_leftovers() {
    let names: Vec<String> = ["x", "forkd-pull-9.tar.zst", "forkd-fork-b", "forkd-run-a", "forkd-fork-a"]
        .iter()
        .map(|s| s.to_string())
        .collect();
    let found = leftovers("/tmp", &names);
    assert_eq!(
        found,
        vec!["/tmp/forkd-fork-a", "/tmp/forkd-fork-b", "/tmp/forkd-pull-9.tar.zst"]
    );
    assert_eq!(
        removable(&found, &vec![true, false, false]),
        vec!["/tmp/forkd-fork-b", "/tmp/forkd-pull-9.tar.zst"]
    );
    for f in &found {
        assert_eq!(check_removal("/tmp", f), RemovalCheck::Remove);
    }
    assert_eq!(check_removal("/tmp", "/etc/forkd-fork-a"), RemovalCheck::Unexpected);
    assert_eq!(check_removal("/tmp", "/tmp/other"), RemovalCheck::Unexpected);
    assert_eq!(check_removal("/tmp", "/tmp/.."), RemovalCheck::NoName);
    assert!(is_scratch_name("forkd-unpack-1"));
    assert!(!is_scratch_name("forkd-"));
    assert!(leftover_line("/tmp/a", "1 B", true).starts_with("  SKIP /tmp/a"));
    assert_eq!(leftover_line("/tmp/a", "1 B", false), format!("  DEL  {:<48}  {:>10}", "/tmp/a", "1 B"));
    assert_eq!(plan_sweep("/tmp", 2, 1, true), Sweep::Delete);
    assert_eq!(plan_sweep("/tmp", 0, 0, true), Sweep::Nothing("no orphan work_dirs under /tmp".into()));
    assert_eq!(plan_sweep("/tmp", 2, 0, true), Sweep::AllLive("nothing safe to remove.".into()));
    assert!(matches!(plan_sweep("/tmp", 2, 1, false), Sweep::DryRun(_)));
    assert_eq!(dir_size_bytes(&vec![1, 2, 3]), 6);
}

fn snapshot_args() -> SnapshotArgs {
    SnapshotArgs {
        tag: Some("py".into()),
        kernel: Some("/k".into()),
        rootfs: Some("/r.ext4".into()),
        rw: false,
        tap: Some("forkd-tap0".into()),
        mem_size_mib: None,
        volumes: Vec::new(),
    }
}

fn snapshot_facts(volumes: usize) -> SnapshotFacts {
    SnapshotFacts {
        kernel_exists: true,
        rootfs_exists: true,
        workdir_exists: false,
        workdir_live: false,
        volume_exists: vec![true; volumes],
    }
}

#[test]
fn local_snapshots_are_planned() {
    let mut a = snapshot_args();
    a.volumes = vec!["/a.img:/opt/a:ro".into(), "/b.img:/opt/b".into()];
    a.mem_size_mib = Some(2048);
    let p = plan_snapshot(&a, &snapshot_facts(2), "/d", "/tmp").unwrap();
    assert!(!p.boot.rootfs_read_only);
    assert_eq!(p.boot.mem_size_mib, 2048);
    let net = p.boot.network.as_ref().unwrap();
    assert_eq!(net.guest_mac.as_deref(), Some("AA:FC:00:00:00:01"));
    assert_eq!(net.netmask.as_deref(), Some("255.255.255.0"));
    assert!(p.boot.boot_args.ends_with(" forkd.mounts=vdb:/opt/a,vdc:/opt/b"));
    assert_eq!(p.boot.work_dir, "/tmp/forkd-parent-py");
    assert_eq!(p.snap_dir, "/d/snapshots/py");
    assert_eq!(p.metadata.memory, "/d/snapshots/py/memory.bin");
    assert_eq!(p.metadata.volumes.len(), 2);
    assert!(p.metadata.volumes[0].read_only);
    a.rootfs = Some("/r.EXT4".into());
    assert!(plan_snapshot(&a, &snapshot_facts(2), "/d", "/tmp").unwrap().boot.rootfs_read_only);
}

#[test]
fn local_snapshots_are_refused_in_order() {
    let f = snapshot_facts(0);
    let mut a = snapshot_args();
    a.tag = None;
    assert_eq!(plan_snapshot(&a, &f, "/d", "/tmp").unwrap_err(), SnapshotRefusal::NoTag);
    a = snapshot_args();
    a.kernel = None;
    assert_eq!(plan_snapshot(&a, &f, "/d", "/tmp").unwrap_err(), SnapshotRefusal::NoKernel);
    a = snapshot_args();
    a.rootfs = None;
    assert_eq!(
        plan_snapshot(&a, &f, "/d", "/tmp").unwrap_err().message(),
        "--rootfs is required unless --from-sandbox is set"
    );
    a = snapshot_args();
    a.tag = Some("-x".into());
    assert!(matches!(plan_snapshot(&a, &f, "/d", "/tmp"), Err(SnapshotRefusal::Tag(_))));
    a = snapshot_args();
    let mut g = snapshot_facts(0);
    g.kernel_exists = false;
    assert_eq!(plan_snapshot(&a, &g, "/d", "/tmp").unwrap_err().message(), "kernel not found: /k");
    g = snapshot_facts(0);
    g.rootfs_exists = false;
    assert_eq!(plan_snapshot(&a, &g, "/d", "/tmp").unwrap_err().message(), "rootfs not found: /r.ext4");
    g = snapshot_facts(0);
    g.workdir_exists = true;
    assert!(plan_snapshot(&a, &g, "/d", "/tmp").unwrap().remove_stale);
    assert!(matches!(plan_snapshot(&a, &g, "/d", "/var"), Err(SnapshotRefusal::Workdir(_))));
    a.volumes = vec!["bad".into()];
    assert!(matches!(plan_snapshot(&a, &snapshot_facts(1), "/d", "/tmp"), Err(SnapshotRefusal::Volume(_))));
    a.volumes = (0..25).map(|i| format!("/v{i}:/m{i}")).collect();
    assert_eq!(
        plan_snapshot(&a, &snapshot_facts(25), "/d", "/tmp").unwrap_err().message(),
        "at most 24 volumes are supported (vdb..vdy)"
    );
    a.volumes = vec!["/v:/m".into()];
    g = snapshot_facts(1);
    g.volume_exists = vec![false];
    assert_eq!(
        plan_snapshot(&a, &g, "/d", "/tmp").unwrap_err(),
        SnapshotRefusal::VolumeMissing("/v".into())
    );
}

fn metadata(parent: Option<&str>) -> Snapshot {
    Snapshot {
        vmstate: "/v".into(),
        memory: "/m".into(),
        volumes: vec![VolumeSpec { host_path: "/h".into(), guest_path: "/g".into(), read_only: true }],
        parent_tag: parent.map(String::from),
        parent_content_hash: None,
    }
}

#[test]
fn local_forks_are_planned() {
    let mut f = ForkFacts {
        vmstate_exists: true,
        workdir_exists: true,
        workdir_live: false,
        stored: StoredMeta::Absent,
    };
    let p = plan_fork("py", 4, true, Some(256), &f, "/d", "/tmp").unwrap();
    assert_eq!(p.opts.n, 4);
    assert_eq!(p.opts.netns_offset, 0);
    assert_eq!(p.snapshot.memory, "/d/snapshots/py/memory.bin");
    assert_eq!(p.work_dir, "/tmp/forkd-fork-py");
    assert!(p.remove_stale);
    f.stored = StoredMeta::Read(metadata(None));
    assert_eq!(plan_fork("py", 1, false, None, &f, "/d", "/tmp").unwrap().snapshot.memory, "/m");
    f.stored = StoredMeta::Unreadable("parse /x: eof".into());
    assert_eq!(
        plan_fork("py", 1, false, None, &f, "/d", "/tmp").unwrap_err().message(),
        "parse /x: eof"
    );
    f.workdir_live = true;
    assert!(matches!(plan_fork("py", 1, false, None, &f, "/d", "/tmp"), Err(ForkRefusal::Workdir(_))));
    f.vmstate_exists = false;
    assert!(plan_fork("py", 1, false, None, &f, "/d", "/tmp")
        .unwrap_err()
        .message()
        .starts_with("snapshot tag 'py' not found at /d/snapshots/py"));
    assert!(matches!(plan_fork("", 1, false, None, &f, "/d", "/tmp"), Err(ForkRefusal::Tag(_))));
    assert!(load_snapshot_meta("/x", &StoredMeta::Absent).unwrap().volumes.is_empty());
    assert_eq!(load_snapshot_meta("/x", &StoredMeta::Read(metadata(None))).unwrap().volumes.len(), 1);
    assert_eq!(run_workdir("/tmp", "run", "t"), "/tmp/forkd-run-t");
}

#[test]
fn one_shot_runs_are_planned() {
    let cmd = vec!["true".to_string()];
    let p = plan_run("python:3.12", "/var/cache/forkd", "/k", true, "tap0", &cmd, "/tmp").unwrap();
    assert_eq!(p.rootfs, "/var/cache/forkd/python-3-12.ext4");
    assert_eq!(p.tag, "run-python-3-12");
    assert_eq!(p.work_dir, "/tmp/forkd-run-run-python-3-12");
    assert_eq!((p.rootfs_mib, p.boot_wait_secs, p.timeout_secs), (1536, 10, 60));
    assert!(p.snapshot.rw);
    assert_eq!(p.snapshot.tag, Some(p.tag.clone()));
    assert_eq!(p.snapshot.rootfs, Some(p.rootfs.clone()));
    assert_eq!(p.snapshot.kernel.as_deref(), Some("/k"));
    assert_eq!(p.snapshot.tap.as_deref(), Some("tap0"));
    assert_eq!(p.opts.n, 1);
    assert!(plan_run("i", "/c", "/k", true, "tap0", &Vec::new(), "/tmp").unwrap_err().starts_with("no command provided"));
    assert_eq!(
        plan_run("i", "/c", "/k", false, "tap0", &cmd, "/tmp").unwrap_err(),
        "kernel not found: /k\nset --kernel or FORKD_KERNEL"
    );
    assert_eq!(
        build_arguments("/s.sh", "img", "/o", 1536, &vec!["a".into(), "b".into()]),
        vec!["/s.sh", "img", "/o", "1536", "a", "b"]
    );
}

#[test]
fn scripts_are_found_nearest_first() {
    let above: Vec<String> = (0..8).map(|i| format!("/d{i}")).collect();
    let c = script_candidates(&Some("/env".into()), &above, "b.sh");
    assert_eq!(c.len(), 8);
    assert_eq!(c[0], "/env/b.sh");
    assert_eq!(c[1], "/d0/scripts/b.sh");
    assert_eq!(c[6], "/d5/scripts/b.sh");
    assert_eq!(c[7], "/usr/local/share/forkd/scripts/b.sh");
    let mut present = vec![false; 8];
    assert!(find_script("b.sh", &c, &present).unwrap_err().contains("could not find scripts/b.sh"));
    present[3] = true;
    present[7] = true;
    assert_eq!(find_script("b.sh", &c, &present).unwrap(), "/d2/scripts/b.sh");
}

#[test]
fn branch_requests_go_to_the_sandbox() {
    let c = branch_call("http://h:1//", &Some("tok".into()), "sb-1", &Some("new".into())).unwrap();
    assert_eq!(c.url, "http://h:1/v1/sandboxes/sb-1/branch");
    assert_eq!(c.body, "{\"tag\":\"new\"}");
    assert_eq!(c.authorization.as_deref(), Some("Bearer tok"));
    assert_eq!(branch_call("http://h", &None, "x", &None).unwrap().body, "{}");
    assert!(branch_call("http://h", &None, "x", &Some("a b".into())).is_err());
    assert_eq!(authorization(&None), None);
    assert_eq!(endpoint("http://h", "/v1/snapshots"), "http://h/v1/snapshots");
    assert_eq!(
        read_branch_answer("{\"tag\":\"t\",\"dir\":7,\"branched_from\":\"sb\"}").unwrap(),
        "tag:           t\ndir:           ?\nbranched_from: sb\n"
    );
    assert_eq!(read_branch_answer("nope"), None);
    assert!(branch_summary(&None, &None, &None).starts_with("tag:           ?\n"));
    let e = CallError::Status { code: 409, body: "x".into() };
    assert_eq!(e.message(), "HTTP 409: x");
    assert_eq!(e.branch_message(), "daemon returned HTTP 409: x");
    let t = CallError::Transport("down".into());
    assert_eq!(t.message(), "transport: down");
    assert_eq!(t.branch_message(), "HTTP POST failed: down");
}

fn row(id: Option<&str>, tag: Option<&str>) -> SandboxRow {
    SandboxRow {
        id: id.map(String::from),
        snapshot_tag: tag.map(String::from),
        pid: None,
        netns: None,
        guest_addr: None,
    }
}

#[test]
fn sandboxes_are_listed_in_columns() {
    let body = "[{\"id\":\"sb-65a1b2c3-0001\",\"snapshot_tag\":\"py\",\"pid\":42,\"netns\":null,\"guest_addr\":\"10.42.0.2:8888\"},7]";
    let rows = read_sandboxes(body).unwrap();
    assert_eq!(rows.len(), 2);
    assert_eq!(rows[0].pid, Some(42));
    assert_eq!(rows[1], row(None, None));
    assert_eq!(
        ls(&rows).unwrap(),
        "  ID                SNAPSHOT  PID       NETNS           GUEST_ADDR\n  sb-65a1b2c3-0001  py        42        —               10.42.0.2:8888\n  ?                 ?         —         —               —\n\n  2 sandboxes\n"
    );
    assert!(ls(&vec![row(Some("a"), None)]).unwrap().ends_with("\n\n  1 sandbox\n"));
    assert_eq!(ls(&Vec::new()), None);
    assert_eq!(read_sandboxes("{}"), Some(Vec::new()));
    assert_eq!(read_sandboxes("["), None);
}

#[test]
fn kills_pick_their_sandboxes() {
    let rows = vec![row(Some("a"), Some("x")), row(None, Some("x")), row(Some("b"), Some("y"))];
    let none: Vec<String> = Vec::new();
    assert_eq!(kill(&none, true, &None, &rows).unwrap(), vec!["a", "b"]);
    assert_eq!(kill(&none, false, &Some("y".into()), &rows).unwrap(), vec!["b"]);
    assert_eq!(kill(&none, true, &Some("y".into()), &rows).unwrap(), vec!["b"]);
    assert_eq!(kill(&vec!["q".into()], false, &None, &rows).unwrap(), vec!["q"]);
    assert_eq!(
        kill(&none, false, &None, &rows).unwrap_err(),
        "no sandbox specified; pass <ID>... or --all or --tag <TAG>"
    );
    assert!(needs_listing(true, &None));
    assert!(!needs_listing(false, &None));
    assert!(kill_result(0, 3).is_ok());
    assert_eq!(kill_result(2, 3).unwrap_err(), "2 of 3 kills failed");
}

#[test]
fn evaluations_show_results_or_errors() {
    assert_eq!(
        read_eval_output(" {\"error\":\"boom\",\"traceback\":\"tb\",\"result\":\"1\"}\n").unwrap(),
        EvalOutput::Failed(vec!["error: boom".into(), "tb".into()])
    );
    assert_eq!(
        read_eval_output("{\"result\":\"1\",\"result_json\":\"2\"}").unwrap(),
        EvalOutput::Shown(Some("2".into()))
    );
    assert_eq!(read_eval_output("{\"result\":\"1\"}").unwrap(), EvalOutput::Shown(Some("1".into())));
    assert_eq!(read_eval_output("{}").unwrap(), EvalOutput::Shown(None));
    assert_eq!(read_eval_output("x"), None);
    let a = EvalAnswer {
        error: Some("e".into()),
        traceback: None,
        stack: Some("s".into()),
        result_json: None,
        result: None,
    };
    assert_eq!(eval_output(&a), EvalOutput::Failed(vec!["error: e".into(), "s".into()]));
    assert_eq!(expression(&vec!["1".into(), "+ 1".into()]).unwrap(), "1 + 1");
    assert!(expression(&Vec::new()).is_err());
    assert!(check_command(&Vec::new()).is_err());
    assert!(check_command(&vec!["x".into()]).is_ok());
}

#[test]
fn agents_are_asked_a_while() {
    assert!(ping_again(29));
    assert!(!ping_again(30));
    assert_eq!(show_pong("{\"ok\":true}\n").unwrap(), "{\n  \"ok\": true\n}");
    assert!(read_pong("{\"ok\":true}").is_some());
    assert_eq!(show_pong(""), None);
    let mut a = ExecResponse { stdout: "".into(), stderr: "".into(), exit_code: 3, error: None };
    assert_eq!(exec_outcome(&a), Ok(3));
    a.error = Some("no such file".into());
    assert_eq!(exec_outcome(&a).unwrap_err(), "agent error: no such file");
}
