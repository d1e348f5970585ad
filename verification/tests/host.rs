use forkd::doctor::{
    check_cgroup_v2, check_daemon, check_docker_daemon, check_firecracker_binary,
    check_firecracker_version, check_host, check_hw_virt, check_ip_forward, check_kernel_image, check_kvm,
    check_netns_count, check_platform, check_snapshot_dir, check_snapshot_dir_space,
    check_tap_device, check_version_text, kernel_candidates, report, run, snapshots_dir, verdict,
    Check, DaemonReply, DiskSpace, DockerInfo, HostFacts, Status,
};
use forkd::text::{
    dec_string, hex_string, join, padded_left, padded_right, parse_hex, parse_unsigned,
    split_lines, split_once, split_words, str_less, trimmed,
};
use forkd::trials::{
    after_exit, after_label, after_poll, before_label, bench_region, check_bench_snapshot,
    check_pages, fault_page, guest_image, huge_pages, judge_guest_write, judge_restored, judge_snapshot, locate_fault,
    page_verdict, parse_region_size, probe_page, read_anon_hugepages_in_smaps, AfterExit,
    AfterPoll, GuestExit, CODE_AT, GUEST_MEMORY, TARGET_AT,
};
use forkd::uffd::{UffdMsg, UFFD_EVENT_PAGEFAULT};

#[test]
fn platform_is_named_by_its_first_words() {
    let c = check_platform(true, &Ok("Linux version 6.1.0 (gcc) more".into()));
    assert_eq!((c.status, c.detail.as_str()), (Status::Pass, "Linux version 6.1.0"));
    assert_eq!(check_platform(false, &Ok("".into())).status, Status::Fail);
    let c = check_platform(true, &Err("denied".into()));
    assert_eq!((c.status, c.detail.as_str()), (Status::Warn, "read /proc/version: denied"));
}

#[test]
fn virtualization_flags_are_looked_up() {
    let info = |f: &str| Ok(format!("processor : 0\nflags\t\t: fpu {f} sse\nflags : x\n"));
    assert_eq!(check_hw_virt(true, &info("vmx")).status, Status::Pass);
    assert!(check_hw_virt(true, &info("svm")).detail.starts_with("svm"));
    assert_eq!(check_hw_virt(true, &info("mmx")).status, Status::Fail);
    assert_eq!(check_hw_virt(false, &info("vmx")).status, Status::Skip);
    assert_eq!(check_hw_virt(true, &Err("e".into())).status, Status::Warn);
}

#[test]
fn host_devices_are_judged() {
    assert_eq!(check_kvm(true, true, &Ok(())).status, Status::Pass);
    assert_eq!(check_kvm(true, false, &Ok(())).status, Status::Fail);
    assert_eq!(check_kvm(true, true, &Err("denied".into())).detail, "/dev/kvm: denied");
    assert_eq!(check_kvm(false, true, &Ok(())).status, Status::Skip);
    assert_eq!(check_cgroup_v2(true, &Some(" cpu memory\n".into())).detail, "cpu memory");
    assert_eq!(check_cgroup_v2(true, &None).status, Status::Warn);
    assert_eq!(check_cgroup_v2(false, &None).status, Status::Warn);
    assert_eq!(check_ip_forward(&Ok("1\n".into())).status, Status::Pass);
    assert_eq!(check_ip_forward(&Ok("0\n".into())).detail, "0");
    assert_eq!(check_ip_forward(&Err("e".into())).status, Status::Warn);
    let c = check_tap_device("forkd-tap0", true, &Some("up\n".into()));
    assert_eq!((c.status, c.detail.as_str()), (Status::Pass, "forkd-tap0 (up)"));
    assert_eq!(check_tap_device("t", true, &Some("down".into())).status, Status::Warn);
    assert_eq!(check_tap_device("t", true, &None).detail, "t (?)");
    assert_eq!(check_tap_device("t", false, &None).status, Status::Fail);
    let names = vec!["forkd-child-1".to_string(), "x".into(), "forkd-child-2".into()];
    assert_eq!(check_netns_count(true, &names).detail, "2 provisioned");
    assert_eq!(check_netns_count(true, &Vec::new()).status, Status::Warn);
    assert_eq!(check_netns_count(false, &names).detail, "no /var/run/netns");
}

#[test]
fn firecracker_versions_are_compared() {
    let f = |s: &str| check_version_text(s);
    assert_eq!(f("Firecracker v1.10.1\nextra").status, Status::Pass);
    assert_eq!(f("Firecracker v1.10.1").detail, "v1.10.1");
    assert_eq!(f("Firecracker v1.5.0").status, Status::Warn);
    assert_eq!(f("Firecracker v1.4.9").status, Status::Fail);
    assert_eq!(f("Firecracker v2.0.0").status, Status::Pass);
    assert_eq!(f("garbage").status, Status::Warn);
    assert_eq!(check_firecracker_version(&None).status, Status::Skip);
    assert_eq!(
        check_firecracker_version(&Some(b"Firecracker v1.12.0 \xff".to_vec())).status,
        Status::Pass
    );
    assert_eq!(check_firecracker_binary(&Some(b"/usr/bin/firecracker\n".to_vec())).detail, "/usr/bin/firecracker");
    assert_eq!(check_firecracker_binary(&Some(b"/x\xff\n".to_vec())).detail, "/x\u{fffd}");
    assert_eq!(check_firecracker_binary(&None).status, Status::Fail);
}

#[test]
fn files_of_the_host_are_judged() {
    assert_eq!(kernel_candidates().len(), 4);
    assert_eq!(check_kernel_image(&[false, true, true, false]).detail, "./vmlinux");
    assert_eq!(check_kernel_image(&[false; 4]).status, Status::Warn);
    assert_eq!(snapshots_dir(&None, &None), "/root/.local/share/forkd/snapshots");
    assert_eq!(snapshots_dir(&Some("/x".into()), &None), "/x/forkd/snapshots");
    assert_eq!(check_snapshot_dir("/d", true, 3).detail, "/d (3 snapshots)");
    assert_eq!(check_snapshot_dir("/d", false, 0).detail, "/d not created yet");
    let space = |blocks: u64| DiskSpace::Free {
        blocks,
        block_size: 4096,
        gib_1: "A".into(),
        gib_2: "B".into(),
        probe: "/p".into(),
    };
    let gib: u64 = 262144;
    assert_eq!(check_snapshot_dir_space(&space(5 * gib)).detail, "A GiB free at /p");
    assert_eq!(check_snapshot_dir_space(&space(gib)).status, Status::Warn);
    let low = check_snapshot_dir_space(&space(gib - 1));
    assert_eq!((low.status, low.detail.as_str()), (Status::Fail, "B GiB free"));
    for s in [DiskSpace::NoPath, DiskSpace::BadPath, DiskSpace::StatFailed] {
        assert_eq!(check_snapshot_dir_space(&s).status, Status::Warn);
    }
}

#[test]
fn services_are_judged() {
    assert_eq!(check_docker_daemon(true, &DockerInfo::Reachable).status, Status::Pass);
    assert_eq!(check_docker_daemon(false, &DockerInfo::Reachable).detail, "not installed");
    let denied = DockerInfo::Failed { stderr: b"Got permission denied while".to_vec() };
    assert!(check_docker_daemon(true, &denied).hint.unwrap().contains("usermod"));
    let down = DockerInfo::Failed { stderr: b"is the daemon running?".to_vec() };
    assert!(check_docker_daemon(true, &down).hint.unwrap().contains("systemctl"));
    let e = check_docker_daemon(true, &DockerInfo::Error("x".into()));
    assert_eq!(e.detail, "docker info errored: x");
    assert_eq!(check_daemon("u", &DaemonReply::Answered).detail, "u responding");
    assert_eq!(check_daemon("u", &DaemonReply::Status(401)).detail, "u HTTP 401");
    assert_eq!(check_daemon("u", &DaemonReply::Status(503)).detail, "u HTTP 503");
    assert_eq!(check_daemon("u", &DaemonReply::Unreachable("no".into())).status, Status::Warn);
}

#[test]
fn reports_count_every_check() {
    let checks = vec![
        Check::pass("a", "ok"),
        Check::warn("longer", "hm", "do this"),
        Check::skip("c", "-"),
    ];
    let text = report(&checks);
    assert!(text.ends_with("\n  pass=1  warn=1  fail=0  skip=1\n"), "{text}");
    assert!(text.contains("do this"));
    assert!(text.contains("a       ok\n"), "{text}");
    assert!(verdict(&checks).is_ok());
    let bad = vec![Check::fail("x", "broken", "fix")];
    assert_eq!(verdict(&bad).unwrap_err(), "doctor found blocking issues — see above");
    assert_ne!(Status::Pass.glyph(), Status::Fail.glyph());
}

fn sound_host() -> HostFacts {
    HostFacts {
        linux: true,
        version: Ok("Linux version 6.1.0 (gcc)".into()),
        cpuinfo: Ok("flags : fpu vmx\n".into()),
        kvm_exists: true,
        kvm_open: Ok(()),
        cgroup_mounted: true,
        cgroup_controllers: Some("cpu memory\n".into()),
        ip_forward: Ok("1\n".into()),
        tap_present: true,
        tap_operstate: Some("up\n".into()),
        netns_dir_exists: true,
        netns_names: vec!["forkd-child-1".into()],
        firecracker_place: Some(b"/usr/bin/firecracker\n".to_vec()),
        firecracker_version: Some(b"Firecracker v1.10.1\n".to_vec()),
        kernels: [false, true, false, false],
        xdg_data_home: Some("/x".into()),
        home: None,
        snapshots_exist: true,
        snapshot_count: 2,
        space: DiskSpace::Free {
            blocks: 1 << 30,
            block_size: 4096,
            gib_1: "4096.0".into(),
            gib_2: "4096.00".into(),
            probe: "/x".into(),
        },
        docker_installed: true,
        docker: DockerInfo::Reachable,
        daemon_url: "http://h:1".into(),
        daemon: DaemonReply::Answered,
    }
}

#[test]
fn a_run_makes_every_check_in_order() {
    let host = sound_host();
    let found: Vec<(String, String)> =
        check_host(&host).into_iter().map(|c| (c.name, c.detail)).collect();
    let expected = [
        ("platform", "Linux version 6.1.0"),
        ("hw virt", "vmx (CPU supports virtualization)"),
        ("kvm", "/dev/kvm OK"),
        ("cgroup v2", "cpu memory"),
        ("ip_forward", "1 (forwarding enabled)"),
        ("tap device", "forkd-tap0 (up)"),
        ("per-child netns", "1 provisioned"),
        ("firecracker", "/usr/bin/firecracker"),
        ("firecracker version", "v1.10.1"),
        ("kernel image", "./vmlinux"),
        ("snapshot dir", "/x/forkd/snapshots (2 snapshots)"),
        ("snapshot dir space", "4096.0 GiB free at /x"),
        ("docker", "daemon reachable"),
        ("daemon", "http://h:1 responding"),
    ];
    let expected: Vec<(String, String)> =
        expected.iter().map(|(n, d)| (n.to_string(), d.to_string())).collect();
    assert_eq!(found, expected);
    let (text, result) = run(&host);
    assert_eq!(text, report(&check_host(&host)));
    assert!(text.ends_with("\n  pass=14  warn=0  fail=0  skip=0\n"), "{text}");
    assert!(result.is_ok());
    let mut bad = sound_host();
    bad.kvm_exists = false;
    bad.daemon = DaemonReply::Unreachable("no".into());
    let (text, result) = run(&bad);
    assert!(text.ends_with("\n  pass=12  warn=1  fail=1  skip=0\n"), "{text}");
    assert_eq!(result.unwrap_err(), "doctor found blocking issues — see above");
}

#[test]
fn texts_are_taken_apart() {
    assert_eq!(dec_string(u64::MAX), "18446744073709551615");
    assert_eq!(hex_string(0x2a), "2a");
    assert_eq!(padded_left("7", 3, '0'), "007");
    assert_eq!(padded_right("7", 3, '.'), "7..");
    assert_eq!(parse_unsigned("+42", 100), Some(42));
    assert_eq!(parse_unsigned("101", 100), None);
    assert_eq!(parse_unsigned("", 100), None);
    assert_eq!(parse_hex("7fFf", u64::MAX), Some(0x7fff));
    assert_eq!(parse_hex("x", u64::MAX), None);
    assert_eq!(trimmed("\u{3000} a b\n"), "a b");
    assert_eq!(split_words("a\u{a0}b  c"), vec!["a", "b", "c"]);
    assert_eq!(split_lines("a\r\nb\n\nc"), vec!["a", "b", "", "c"]);
    assert_eq!(split_once("k=v=w", '='), Some(("k".into(), "v=w".into())));
    assert_eq!(split_once("k", '='), None);
    assert_eq!(join(&vec!["a".into(), "b".into()], ", "), "a, b");
    assert!(str_less("a", "ab") && str_less("a\u{ff}", "b") && !str_less("b", "b"));
}

#[test]
fn benchmark_regions_and_snapshots_are_checked() {
    assert_eq!(bench_region(2), Ok((2 << 20, 512)));
    assert_eq!(bench_region(0).unwrap_err(), "--region-mib must be >= 1");
    assert!(check_bench_snapshot(&vec![0x42; 64], 64).is_ok());
    assert_eq!(
        check_bench_snapshot(&vec![0x42; 63], 64).unwrap_err(),
        "snapshot file size 63 != region size 64"
    );
    let mut data = vec![0x42; 64];
    data[3] = 0;
    assert!(check_bench_snapshot(&data, 64).unwrap_err().starts_with("1 bytes in snapshot"));
}

#[test]
fn region_sizes_are_read_from_the_setting() {
    assert_eq!(parse_region_size(&None), 64 << 20);
    assert_eq!(parse_region_size(&Some("8".into())), 8 << 20);
    assert_eq!(parse_region_size(&Some("x".into())), 64 << 20);
}

#[test]
fn labels_show_which_pages_leaked() {
    assert_eq!(before_label(7), "PAGE_000007_BEFORE");
    assert_eq!(after_label(7), "PAGE_000007_AFTER ");
    let mut data = vec![0u8; 2 * 4096];
    data[..18].copy_from_slice(before_label(0).as_bytes());
    data[4096..4096 + 18].copy_from_slice(after_label(1).as_bytes());
    assert_eq!(check_pages(&data, 2 * 4096), Ok(vec![1]));
    assert!(check_pages(&data, 4096).unwrap_err().contains("expected 4096"));
    assert!(page_verdict(0).is_ok());
    assert!(page_verdict(2).unwrap_err().contains("2 snapshot pages"));
}

#[test]
fn huge_pages_of_a_region_are_summed() {
    let smaps = "7f0000000000-7f0000400000 rw-p 0 00:00 0\nRss: 1 kB\nAnonHugePages:      2048 kB\n7f0000400000-7f0000800000 rw-p\nAnonHugePages: 4096 kB\n600000-700000 r--p\nAnonHugePages: 9 kB\n";
    assert_eq!(read_anon_hugepages_in_smaps(smaps, 0x7f0000000000, 0x800000), Some(6144));
    assert_eq!(read_anon_hugepages_in_smaps(smaps, 0x7f0000000000, 0x400000), Some(2048));
    assert_eq!(read_anon_hugepages_in_smaps(smaps, usize::MAX, 1), None);
    let huge = format!("1-2 \nAnonHugePages: {} kB\nAnonHugePages: 1 kB\n", usize::MAX);
    assert_eq!(read_anon_hugepages_in_smaps(&huge, 1, 1), None);
    assert_eq!(read_anon_hugepages_in_smaps(&huge, 2, 1), Some(0));
    assert_eq!(huge_pages(6144), 3);
    assert_eq!(locate_fault(0x203008, 0x200000), (0x3008, 3));
    assert!(probe_page(4 << 20) < 1024);
}

#[test]
fn a_fault_is_waited_for_fifty_times() {
    let mut arg = [0u8; 24];
    arg[8..16].copy_from_slice(&0x7f00_0000_1234u64.to_ne_bytes());
    let fault =
        UffdMsg { event: UFFD_EVENT_PAGEFAULT, reserved1: 0, reserved2: 0, reserved3: 0, arg };
    let other = UffdMsg { event: UFFD_EVENT_PAGEFAULT + 1, ..fault };
    assert_eq!(fault_page(&fault), Some((0x7f00_0000_1234, 0x7f00_0000_1000)));
    assert_eq!(fault_page(&other), None);
    let caught = AfterPoll::Caught { addr: 0x7f00_0000_1234, page: 0x7f00_0000_1000 };
    assert_eq!(after_poll(1, &Some(fault)), caught);
    assert_eq!(after_poll(50, &Some(fault)), caught);
    assert_eq!(after_poll(49, &None), AfterPoll::Again);
    assert_eq!(after_poll(49, &Some(other)), AfterPoll::Again);
    assert_eq!(after_poll(50, &None), AfterPoll::GiveUp);
}

#[test]
fn guest_writes_are_judged() {
    let image = guest_image();
    assert_eq!(image.len(), GUEST_MEMORY);
    assert_eq!(image[TARGET_AT], 0xbe);
    assert_ne!(image[CODE_AT], 0);
    assert!(judge_guest_write(0x42, &vec![0x1000], 0xbe).is_ok());
    assert!(judge_guest_write(0, &vec![0x1000], 0xbe).unwrap_err().contains("0x00"));
    assert!(judge_guest_write(0x42, &Vec::new(), 0xbe).is_err());
    assert!(judge_guest_write(0x42, &vec![0x1000], 0x42).unwrap_err().contains("0x42, expected 0xbe"));
    assert!(judge_snapshot(&image).is_ok());
    assert!(judge_snapshot(&vec![0; 3]).unwrap_err().contains("3 != 1048576"));
    assert!(judge_snapshot(&vec![0; GUEST_MEMORY]).unwrap_err().contains("0x00, expected 0xbe"));
    assert!(judge_restored(0x42).is_ok());
    assert!(judge_restored(0x41).unwrap_err().contains("0x41"));
}

#[test]
fn guests_run_until_they_halt() {
    assert_eq!(after_exit(0, &GuestExit::Device), AfterExit::RunAgain);
    assert_eq!(after_exit(0, &GuestExit::Halted), AfterExit::Stop);
    assert_eq!(after_exit(0, &GuestExit::Other("x".into())), AfterExit::Stop);
    assert_eq!(after_exit(21, &GuestExit::Device), AfterExit::Runaway);
}
