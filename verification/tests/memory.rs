use forkd::cgroup::{ensure_parent, has_memory_controller, mib_to_bytes, place_child, CgroupError};
use forkd::firecracker::{
    api_call, find_subslice, judge_answer, parse_answer, pause_call, read_answer, request_text,
    response_complete, resume_call, shutdown_call, snapshot_create_call, snapshot_load_call,
    wait_for_sock, write_protect_call, ApiAnswer, SnapshotKind, SockWait, BOOT_SOCK_SECS,
    CHILD_SOCK_SECS,
};
use forkd::fork::{
    eval_at, eval_in_netns, exec_at, exec_in_netns, physical_bytes, ping_at, ping_in_netns,
    prewarm, prewarm_result, spawn_command,
};
use forkd::memfd::{create_and_populate, Populating};
use forkd::merge::{apply_diff, seek_data, seek_hole, Extent, MergeWalk};
use forkd::uffd::{
    check_handshake, missing_feature_message, poll_event, register_wp, supports_write_protect,
    uffdio_api_request, uffdio_register_request, uffdio_writeprotect_request, writeprotect,
    GuestRegionUffdMapping, HandshakeError, PollOutcome, UffdMsg, UFFD_EVENT_PAGEFAULT,
};
use forkd::wp::{FaultAction, WpBranch, WpError, PAGE_SIZE};

#[test]
fn region_contains_addresses_within_bounds() {
    let r = GuestRegionUffdMapping {
        base_host_virt_addr: 0x1000,
        size: 0x4000,
        offset: 0,
        page_size_kib: 4,
    };
    assert!(r.contains(0x1000));
    assert!(r.contains(0x4FFF));
    assert!(!r.contains(0xFFF));
    assert!(!r.contains(0x5000));
}

#[test]
fn region_offset_for_translates_host_va_to_memory_bin_offset() {
    let r = GuestRegionUffdMapping {
        base_host_virt_addr: 0x10000,
        size: 0x4000,
        offset: 0x100,
        page_size_kib: 4,
    };
    assert_eq!(r.offset_for(0x10000), Some(0x100));
    assert_eq!(r.offset_for(0x11000), Some(0x1100));
    assert_eq!(r.offset_for(0x9000), None);
}

#[test]
fn regions_apart_in_the_file_back_addresses_apart() {
    let low = GuestRegionUffdMapping {
        base_host_virt_addr: 0x10000,
        size: 0x1000,
        offset: 0,
        page_size_kib: 4,
    };
    let high = GuestRegionUffdMapping {
        base_host_virt_addr: 0x40000,
        size: 0x1000,
        offset: 0x1000,
        page_size_kib: 4,
    };
    assert_eq!(low.offset_for(0x10FFF), Some(0xFFF));
    assert_eq!(high.offset_for(0x40000), Some(0x1000));
    assert_eq!(low.offset_for(0x40000), None);
}

#[test]
fn mib_conversion() {
    assert_eq!(mib_to_bytes(1), 1024 * 1024);
    assert_eq!(mib_to_bytes(256), 256 * 1024 * 1024);
    assert_eq!(mib_to_bytes(0), 0);
}

#[test]
fn mib_saturates_instead_of_overflowing() {
    let huge = u64::MAX / 1024;
    let _ = mib_to_bytes(huge);
    assert_eq!(mib_to_bytes(huge), u64::MAX);
}

#[test]
fn cgroup_parent_is_set_up_where_it_can_be() {
    assert!(has_memory_controller("cpu memory io"));
    assert!(!has_memory_controller("cpu memory_stat"));
    assert_eq!(ensure_parent(false, "", false, ""), Err(CgroupError::NotMounted));
    let steps = ensure_parent(true, "memory", false, "").unwrap();
    assert!(steps.create);
    assert!(steps.enable_memory);
    let done = ensure_parent(true, "memory", true, "memory").unwrap();
    assert!(!done.create);
    assert!(!done.enable_memory);
    let p = place_child("child-3", 77, 4096);
    assert_eq!(p.limit.text, "4096");
    assert_eq!(p.attach.text, "77");
    assert!(p.dir.ends_with("/child-3"));
    assert_eq!(p.limit.path, format!("{}/memory.max", p.dir));
    assert_eq!(p.attach.path, format!("{}/cgroup.procs", p.dir));
}

#[test]
fn apply_diff_copies_only_data_regions() {
    let mut base = vec![0xAAu8; 16 * 1024];
    let mut diff = vec![0u8; 16 * 1024];
    for i in 4096..8192 {
        diff[i] = 0xBB;
    }
    for i in 12288..16384 {
        diff[i] = 0xBB;
    }
    let extents = vec![
        Extent { start: 4096, end: 8192 },
        Extent { start: 12288, end: 16384 },
    ];
    let copied = apply_diff(&diff, &extents, &mut base).expect("apply_diff");
    assert_eq!(copied, 8192, "should copy exactly the 2x 4 KiB data regions");
    assert_eq!(base.len(), 16 * 1024);
    assert!(base[0..4096].iter().all(|&b| b == 0xAA));
    assert!(base[4096..8192].iter().all(|&b| b == 0xBB));
    assert!(base[8192..12288].iter().all(|&b| b == 0xAA));
    assert!(base[12288..16384].iter().all(|&b| b == 0xBB));
    let before = base.clone();
    assert_eq!(apply_diff(&diff, &extents, &mut base).unwrap(), 8192);
    assert_eq!(base, before);
}

#[test]
fn merging_what_changed_gives_the_later_memory() {
    let mut base: Vec<u8> = vec![1, 2, 3, 4, 5, 6];
    let later: Vec<u8> = vec![1, 9, 3, 4, 8, 6];
    let diff: Vec<u8> = vec![0, 9, 3, 0, 8, 0];
    let extents = vec![Extent { start: 1, end: 3 }, Extent { start: 4, end: 5 }];
    assert_eq!(apply_diff(&diff, &extents, &mut base).unwrap(), 3);
    assert_eq!(base, later);
}

#[test]
fn apply_diff_handles_empty_diff() {
    let mut base = vec![0xAAu8; 8192];
    let diff = vec![0u8; 8192];
    let copied = apply_diff(&diff, &Vec::new(), &mut base).expect("apply_diff");
    assert_eq!(copied, 0, "empty diff should copy nothing");
    assert!(base.iter().all(|&b| b == 0xAA), "base should be untouched");
}

#[test]
fn apply_diff_rejects_size_mismatch() {
    let mut base = vec![0xAAu8; 8 * 1024];
    let diff = vec![0xBBu8; 16 * 1024];
    let extents = vec![Extent { start: 0, end: 16 * 1024 }];
    let err = apply_diff(&diff, &extents, &mut base).expect_err("size mismatch should error");
    let msg = err.message();
    assert!(msg.contains("size mismatch"), "expected 'size mismatch' in error, got: {msg}");
    assert_eq!(base.len(), 8 * 1024, "base must not have been extended; got len {}", base.len());
    assert!(base.iter().all(|&b| b == 0xAA), "base bytes must be untouched");
}

#[test]
fn merge_walk_goes_from_data_to_hole() {
    let e = vec![Extent { start: 3, end: 5 }, Extent { start: 8, end: 9 }];
    assert_eq!(seek_data(&e, 0), Some(3));
    assert_eq!(seek_data(&e, 4), Some(4));
    assert_eq!(seek_data(&e, 9), None);
    assert_eq!(seek_hole(&e, 3), 5);
    let mut w = MergeWalk::start(10, 10).unwrap();
    assert!(w.on_data(Some(3)));
    w.on_hole(5);
    assert_eq!(w.next_chunk(), Some((3, 2)));
    assert_eq!(w.next_chunk(), None);
    assert!(w.on_data(Some(8)));
    w.on_hole(9);
    assert_eq!(w.next_chunk(), Some((8, 1)));
    assert_eq!(w.next_chunk(), None);
    assert!(!w.on_data(None));
    assert_eq!(w.copied, 3);
    assert!(MergeWalk::start(10, 11).is_err());
}

#[test]
fn long_regions_are_merged_in_chunks() {
    let len: u64 = (5 << 20) / 2;
    let mut w = MergeWalk::start(len, len).unwrap();
    assert!(w.on_data(Some(0)));
    w.on_hole(len);
    assert_eq!(w.next_chunk(), Some((0, 1 << 20)));
    assert_eq!(w.next_chunk(), Some((1 << 20, 1 << 20)));
    assert_eq!(w.next_chunk(), Some((2 << 20, 1 << 19)));
    assert_eq!(w.next_chunk(), None);
}

#[test]
fn arm_and_finalize_no_writes() {
    let size = 4 * PAGE_SIZE;
    let mut branch = WpBranch::begin(0x10000, size).unwrap();
    let bulk = branch.bulk_copy_clean();
    assert_eq!(bulk.len(), size / PAGE_SIZE, "all pages should be bulk-copied");
    assert_eq!(bulk, vec![0, 1, 2, 3]);
    let stats = branch.finalize(5);
    assert_eq!(stats.pages_captured_by_fault, 0);
    assert_eq!(stats.pages_captured_by_bulk as usize, size / PAGE_SIZE);
    assert_eq!(stats.total_pages, 4);
    assert_eq!(stats.arm_duration_nanos, 5);
}

#[test]
fn sockets_are_waited_for_until_the_time_is_over() {
    assert_eq!(wait_for_sock("/s", BOOT_SOCK_SECS, 0, true), SockWait::Ready);
    assert_eq!(wait_for_sock("/s", BOOT_SOCK_SECS, 2999, true), SockWait::Ready);
    assert_eq!(wait_for_sock("/s", BOOT_SOCK_SECS, 2999, false), SockWait::Again);
    let over = SockWait::GiveUp("socket /s never appeared within 3s".into());
    assert_eq!(wait_for_sock("/s", BOOT_SOCK_SECS, 3000, true), over);
    assert_eq!(wait_for_sock("/s", CHILD_SOCK_SECS, 4999, false), SockWait::Again);
    let over = SockWait::GiveUp("socket /s never appeared within 5s".into());
    assert_eq!(wait_for_sock("/s", CHILD_SOCK_SECS, 5000, false), over);
}

fn write_fault(addr: u64) -> UffdMsg {
    let mut arg = [0u8; 24];
    arg[0..8].copy_from_slice(&1u64.to_ne_bytes());
    arg[8..16].copy_from_slice(&addr.to_ne_bytes());
    UffdMsg { event: UFFD_EVENT_PAGEFAULT, reserved1: 0, reserved2: 0, reserved3: 0, arg }
}

#[test]
fn every_page_is_captured_once() {
    let mut branch = WpBranch::begin(0x10000, 4 * PAGE_SIZE).unwrap();
    let msg = write_fault(0x11234);
    assert_eq!(msg.as_pagefault(), (1, 0x11234));
    assert_eq!(
        branch.on_event(&msg),
        FaultAction::Serve { page: 1, page_addr: 0x11000, copy: true }
    );
    assert_eq!(
        branch.on_event(&write_fault(0x11000)),
        FaultAction::Serve { page: 1, page_addr: 0x11000, copy: false }
    );
    assert_eq!(branch.on_event(&write_fault(0x20000)), FaultAction::Ignore);
    assert_eq!(branch.on_event(&write_fault(0x1000)), FaultAction::Ignore);
    let mut other = write_fault(0x12000);
    other.event = 0x13;
    assert_eq!(branch.on_event(&other), FaultAction::Ignore);
    let mut read = write_fault(0x12000);
    read.arg[0..8].copy_from_slice(&0u64.to_ne_bytes());
    assert_eq!(branch.on_event(&read), FaultAction::Ignore);
    assert_eq!(branch.claim_clean(0), Some(0));
    assert_eq!(branch.bulk_copy_clean(), vec![2, 3]);
    assert_eq!(branch.total_pages(), 4);
    let stats = branch.finalize(0);
    assert_eq!(stats.pages_captured_by_fault, 1);
    assert_eq!(stats.pages_captured_by_bulk, 3);
}

#[test]
fn a_capture_holds_the_memory_of_one_moment() {
    let base: u64 = 0x10000;
    let mut branch = WpBranch::begin(base, 4 * PAGE_SIZE).unwrap();
    let frozen: Vec<u8> = vec![10, 11, 12, 13];
    let mut live = frozen.clone();
    let mut file: Vec<u8> = vec![0; 4];
    let first = branch.claim_clean(0).unwrap();
    file[first] = live[first];
    for (page, value) in [(2usize, 90u8), (0, 91), (2, 92)] {
        let addr = base + (page * PAGE_SIZE) as u64 + 7;
        match branch.on_event(&write_fault(addr)) {
            FaultAction::Serve { page: p, copy, .. } => {
                assert_eq!(p, page);
                if copy {
                    file[p] = live[p];
                }
                live[p] = value;
            }
            FaultAction::Ignore => panic!("page {page} was not served"),
        }
    }
    for p in branch.bulk_copy_clean() {
        file[p] = live[p];
    }
    assert_eq!(live, vec![91, 11, 92, 13]);
    assert_eq!(file, frozen);
    let stats = branch.finalize(0);
    assert_eq!((stats.pages_captured_by_fault, stats.pages_captured_by_bulk), (1, 3));
}

#[test]
fn captures_need_a_region_of_whole_pages() {
    assert!(matches!(WpBranch::begin(0, PAGE_SIZE), Err(WpError::NullRegion)));
    assert!(matches!(WpBranch::begin(1, 0), Err(WpError::BadSize { size: 0 })));
    assert!(matches!(WpBranch::begin(1, 5), Err(WpError::BadSize { size: 5 })));
}

#[test]
fn request_numbers_are_those_of_the_kernel() {
    assert_eq!(uffdio_api_request(), 0xC018_AA3F);
    assert_eq!(uffdio_register_request(), 0xC020_AA00);
    assert_eq!(uffdio_writeprotect_request(), 0xC018_AA06);
    assert!(!supports_write_protect(0));
    assert!(!supports_write_protect(1));
    assert!(supports_write_protect(0x201));
    assert!(missing_feature_message(0).len() > 0);
    let r = register_wp(0x1000, 0x2000);
    assert_eq!((r.range.start, r.range.len, r.mode, r.ioctls), (0x1000, 0x2000, 2, 0));
    assert_eq!(writeprotect(0, 4096, true).mode, 1);
    assert_eq!(writeprotect(0, 4096, false).mode, 0);
}

#[test]
fn polling_tells_events_from_silence() {
    assert_eq!(poll_event(0, false, 0, false), PollOutcome::Nothing);
    assert_eq!(poll_event(-1, false, 0, false), PollOutcome::PollFailed);
    assert_eq!(poll_event(1, true, 32, false), PollOutcome::Event);
    assert_eq!(poll_event(1, true, 5, false), PollOutcome::ShortRead);
    assert_eq!(poll_event(1, true, -1, true), PollOutcome::Nothing);
    assert_eq!(poll_event(1, true, -1, false), PollOutcome::ReadFailed);
}

#[test]
fn handshakes_bring_a_descriptor() {
    assert_eq!(check_handshake(false, false, Some(7)), Ok(7));
    assert_eq!(check_handshake(true, true, Some(7)), Err(HandshakeError::ControlTruncated));
    assert_eq!(check_handshake(false, true, Some(7)), Err(HandshakeError::DataTruncated));
    assert_eq!(check_handshake(false, false, None), Err(HandshakeError::NoDescriptor));
    assert!(HandshakeError::NoDescriptor.message().contains("SCM_RIGHTS"));
}

#[test]
fn create_and_populate_succeeds_for_small_file() {
    let how = Populating::Copied { fd: 9, size_bytes: 4096, copied: 4096 };
    let region = create_and_populate("/tmp/small.bin", &how).unwrap();
    assert_eq!(region.size_bytes(), 4096);
    let s = region.backend_path();
    assert!(s.starts_with("/proc/self/fd/"), "expected /proc/self/fd/N path, got: {s}");
    assert_eq!(s, "/proc/self/fd/9");
}

#[test]
fn missing_source_file_errors() {
    let how = Populating::OpenFailed("No such file or directory (os error 2)".into());
    let result =
        create_and_populate("/nonexistent/forkd-memfd-test/this-must-not-exist", &how);
    assert!(result.is_err(), "should fail early when source file doesn't exist");
    let msg = result.unwrap_err();
    assert!(msg.contains("this-must-not-exist"), "error must include source path; got: {msg}");
}

#[test]
fn short_copies_make_no_region() {
    let how = Populating::Copied { fd: 9, size_bytes: 10, copied: 4 };
    assert_eq!(
        create_and_populate("/m", &how).unwrap_err(),
        "short copy: source /m is 10 B but copied 4"
    );
    for how in [
        Populating::StatFailed("e".into()),
        Populating::BadName("e".into()),
        Populating::CreateFailed("e".into()),
        Populating::ResizeFailed { size_bytes: 3, error: "e".into() },
        Populating::CopyFailed("e".into()),
    ] {
        assert!(create_and_populate("/m", &how).unwrap_err().ends_with(": e"));
    }
}

#[test]
fn calls_to_the_vmm_are_http() {
    let c = pause_call();
    assert_eq!(c.method, "PATCH");
    assert_eq!(c.path, "/vm");
    assert_eq!(c.body, "{\"state\":\"Paused\"}");
    assert_eq!(resume_call().body, "{\"state\":\"Resumed\"}");
    assert_eq!(shutdown_call().path, "/actions");
    let text = request_text(&c);
    assert!(text.starts_with("PATCH /vm HTTP/1.1\r\n"), "{text}");
    assert!(text.ends_with("\r\n\r\n{\"state\":\"Paused\"}"), "{text}");
    let s = snapshot_create_call("/v", "/m", SnapshotKind::Diff);
    assert_eq!(s.path, "/snapshot/create");
    assert!(s.body.contains("\"snapshot_type\":\"Diff\""));
    let v = snapshot_create_call("/v", "/m", SnapshotKind::VmstateOnly);
    assert_eq!(
        v.body,
        "{\"mem_file_path\":\"/m\",\"snapshot_path\":\"/v\",\"snapshot_type\":\"VmstateOnly\"}"
    );
    let w = write_protect_call("/s\"x");
    assert_eq!((w.method.as_str(), w.path.as_str()), ("PUT", "/uffd/wp"));
    assert_eq!(w.body, "{\"uds_path\":\"/s\\\"x\"}");
    let l = snapshot_load_call("/v", "/m", true, false);
    assert_eq!(l.path, "/snapshot/load");
    assert!(l.body.contains("\"/m\""));
}

#[test]
fn answers_are_judged_by_their_status() {
    let c = api_call("PUT", "/x", "{}");
    assert!(judge_answer(&c, "HTTP/1.1 204 No Content\r\n\r\n").is_ok());
    let e = judge_answer(&c, "HTTP/1.1 400 Bad\r\nContent-Length: 4\r\n\r\noops").unwrap_err();
    assert!(e.contains("400") && e.contains("oops"), "{e}");
    assert!(matches!(parse_answer("HTTP/1.1 200 OK\r\n\r\n"), ApiAnswer::Accepted));
    assert!(matches!(parse_answer("garbage"), ApiAnswer::Unparseable { .. }));
    assert!(read_answer(&c, b"HTTP/1.1 204 \xff\r\n\r\n").is_ok());
}

#[test]
fn responses_are_complete_with_their_body() {
    assert!(!response_complete(b"HTTP/1.1 200 OK\r\ncontent-LENGTH: 4\r\n\r\nabc"));
    assert!(response_complete(b"HTTP/1.1 200 OK\r\ncontent-LENGTH: 4\r\n\r\nabcd"));
    assert!(response_complete(b"HTTP/1.1 200 OK\r\ncontent-LENGTH: 4\r\n\r\nabcdef"));
    assert!(response_complete(b"HTTP/1.1 204 No Content\r\n\r\n"));
    assert!(!response_complete(b"HTTP/1.1 204 No Content\r\n"));
    assert!(!response_complete(b"HTTP/1.1 \xff\r\n\r\n"));
    assert_eq!(find_subslice(b"abcabd", b"abd"), Some(3));
    assert_eq!(find_subslice(b"abc", b"x"), None);
}

#[test]
fn agent_requests_are_one_line_of_json() {
    let a = exec_at(&None, "10.42.0.2:8888", &vec!["echo".into(), "a\"b".into()], 30);
    assert_eq!(a.line, "{\"action\":\"exec\",\"args\":[\"echo\",\"a\\\"b\"],\"timeout\":30}\n");
    assert_eq!(a.read_secs, Some(35));
    assert_eq!(a.netns_path, None);
    let b = exec_in_netns("forkd-child-3", "10.42.0.2:8888", &vec!["x".into()], u64::MAX);
    assert_eq!(b.netns_path.as_deref(), Some("/var/run/netns/forkd-child-3"));
    assert_eq!(b.read_secs, None);
    assert_eq!(eval_at(&None, "a", "1+1").line, "{\"action\":\"eval\",\"code\":\"1+1\"}\n");
    assert_eq!(eval_in_netns("n", "a", "x\n").line, "{\"action\":\"eval\",\"code\":\"x\\n\"}\n");
    assert_eq!(ping_at(&None, "a").line, "{\"action\":\"ping\"}\n");
    assert_eq!(ping_in_netns("n", "a").read_secs, Some(3));
}

#[test]
fn children_are_spawned_in_their_namespace() {
    let plain = spawn_command(&None, "/w/child-1.sock");
    assert_eq!(plain[0], "firecracker");
    let inside = spawn_command(&Some("forkd-child-1".into()), "/w/child-1.sock");
    assert_eq!(inside[0..4], ["ip", "netns", "exec", "forkd-child-1"]);
    assert_eq!(inside[4..], plain[..]);
    let p = prewarm("/dev/shm/x", "/w/child-1.sock", 12);
    assert!(p.vmstate.starts_with("/dev/shm/x/"));
    assert_ne!(p.vmstate, p.memory);
    assert!(prewarm_result(Ok(()), Ok(())).is_ok());
    assert!(prewarm_result(Err("boom".into()), Ok(())).unwrap_err().contains("boom"));
    assert!(prewarm_result(Ok(()), Err("stuck".into())).unwrap_err().contains("stuck"));
    assert_eq!(physical_bytes(3), 1536);
    assert_eq!(physical_bytes(u64::MAX), u64::MAX);
}
