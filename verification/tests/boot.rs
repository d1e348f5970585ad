use forkd::boot::{
    volume_device_name, BootConfig, NetworkConfig, VolumeSpec, MAX_VOLUMES,
};
use forkd::firecracker::boot_calls;
use forkd::fork::{ForkOpts, MemoryBackend, Snapshot};

fn volume(host: &str, guest: &str, read_only: bool) -> VolumeSpec {
    VolumeSpec { host_path: host.into(), guest_path: guest.into(), read_only }
}

#[test]
fn boot_config_quickstart_has_sane_defaults() {
    let cfg = BootConfig::quickstart("/tmp/k".into(), "/tmp/r".into(), "/tmp/w".into());
    assert_eq!(cfg.vcpu_count, 2);
    assert_eq!(cfg.mem_size_mib, 512);
    assert!(cfg.boot_args.contains("console=ttyS0"));
    assert!(cfg.boot_args.contains("root=/dev/vda"));
    assert!(cfg.boot_args.contains(" ro"));
    assert!(cfg.rootfs_read_only);
}

#[test]
fn boot_config_ext4_rw_is_writable() {
    let cfg = BootConfig::ext4_rw("/tmp/k".into(), "/tmp/r.ext4".into(), "/tmp/w".into());
    assert!(!cfg.rootfs_read_only);
    assert!(
        cfg.boot_args.contains(" rw "),
        "expected boot_args to contain ' rw ', got: {}",
        cfg.boot_args
    );
    assert!(cfg.boot_args.contains("init=/forkd-init.sh"));
}

#[test]
fn volume_device_name_progression() {
    assert_eq!(volume_device_name(0).unwrap(), "vdb");
    assert_eq!(volume_device_name(1).unwrap(), "vdc");
    assert_eq!(volume_device_name(22).unwrap(), "vdx");
    assert_eq!(
        volume_device_name(MAX_VOLUMES - 1).unwrap(),
        "vdz",
        "last valid index should produce vdz",
    );
}

#[test]
fn volume_device_name_rejects_past_cap() {
    for index in [MAX_VOLUMES, MAX_VOLUMES + 1, 100, 153] {
        assert!(
            volume_device_name(index).is_err(),
            "expected error at index {index} (>= MAX_VOLUMES = {MAX_VOLUMES})",
        );
    }
}

#[test]
fn boot_config_with_volume_appends_cmdline_hint() {
    let cfg = BootConfig::ext4_rw("/tmp/k".into(), "/tmp/r".into(), "/tmp/w".into())
        .with_volume(volume("/var/lib/forkd/vol/pyagent.img", "/opt/cache", false))
        .unwrap();
    assert_eq!(cfg.volumes.len(), 1);
    assert!(
        cfg.boot_args.contains("forkd.mounts=vdb:/opt/cache"),
        "expected forkd.mounts in boot_args, got: {}",
        cfg.boot_args
    );
}

#[test]
fn boot_config_with_multiple_volumes_extends_hint() {
    let cfg = BootConfig::ext4_rw("/tmp/k".into(), "/tmp/r".into(), "/tmp/w".into())
        .with_volume(volume("/a.img", "/opt/a", false))
        .unwrap()
        .with_volume(volume("/b.img", "/opt/b", true))
        .unwrap();
    assert_eq!(cfg.volumes.len(), 2);
    assert!(
        cfg.boot_args.contains("forkd.mounts=vdb:/opt/a,vdc:/opt/b"),
        "boot_args was: {}",
        cfg.boot_args
    );
}

#[test]
fn boot_config_with_volume_errors_past_cap() {
    let mut cfg = BootConfig::ext4_rw("/tmp/k".into(), "/tmp/r".into(), "/tmp/w".into());
    for i in 0..MAX_VOLUMES {
        cfg = cfg
            .with_volume(volume(&format!("/v{i}.img"), &format!("/mnt/{i}"), false))
            .unwrap_or_else(|e| panic!("volume {i} should fit under cap: {}", e.message()));
    }
    assert_eq!(cfg.volumes.len(), MAX_VOLUMES);
    let result = cfg.with_volume(volume("/overflow.img", "/mnt/overflow", false));
    assert!(result.is_err(), "volume index {MAX_VOLUMES} must be rejected");
}

#[test]
fn boot_config_with_network_attaches_iface() {
    let cfg = BootConfig::quickstart("/tmp/k".into(), "/tmp/r".into(), "/tmp/w".into())
        .with_network(NetworkConfig::default_tap("forkd-tap0"));
    let net = cfg.network.as_ref().unwrap();
    assert_eq!(net.iface_id, "eth0");
    assert_eq!(net.host_dev_name, "forkd-tap0");
    let ip_arg = net.kernel_ip_arg().expect("default_tap sets static ip");
    assert!(ip_arg.starts_with("ip=10.42.0.2"));
    assert!(ip_arg.contains(":10.42.0.1:"));
    assert!(ip_arg.ends_with(":eth0:off"));
}

#[test]
fn fork_opts_default_disables_prewarm() {
    let opts = ForkOpts::default();
    assert!(opts.prewarm_scratch_dir.is_none());
}

#[test]
fn fork_opts_default_uses_file_backend() {
    let opts = ForkOpts::default();
    assert!(matches!(opts.memory_backend, MemoryBackend::File));
}

#[test]
fn memory_backend_default_is_file() {
    assert!(matches!(MemoryBackend::default(), MemoryBackend::File));
}

#[test]
fn device_names_of_all_volumes_differ() {
    let names: Vec<String> = (0..MAX_VOLUMES).map(|i| volume_device_name(i).unwrap()).collect();
    for i in 0..names.len() {
        for j in 0..i {
            assert_ne!(names[i], names[j]);
        }
    }
}

#[test]
fn boot_calls_come_in_order() {
    let cfg = BootConfig::ext4_rw("/tmp/k".into(), "/tmp/r\"x".into(), "/tmp/w".into())
        .with_network(NetworkConfig::default_tap("forkd-tap0"))
        .with_volume(volume("/a.img", "/opt/a", true))
        .unwrap();
    let calls = boot_calls(&cfg);
    let paths: Vec<&str> = calls.iter().map(|c| c.path.as_str()).collect();
    assert_eq!(
        paths,
        vec![
            "/boot-source",
            "/drives/rootfs",
            "/drives/vol0",
            "/machine-config",
            "/network-interfaces/eth0",
            "/actions",
        ]
    );
    let rootfs = calls.iter().find(|c| c.path == "/drives/rootfs").unwrap();
    assert!(rootfs.body.contains("\"/tmp/r\\\"x\""), "{}", rootfs.body);
}

#[test]
fn forked_children_get_namespaces_of_their_own() {
    let snap = Snapshot {
        vmstate: "/s/vmstate".into(),
        memory: "/s/memory.bin".into(),
        volumes: Vec::new(),
        parent_tag: None,
        parent_content_hash: None,
    };
    let mut opts = ForkOpts::default();
    opts.n = 3;
    opts.per_child_netns = true;
    opts.netns_offset = 5;
    opts.memory_limit_mib = Some(256);
    let children = snap.restore_many_with(&opts, "/tmp/work", &Vec::new()).unwrap();
    let names: Vec<String> = children.iter().map(|c| c.netns.clone().unwrap()).collect();
    assert_eq!(names, vec!["forkd-child-6", "forkd-child-7", "forkd-child-8"]);
    assert_eq!(children[0].sock, "/tmp/work/child-1.sock");
    assert_eq!(children[0].console, "/tmp/work/child-1.console");
    assert_eq!(children[0].cgroup.as_ref().unwrap().memory_max_bytes, 256 * 1024 * 1024);
    assert_eq!(snap.restore_many(2, "/tmp/work").len(), 2);
}

#[test]
fn userfault_backend_is_not_served() {
    let snap = Snapshot {
        vmstate: "/s/vmstate".into(),
        memory: "/s/memory.bin".into(),
        volumes: Vec::new(),
        parent_tag: None,
        parent_content_hash: None,
    };
    let mut opts = ForkOpts::default();
    opts.memory_backend = MemoryBackend::Userfault { handler_sock: "/h.sock".into() };
    let err = snap.restore_many_with(&opts, "/tmp/work", &Vec::new()).unwrap_err();
    assert!(err.message().contains("not yet implemented"));
}
