//! How a guest is booted: its kernel, drives and network, and the kernel
//! command line that carries the network and mount settings into the guest.
use vstd::prelude::*;

use crate::api::opt_view;
use crate::text::{
    char_pos, chars_of, dec, dec_string, find, find_char, first_occurs_at, joined, lemma_char_pos,
    occurs, occurs_at, string_of,
};

verus! {

/// A network interface for the guest, backed by a tap device of the host.
#[derive(Debug, PartialEq, Eq)]
pub struct NetworkConfig {
    pub iface_id: String,
    pub host_dev_name: String,
    pub guest_mac: Option<String>,
    pub guest_ip: Option<String>,
    pub host_gw: Option<String>,
    pub netmask: Option<String>,
}

impl NetworkConfig {
    /// The interface that goes with the host's default tap device.
    pub fn default_tap(host_dev_name: &str) -> (r: Self)
        ensures
            r.iface_id@ == "eth0"@,
            r.host_dev_name@ == host_dev_name@,
            opt_view(r.guest_mac) == Some("AA:FC:00:00:00:01"@),
            opt_view(r.guest_ip) == Some("10.42.0.2"@),
            opt_view(r.host_gw) == Some("10.42.0.1"@),
            opt_view(r.netmask) == Some("255.255.255.0"@),
    {
        NetworkConfig {
            iface_id: "eth0".to_string(),
            host_dev_name: host_dev_name.to_string(),
            guest_mac: Some("AA:FC:00:00:00:01".to_string()),
            guest_ip: Some("10.42.0.2".to_string()),
            host_gw: Some("10.42.0.1".to_string()),
            netmask: Some("255.255.255.0".to_string()),
        }
    }

    pub open spec fn ip_arg(&self) -> Option<Seq<char>> {
        match (self.guest_ip, self.host_gw) {
            (Some(ip), Some(gw)) => {
                let mask = match self.netmask {
                    Some(m) => m@,
                    None => "255.255.255.0"@,
                };
                Some(
                    "ip="@ + ip@ + "::"@ + gw@ + ":"@ + mask + "::"@ + self.iface_id@ + ":off"@,
                )
            },
            _ => None,
        }
    }

    /// The kernel's `ip=` parameter, where an address and a gateway are set.
    pub fn kernel_ip_arg(&self) -> (r: Option<String>)
        ensures
            opt_view(r) == self.ip_arg(),
    {
        match (&self.guest_ip, &self.host_gw) {
            (Some(ip), Some(gw)) => {
                let mask = match &self.netmask {
                    Some(m) => m.clone(),
                    None => "255.255.255.0".to_string(),
                };
                Some(
                    "ip=".to_string().concat(ip.as_str()).concat("::").concat(gw.as_str()).concat(
                        ":",
                    ).concat(mask.as_str()).concat("::").concat(self.iface_id.as_str()).concat(
                        ":off",
                    ),
                )
            },
            _ => None,
        }
    }
}

/// A host image file that the guest sees as a block device and mounts.
#[derive(Debug, PartialEq, Eq)]
pub struct VolumeSpec {
    pub host_path: String,
    pub guest_path: String,
    pub read_only: bool,
}

impl Clone for VolumeSpec {
    fn clone(&self) -> (r: Self)
        ensures
            r == *self,
    {
        VolumeSpec {
            host_path: self.host_path.clone(),
            guest_path: self.guest_path.clone(),
            read_only: self.read_only,
        }
    }
}

/// A copy of a list of volumes.
pub fn copy_volumes(v: &Vec<VolumeSpec>) -> (r: Vec<VolumeSpec>)
    ensures
        r@ == v@,
{
    let mut r: Vec<VolumeSpec> = Vec::new();
    let mut i: usize = 0;
    while i < v.len()
        invariant
            i <= v.len(),
            r@ == v@.take(i as int),
        decreases v.len() - i,
    {
        r.push(v[i].clone());
        i += 1;
        assert(r@ =~= v@.take(i as int));
    }
    assert(v@.take(i as int) =~= v@);
    r
}

/// How many volumes a guest can have: `/dev/vdb` to `/dev/vdz`.
pub const MAX_VOLUMES: usize = 25;

/// A volume past the last device name.
#[derive(Debug, Clone, Copy, PartialEq, Eq, Structural)]
pub struct VolumeError {
    pub index: usize,
}

impl VolumeError {
    pub fn message(&self) -> (r: String)
        ensures
            r@ == "volume index "@ + dec(self.index as nat)
                + " exceeds MAX_VOLUMES (25); virtio-blk supports /dev/vdb..vdz (/dev/vda is the rootfs)"@,
    {
        let n = dec_string(self.index as u64);
        "volume index ".to_string().concat(n.as_str()).concat(
            " exceeds MAX_VOLUMES (25); virtio-blk supports /dev/vdb..vdz (/dev/vda is the rootfs)",
        )
    }
}

/// The device name of volume `index`: `vdb`, `vdc` and so on.
pub open spec fn device_name(index: int) -> Seq<char> {
    "vd"@ + seq![(98 + index) as char]
}

pub fn volume_device_name(index: usize) -> (r: Result<String, VolumeError>)
    ensures
        match r {
            Ok(s) => index < MAX_VOLUMES && s@ == device_name(index as int),
            Err(e) => index >= MAX_VOLUMES && e.index == index,
        },
{
    if index >= MAX_VOLUMES {
        return Err(VolumeError { index });
    }
    let letter = (98u8 + index as u8) as char;
    let mut s = "vd".to_string();
    s.push(letter);
    assert(s@ =~= device_name(index as int));
    Ok(s)
}

/// Different volumes have different device names.
pub proof fn law_device_names_are_distinct(i: int, j: int)
    requires
        0 <= i < MAX_VOLUMES,
        0 <= j < MAX_VOLUMES,
        device_name(i) == device_name(j),
    ensures
        i == j,
{
    reveal_strlit("vd");
    assert(device_name(i)[2] == (98 + i) as char);
    assert(device_name(j)[2] == (98 + j) as char);
}

/// What the guest's init reads: which device to mount where.
pub open spec fn mount_hint(index: int, volume: VolumeSpec) -> Seq<char> {
    device_name(index) + ":"@ + volume.guest_path@
}

/// Where `p` first occurs in `s`.
pub open spec fn first_at(s: Seq<char>, p: Seq<char>) -> int {
    choose|i: int| first_occurs_at(s, p, i)
}

pub proof fn lemma_first_at(s: Seq<char>, p: Seq<char>, i: int)
    requires
        first_occurs_at(s, p, i),
    ensures
        first_at(s, p) == i,
{
    let j = first_at(s, p);
    assert(first_occurs_at(s, p, j));
    assert(occurs_at(s, p, i) && occurs_at(s, p, j));
}

/// The command line `args` with one more mount: behind the mounts it has, or
/// at the end where it has none.
pub open spec fn with_mount(args: Seq<char>, hint: Seq<char>) -> Seq<char> {
    if occurs(args, "forkd.mounts="@) {
        let start = first_at(args, "forkd.mounts="@);
        let end = start + char_pos(args.skip(start), ' ');
        args.take(end) + (","@ + hint) + args.skip(end)
    } else {
        args + (" forkd.mounts="@ + hint)
    }
}

fn add_mount(args: &str, hint: &str) -> (r: String)
    ensures
        r@ == with_mount(args@, hint@),
{
    let v = chars_of(args);
    let mark = chars_of("forkd.mounts=");
    match find(&v, &mark) {
        Some(start) => {
            proof {
                lemma_first_at(args@, "forkd.mounts="@, start as int);
                lemma_char_pos(args@.skip(start as int), ' ');
                assert(occurs_at(args@, "forkd.mounts="@, start as int));
            }
            let end = find_char(&v, ' ', start);
            let head = string_of(&v, 0, end);
            let tail = string_of(&v, end, v.len());
            let entry = ",".to_string().concat(hint);
            assert(head@ =~= args@.take(end as int));
            assert(tail@ =~= args@.skip(end as int));
            head.concat(entry.as_str()).concat(tail.as_str())
        },
        None => {
            let entry = " forkd.mounts=".to_string().concat(hint);
            args.to_string().concat(entry.as_str())
        },
    }
}

/// The command line after the mounts in `hints` were added one by one.
pub open spec fn with_mounts(args: Seq<char>, hints: Seq<Seq<char>>) -> Seq<char>
    decreases hints.len(),
{
    if hints.len() == 0 {
        args
    } else {
        with_mount(with_mounts(args, hints.drop_last()), hints.last())
    }
}

/// The command line lists every mount, in the order of declaration, behind a
/// single `forkd.mounts=`.
pub proof fn law_mounts_are_listed_in_order(args: Seq<char>, hints: Seq<Seq<char>>)
    requires
        !occurs(args, "forkd.mounts="@),
        hints.len() > 0,
        forall|i: int| 0 <= i < hints.len() ==> !(#[trigger] hints[i]).contains(' '),
    ensures
        with_mounts(args, hints) == args + (" forkd.mounts="@ + joined(hints, ","@)),
    decreases hints.len(),
{
    if hints.len() == 1 {
        assert(hints.drop_last() =~= Seq::<Seq<char>>::empty());
        assert(with_mounts(args, hints.drop_last()) == args);
    } else {
        let rest = hints.drop_last();
        assert forall|i: int| 0 <= i < rest.len() implies !(#[trigger] rest[i]).contains(' ') by {
            assert(rest[i] == hints[i]);
        }
        law_mounts_are_listed_in_order(args, rest);
        lemma_joined_has_no_space(rest);
        lemma_one_more_mount(args, joined(rest, ","@), hints.last());
    }
}

proof fn lemma_mark()
    ensures
        " forkd.mounts="@ == seq![' '] + "forkd.mounts="@,
        "forkd.mounts="@.len() > 0,
        forall|i: int| 0 <= i < "forkd.mounts="@.len() ==> #[trigger] "forkd.mounts="@[i] != ' ',
{
    reveal_strlit("forkd.mounts=");
    reveal_strlit(" forkd.mounts=");
    assert(" forkd.mounts="@ =~= seq![' '] + "forkd.mounts="@);
}

proof fn lemma_one_more_mount(args: Seq<char>, body: Seq<char>, hint: Seq<char>)
    requires
        !occurs(args, "forkd.mounts="@),
        !body.contains(' '),
    ensures
        with_mount(args + (" forkd.mounts="@ + body), hint) == args + (" forkd.mounts="@ + (body
            + ","@ + hint)),
{
    let mark = "forkd.mounts="@;
    let lead = " forkd.mounts="@;
    lemma_mark();
    let cur = args + (lead + body);
    let start: int = args.len() as int + 1;
    assert(cur.subrange(start, start + mark.len()) =~= mark);
    assert(occurs_at(cur, mark, start));
    assert forall|j: int| 0 <= j < start implies !#[trigger] occurs_at(cur, mark, j) by {
        if occurs_at(cur, mark, j) {
            let w = cur.subrange(j, j + mark.len());
            if j + mark.len() <= args.len() {
                assert(args.subrange(j, j + mark.len()) =~= w);
                assert(occurs_at(args, mark, j));
            } else {
                let k = args.len() - j;
                assert(w[k] == cur[args.len() as int]);
                assert(mark[k] == ' ');
            }
        }
    }
    lemma_first_at(cur, mark, start);
    let tail = cur.skip(start);
    assert(tail =~= mark + body);
    lemma_char_pos(tail, ' ');
    assert forall|i: int| 0 <= i < tail.len() implies tail[i] != ' ' by {
        if i < mark.len() {
            assert(tail[i] == mark[i]);
        } else {
            assert(tail[i] == body[i - mark.len()]);
            assert(body.contains(body[i - mark.len()]));
        }
    }
    assert(char_pos(tail, ' ') == tail.len());
    assert(cur.take(cur.len() as int) =~= cur);
    assert(cur.skip(cur.len() as int) =~= Seq::<char>::empty());
    assert(with_mount(cur, hint) =~= cur + (","@ + hint));
    assert(cur + (","@ + hint) =~= args + (lead + (body + ","@ + hint)));
}

proof fn lemma_joined_has_no_space(parts: Seq<Seq<char>>)
    requires
        forall|i: int| 0 <= i < parts.len() ==> !(#[trigger] parts[i]).contains(' '),
    ensures
        !joined(parts, ","@).contains(' '),
    decreases parts.len(),
{
    reveal_strlit(",");
    if parts.len() > 1 {
        let rest = parts.drop_last();
        assert forall|i: int| 0 <= i < rest.len() implies !(#[trigger] rest[i]).contains(' ') by {
            assert(rest[i] == parts[i]);
        }
        lemma_joined_has_no_space(rest);
        let body = joined(rest, ","@);
        let last = parts.last();
        assert(last == parts[parts.len() - 1]);
        let all = body + ","@ + last;
        assert forall|i: int| 0 <= i < all.len() implies all[i] != ' ' by {
            if i < body.len() {
                assert(all[i] == body[i]);
                assert(body.contains(body[i]));
            } else if i > body.len() {
                assert(all[i] == last[i - body.len() - 1]);
                assert(last.contains(last[i - body.len() - 1]));
            }
        }
    }
}

/// How to boot one guest.
#[derive(Debug, PartialEq, Eq)]
pub struct BootConfig {
    pub kernel: String,
    pub rootfs: String,
    pub vcpu_count: u32,
    pub mem_size_mib: u32,
    pub boot_args: String,
    pub work_dir: String,
    pub rootfs_read_only: bool,
    pub network: Option<NetworkConfig>,
    /// Attached as `/dev/vdb`, `/dev/vdc` and so on, in this order.
    pub volumes: Vec<VolumeSpec>,
}

impl BootConfig {
    /// Two vCPUs, 512 MiB and a root filesystem that is only read.
    pub fn quickstart(kernel: String, rootfs: String, work_dir: String) -> (r: Self)
        ensures
            r.kernel == kernel,
            r.rootfs == rootfs,
            r.work_dir == work_dir,
            r.vcpu_count == 2,
            r.mem_size_mib == 512,
            r.boot_args@ == "console=ttyS0 reboot=k panic=1 pci=off root=/dev/vda ro"@,
            r.rootfs_read_only,
            r.network is None,
            r.volumes@.len() == 0,
    {
        BootConfig {
            kernel,
            rootfs,
            vcpu_count: 2,
            mem_size_mib: 512,
            boot_args: "console=ttyS0 reboot=k panic=1 pci=off root=/dev/vda ro".to_string(),
            work_dir,
            rootfs_read_only: true,
            network: None,
            volumes: Vec::new(),
        }
    }

    /// Two vCPUs, 512 MiB and a writable root filesystem whose init warms the
    /// guest up.
    pub fn ext4_rw(kernel: String, rootfs: String, work_dir: String) -> (r: Self)
        ensures
            r.kernel == kernel,
            r.rootfs == rootfs,
            r.work_dir == work_dir,
            r.vcpu_count == 2,
            r.mem_size_mib == 512,
            r.boot_args@
                == "console=ttyS0 reboot=k panic=1 pci=off root=/dev/vda rw init=/forkd-init.sh"@,
            !r.rootfs_read_only,
            r.network is None,
            r.volumes@.len() == 0,
    {
        BootConfig {
            kernel,
            rootfs,
            vcpu_count: 2,
            mem_size_mib: 512,
            boot_args: "console=ttyS0 reboot=k panic=1 pci=off root=/dev/vda rw init=/forkd-init.sh".to_string(),
            work_dir,
            rootfs_read_only: false,
            network: None,
            volumes: Vec::new(),
        }
    }

    pub fn with_network(self, net: NetworkConfig) -> (r: Self)
        ensures
            r == (BootConfig { network: Some(net), ..self }),
    {
        let mut cfg = self;
        cfg.network = Some(net);
        cfg
    }

    /// Attaches a volume behind those attached before.
    pub fn with_volume(self, volume: VolumeSpec) -> (r: Result<Self, VolumeError>)
        ensures
            match r {
                Ok(c) => {
                    &&& self.volumes@.len() < MAX_VOLUMES
                    &&& c.volumes@ == self.volumes@.push(volume)
                    &&& c.boot_args@ == with_mount(
                        self.boot_args@,
                        mount_hint(self.volumes@.len() as int, volume),
                    )
                    &&& c == (BootConfig { boot_args: c.boot_args, volumes: c.volumes, ..self })
                },
                Err(e) => self.volumes@.len() >= MAX_VOLUMES && e.index == self.volumes@.len(),
            },
    {
        let mut cfg = self;
        let index: usize = cfg.volumes.len();
        match volume_device_name(index) {
            Ok(dev) => {
                let hint = dev.concat(":").concat(volume.guest_path.as_str());
                let args = add_mount(cfg.boot_args.as_str(), hint.as_str());
                cfg.boot_args = args;
                cfg.volumes.push(volume);
                Ok(cfg)
            },
            Err(e) => Err(e),
        }
    }

    /// The kernel command line with the network's `ip=` parameter, if any.
    pub open spec fn full_args(&self) -> Seq<char> {
        match self.network {
            Some(net) => match net.ip_arg() {
                Some(arg) => self.boot_args@ + " "@ + arg,
                None => self.boot_args@,
            },
            None => self.boot_args@,
        }
    }

    pub fn kernel_args(&self) -> (r: String)
        ensures
            r@ == self.full_args(),
    {
        match &self.network {
            Some(net) => match net.kernel_ip_arg() {
                Some(arg) => self.boot_args.clone().concat(" ").concat(arg.as_str()),
                None => self.boot_args.clone(),
            },
            None => self.boot_args.clone(),
        }
    }
}

/// Whether a path's extension is `ext4`, in any case.
pub open spec fn is_ext4(path: Seq<char>) -> bool {
    match crate::paths::path_extension(path) {
        Some(e) => {
            &&& e.len() == 4
            &&& (e[0] == 'e' || e[0] == 'E')
            &&& (e[1] == 'x' || e[1] == 'X')
            &&& (e[2] == 't' || e[2] == 'T')
            &&& e[3] == '4'
        },
        None => false,
    }
}

/// How a guest that is about to be snapshotted boots: writable where asked for
/// or where the root filesystem is an `ext4` image.
pub open spec fn is_snapshot_boot(
    r: BootConfig,
    kernel: Seq<char>,
    rootfs: Seq<char>,
    work_dir: Seq<char>,
    rw: bool,
    tap: Option<Seq<char>>,
) -> bool {
    &&& r.kernel@ == kernel
    &&& r.rootfs@ == rootfs
    &&& r.work_dir@ == work_dir
    &&& r.vcpu_count == 2
    &&& r.mem_size_mib == 512
    &&& r.rootfs_read_only == !(rw || is_ext4(rootfs))
    &&& r.boot_args@ == (if rw || is_ext4(rootfs) {
        "console=ttyS0 reboot=k panic=1 pci=off root=/dev/vda rw init=/forkd-init.sh"@
    } else {
        "console=ttyS0 reboot=k panic=1 pci=off root=/dev/vda ro"@
    })
    &&& r.volumes@.len() == 0
    &&& match tap {
        Some(t) => r.network matches Some(n) && n.host_dev_name@ == t && n.iface_id@ == "eth0"@
            && n.ip_arg() == Some(
            "ip="@ + "10.42.0.2"@ + "::"@ + "10.42.0.1"@ + ":"@ + "255.255.255.0"@ + "::"@
                + "eth0"@ + ":off"@,
        ) && opt_view(n.guest_mac) == Some("AA:FC:00:00:00:01"@),
        None => r.network is None,
    }
}

/// The boot of a guest that is about to be snapshotted.
pub fn build_snapshot_boot_config(
    kernel: &str,
    rootfs: &str,
    work_dir: &str,
    rw: bool,
    tap: &Option<String>,
) -> (r: BootConfig)
    ensures
        is_snapshot_boot(r, kernel@, rootfs@, work_dir@, rw, opt_view(*tap)),
{
    let ext4 = rw || match crate::paths::extension(rootfs) {
        Some(e) => {
            let c = chars_of(e.as_str());
            c.len() == 4 && (c[0] == 'e' || c[0] == 'E') && (c[1] == 'x' || c[1] == 'X') && (c[2]
                == 't' || c[2] == 'T') && c[3] == '4'
        },
        None => false,
    };
    let cfg = if ext4 {
        BootConfig::ext4_rw(kernel.to_string(), rootfs.to_string(), work_dir.to_string())
    } else {
        BootConfig::quickstart(kernel.to_string(), rootfs.to_string(), work_dir.to_string())
    };
    match tap {
        Some(t) => cfg.with_network(NetworkConfig::default_tap(t.as_str())),
        None => cfg,
    }
}

/// The kernel's parameter names the guest's address, no server, the gateway,
/// the netmask, no host name, the interface and no autoconfiguration, with
/// colons between them. Without a netmask it is that of a network of 256
/// addresses.
pub proof fn law_ip_arg_names_its_fields(net: NetworkConfig)
    requires
        net.guest_ip is Some,
        net.host_gw is Some,
    ensures
        net.ip_arg() == Some(
            "ip="@ + joined(
                seq![
                    net.guest_ip->0@,
                    Seq::<char>::empty(),
                    net.host_gw->0@,
                    if net.netmask is Some {
                        net.netmask->0@
                    } else {
                        "255.255.255.0"@
                    },
                    Seq::<char>::empty(),
                    net.iface_id@,
                    "off"@,
                ],
                ":"@,
            ),
        ),
{
    reveal_strlit("::");
    reveal_strlit(":");
    reveal_strlit("off");
    reveal_strlit(":off");
    let none = Seq::<char>::empty();
    let ip = net.guest_ip->0@;
    let gw = net.host_gw->0@;
    let mask = if net.netmask is Some {
        net.netmask->0@
    } else {
        "255.255.255.0"@
    };
    let dev = net.iface_id@;
    let f7 = seq![ip, none, gw, mask, none, dev, "off"@];
    let f6 = seq![ip, none, gw, mask, none, dev];
    let f5 = seq![ip, none, gw, mask, none];
    let f4 = seq![ip, none, gw, mask];
    let f3 = seq![ip, none, gw];
    let f2 = seq![ip, none];
    let f1 = seq![ip];
    assert(f7.drop_last() =~= f6);
    assert(f6.drop_last() =~= f5);
    assert(f5.drop_last() =~= f4);
    assert(f4.drop_last() =~= f3);
    assert(f3.drop_last() =~= f2);
    assert(f2.drop_last() =~= f1);
    let j2 = ip + ":"@ + none;
    assert(joined(f1, ":"@) == ip);
    assert(joined(f2, ":"@) == j2);
    let j3 = j2 + ":"@ + gw;
    assert(joined(f3, ":"@) == j3);
    let j4 = j3 + ":"@ + mask;
    assert(joined(f4, ":"@) == j4);
    let j5 = j4 + ":"@ + none;
    assert(joined(f5, ":"@) == j5);
    let j6 = j5 + ":"@ + dev;
    assert(joined(f6, ":"@) == j6);
    assert(joined(f7, ":"@) == j6 + ":"@ + "off"@);
    assert("ip="@ + (j6 + ":"@ + "off"@) =~= "ip="@ + ip + "::"@ + gw + ":"@ + mask + "::"@ + dev
        + ":off"@);
}

/// The guest reads its configured command line, and behind it the parameter for
/// its address, where it has one.
pub proof fn law_address_follows_the_command_line(cfg: BootConfig)
    ensures
        cfg.boot_args@.is_prefix_of(cfg.full_args()),
        match cfg.network {
            Some(net) => match net.ip_arg() {
                Some(arg) => arg.is_suffix_of(cfg.full_args()) && cfg.full_args().len()
                    == cfg.boot_args@.len() + 1 + arg.len(),
                None => cfg.full_args() == cfg.boot_args@,
            },
            None => cfg.full_args() == cfg.boot_args@,
        },
{
    reveal_strlit(" ");
    let all = cfg.full_args();
    assert(all.take(cfg.boot_args@.len() as int) =~= cfg.boot_args@);
    if let Some(net) = cfg.network {
        if let Some(arg) = net.ip_arg() {
            assert(all.skip(all.len() - arg.len()) =~= arg);
        }
    }
}

} // verus!
