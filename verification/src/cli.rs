//! The commands that boot, fork and run on this host: their arguments, what
//! they refuse, and what they are about to do.
use vstd::prelude::*;

use crate::api::opt_view;
use crate::boot::{mount_hint, with_mounts, BootConfig, NetworkConfig, VolumeSpec};
use crate::branch::StoredMeta;
use crate::chain::{is_fallback, load_snapshot_with_fallback};
use crate::fork::{ForkOpts, MemoryBackend, Snapshot};
use crate::hub::{slug, slug_of};
use crate::paths::{
    extension, join_path, joined_path, path_extension, snapshot_dir, snapshot_dir_of,
};
use crate::tags::{tag_fault, valid_tag, validate_tag, TagError};
use crate::text::{char_pos, dec, dec_string, lemma_char_pos, split_once, str_eq, views};
use crate::workdirs::{preflight_workdir, workdir_refused, workdir_text};

verus! {

// ---------------------------------------------------------------------
// Volumes
// ---------------------------------------------------------------------

/// Why a volume is refused.
#[derive(Debug, PartialEq, Eq)]
pub enum VolumeSyntax {
    Malformed { spec_text: String },
    BadFlag { spec_text: String, flag: String },
}

impl VolumeSyntax {
    pub open spec fn text(self) -> Seq<char> {
        match self {
            VolumeSyntax::Malformed { spec_text } => "invalid --volume spec '"@ + spec_text@
                + "'; expected HOST:GUEST or HOST:GUEST:ro"@,
            VolumeSyntax::BadFlag { spec_text, flag } => "invalid --volume spec '"@ + spec_text@
                + "'; trailing flag must be 'ro' or 'rw', got '"@ + flag@ + "'"@,
        }
    }

    pub fn message(&self) -> (r: String)
        ensures
            r@ == self.text(),
    {
        match self {
            VolumeSyntax::Malformed { spec_text } => "invalid --volume spec '".to_string().concat(
                spec_text.as_str(),
            ).concat("'; expected HOST:GUEST or HOST:GUEST:ro"),
            VolumeSyntax::BadFlag { spec_text, flag } => "invalid --volume spec '".to_string().concat(
                spec_text.as_str(),
            ).concat("'; trailing flag must be 'ro' or 'rw', got '").concat(flag.as_str()).concat(
                "'",
            ),
        }
    }
}

/// The parts of `s` before its first colon, between its first two, and behind
/// the second, where there are any.
pub open spec fn volume_parts(s: Seq<char>) -> (Seq<char>, Option<Seq<char>>, Option<Seq<char>>) {
    let a = char_pos(s, ':') as int;
    if a >= s.len() {
        (s, None, None)
    } else {
        let rest = s.skip(a + 1);
        let b = char_pos(rest, ':') as int;
        if b >= rest.len() {
            (s.take(a), Some(rest), None)
        } else {
            (s.take(a), Some(rest.take(b)), Some(rest.skip(b + 1)))
        }
    }
}

/// Reads `HOST:GUEST`, with `:ro` or `:rw` behind it or nothing.
pub fn parse_volume(s: &str) -> (r: Result<VolumeSpec, VolumeSyntax>)
    ensures
        ({
            let (host, guest, flag) = volume_parts(s@);
            if guest is None || host.len() == 0 || guest->0.len() == 0 {
                r matches Err(VolumeSyntax::Malformed { spec_text }) && spec_text@ == s@
            } else if flag is None || flag->0 == "rw"@ || flag->0 == "ro"@ {
                r matches Ok(v) && {
                    &&& v.host_path@ == host
                    &&& v.guest_path@ == guest->0
                    &&& v.read_only == (flag == Some("ro"@))
                }
            } else {
                r matches Err(VolumeSyntax::BadFlag { spec_text, flag: f }) && spec_text@ == s@
                    && f@ == flag->0
            }
        }),
{
    proof {
        reveal_strlit("ro");
        reveal_strlit("rw");
        assert("ro"@[1] == 'o' && "rw"@[1] == 'w');
        lemma_char_pos(s@, ':');
    }
    let (host, rest) = match split_once(s, ':') {
        Some(p) => p,
        None => {
            return Err(VolumeSyntax::Malformed { spec_text: s.to_string() });
        },
    };
    proof {
        lemma_char_pos(rest@, ':');
    }
    let (guest, flag) = match split_once(rest.as_str(), ':') {
        Some((g, f)) => (g, Some(f)),
        None => (rest, None),
    };
    if host.as_str().unicode_len() == 0 || guest.as_str().unicode_len() == 0 {
        return Err(VolumeSyntax::Malformed { spec_text: s.to_string() });
    }
    let read_only = match flag {
        None => false,
        Some(f) => {
            if str_eq(f.as_str(), "ro") {
                true
            } else if str_eq(f.as_str(), "rw") {
                false
            } else {
                return Err(VolumeSyntax::BadFlag { spec_text: s.to_string(), flag: f });
            }
        },
    };
    Ok(VolumeSpec { host_path: host, guest_path: guest, read_only })
}

/// What is written for a volume is read back as it was, as long as its paths
/// are there and hold no colon.
pub proof fn law_volume_reads_back(host: Seq<char>, guest: Seq<char>, read_only: bool)
    requires
        host.len() > 0,
        guest.len() > 0,
        !host.contains(':'),
        !guest.contains(':'),
    ensures
        volume_parts(host + ":"@ + guest) == (host, Some(guest), None::<Seq<char>>),
        volume_parts(
            host + ":"@ + guest + (if read_only {
                ":ro"@
            } else {
                ":rw"@
            }),
        ) == (host, Some(guest), Some(
            if read_only {
                "ro"@
            } else {
                "rw"@
            },
        )),
{
    reveal_strlit(":");
    reveal_strlit(":ro");
    reveal_strlit(":rw");
    reveal_strlit("ro");
    reveal_strlit("rw");
    let s = host + ":"@ + guest;
    lemma_first_colon(host, guest);
    assert(s =~= host + seq![':'] + guest);
    assert(s.take(host.len() as int) =~= host);
    assert(s.skip(host.len() as int + 1) =~= guest);
    lemma_char_pos(guest, ':');
    let flag = if read_only {
        "ro"@
    } else {
        "rw"@
    };
    let tail = if read_only {
        ":ro"@
    } else {
        ":rw"@
    };
    let t = s + tail;
    let rest = guest + tail;
    assert(rest =~= guest + seq![':'] + flag);
    assert(t =~= host + seq![':'] + rest);
    lemma_first_colon(host, rest);
    assert(t.take(host.len() as int) =~= host);
    assert(t.skip(host.len() as int + 1) =~= rest);
    lemma_first_colon(guest, flag);
    assert(rest.take(guest.len() as int) =~= guest);
    assert(rest.skip(guest.len() as int + 1) =~= flag);
}

proof fn lemma_first_colon(a: Seq<char>, b: Seq<char>)
    requires
        !a.contains(':'),
    ensures
        char_pos(a + seq![':'] + b, ':') == a.len(),
    decreases a.len(),
{
    let s = a + seq![':'] + b;
    lemma_char_pos(s, ':');
    assert(s[a.len() as int] == ':');
    let k = char_pos(s, ':') as int;
    if k < a.len() {
        assert(s[k] == a[k]);
        assert(a.contains(a[k]));
    }
}

// ---------------------------------------------------------------------
// Snapshots
// ---------------------------------------------------------------------

/// The most volumes that the command line takes.
pub const MAX_CLI_VOLUMES: usize = 24;

/// The arguments of a snapshot that is booted on this host.
#[derive(Debug)]
pub struct SnapshotArgs {
    pub tag: Option<String>,
    pub kernel: Option<String>,
    pub rootfs: Option<String>,
    pub rw: bool,
    pub tap: Option<String>,
    pub mem_size_mib: Option<u32>,
    pub volumes: Vec<String>,
}

/// What is on disk for such a snapshot.
#[derive(Debug)]
pub struct SnapshotFacts {
    pub kernel_exists: bool,
    pub rootfs_exists: bool,
    /// Whether the run's directory is there, and whether something may be
    /// using it.
    pub workdir_exists: bool,
    pub workdir_live: bool,
    /// For each volume, whether its file is there.
    pub volume_exists: Vec<bool>,
}

/// A snapshot that is about to be taken.
#[derive(Debug)]
pub struct SnapshotPlan {
    pub tag: String,
    pub boot: BootConfig,
    pub snap_dir: String,
    pub metadata: Snapshot,
    /// Whether the run's directory is left over and goes first.
    pub remove_stale: bool,
}

/// The reading of each volume, as far as all can be read.
pub open spec fn reads_as(s: Seq<char>, v: VolumeSpec) -> bool {
    let (host, guest, flag) = volume_parts(s);
    &&& v.host_path@ == host
    &&& guest == Some(v.guest_path@)
    &&& host.len() > 0
    &&& guest->0.len() > 0
    &&& flag is None || flag->0 == "rw"@ || flag->0 == "ro"@
    &&& v.read_only == (flag == Some("ro"@))
}

fn parse_volumes(specs: &Vec<String>) -> (r: Result<Vec<VolumeSpec>, VolumeSyntax>)
    ensures
        match r {
            Ok(vs) => {
                &&& vs@.len() == specs@.len()
                &&& forall|i: int| 0 <= i < vs@.len() ==> reads_as(specs@[i]@, #[trigger] vs@[i])
            },
            Err(e) => unreadable(views(specs@), e),
        },
{
    let ghost all = views(specs@);
    let mut vs: Vec<VolumeSpec> = Vec::new();
    let mut i: usize = 0;
    while i < specs.len()
        invariant
            i <= specs.len(),
            all == views(specs@),
            vs@.len() == i,
            forall|j: int| 0 <= j < i ==> reads_as(specs@[j]@, #[trigger] vs@[j]),
        decreases specs.len() - i,
    {
        match parse_volume(specs[i].as_str()) {
            Ok(v) => {
                assert(reads_as(specs@[i as int]@, v));
                vs.push(v);
            },
            Err(e) => {
                proof {
                    assert(all[i as int] == specs@[i as int]@);
                    assert(volume_fault(all[i as int], e));
                    assert forall|j: int| 0 <= j < i implies readable(#[trigger] all[j]) by {
                        assert(reads_as(specs@[j]@, vs@[j]));
                        assert(all[j] == specs@[j]@);
                    }
                }
                return Err(e);
            },
        }
        i += 1;
    }
    Ok(vs)
}

pub open spec fn readable(s: Seq<char>) -> bool {
    let (host, guest, flag) = volume_parts(s);
    &&& guest is Some
    &&& host.len() > 0
    &&& guest->0.len() > 0
    &&& flag is None || flag->0 == "rw"@ || flag->0 == "ro"@
}

pub open spec fn volume_fault(s: Seq<char>, e: VolumeSyntax) -> bool {
    let (host, guest, flag) = volume_parts(s);
    match e {
        VolumeSyntax::Malformed { spec_text } => {
            &&& spec_text@ == s
            &&& guest is None || host.len() == 0 || guest->0.len() == 0
        },
        VolumeSyntax::BadFlag { spec_text, flag: f } => {
            &&& spec_text@ == s
            &&& guest is Some
            &&& host.len() > 0
            &&& guest->0.len() > 0
            &&& flag == Some(f@)
            &&& f@ != "rw"@
            &&& f@ != "ro"@
        },
    }
}

/// `e` is what is wrong with the first volume that cannot be read.
pub open spec fn unreadable(specs: Seq<Seq<char>>, e: VolumeSyntax) -> bool {
    exists|i: int|
        0 <= i < specs.len() && volume_fault(#[trigger] specs[i], e) && forall|j: int|
            0 <= j < i ==> readable(#[trigger] specs[j])
}

/// Why a snapshot is refused.
#[derive(Debug, PartialEq, Eq)]
pub enum SnapshotRefusal {
    NoTag,
    NoKernel,
    NoRootfs,
    Tag(TagError),
    KernelMissing(String),
    RootfsMissing(String),
    Workdir(String),
    Volume(VolumeSyntax),
    TooManyVolumes,
    VolumeMissing(String),
}

impl SnapshotRefusal {
    pub open spec fn text(self) -> Seq<char> {
        match self {
            SnapshotRefusal::NoTag => "--tag is required unless --from-sandbox is set"@,
            SnapshotRefusal::NoKernel => "--kernel is required unless --from-sandbox is set"@,
            SnapshotRefusal::NoRootfs => "--rootfs is required unless --from-sandbox is set"@,
            SnapshotRefusal::Tag(e) => e.text(),
            SnapshotRefusal::KernelMissing(p) => "kernel not found: "@ + p@,
            SnapshotRefusal::RootfsMissing(p) => "rootfs not found: "@ + p@,
            SnapshotRefusal::Workdir(e) => e@,
            SnapshotRefusal::Volume(e) => e.text(),
            SnapshotRefusal::TooManyVolumes => "at most 24 volumes are supported (vdb..vdy)"@,
            SnapshotRefusal::VolumeMissing(p) => "volume host file not found: "@ + p@
                + "\ncreate it with: sudo dd if=/dev/zero of="@ + p@
                + " bs=1M count=512 && sudo mkfs.ext4 -F "@ + p@,
        }
    }

    pub fn message(&self) -> (r: String)
        ensures
            r@ == self.text(),
    {
        match self {
            SnapshotRefusal::NoTag => "--tag is required unless --from-sandbox is set".to_string(),
            SnapshotRefusal::NoKernel => "--kernel is required unless --from-sandbox is set".to_string(),
            SnapshotRefusal::NoRootfs => "--rootfs is required unless --from-sandbox is set".to_string(),
            SnapshotRefusal::Tag(e) => e.message(),
            SnapshotRefusal::KernelMissing(p) => "kernel not found: ".to_string().concat(p.as_str()),
            SnapshotRefusal::RootfsMissing(p) => "rootfs not found: ".to_string().concat(p.as_str()),
            SnapshotRefusal::Workdir(e) => e.clone(),
            SnapshotRefusal::Volume(e) => e.message(),
            SnapshotRefusal::TooManyVolumes => "at most 24 volumes are supported (vdb..vdy)".to_string(),
            SnapshotRefusal::VolumeMissing(p) => "volume host file not found: ".to_string().concat(
                p.as_str(),
            ).concat("\ncreate it with: sudo dd if=/dev/zero of=").concat(p.as_str()).concat(
                " bs=1M count=512 && sudo mkfs.ext4 -F ",
            ).concat(p.as_str()),
        }
    }
}

/// Whether every volume of a snapshot can be read.
pub open spec fn all_readable(specs: Seq<Seq<char>>) -> bool {
    forall|i: int| 0 <= i < specs.len() ==> readable(#[trigger] specs[i])
}

/// Whether a snapshot is refused with `e`, given that nothing that is looked
/// at earlier is wrong.
pub open spec fn snapshot_refused(
    a: SnapshotArgs,
    f: SnapshotFacts,
    work_dir: Seq<char>,
    e: SnapshotRefusal,
) -> bool {
    let named = a.tag is Some && a.kernel is Some && a.rootfs is Some;
    let files = named && valid_tag(a.tag->0@) && f.kernel_exists && f.rootfs_exists;
    let ready = files && !workdir_refused(work_dir, f.workdir_exists, f.workdir_live);
    let read = ready && all_readable(views(a.volumes@));
    match e {
        SnapshotRefusal::NoTag => a.tag is None,
        SnapshotRefusal::NoKernel => a.tag is Some && a.kernel is None,
        SnapshotRefusal::NoRootfs => a.tag is Some && a.kernel is Some && a.rootfs is None,
        SnapshotRefusal::Tag(t) => named && !valid_tag(a.tag->0@) && tag_fault(a.tag->0@, t),
        SnapshotRefusal::KernelMissing(p) => named && valid_tag(a.tag->0@) && !f.kernel_exists
            && p@ == a.kernel->0@,
        SnapshotRefusal::RootfsMissing(p) => named && valid_tag(a.tag->0@) && f.kernel_exists
            && !f.rootfs_exists && p@ == a.rootfs->0@,
        SnapshotRefusal::Workdir(m) => files && workdir_refused(
            work_dir,
            f.workdir_exists,
            f.workdir_live,
        ) && m@ == workdir_text(work_dir, "snapshot"@, a.tag->0@, f.workdir_live),
        SnapshotRefusal::Volume(v) => ready && unreadable(views(a.volumes@), v),
        SnapshotRefusal::TooManyVolumes => read && a.volumes@.len() > MAX_CLI_VOLUMES,
        SnapshotRefusal::VolumeMissing(p) => {
            &&& read
            &&& a.volumes@.len() <= MAX_CLI_VOLUMES
            &&& exists|i: int|
                0 <= i < a.volumes@.len() && !f.volume_exists@[i] && p@ == volume_parts(
                    (#[trigger] a.volumes@[i])@,
                ).0 && forall|j: int| 0 <= j < i ==> #[trigger] f.volume_exists@[j]
        },
    }
}

/// Whether the guest may write its root filesystem.
pub open spec fn boots_writable(rw: bool, rootfs: Seq<char>) -> bool {
    rw || path_extension(rootfs) == Some("ext4"@)
}

pub open spec fn mount_hints(vs: Seq<VolumeSpec>) -> Seq<Seq<char>> {
    Seq::new(vs.len(), |i: int| mount_hint(i, vs[i]))
}

/// What a snapshot boots.
pub open spec fn is_boot_of(b: BootConfig, a: SnapshotArgs, work_dir: Seq<char>, vs: Seq<VolumeSpec>) -> bool {
    let rw = boots_writable(a.rw, a.rootfs->0@);
    &&& b.kernel@ == a.kernel->0@
    &&& b.rootfs@ == a.rootfs->0@
    &&& b.work_dir@ == work_dir
    &&& b.vcpu_count == 2
    &&& b.mem_size_mib == (match a.mem_size_mib {
        Some(m) => m,
        None => 512,
    })
    &&& b.rootfs_read_only == !rw
    &&& b.boot_args@ == with_mounts(
        if rw {
            "console=ttyS0 reboot=k panic=1 pci=off root=/dev/vda rw init=/forkd-init.sh"@
        } else {
            "console=ttyS0 reboot=k panic=1 pci=off root=/dev/vda ro"@
        },
        mount_hints(vs),
    )
    &&& match a.tap {
        Some(t) => b.network matches Some(n) && n.host_dev_name@ == t@ && n.iface_id@ == "eth0"@
            && opt_view(n.guest_mac) == Some("AA:FC:00:00:00:01"@) && opt_view(n.guest_ip) == Some(
            "10.42.0.2"@,
        ) && opt_view(n.host_gw) == Some("10.42.0.1"@) && opt_view(n.netmask) == Some(
            "255.255.255.0"@,
        ),
        None => b.network is None,
    }
    &&& b.volumes@ == vs
}

/// What a snapshot that is not refused does.
pub open spec fn is_snapshot_plan(
    p: SnapshotPlan,
    a: SnapshotArgs,
    f: SnapshotFacts,
    data_dir: Seq<char>,
    work_dir: Seq<char>,
) -> bool {
    let vs = p.metadata.volumes@;
    &&& p.tag@ == a.tag->0@
    &&& is_boot_of(p.boot, a, work_dir, vs)
    &&& vs.len() == a.volumes@.len()
    &&& forall|i: int| 0 <= i < vs.len() ==> reads_as(a.volumes@[i]@, #[trigger] vs[i])
    &&& p.snap_dir@ == snapshot_dir_of(data_dir, p.tag@)
    &&& p.metadata.vmstate@ == joined_path(p.snap_dir@, "vmstate"@)
    &&& p.metadata.memory@ == joined_path(p.snap_dir@, "memory.bin"@)
    &&& p.metadata.parent_tag is None
    &&& p.metadata.parent_content_hash is None
    &&& p.remove_stale == f.workdir_exists
}

/// The directory of a run that boots a parent for `tag`.
pub open spec fn parent_workdir(temp_dir: Seq<char>, tag: Seq<char>) -> Seq<char> {
    joined_path(temp_dir, "forkd-parent-"@ + tag)
}

/// The directory of a run that forks `tag`.
pub open spec fn fork_workdir(temp_dir: Seq<char>, tag: Seq<char>) -> Seq<char> {
    joined_path(temp_dir, "forkd-fork-"@ + tag)
}

/// The directory of a run: `op` is `parent` or `fork`.
pub fn run_workdir(temp_dir: &str, op: &str, tag: &str) -> (r: String)
    ensures
        r@ == joined_path(temp_dir@, "forkd-"@ + op@ + "-"@ + tag@),
{
    let name = "forkd-".to_string().concat(op).concat("-").concat(tag);
    join_path(temp_dir, name.as_str())
}

fn boot_of(a: &SnapshotArgs, kernel: &str, rootfs: &str, work_dir: &str, vs: &Vec<VolumeSpec>) -> (r:
    BootConfig)
    requires
        a.kernel is Some && a.kernel->0@ == kernel@,
        a.rootfs is Some && a.rootfs->0@ == rootfs@,
        vs@.len() <= MAX_CLI_VOLUMES,
    ensures
        is_boot_of(r, *a, work_dir@, vs@),
{
    let ext4 = match extension(rootfs) {
        Some(e) => str_eq(e.as_str(), "ext4"),
        None => false,
    };
    let rw = a.rw || ext4;
    let mut cfg = if rw {
        BootConfig::ext4_rw(kernel.to_string(), rootfs.to_string(), work_dir.to_string())
    } else {
        BootConfig::quickstart(kernel.to_string(), rootfs.to_string(), work_dir.to_string())
    };
    match a.mem_size_mib {
        Some(m) => {
            cfg.mem_size_mib = m;
        },
        None => {},
    }
    match &a.tap {
        Some(t) => {
            cfg = cfg.with_network(NetworkConfig::default_tap(t.as_str()));
        },
        None => {},
    }
    let ghost start = cfg;
    let ghost hints = mount_hints(vs@);
    let mut i: usize = 0;
    assert(hints.take(0) =~= Seq::<Seq<char>>::empty());
    assert(cfg.volumes@ =~= vs@.take(0));
    while i < vs.len()
        invariant
            i <= vs.len(),
            vs@.len() <= MAX_CLI_VOLUMES,
            hints == mount_hints(vs@),
            cfg == (BootConfig { boot_args: cfg.boot_args, volumes: cfg.volumes, ..start }),
            cfg.volumes@ == vs@.take(i as int),
            cfg.boot_args@ == with_mounts(start.boot_args@, hints.take(i as int)),
        decreases vs.len() - i,
    {
        let v = vs[i].clone();
        proof {
            assert(hints.take(i + 1).drop_last() =~= hints.take(i as int));
            assert(hints.take(i + 1).last() == mount_hint(i as int, v));
            assert(vs@.take(i + 1) =~= vs@.take(i as int).push(v));
        }
        match cfg.with_volume(v) {
            Ok(c) => {
                cfg = c;
            },
            Err(_) => {
                return vstd::pervasive::unreached();
            },
        }
        i += 1;
    }
    assert(hints.take(i as int) =~= hints);
    assert(vs@.take(i as int) =~= vs@);
    cfg
}

/// Plans a snapshot that is booted on this host, or refuses it.
pub fn plan_snapshot(a: &SnapshotArgs, f: &SnapshotFacts, data_dir: &str, temp_dir: &str) -> (r: Result<
    SnapshotPlan,
    SnapshotRefusal,
>)
    requires
        f.volume_exists@.len() == a.volumes@.len(),
    ensures
        ({
            let work_dir = parent_workdir(temp_dir@, match a.tag {
                Some(t) => t@,
                None => Seq::empty(),
            });
            match r {
                Ok(p) => {
                    &&& is_snapshot_plan(p, *a, *f, data_dir@, work_dir)
                    &&& a.tag is Some && a.kernel is Some && a.rootfs is Some
                    &&& valid_tag(a.tag->0@)
                    &&& f.kernel_exists && f.rootfs_exists
                    &&& !workdir_refused(work_dir, f.workdir_exists, f.workdir_live)
                    &&& a.volumes@.len() <= MAX_CLI_VOLUMES
                    &&& forall|i: int|
                        0 <= i < a.volumes@.len() ==> #[trigger] f.volume_exists@[i]
                },
                Err(e) => snapshot_refused(*a, *f, work_dir, e),
            }
        }),
{
    let tag = match &a.tag {
        Some(t) => t.clone(),
        None => {
            return Err(SnapshotRefusal::NoTag);
        },
    };
    let kernel = match &a.kernel {
        Some(k) => k.clone(),
        None => {
            return Err(SnapshotRefusal::NoKernel);
        },
    };
    let rootfs = match &a.rootfs {
        Some(p) => p.clone(),
        None => {
            return Err(SnapshotRefusal::NoRootfs);
        },
    };
    match validate_tag(tag.as_str()) {
        Ok(_) => {},
        Err(e) => {
            return Err(SnapshotRefusal::Tag(e));
        },
    }
    if !f.kernel_exists {
        return Err(SnapshotRefusal::KernelMissing(kernel));
    }
    if !f.rootfs_exists {
        return Err(SnapshotRefusal::RootfsMissing(rootfs));
    }
    let work_dir = run_workdir(temp_dir, "parent", tag.as_str());
    proof {
        reveal_strlit("forkd-");
        reveal_strlit("parent");
        reveal_strlit("-");
        reveal_strlit("forkd-parent-");
        assert("forkd-"@ + "parent"@ + "-"@ + tag@ =~= "forkd-parent-"@ + tag@);
    }
    let remove_stale = match preflight_workdir(
        work_dir.as_str(),
        "snapshot",
        tag.as_str(),
        f.workdir_exists,
        f.workdir_live,
    ) {
        Ok(b) => b,
        Err(e) => {
            return Err(SnapshotRefusal::Workdir(e));
        },
    };
    let volumes = match parse_volumes(&a.volumes) {
        Ok(vs) => vs,
        Err(e) => {
            return Err(SnapshotRefusal::Volume(e));
        },
    };
    proof {
        let specs = views(a.volumes@);
        assert forall|j: int| 0 <= j < specs.len() implies readable(#[trigger] specs[j]) by {
            assert(specs[j] == a.volumes@[j]@);
            assert(reads_as(a.volumes@[j]@, volumes@[j]));
        }
    }
    if volumes.len() > MAX_CLI_VOLUMES {
        return Err(SnapshotRefusal::TooManyVolumes);
    }
    let mut i: usize = 0;
    while i < volumes.len()
        invariant
            i <= volumes.len(),
            volumes@.len() == a.volumes@.len(),
            f.volume_exists@.len() == a.volumes@.len(),
            a.tag is Some && a.kernel is Some && a.rootfs is Some,
            tag@ == a.tag->0@,
            valid_tag(a.tag->0@),
            f.kernel_exists && f.rootfs_exists,
            work_dir@ == parent_workdir(temp_dir@, tag@),
            !workdir_refused(work_dir@, f.workdir_exists, f.workdir_live),
            all_readable(views(a.volumes@)),
            volumes@.len() <= MAX_CLI_VOLUMES,
            forall|j: int| 0 <= j < volumes@.len() ==> reads_as(a.volumes@[j]@, #[trigger] volumes@[j]),
            forall|j: int| 0 <= j < i ==> #[trigger] f.volume_exists@[j],
        decreases volumes.len() - i,
    {
        if !f.volume_exists[i] {
            proof {
                assert(reads_as(a.volumes@[i as int]@, volumes@[i as int]));
                assert(volumes@[i as int].host_path@ == volume_parts(a.volumes@[i as int]@).0);
            }
            return Err(SnapshotRefusal::VolumeMissing(volumes[i].host_path.clone()));
        }
        i += 1;
    }
    let boot = boot_of(a, kernel.as_str(), rootfs.as_str(), work_dir.as_str(), &volumes);
    let snap_dir = snapshot_dir(data_dir, tag.as_str());
    let metadata = Snapshot {
        vmstate: join_path(snap_dir.as_str(), "vmstate"),
        memory: join_path(snap_dir.as_str(), "memory.bin"),
        volumes,
        parent_tag: None,
        parent_content_hash: None,
    };
    Ok(SnapshotPlan { tag, boot, snap_dir, metadata, remove_stale })
}

// ---------------------------------------------------------------------
// Forks
// ---------------------------------------------------------------------

/// The snapshot in a directory: what its metadata says, a plain one where
/// there is none, and an error where it cannot be read.
pub fn load_snapshot_meta(dir: &str, stored: &StoredMeta) -> (r: Result<Snapshot, String>)
    ensures
        match *stored {
            StoredMeta::Absent => r matches Ok(s) && is_fallback(s, dir@),
            StoredMeta::Unreadable(why) => r matches Err(e) && e@ == why@,
            StoredMeta::Read(m) => r matches Ok(s) && s.same(m),
        },
{
    match stored {
        StoredMeta::Absent => Ok(load_snapshot_with_fallback(dir, &None)),
        StoredMeta::Unreadable(why) => Err(why.clone()),
        StoredMeta::Read(m) => Ok(m.copy()),
    }
}

/// What is on disk for a fork.
#[derive(Debug)]
pub struct ForkFacts {
    pub vmstate_exists: bool,
    pub workdir_exists: bool,
    pub workdir_live: bool,
    pub stored: StoredMeta,
}

/// A fork that is about to be made.
#[derive(Debug)]
pub struct ForkPlan {
    pub snapshot: Snapshot,
    pub opts: ForkOpts,
    pub work_dir: String,
    pub remove_stale: bool,
}

/// Why a fork is refused.
#[derive(Debug, PartialEq, Eq)]
pub enum ForkRefusal {
    Tag(TagError),
    Missing { tag: String, dir: String },
    Workdir(String),
    Metadata(String),
}

impl ForkRefusal {
    pub fn message(&self) -> (r: String)
        ensures
            r@ == (match *self {
                ForkRefusal::Tag(e) => e.text(),
                ForkRefusal::Missing { tag, dir } => "snapshot tag '"@ + tag@ + "' not found at "@
                    + dir@ + "\nrun 'forkd snapshot --tag "@ + tag@ + " ...' first"@,
                ForkRefusal::Workdir(e) => e@,
                ForkRefusal::Metadata(e) => e@,
            }),
    {
        match self {
            ForkRefusal::Tag(e) => e.message(),
            ForkRefusal::Missing { tag, dir } => "snapshot tag '".to_string().concat(
                tag.as_str(),
            ).concat("' not found at ").concat(dir.as_str()).concat(
                "\nrun 'forkd snapshot --tag ",
            ).concat(tag.as_str()).concat(" ...' first"),
            ForkRefusal::Workdir(e) => e.clone(),
            ForkRefusal::Metadata(e) => e.clone(),
        }
    }
}

/// What a fork that is not refused does: `dir` is the snapshot's directory.
pub open spec fn is_fork_plan(
    p: ForkPlan,
    n: usize,
    per_child_netns: bool,
    memory_limit_mib: Option<u64>,
    f: ForkFacts,
    dir: Seq<char>,
    work_dir: Seq<char>,
) -> bool {
    &&& match f.stored {
        StoredMeta::Absent => is_fallback(p.snapshot, dir),
        StoredMeta::Unreadable(_) => false,
        StoredMeta::Read(m) => p.snapshot.same(m),
    }
    &&& p.opts.n == n
    &&& p.opts.per_child_netns == per_child_netns
    &&& p.opts.memory_limit_mib == memory_limit_mib
    &&& p.opts.netns_offset == 0
    &&& p.opts.prewarm_scratch_dir is None
    &&& p.opts.memory_backend == MemoryBackend::File
    &&& !p.opts.enable_diff_snapshots
    &&& p.work_dir@ == work_dir
    &&& p.remove_stale == f.workdir_exists
}

/// Plans a fork of `n` children of a local snapshot, or refuses it.
pub fn plan_fork(
    tag: &str,
    n: usize,
    per_child_netns: bool,
    memory_limit_mib: Option<u64>,
    f: &ForkFacts,
    data_dir: &str,
    temp_dir: &str,
) -> (r: Result<ForkPlan, ForkRefusal>)
    ensures
        ({
            let dir = snapshot_dir_of(data_dir@, tag@);
            let work_dir = fork_workdir(temp_dir@, tag@);
            let found = valid_tag(tag@) && f.vmstate_exists;
            let blocked = workdir_refused(work_dir, f.workdir_exists, f.workdir_live);
            match r {
                Ok(p) => {
                    &&& found && !blocked
                    &&& is_fork_plan(p, n, per_child_netns, memory_limit_mib, *f, dir, work_dir)
                },
                Err(ForkRefusal::Tag(e)) => !valid_tag(tag@) && tag_fault(tag@, e),
                Err(ForkRefusal::Missing { tag: t, dir: d }) => valid_tag(tag@)
                    && !f.vmstate_exists && t@ == tag@ && d@ == dir,
                Err(ForkRefusal::Workdir(m)) => found && blocked && m@ == workdir_text(
                    work_dir,
                    "fork"@,
                    tag@,
                    f.workdir_live,
                ),
                Err(ForkRefusal::Metadata(e)) => found && !blocked && (f.stored matches
                    StoredMeta::Unreadable(why) && e@ == why@),
            }
        }),
{
    match validate_tag(tag) {
        Ok(_) => {},
        Err(e) => {
            return Err(ForkRefusal::Tag(e));
        },
    }
    let dir = snapshot_dir(data_dir, tag);
    if !f.vmstate_exists {
        return Err(ForkRefusal::Missing { tag: tag.to_string(), dir });
    }
    let work_dir = run_workdir(temp_dir, "fork", tag);
    proof {
        reveal_strlit("forkd-");
        reveal_strlit("fork");
        reveal_strlit("-");
        reveal_strlit("forkd-fork-");
        assert("forkd-"@ + "fork"@ + "-"@ + tag@ =~= "forkd-fork-"@ + tag@);
    }
    let remove_stale = match preflight_workdir(
        work_dir.as_str(),
        "fork",
        tag,
        f.workdir_exists,
        f.workdir_live,
    ) {
        Ok(b) => b,
        Err(e) => {
            return Err(ForkRefusal::Workdir(e));
        },
    };
    let snapshot = match load_snapshot_meta(dir.as_str(), &f.stored) {
        Ok(s) => s,
        Err(e) => {
            return Err(ForkRefusal::Metadata(e));
        },
    };
    let opts = ForkOpts {
        n,
        per_child_netns,
        memory_limit_mib,
        netns_offset: 0,
        prewarm_scratch_dir: None,
        memory_backend: MemoryBackend::File,
        enable_diff_snapshots: false,
    };
    Ok(ForkPlan { snapshot, opts, work_dir, remove_stale })
}

// ---------------------------------------------------------------------
// One-shot runs
// ---------------------------------------------------------------------

/// A command that is about to run in a sandbox of its own.
#[derive(Debug)]
pub struct RunPlan {
    /// The root filesystem built from the image, and kept.
    pub rootfs: String,
    /// How large it is built where it is not there yet.
    pub rootfs_mib: u32,
    /// What is snapshotted for the run.
    pub snapshot: SnapshotArgs,
    /// How long the booted guest is waited for.
    pub boot_wait_secs: u64,
    pub tag: String,
    pub opts: ForkOpts,
    pub work_dir: String,
    /// How long the command may take.
    pub timeout_secs: u64,
}

/// What a one-shot run of `image` does.
pub open spec fn is_run_plan(
    p: RunPlan,
    image: Seq<char>,
    cache: Seq<char>,
    kernel: Seq<char>,
    tap: Seq<char>,
    temp_dir: Seq<char>,
) -> bool {
    &&& p.rootfs@ == joined_path(cache, slug_of(image) + ".ext4"@)
    &&& p.rootfs_mib == 1536
    &&& p.tag@ == "run-"@ + slug_of(image)
    &&& opt_view(p.snapshot.tag) == Some(p.tag@)
    &&& opt_view(p.snapshot.kernel) == Some(kernel)
    &&& opt_view(p.snapshot.rootfs) == Some(p.rootfs@)
    &&& p.snapshot.rw
    &&& opt_view(p.snapshot.tap) == Some(tap)
    &&& p.snapshot.mem_size_mib is None
    &&& p.snapshot.volumes@.len() == 0
    &&& p.boot_wait_secs == 10
    &&& p.opts.n == 1
    &&& !p.opts.per_child_netns
    &&& p.opts.memory_limit_mib is None
    &&& p.opts.netns_offset == 0
    &&& p.opts.prewarm_scratch_dir is None
    &&& p.opts.memory_backend == MemoryBackend::File
    &&& !p.opts.enable_diff_snapshots
    &&& p.work_dir@ == joined_path(temp_dir, "forkd-run-"@ + p.tag@)
    &&& p.timeout_secs == 60
}

/// Plans a one-shot run of a command in an image, or refuses it.
pub fn plan_run(
    image: &str,
    cache: &str,
    kernel: &str,
    kernel_exists: bool,
    tap: &str,
    cmd: &Vec<String>,
    temp_dir: &str,
) -> (r: Result<RunPlan, String>)
    ensures
        if cmd@.len() == 0 {
            r matches Err(e) && e@
                == "no command provided. Usage: forkd run --image <img> -- <cmd> [args...]"@
        } else if !kernel_exists {
            r matches Err(e) && e@ == "kernel not found: "@ + kernel@
                + "\nset --kernel or FORKD_KERNEL"@
        } else {
            r matches Ok(p) && is_run_plan(p, image@, cache@, kernel@, tap@, temp_dir@)
        },
{
    if cmd.len() == 0 {
        return Err(
            "no command provided. Usage: forkd run --image <img> -- <cmd> [args...]".to_string(),
        );
    }
    if !kernel_exists {
        return Err(
            "kernel not found: ".to_string().concat(kernel).concat("\nset --kernel or FORKD_KERNEL"),
        );
    }
    let s = slug(image);
    let file = s.clone().concat(".ext4");
    let tag = "run-".to_string().concat(s.as_str());
    let name = "forkd-run-".to_string().concat(tag.as_str());
    let rootfs = join_path(cache, file.as_str());
    let snapshot = SnapshotArgs {
        tag: Some(tag.clone()),
        kernel: Some(kernel.to_string()),
        rootfs: Some(rootfs.clone()),
        rw: true,
        tap: Some(tap.to_string()),
        mem_size_mib: None,
        volumes: Vec::new(),
    };
    Ok(
        RunPlan {
            rootfs,
            rootfs_mib: 1536,
            snapshot,
            boot_wait_secs: 10,
            tag,
            opts: ForkOpts::default(),
            work_dir: join_path(temp_dir, name.as_str()),
            timeout_secs: 60,
        },
    )
}

/// The arguments of the script that turns an image into a root filesystem.
pub fn build_arguments(script: &str, image: &str, out: &str, size_mib: u32, extra: &Vec<String>) -> (r:
    Vec<String>)
    ensures
        views(r@) == seq![script@, image@, out@, dec(size_mib as nat)] + views(extra@),
{
    let mut v: Vec<String> = Vec::new();
    v.push(script.to_string());
    v.push(image.to_string());
    v.push(out.to_string());
    v.push(dec_string(size_mib as u64));
    let ghost head = seq![script@, image@, out@, dec(size_mib as nat)];
    assert(views(v@) =~= head);
    let mut i: usize = 0;
    assert(views(extra@).take(0) =~= Seq::<Seq<char>>::empty());
    assert(views(v@) =~= head + views(extra@).take(0));
    while i < extra.len()
        invariant
            i <= extra.len(),
            views(v@) == head + views(extra@).take(i as int),
        decreases extra.len() - i,
    {
        let e = extra[i].clone();
        proof {
            assert(views(v@.push(e)) =~= views(v@).push(e@));
            assert(views(extra@).take(i + 1) =~= views(extra@).take(i as int).push(e@));
            assert((head + views(extra@).take(i as int)).push(e@) =~= head + views(extra@).take(
                i + 1,
            ));
        }
        v.push(e);
        i += 1;
    }
    assert(views(extra@).take(i as int) =~= views(extra@));
    v
}

/// How many directories above the program are looked at for a script.
pub const SCRIPT_LEVELS: usize = 6;

pub open spec fn below_scripts(dirs: Seq<Seq<char>>, name: Seq<char>) -> Seq<Seq<char>> {
    dirs.map_values(|d: Seq<char>| joined_path(joined_path(d, "scripts"@), name))
}

pub open spec fn nearest(dirs: Seq<Seq<char>>) -> Seq<Seq<char>> {
    if dirs.len() > SCRIPT_LEVELS {
        dirs.take(SCRIPT_LEVELS as int)
    } else {
        dirs
    }
}

/// Where a script is looked for, in order: in the directory that the
/// environment names, below the directories above the program (the nearest
/// first), and where it is installed.
pub fn script_candidates(scripts_dir: &Option<String>, above: &Vec<String>, name: &str) -> (r: Vec<
    String,
>)
    ensures
        views(r@) == (match *scripts_dir {
            Some(d) => seq![joined_path(d@, name@)],
            None => Seq::empty(),
        }) + below_scripts(nearest(views(above@)), name@) + seq![
            joined_path("/usr/local/share/forkd/scripts"@, name@),
        ],
{
    let mut v: Vec<String> = Vec::new();
    match scripts_dir {
        Some(d) => {
            v.push(join_path(d.as_str(), name));
        },
        None => {},
    }
    let ghost head = match scripts_dir {
        Some(d) => seq![joined_path(d@, name@)],
        None => Seq::empty(),
    };
    assert(views(v@) =~= head);
    let ghost all = below_scripts(views(above@), name@);
    let mut i: usize = 0;
    assert(views(v@) =~= head + all.take(0));
    while i < above.len() && i < SCRIPT_LEVELS
        invariant
            i <= above.len(),
            i <= SCRIPT_LEVELS,
            all == below_scripts(views(above@), name@),
            views(v@) == head + all.take(i as int),
        decreases above.len() - i,
    {
        let d = join_path(above[i].as_str(), "scripts");
        let c = join_path(d.as_str(), name);
        proof {
            assert(views(v@.push(c)) =~= views(v@).push(c@));
            assert(all[i as int] == c@);
            assert(all.take(i + 1) =~= all.take(i as int).push(c@));
            assert((head + all.take(i as int)).push(c@) =~= head + all.take(i + 1));
        }
        v.push(c);
        i += 1;
    }
    assert(all.take(i as int) =~= below_scripts(nearest(views(above@)), name@));
    let last = join_path("/usr/local/share/forkd/scripts", name);
    assert(views(v@.push(last)) =~= views(v@).push(last@));
    v.push(last);
    assert(views(v@) =~= head + below_scripts(nearest(views(above@)), name@) + seq![
        joined_path("/usr/local/share/forkd/scripts"@, name@),
    ]);
    v
}

/// The first candidate that is there.
pub fn find_script(name: &str, candidates: &Vec<String>, present: &Vec<bool>) -> (r: Result<
    String,
    String,
>)
    requires
        present@.len() == candidates@.len(),
    ensures
        match r {
            Ok(p) => exists|i: int|
                0 <= i < candidates@.len() && #[trigger] present@[i] && p@ == candidates@[i]@
                    && forall|j: int| 0 <= j < i ==> !#[trigger] present@[j],
            Err(e) => {
                &&& forall|j: int| 0 <= j < present@.len() ==> !#[trigger] present@[j]
                &&& e@ == "could not find scripts/"@ + name@
                    + " — set FORKD_SCRIPTS_DIR to the forkd repo's `scripts/` dir"@
            },
        },
{
    let mut i: usize = 0;
    while i < candidates.len()
        invariant
            i <= candidates.len(),
            present@.len() == candidates@.len(),
            forall|j: int| 0 <= j < i ==> !#[trigger] present@[j],
        decreases candidates.len() - i,
    {
        if present[i] {
            return Ok(candidates[i].clone());
        }
        i += 1;
    }
    Err(
        "could not find scripts/".to_string().concat(name).concat(
            " — set FORKD_SCRIPTS_DIR to the forkd repo's `scripts/` dir",
        ),
    )
}

/// The directory of a run in the usual place is one that the run may be given,
/// as long as nothing uses it.
pub proof fn law_own_workdir_is_no_obstacle(tag: Seq<char>, present: bool)
    ensures
        !workdir_refused(fork_workdir("/tmp"@, tag), present, false),
        !workdir_refused(parent_workdir("/tmp"@, tag), present, false),
        present ==> workdir_refused(fork_workdir("/tmp"@, tag), present, true),
{
    reveal_strlit("/tmp");
    reveal_strlit("/");
    reveal_strlit("forkd-fork-");
    reveal_strlit("forkd-parent-");
    reveal_strlit("/tmp/forkd-fork-");
    reveal_strlit("/tmp/forkd-parent-");
    let f = "forkd-fork-"@ + tag;
    let p = "forkd-parent-"@ + tag;
    assert(f[0] == 'f' && p[0] == 'f');
    assert(fork_workdir("/tmp"@, tag) =~= "/tmp/forkd-fork-"@ + tag);
    assert(parent_workdir("/tmp"@, tag) =~= "/tmp/forkd-parent-"@ + tag);
    assert(("/tmp/forkd-fork-"@ + tag).take("/tmp/forkd-fork-"@.len() as int)
        =~= "/tmp/forkd-fork-"@);
    assert(("/tmp/forkd-parent-"@ + tag).take("/tmp/forkd-parent-"@.len() as int)
        =~= "/tmp/forkd-parent-"@);
}

} // verus!
