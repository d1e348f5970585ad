//! What Firecracker makes of the calls it is sent.
//!
//! A call is read the way the other side reads it: by its method, its path and
//! the members of the JSON object in its body. A sequence of calls then takes
//! a machine from one state to the next.
use vstd::prelude::*;

use crate::api::opt_view;
use crate::boot::{mount_hint, BootConfig, NetworkConfig, VolumeSpec};
use crate::document::{
    document, is_plain, law_documents_read_back, lemma_four_members, lemma_one_member,
    lemma_plain_literal, lemma_three_members, lemma_two_members, lookup, named, text_of, Json,
};
use crate::firecracker::{
    boot_calls_of, boot_source_call, call, drive_body, kind_name, machine_call, network_call,
    pause_of, resume_of, rootfs_call, shutdown_of, snapshot_create, snapshot_load, start_call,
    volume_call, write_protect, Call, SnapshotKind,
};
use crate::fork::{is_prewarm, load_of, ForkOpts, Prewarm, Snapshot};
use crate::json::{json_bool, json_string};
use crate::text::dec;

verus! {

/// What a call asks for.
pub ghost enum Ask {
    Kernel { image: Seq<char>, args: Seq<char> },
    Drive { id: Seq<char>, drive: Drive },
    Size { mem_mib: nat, vcpus: nat, track_dirty: bool },
    Network { id: Seq<char>, nic: Nic },
    Start,
    PowerOff,
    Pause,
    Resume,
    Save { vmstate: Seq<char>, memory: Seq<char>, kind: SnapshotKind },
    Load { vmstate: Seq<char>, memory: Seq<char>, shared: bool, track_dirty: bool, run: bool },
    ReportWrites { sock: Seq<char> },
}

/// A block device: the file behind it, and whether the guest may write to it.
pub ghost struct Drive {
    pub path: Seq<char>,
    pub read_only: bool,
    pub root: bool,
}

/// A network interface.
pub ghost struct Nic {
    pub tap: Seq<char>,
    pub mac: Option<Seq<char>>,
}

// ---------------------------------------------------------------------
// Reading a call
// ---------------------------------------------------------------------

/// The member of `d` that `key` names, where it is a string.
pub open spec fn text_at(d: Json, key: Seq<char>) -> Option<Seq<char>> {
    match d.member(key) {
        Some(Json::Text(t)) => Some(t),
        _ => None,
    }
}

pub open spec fn flag_at(d: Json, key: Seq<char>) -> Option<bool> {
    match d.member(key) {
        Some(Json::Bool(b)) => Some(b),
        _ => None,
    }
}

pub open spec fn number_at(d: Json, key: Seq<char>) -> Option<nat> {
    match d.member(key) {
        Some(Json::Num(n)) => Some(n),
        _ => None,
    }
}

pub open spec fn kernel_asked(d: Json) -> Option<Ask> {
    match (text_at(d, "kernel_image_path"@), text_at(d, "boot_args"@)) {
        (Some(image), Some(args)) => Some(Ask::Kernel { image, args }),
        _ => None,
    }
}

/// The drive that `id` in the path names; the body names it too.
pub open spec fn drive_asked(id: Seq<char>, d: Json) -> Option<Ask> {
    match (
        text_at(d, "drive_id"@),
        text_at(d, "path_on_host"@),
        flag_at(d, "is_read_only"@),
        flag_at(d, "is_root_device"@),
    ) {
        (Some(name), Some(path), Some(read_only), Some(root)) => if name == id {
            Some(Ask::Drive { id, drive: Drive { path, read_only, root } })
        } else {
            None
        },
        _ => None,
    }
}

pub open spec fn size_asked(d: Json) -> Option<Ask> {
    match (
        number_at(d, "mem_size_mib"@),
        number_at(d, "vcpu_count"@),
        flag_at(d, "track_dirty_pages"@),
    ) {
        (Some(mem_mib), Some(vcpus), Some(track_dirty)) => Some(
            Ask::Size { mem_mib, vcpus, track_dirty },
        ),
        _ => None,
    }
}

pub open spec fn network_asked(id: Seq<char>, d: Json) -> Option<Ask> {
    match (text_at(d, "iface_id"@), text_at(d, "host_dev_name"@)) {
        (Some(name), Some(tap)) => if name == id {
            Some(Ask::Network { id, nic: Nic { tap, mac: text_at(d, "guest_mac"@) } })
        } else {
            None
        },
        _ => None,
    }
}

pub open spec fn action_asked(d: Json) -> Option<Ask> {
    match text_at(d, "action_type"@) {
        Some(t) => if t == "InstanceStart"@ {
            Some(Ask::Start)
        } else if t == "SendCtrlAltDel"@ {
            Some(Ask::PowerOff)
        } else {
            None
        },
        None => None,
    }
}

pub open spec fn state_asked(d: Json) -> Option<Ask> {
    match text_at(d, "state"@) {
        Some(t) => if t == "Paused"@ {
            Some(Ask::Pause)
        } else if t == "Resumed"@ {
            Some(Ask::Resume)
        } else {
            None
        },
        None => None,
    }
}

pub open spec fn save_asked(d: Json) -> Option<Ask> {
    match (
        text_at(d, "snapshot_path"@),
        text_at(d, "mem_file_path"@),
        text_at(d, "snapshot_type"@),
    ) {
        (Some(vmstate), Some(memory), Some(t)) => if t == "Full"@ {
            Some(Ask::Save { vmstate, memory, kind: SnapshotKind::Full })
        } else if t == "Diff"@ {
            Some(Ask::Save { vmstate, memory, kind: SnapshotKind::Diff })
        } else if t == "VmstateOnly"@ {
            Some(Ask::Save { vmstate, memory, kind: SnapshotKind::VmstateOnly })
        } else {
            None
        },
        _ => None,
    }
}

/// Memory comes from a file; `shared` is false where it is not mentioned.
pub open spec fn load_asked(d: Json) -> Option<Ask> {
    match (
        text_at(d, "snapshot_path"@),
        d.member("mem_backend"@),
        flag_at(d, "enable_diff_snapshots"@),
        flag_at(d, "resume_vm"@),
    ) {
        (Some(vmstate), Some(backend), Some(track_dirty), Some(run)) => match (
            text_at(backend, "backend_path"@),
            text_at(backend, "backend_type"@),
        ) {
            (Some(memory), Some(t)) => if t == "File"@ {
                Some(
                    Ask::Load {
                        vmstate,
                        memory,
                        shared: flag_at(backend, "shared"@) == Some(true),
                        track_dirty,
                        run,
                    },
                )
            } else {
                None
            },
            _ => None,
        },
        _ => None,
    }
}

pub open spec fn writes_asked(d: Json) -> Option<Ask> {
    match text_at(d, "uds_path"@) {
        Some(sock) => Some(Ask::ReportWrites { sock }),
        None => None,
    }
}

/// What a path names: a resource, and the thing in it where there are several.
pub ghost enum Place {
    BootSource,
    Drive(Seq<char>),
    MachineConfig,
    Network(Seq<char>),
    Actions,
    Vm,
    SnapshotCreate,
    SnapshotLoad,
    WriteProtection,
    Nowhere,
}

pub open spec fn place(path: Seq<char>) -> Place {
    if "/drives/"@.is_prefix_of(path) {
        Place::Drive(path.skip("/drives/"@.len() as int))
    } else if "/network-interfaces/"@.is_prefix_of(path) {
        Place::Network(path.skip("/network-interfaces/"@.len() as int))
    } else if path == "/boot-source"@ {
        Place::BootSource
    } else if path == "/machine-config"@ {
        Place::MachineConfig
    } else if path == "/actions"@ {
        Place::Actions
    } else if path == "/vm"@ {
        Place::Vm
    } else if path == "/snapshot/create"@ {
        Place::SnapshotCreate
    } else if path == "/snapshot/load"@ {
        Place::SnapshotLoad
    } else if path == "/uffd/wp"@ {
        Place::WriteProtection
    } else {
        Place::Nowhere
    }
}

/// What a call asks for; None where it makes no sense.
#[verifier::opaque]
pub open spec fn asked(c: Call) -> Option<Ask> {
    match document(c.body) {
        None => None,
        Some(d) => if c.method == "PUT"@ {
            match place(c.path) {
                Place::BootSource => kernel_asked(d),
                Place::Drive(id) => drive_asked(id, d),
                Place::MachineConfig => size_asked(d),
                Place::Network(id) => network_asked(id, d),
                Place::Actions => action_asked(d),
                Place::SnapshotCreate => save_asked(d),
                Place::SnapshotLoad => load_asked(d),
                Place::WriteProtection => writes_asked(d),
                _ => None,
            }
        } else if c.method == "PATCH"@ && place(c.path) is Vm {
            state_asked(d)
        } else {
            None
        },
    }
}

// ---------------------------------------------------------------------
// Carrying calls out
// ---------------------------------------------------------------------

#[derive(Structural, PartialEq, Eq, Clone, Copy)]
pub enum Phase {
    /// Being set up.
    Off,
    Running,
    Paused,
}

/// A machine, as far as calls set it up.
pub ghost struct Machine {
    pub phase: Phase,
    /// The kernel image and its command line.
    pub kernel: Option<(Seq<char>, Seq<char>)>,
    /// The drives in the order of their device names: `vda`, `vdb` and so on.
    pub drives: Seq<Drive>,
    /// Its memory in MiB and its vCPUs.
    pub size: Option<(nat, nat)>,
    pub nics: Seq<Nic>,
    /// Whether it is known which pages the guest has written to.
    pub track_dirty: bool,
    /// What it was restored from: the vmstate, the memory, and whether it
    /// shares that memory.
    pub restored: Option<(Seq<char>, Seq<char>, bool)>,
}

impl Machine {
    /// A process that has just been started.
    pub open spec fn fresh() -> Machine {
        Machine {
            phase: Phase::Off,
            kernel: None,
            drives: Seq::empty(),
            size: None,
            nics: Seq::empty(),
            track_dirty: false,
            restored: None,
        }
    }

    /// What the machine is after it was asked for something; None where it
    /// refuses.
    pub open spec fn answer(self, a: Ask) -> Option<Machine> {
        let off = self.phase == Phase::Off;
        match a {
            Ask::Kernel { image, args } => if off {
                Some(Machine { kernel: Some((image, args)), ..self })
            } else {
                None
            },
            Ask::Drive { id, drive } => if off {
                Some(Machine { drives: self.drives.push(drive), ..self })
            } else {
                None
            },
            Ask::Size { mem_mib, vcpus, track_dirty } => if off {
                Some(Machine { size: Some((mem_mib, vcpus)), track_dirty, ..self })
            } else {
                None
            },
            Ask::Network { id, nic } => if off {
                Some(Machine { nics: self.nics.push(nic), ..self })
            } else {
                None
            },
            Ask::Start => if off && self.kernel is Some && self.size is Some && self.drives.len()
                > 0 && self.drives[0].root {
                Some(Machine { phase: Phase::Running, ..self })
            } else {
                None
            },
            Ask::PowerOff => if off {
                None
            } else {
                Some(self)
            },
            Ask::Pause => if off {
                None
            } else {
                Some(Machine { phase: Phase::Paused, ..self })
            },
            Ask::Resume => if off {
                None
            } else {
                Some(Machine { phase: Phase::Running, ..self })
            },
            Ask::Save { vmstate, memory, kind } => if self.phase == Phase::Paused && (kind
                == SnapshotKind::Diff ==> self.track_dirty) {
                Some(self)
            } else {
                None
            },
            Ask::Load { vmstate, memory, shared, track_dirty, run } => if self == Machine::fresh() {
                Some(
                    Machine {
                        phase: if run {
                            Phase::Running
                        } else {
                            Phase::Paused
                        },
                        track_dirty,
                        restored: Some((vmstate, memory, shared)),
                        ..self
                    },
                )
            } else {
                None
            },
            Ask::ReportWrites { sock } => if off {
                None
            } else {
                Some(self)
            },
        }
    }

    /// What a sequence of calls makes of the machine; None where one of them
    /// is refused.
    pub open spec fn after(self, cs: Seq<Call>) -> Option<Machine>
        decreases cs.len(),
    {
        if cs.len() == 0 {
            Some(self)
        } else {
            match self.after(cs.drop_last()) {
                Some(m) => match asked(cs.last()) {
                    Some(a) => m.answer(a),
                    None => None,
                },
                None => None,
            }
        }
    }
}

// ---------------------------------------------------------------------
// The texts of the calls
// ---------------------------------------------------------------------

/// A key in its quotes with a colon behind it, and what stands before it.
pub open spec fn lead(before: Seq<char>, key: Seq<char>) -> Seq<char> {
    before + seq!['"'] + key + seq!['"', ':']
}

pub(crate) proof fn lemma_lead(a: Seq<char>, b: Seq<char>, key: Seq<char>)
    ensures
        a + lead(b, key) == lead(a + b, key),
{
    assert(a + lead(b, key) =~= lead(a + b, key));
}

pub(crate) proof fn lemma_sum(a: Seq<char>, b: Seq<char>, c: Seq<char>)
    ensures
        a + (b + c) == a + b + c,
{
    assert(a + (b + c) =~= a + b + c);
}

proof fn lemma_size_text(cfg: BootConfig)
    ensures
        machine_call(cfg).body == text_of(
            Json::Members(
                seq![
                    ("mem_size_mib"@, Json::Num(cfg.mem_size_mib as nat)),
                    ("track_dirty_pages"@, Json::Bool(true)),
                    ("vcpu_count"@, Json::Num(cfg.vcpu_count as nat)),
                ],
            ),
        ),
{
    reveal_strlit("mem_size_mib");
    reveal_strlit("track_dirty_pages");
    reveal_strlit("vcpu_count");
    reveal_strlit("true");
    reveal_strlit("{\"mem_size_mib\":");
    reveal_strlit(",\"track_dirty_pages\":true,\"vcpu_count\":");
    reveal_strlit("}");
    let mem = dec(cfg.mem_size_mib as nat);
    let cpu = dec(cfg.vcpu_count as nat);
    lemma_three_members(
        "mem_size_mib"@,
        Json::Num(cfg.mem_size_mib as nat),
        "track_dirty_pages"@,
        Json::Bool(true),
        "vcpu_count"@,
        Json::Num(cfg.vcpu_count as nat),
    );
    let t1 = lead(seq!['{'], "mem_size_mib"@);
    assert("{\"mem_size_mib\":"@ =~= t1);
    let c = lead(seq![','], "track_dirty_pages"@);
    let d = c + "true"@ + seq![','];
    assert(",\"track_dirty_pages\":true,\"vcpu_count\":"@ =~= lead(d, "vcpu_count"@));
    let a = t1 + mem;
    lemma_lead(a, d, "vcpu_count"@);
    lemma_sum(a, c + "true"@, seq![',']);
    lemma_sum(a, c, "true"@);
    lemma_lead(a, seq![','], "track_dirty_pages"@);
    assert("}"@ =~= seq!['}']);
}

pub(crate) proof fn lemma_lookup_one(k: Seq<char>, v: Json, other: Seq<char>)
    requires
        k != other,
    ensures
        lookup(seq![(k, v)], k) == Some(v),
        lookup(seq![(k, v)], other) is None,
{
    let ms = seq![(k, v)];
    assert(ms.skip(1).len() == 0);
    assert(lookup(ms.skip(1), other) is None);
}

pub(crate) proof fn lemma_lookup_next(k: Seq<char>, v: Json, ms: Seq<(Seq<char>, Json)>, other: Seq<char>)
    ensures
        lookup(seq![(k, v)] + ms, k) == Some(v),
        k != other ==> lookup(seq![(k, v)] + ms, other) == lookup(ms, other),
{
    let all = seq![(k, v)] + ms;
    assert(all[0] == (k, v));
    assert(all.skip(1) =~= ms);
}

pub(crate) proof fn lemma_lookup_two(k: Seq<char>, v: Json, l: Seq<char>, w: Json, other: Seq<char>)
    requires
        k != l,
        k != other,
        l != other,
    ensures
        lookup(seq![(k, v), (l, w)], k) == Some(v),
        lookup(seq![(k, v), (l, w)], l) == Some(w),
        lookup(seq![(k, v), (l, w)], other) is None,
{
    let tail = seq![(l, w)];
    assert(seq![(k, v), (l, w)] =~= seq![(k, v)] + tail);
    lemma_lookup_next(k, v, tail, l);
    lemma_lookup_next(k, v, tail, other);
    lemma_lookup_one(l, w, other);
}

pub(crate) proof fn lemma_lookup_three(
    k: Seq<char>,
    v: Json,
    l: Seq<char>,
    w: Json,
    m: Seq<char>,
    x: Json,
)
    requires
        k != l,
        k != m,
        l != m,
    ensures
        lookup(seq![(k, v), (l, w), (m, x)], k) == Some(v),
        lookup(seq![(k, v), (l, w), (m, x)], l) == Some(w),
        lookup(seq![(k, v), (l, w), (m, x)], m) == Some(x),
{
    let tail = seq![(l, w), (m, x)];
    assert(seq![(k, v), (l, w), (m, x)] =~= seq![(k, v)] + tail);
    lemma_lookup_next(k, v, tail, l);
    lemma_lookup_next(k, v, tail, m);
    lemma_lookup_two(l, w, m, x, k);
}

proof fn lemma_lookup_four(
    k: Seq<char>,
    v: Json,
    l: Seq<char>,
    w: Json,
    m: Seq<char>,
    x: Json,
    n: Seq<char>,
    y: Json,
)
    requires
        k != l,
        k != m,
        k != n,
        l != m,
        l != n,
        m != n,
    ensures
        lookup(seq![(k, v), (l, w), (m, x), (n, y)], k) == Some(v),
        lookup(seq![(k, v), (l, w), (m, x), (n, y)], l) == Some(w),
        lookup(seq![(k, v), (l, w), (m, x), (n, y)], m) == Some(x),
        lookup(seq![(k, v), (l, w), (m, x), (n, y)], n) == Some(y),
{
    let tail = seq![(l, w), (m, x), (n, y)];
    assert(seq![(k, v), (l, w), (m, x), (n, y)] =~= seq![(k, v)] + tail);
    lemma_lookup_next(k, v, tail, l);
    lemma_lookup_next(k, v, tail, m);
    lemma_lookup_next(k, v, tail, n);
    lemma_lookup_three(l, w, m, x, n, y);
}

/// Which place each path names.
proof fn lemma_places(id: Seq<char>)
    ensures
        place("/boot-source"@) == Place::BootSource,
        place("/machine-config"@) == Place::MachineConfig,
        place("/actions"@) == Place::Actions,
        place("/vm"@) == Place::Vm,
        place("/snapshot/create"@) == Place::SnapshotCreate,
        place("/snapshot/load"@) == Place::SnapshotLoad,
        place("/uffd/wp"@) == Place::WriteProtection,
        place("/drives/"@ + id) == Place::Drive(id),
        place("/network-interfaces/"@ + id) == Place::Network(id),
        "PUT"@ != "PATCH"@,
{
    reveal_strlit("/drives/");
    reveal_strlit("/network-interfaces/");
    reveal_strlit("/boot-source");
    reveal_strlit("/machine-config");
    reveal_strlit("/actions");
    reveal_strlit("/vm");
    reveal_strlit("/snapshot/create");
    reveal_strlit("/snapshot/load");
    reveal_strlit("/uffd/wp");
    reveal_strlit("PUT");
    reveal_strlit("PATCH");
    assert("PUT"@.len() == 3 && "PATCH"@.len() == 5);
    assert("/drives/"@[1] == 'd');
    assert("/network-interfaces/"@[1] == 'n');
    assert("/boot-source"@[1] == 'b');
    assert("/machine-config"@[1] == 'm');
    assert("/actions"@[1] == 'a');
    assert("/vm"@[1] == 'v');
    assert("/snapshot/create"@[1] == 's' && "/snapshot/create"@[10] == 'c');
    assert("/snapshot/load"@[1] == 's' && "/snapshot/load"@[10] == 'l');
    assert("/uffd/wp"@[1] == 'u');
    let d = "/drives/"@ + id;
    assert(d.take("/drives/"@.len() as int) =~= "/drives/"@);
    assert(d.skip("/drives/"@.len() as int) =~= id);
    let n = "/network-interfaces/"@ + id;
    assert(n[1] == 'n');
    assert(n.take("/network-interfaces/"@.len() as int) =~= "/network-interfaces/"@);
    assert(n.skip("/network-interfaces/"@.len() as int) =~= id);
    assert forall|p: Seq<char>| #[trigger] "/drives/"@.is_prefix_of(p) implies p.len() > 1 && p[1]
        == 'd' by {
        assert("/drives/"@ =~= p.take("/drives/"@.len() as int));
        assert(p.take("/drives/"@.len() as int)[1] == p[1]);
    }
    assert forall|p: Seq<char>| #[trigger] "/network-interfaces/"@.is_prefix_of(p) implies p.len()
        > 1 && p[1] == 'n' by {
        assert("/network-interfaces/"@ =~= p.take("/network-interfaces/"@.len() as int));
        assert(p.take("/network-interfaces/"@.len() as int)[1] == p[1]);
    }
}

/// A guest is as large as its configuration says, and it is known which pages
/// it writes to.
pub proof fn law_machine_has_the_configured_size(cfg: BootConfig)
    ensures
        asked(machine_call(cfg)) == Some(
            Ask::Size {
                mem_mib: cfg.mem_size_mib as nat,
                vcpus: cfg.vcpu_count as nat,
                track_dirty: true,
            },
        ),
{
    reveal(asked);
    lemma_size_text(cfg);
    lemma_places(Seq::empty());
    reveal_strlit("mem_size_mib");
    reveal_strlit("track_dirty_pages");
    reveal_strlit("vcpu_count");
    assert("mem_size_mib"@[0] == 'm' && "track_dirty_pages"@[0] == 't' && "vcpu_count"@[0] == 'v');
    let m = Json::Num(cfg.mem_size_mib as nat);
    let t = Json::Bool(true);
    let v = Json::Num(cfg.vcpu_count as nat);
    let ms = seq![("mem_size_mib"@, m), ("track_dirty_pages"@, t), ("vcpu_count"@, v)];
    law_documents_read_back(Json::Members(ms));
    lemma_lookup_three("mem_size_mib"@, m, "track_dirty_pages"@, t, "vcpu_count"@, v);
    let d = Json::Members(ms);
    assert(number_at(d, "mem_size_mib"@) == Some(cfg.mem_size_mib as nat));
    assert(number_at(d, "vcpu_count"@) == Some(cfg.vcpu_count as nat));
    assert(flag_at(d, "track_dirty_pages"@) == Some(true));
}

spec fn drive_doc(id: Seq<char>, read_only: bool, root: bool, path: Seq<char>) -> Json {
    Json::Members(
        seq![
            ("drive_id"@, Json::Text(id)),
            ("is_read_only"@, Json::Bool(read_only)),
            ("is_root_device"@, Json::Bool(root)),
            ("path_on_host"@, Json::Text(path)),
        ],
    )
}

proof fn lemma_drive_keys()
    ensures
        is_plain("drive_id"@),
        is_plain("is_read_only"@),
        is_plain("is_root_device"@),
        is_plain("path_on_host"@),
        "drive_id"@ != "is_read_only"@,
        "drive_id"@ != "is_root_device"@,
        "drive_id"@ != "path_on_host"@,
        "is_read_only"@ != "is_root_device"@,
        "is_read_only"@ != "path_on_host"@,
        "is_root_device"@ != "path_on_host"@,
{
    reveal_strlit("drive_id");
    reveal_strlit("is_read_only");
    reveal_strlit("is_root_device");
    reveal_strlit("path_on_host");
    assert("drive_id"@[0] == 'd' && "is_read_only"@[0] == 'i' && "path_on_host"@[0] == 'p');
    assert("is_root_device"@[0] == 'i');
    assert("is_read_only"@[4] == 'e' && "is_root_device"@[4] == 'o');
}

proof fn lemma_drive_text(id: Seq<char>, read_only: bool, root: bool, path: Seq<char>)
    ensures
        drive_body(id, read_only, root, path) == text_of(drive_doc(id, read_only, root, path)),
{
    lemma_drive_keys();
    lemma_four_members(
        "drive_id"@,
        Json::Text(id),
        "is_read_only"@,
        Json::Bool(read_only),
        "is_root_device"@,
        Json::Bool(root),
        "path_on_host"@,
        Json::Text(path),
    );
    reveal_strlit("drive_id");
    reveal_strlit("is_read_only");
    reveal_strlit("is_root_device");
    reveal_strlit("path_on_host");
    reveal_strlit("{\"drive_id\":");
    reveal_strlit(",\"is_read_only\":");
    reveal_strlit(",\"is_root_device\":");
    reveal_strlit(",\"path_on_host\":");
    reveal_strlit("}");
    let t1 = lead(seq!['{'], "drive_id"@);
    assert("{\"drive_id\":"@ =~= t1);
    assert(",\"is_read_only\":"@ =~= lead(seq![','], "is_read_only"@));
    assert(",\"is_root_device\":"@ =~= lead(seq![','], "is_root_device"@));
    assert(",\"path_on_host\":"@ =~= lead(seq![','], "path_on_host"@));
    assert("}"@ =~= seq!['}']);
    let a = t1 + json_string(id);
    lemma_lead(a, seq![','], "is_read_only"@);
    let b = lead(a + seq![','], "is_read_only"@) + json_bool(read_only);
    lemma_lead(b, seq![','], "is_root_device"@);
    let c = lead(b + seq![','], "is_root_device"@) + json_bool(root);
    lemma_lead(c, seq![','], "path_on_host"@);
}

proof fn lemma_drive_asked(id: Seq<char>, read_only: bool, root: bool, path: Seq<char>)
    ensures
        asked(call("PUT"@, "/drives/"@ + id, drive_body(id, read_only, root, path))) == Some(
            Ask::Drive { id, drive: Drive { path, read_only, root } },
        ),
{
    reveal(asked);
    lemma_drive_text(id, read_only, root, path);
    lemma_drive_keys();
    lemma_places(id);
    let d = drive_doc(id, read_only, root, path);
    law_documents_read_back(d);
    lemma_lookup_four(
        "drive_id"@,
        Json::Text(id),
        "is_read_only"@,
        Json::Bool(read_only),
        "is_root_device"@,
        Json::Bool(root),
        "path_on_host"@,
        Json::Text(path),
    );
    assert(text_at(d, "drive_id"@) == Some(id));
    assert(text_at(d, "path_on_host"@) == Some(path));
    assert(flag_at(d, "is_read_only"@) == Some(read_only));
    assert(flag_at(d, "is_root_device"@) == Some(root));
}

/// The root filesystem is the one that is configured, and written to only
/// where the configuration lets it be.
pub proof fn law_root_drive_is_as_configured(cfg: BootConfig)
    ensures
        asked(rootfs_call(cfg)) == Some(
            Ask::Drive {
                id: "rootfs"@,
                drive: Drive {
                    path: cfg.rootfs@,
                    read_only: cfg.rootfs_read_only,
                    root: true,
                },
            },
        ),
{
    reveal_strlit("/drives/");
    reveal_strlit("rootfs");
    reveal_strlit("/drives/rootfs");
    assert("/drives/"@ + "rootfs"@ =~= "/drives/rootfs"@);
    lemma_drive_asked("rootfs"@, cfg.rootfs_read_only, true, cfg.rootfs@);
}

/// A volume is attached read-only exactly where it was declared so, from its
/// file on the host, and never as the root.
pub proof fn law_volume_is_attached_as_declared(i: int, vol: VolumeSpec)
    ensures
        ({
            let a = asked(volume_call(i, vol));
            &&& a matches Some(Ask::Drive { id, drive }) && drive == Drive {
                path: vol.host_path@,
                read_only: vol.read_only,
                root: false,
            }
        }),
{
    lemma_drive_asked("vol"@ + dec(i as nat), vol.read_only, false, vol.host_path@);
}

/// The guest boots the configured kernel with the configured command line.
pub proof fn law_kernel_is_as_configured(cfg: BootConfig)
    ensures
        asked(boot_source_call(cfg)) == Some(
            Ask::Kernel { image: cfg.kernel@, args: cfg.full_args() },
        ),
{
    reveal(asked);
    reveal_strlit("boot_args");
    reveal_strlit("kernel_image_path");
    reveal_strlit("{\"boot_args\":");
    reveal_strlit(",\"kernel_image_path\":");
    reveal_strlit("}");
    assert("boot_args"@[0] == 'b' && "kernel_image_path"@[0] == 'k');
    let args = Json::Text(cfg.full_args());
    let image = Json::Text(cfg.kernel@);
    lemma_two_members("boot_args"@, args, "kernel_image_path"@, image);
    let t1 = lead(seq!['{'], "boot_args"@);
    assert("{\"boot_args\":"@ =~= t1);
    assert(",\"kernel_image_path\":"@ =~= lead(seq![','], "kernel_image_path"@));
    assert("}"@ =~= seq!['}']);
    lemma_lead(t1 + json_string(cfg.full_args()), seq![','], "kernel_image_path"@);
    let d = Json::Members(seq![("boot_args"@, args), ("kernel_image_path"@, image)]);
    assert(boot_source_call(cfg).body == text_of(d));
    law_documents_read_back(d);
    lemma_places(Seq::empty());
    lemma_lookup_two("boot_args"@, args, "kernel_image_path"@, image, Seq::empty());
    assert(text_at(d, "boot_args"@) == Some(cfg.full_args()));
    assert(text_at(d, "kernel_image_path"@) == Some(cfg.kernel@));
}

proof fn lemma_nic_keys()
    ensures
        is_plain("guest_mac"@),
        is_plain("host_dev_name"@),
        is_plain("iface_id"@),
        "guest_mac"@ != "host_dev_name"@,
        "guest_mac"@ != "iface_id"@,
        "host_dev_name"@ != "iface_id"@,
        "{\"guest_mac\":"@ == lead(seq!['{'], "guest_mac"@),
        "\"host_dev_name\":"@ == lead(Seq::empty(), "host_dev_name"@),
        ",\"iface_id\":"@ == lead(seq![','], "iface_id"@),
        "}"@ == seq!['}'],
        "{"@ == seq!['{'],
        ","@ == seq![','],
{
    reveal_strlit("guest_mac");
    reveal_strlit("host_dev_name");
    reveal_strlit("iface_id");
    reveal_strlit("{\"guest_mac\":");
    reveal_strlit("\"host_dev_name\":");
    reveal_strlit(",\"iface_id\":");
    reveal_strlit(",");
    reveal_strlit("{");
    reveal_strlit("}");
    assert("guest_mac"@[0] == 'g' && "host_dev_name"@[0] == 'h' && "iface_id"@[0] == 'i');
    assert("{\"guest_mac\":"@ =~= lead(seq!['{'], "guest_mac"@));
    assert("\"host_dev_name\":"@ =~= lead(Seq::empty(), "host_dev_name"@));
    assert(",\"iface_id\":"@ =~= lead(seq![','], "iface_id"@));
}

/// The device and the interface behind whatever stands before them.
proof fn lemma_nic_tail(a: Seq<char>, dev: Seq<char>, iface: Seq<char>)
    ensures
        a + ("\"host_dev_name\":"@ + dev + ",\"iface_id\":"@ + iface + "}"@) == lead(
            lead(a, "host_dev_name"@) + dev + seq![','],
            "iface_id"@,
        ) + iface + seq!['}'],
{
    lemma_nic_keys();
    lemma_tail(a, "\"host_dev_name\":"@, dev, ",\"iface_id\":"@, iface, "}"@);
    lemma_lead(a, Seq::empty(), "host_dev_name"@);
    assert(a + Seq::<char>::empty() =~= a);
    lemma_lead(lead(a, "host_dev_name"@) + dev, seq![','], "iface_id"@);
}

spec fn nic_doc(net: NetworkConfig) -> Json {
    let dev = Json::Text(net.host_dev_name@);
    let iface = Json::Text(net.iface_id@);
    match net.guest_mac {
        Some(mac) => Json::Members(
            seq![
                ("guest_mac"@, Json::Text(mac@)),
                ("host_dev_name"@, dev),
                ("iface_id"@, iface),
            ],
        ),
        None => Json::Members(seq![("host_dev_name"@, dev), ("iface_id"@, iface)]),
    }
}

proof fn lemma_nic_text(net: NetworkConfig)
    ensures
        network_call(net).body == text_of(nic_doc(net)),
{
    lemma_nic_keys();
    let jd = Json::Text(net.host_dev_name@);
    let ji = Json::Text(net.iface_id@);
    let dev = json_string(net.host_dev_name@);
    let iface = json_string(net.iface_id@);
    match net.guest_mac {
        Some(mac) => {
            lemma_three_members(
                "guest_mac"@,
                Json::Text(mac@),
                "host_dev_name"@,
                jd,
                "iface_id"@,
                ji,
            );
            let a = lead(seq!['{'], "guest_mac"@) + json_string(mac@) + seq![','];
            lemma_nic_tail(a, dev, iface);
        },
        None => {
            lemma_two_members("host_dev_name"@, jd, "iface_id"@, ji);
            lemma_nic_tail(seq!['{'], dev, iface);
        },
    }
}

/// The guest's interface hangs on the configured tap device, with the
/// configured address where there is one.
pub proof fn law_network_is_as_configured(net: NetworkConfig)
    ensures
        asked(network_call(net)) == Some(
            Ask::Network {
                id: net.iface_id@,
                nic: Nic { tap: net.host_dev_name@, mac: opt_view(net.guest_mac) },
            },
        ),
{
    reveal(asked);
    lemma_nic_keys();
    lemma_nic_text(net);
    lemma_places(net.iface_id@);
    let d = nic_doc(net);
    law_documents_read_back(d);
    let jd = Json::Text(net.host_dev_name@);
    let ji = Json::Text(net.iface_id@);
    match net.guest_mac {
        Some(mac) => {
            lemma_lookup_three(
                "guest_mac"@,
                Json::Text(mac@),
                "host_dev_name"@,
                jd,
                "iface_id"@,
                ji,
            );
            assert(text_at(d, "guest_mac"@) == Some(mac@));
        },
        None => {
            lemma_lookup_two("host_dev_name"@, jd, "iface_id"@, ji, "guest_mac"@);
            assert(text_at(d, "guest_mac"@) is None);
        },
    }
    assert(text_at(d, "host_dev_name"@) == Some(net.host_dev_name@));
    assert(text_at(d, "iface_id"@) == Some(net.iface_id@));
}

proof fn lemma_tail(
    a: Seq<char>,
    b: Seq<char>,
    c: Seq<char>,
    d: Seq<char>,
    e: Seq<char>,
    f: Seq<char>,
)
    ensures
        a + (b + c + d + e + f) == a + b + c + d + e + f,
{
    assert(a + (b + c + d + e + f) =~= a + b + c + d + e + f);
}

/// An object with one member that is a plain string, written out.
pub(crate) proof fn lemma_one_text(key: Seq<char>, t: Seq<char>, body: Seq<char>)
    requires
        is_plain(key),
        is_plain(t),
        body == lead(seq!['{'], key) + seq!['"'] + t + seq!['"', '}'],
    ensures
        document(body) is Some,
        text_at(document(body)->0, key) == Some(t),
{
    let d = Json::Members(seq![(key, Json::Text(t))]);
    lemma_one_member(key, Json::Text(t));
    lemma_plain_literal(t);
    assert(body =~= named(seq!['{'], key, Json::Text(t)) + seq!['}']);
    law_documents_read_back(d);
    let other = key.push('x');
    assert(other.len() != key.len());
    lemma_lookup_one(key, Json::Text(t), other);
}

/// The calls without settings ask for what they are named after.
pub proof fn law_plain_calls_ask_for_what_they_say()
    ensures
        asked(start_call()) == Some(Ask::Start),
        asked(shutdown_of()) == Some(Ask::PowerOff),
        asked(pause_of()) == Some(Ask::Pause),
        asked(resume_of()) == Some(Ask::Resume),
{
    reveal(asked);
    lemma_places(Seq::empty());
    reveal_strlit("action_type");
    reveal_strlit("InstanceStart");
    reveal_strlit("SendCtrlAltDel");
    reveal_strlit("state");
    reveal_strlit("Paused");
    reveal_strlit("Resumed");
    assert("InstanceStart"@[0] == 'I' && "SendCtrlAltDel"@[0] == 'S');
    assert("Paused"@[0] == 'P' && "Resumed"@[0] == 'R');
    assert(start_call().body =~= lead(seq!['{'], "action_type"@) + seq!['"'] + "InstanceStart"@
        + seq!['"', '}']) by {
        reveal_strlit("{\"action_type\":\"InstanceStart\"}");
    }
    lemma_one_text("action_type"@, "InstanceStart"@, start_call().body);
    assert(shutdown_of().body =~= lead(seq!['{'], "action_type"@) + seq!['"'] + "SendCtrlAltDel"@
        + seq!['"', '}']) by {
        reveal_strlit("{\"action_type\":\"SendCtrlAltDel\"}");
    }
    lemma_one_text("action_type"@, "SendCtrlAltDel"@, shutdown_of().body);
    assert(pause_of().body =~= lead(seq!['{'], "state"@) + seq!['"'] + "Paused"@ + seq!['"', '}'])
        by {
        reveal_strlit("{\"state\":\"Paused\"}");
    }
    lemma_one_text("state"@, "Paused"@, pause_of().body);
    assert(resume_of().body =~= lead(seq!['{'], "state"@) + seq!['"'] + "Resumed"@ + seq!['"', '}'])
        by {
        reveal_strlit("{\"state\":\"Resumed\"}");
    }
    lemma_one_text("state"@, "Resumed"@, resume_of().body);
}

/// Writes are reported over the socket that was named.
pub proof fn law_writes_are_reported_where_asked(sock: Seq<char>)
    ensures
        asked(write_protect(sock)) == Some(Ask::ReportWrites { sock }),
{
    reveal(asked);
    lemma_places(Seq::empty());
    reveal_strlit("uds_path");
    reveal_strlit("{\"uds_path\":");
    reveal_strlit("}");
    let d = Json::Members(seq![("uds_path"@, Json::Text(sock))]);
    lemma_one_member("uds_path"@, Json::Text(sock));
    assert("{\"uds_path\":"@ =~= lead(seq!['{'], "uds_path"@));
    assert("}"@ =~= seq!['}']);
    law_documents_read_back(d);
    assert("uds_path"@.len() == 8);
    assert(Seq::<char>::empty().len() == 0);
    lemma_lookup_one("uds_path"@, Json::Text(sock), Seq::empty());
    assert(text_at(d, "uds_path"@) == Some(sock));
}

proof fn lemma_save_keys()
    ensures
        is_plain("mem_file_path"@),
        is_plain("snapshot_path"@),
        is_plain("snapshot_type"@),
        "mem_file_path"@ != "snapshot_path"@,
        "mem_file_path"@ != "snapshot_type"@,
        "snapshot_path"@ != "snapshot_type"@,
        "{\"mem_file_path\":"@ == lead(seq!['{'], "mem_file_path"@),
        ",\"snapshot_path\":"@ == lead(seq![','], "snapshot_path"@),
        ",\"snapshot_type\":\""@ == lead(seq![','], "snapshot_type"@) + seq!['"'],
        "\"}"@ == seq!['"'] + seq!['}'],
{
    reveal_strlit("mem_file_path");
    reveal_strlit("snapshot_path");
    reveal_strlit("snapshot_type");
    reveal_strlit("{\"mem_file_path\":");
    reveal_strlit(",\"snapshot_path\":");
    reveal_strlit(",\"snapshot_type\":\"");
    reveal_strlit("\"}");
    assert("mem_file_path"@[0] == 'm' && "snapshot_path"@[0] == 's' && "snapshot_type"@[0] == 's');
    assert("snapshot_path"@[9] == 'p' && "snapshot_type"@[9] == 't');
    assert("{\"mem_file_path\":"@ =~= lead(seq!['{'], "mem_file_path"@));
    assert(",\"snapshot_path\":"@ =~= lead(seq![','], "snapshot_path"@));
    assert(",\"snapshot_type\":\""@ =~= lead(seq![','], "snapshot_type"@) + seq!['"']);
    assert("\"}"@ =~= seq!['"'] + seq!['}']);
}

proof fn lemma_kind_names(kind: SnapshotKind)
    ensures
        is_plain(kind_name(kind)),
        kind_name(kind) == "Full"@ <==> kind == SnapshotKind::Full,
        kind_name(kind) == "Diff"@ <==> kind == SnapshotKind::Diff,
        kind_name(kind) == "VmstateOnly"@ <==> kind == SnapshotKind::VmstateOnly,
{
    reveal_strlit("Full");
    reveal_strlit("Diff");
    reveal_strlit("VmstateOnly");
    assert("Full"@[0] == 'F' && "Diff"@[0] == 'D' && "VmstateOnly"@[0] == 'V');
}

spec fn save_doc(vmstate: Seq<char>, memory: Seq<char>, kind: SnapshotKind) -> Json {
    Json::Members(
        seq![
            ("mem_file_path"@, Json::Text(memory)),
            ("snapshot_path"@, Json::Text(vmstate)),
            ("snapshot_type"@, Json::Text(kind_name(kind))),
        ],
    )
}

proof fn lemma_quoted_end(a: Seq<char>, b: Seq<char>, k: Seq<char>)
    ensures
        a + (b + seq!['"']) + k + (seq!['"'] + seq!['}']) == a + b + (seq!['"'] + k + seq!['"'])
            + seq!['}'],
{
    assert(a + (b + seq!['"']) + k + (seq!['"'] + seq!['}']) =~= a + b + (seq!['"'] + k + seq![
        '"',
    ]) + seq!['}']);
}

proof fn lemma_save_text(vmstate: Seq<char>, memory: Seq<char>, kind: SnapshotKind)
    ensures
        snapshot_create(vmstate, memory, kind).body == text_of(save_doc(vmstate, memory, kind)),
{
    lemma_save_keys();
    lemma_kind_names(kind);
    lemma_plain_literal(kind_name(kind));
    lemma_three_members(
        "mem_file_path"@,
        Json::Text(memory),
        "snapshot_path"@,
        Json::Text(vmstate),
        "snapshot_type"@,
        Json::Text(kind_name(kind)),
    );
    let a = lead(seq!['{'], "mem_file_path"@) + json_string(memory);
    lemma_lead(a, seq![','], "snapshot_path"@);
    let b = lead(a + seq![','], "snapshot_path"@) + json_string(vmstate);
    lemma_quoted_end(b, lead(seq![','], "snapshot_type"@), kind_name(kind));
    lemma_lead(b, seq![','], "snapshot_type"@);
}

/// A snapshot is of the kind that was asked for, and goes to the files that
/// were named.
pub proof fn law_snapshot_is_saved_as_asked(
    vmstate: Seq<char>,
    memory: Seq<char>,
    kind: SnapshotKind,
)
    ensures
        asked(snapshot_create(vmstate, memory, kind)) == Some(Ask::Save { vmstate, memory, kind }),
{
    reveal(asked);
    lemma_save_keys();
    lemma_kind_names(kind);
    lemma_save_text(vmstate, memory, kind);
    lemma_places(Seq::empty());
    let d = save_doc(vmstate, memory, kind);
    law_documents_read_back(d);
    lemma_lookup_three(
        "mem_file_path"@,
        Json::Text(memory),
        "snapshot_path"@,
        Json::Text(vmstate),
        "snapshot_type"@,
        Json::Text(kind_name(kind)),
    );
    assert(text_at(d, "mem_file_path"@) == Some(memory));
    assert(text_at(d, "snapshot_path"@) == Some(vmstate));
    assert(text_at(d, "snapshot_type"@) == Some(kind_name(kind)));
}

proof fn lemma_load_keys()
    ensures
        is_plain("enable_diff_snapshots"@),
        is_plain("mem_backend"@),
        is_plain("resume_vm"@),
        is_plain("snapshot_path"@),
        "enable_diff_snapshots"@ != "mem_backend"@,
        "enable_diff_snapshots"@ != "resume_vm"@,
        "enable_diff_snapshots"@ != "snapshot_path"@,
        "mem_backend"@ != "resume_vm"@,
        "mem_backend"@ != "snapshot_path"@,
        "resume_vm"@ != "snapshot_path"@,
{
    reveal_strlit("enable_diff_snapshots");
    reveal_strlit("mem_backend");
    reveal_strlit("resume_vm");
    reveal_strlit("snapshot_path");
    assert("enable_diff_snapshots"@[0] == 'e' && "mem_backend"@[0] == 'm');
    assert("resume_vm"@[0] == 'r' && "snapshot_path"@[0] == 's');
}

proof fn lemma_backend_keys()
    ensures
        is_plain("backend_path"@),
        is_plain("backend_type"@),
        is_plain("shared"@),
        is_plain("File"@),
        "backend_path"@ != "backend_type"@,
        "backend_path"@ != "shared"@,
        "backend_type"@ != "shared"@,
{
    reveal_strlit("backend_path");
    reveal_strlit("backend_type");
    reveal_strlit("shared");
    reveal_strlit("File");
    assert("backend_path"@[8] == 'p' && "backend_type"@[8] == 't');
    assert("backend_path"@[0] == 'b' && "backend_type"@[0] == 'b' && "shared"@[0] == 's');
}

/// The pieces that the text of a restore is glued from.
proof fn lemma_load_pieces()
    ensures
        "{\"enable_diff_snapshots\":"@ == lead(seq!['{'], "enable_diff_snapshots"@),
        ",\"mem_backend\":{\"backend_path\":"@ == lead(
            lead(seq![','], "mem_backend"@) + seq!['{'],
            "backend_path"@,
        ),
        ",\"backend_type\":\"File\""@ == lead(seq![','], "backend_type"@) + (seq!['"'] + "File"@
            + seq!['"']),
        ",\"shared\":true"@ == lead(seq![','], "shared"@) + json_bool(true),
        ""@ == Seq::<char>::empty(),
        "}"@ == seq!['}'],
        "},\"resume_vm\":true,\"snapshot_path\":"@ == seq!['}'] + lead(
            lead(seq![','], "resume_vm"@) + json_bool(true) + seq![','],
            "snapshot_path"@,
        ),
{
    reveal_strlit("enable_diff_snapshots");
    reveal_strlit("mem_backend");
    reveal_strlit("resume_vm");
    reveal_strlit("snapshot_path");
    reveal_strlit("backend_path");
    reveal_strlit("backend_type");
    reveal_strlit("shared");
    reveal_strlit("File");
    reveal_strlit("true");
    reveal_strlit("");
    reveal_strlit("}");
    reveal_strlit("{\"enable_diff_snapshots\":");
    reveal_strlit(",\"mem_backend\":{\"backend_path\":");
    reveal_strlit(",\"backend_type\":\"File\"");
    reveal_strlit(",\"shared\":true");
    reveal_strlit("},\"resume_vm\":true,\"snapshot_path\":");
    assert("{\"enable_diff_snapshots\":"@ =~= lead(seq!['{'], "enable_diff_snapshots"@));
    assert(",\"mem_backend\":{\"backend_path\":"@ =~= lead(
        lead(seq![','], "mem_backend"@) + seq!['{'],
        "backend_path"@,
    ));
    assert(",\"backend_type\":\"File\""@ =~= lead(seq![','], "backend_type"@) + (seq!['"']
        + "File"@ + seq!['"']));
    assert(",\"shared\":true"@ =~= lead(seq![','], "shared"@) + json_bool(true));
    assert(""@ =~= Seq::<char>::empty());
    assert("},\"resume_vm\":true,\"snapshot_path\":"@ =~= seq!['}'] + lead(
        lead(seq![','], "resume_vm"@) + json_bool(true) + seq![','],
        "snapshot_path"@,
    ));
}

spec fn backend_doc(backing: Seq<char>, shared: bool) -> Json {
    if shared {
        Json::Members(
            seq![
                ("backend_path"@, Json::Text(backing)),
                ("backend_type"@, Json::Text("File"@)),
                ("shared"@, Json::Bool(true)),
            ],
        )
    } else {
        Json::Members(
            seq![("backend_path"@, Json::Text(backing)), ("backend_type"@, Json::Text("File"@))],
        )
    }
}

spec fn shared_piece(shared: bool) -> Seq<char> {
    if shared {
        ",\"shared\":true"@
    } else {
        ""@
    }
}

proof fn lemma_backend_text(backing: Seq<char>, shared: bool)
    ensures
        text_of(backend_doc(backing, shared)) == lead(seq!['{'], "backend_path"@) + json_string(
            backing,
        ) + ",\"backend_type\":\"File\""@ + shared_piece(shared) + seq!['}'],
{
    lemma_backend_keys();
    lemma_load_pieces();
    lemma_plain_literal("File"@);
    let file = seq!['"'] + "File"@ + seq!['"'];
    let a = lead(seq!['{'], "backend_path"@) + json_string(backing);
    lemma_sum(a, lead(seq![','], "backend_type"@), file);
    lemma_lead(a, seq![','], "backend_type"@);
    let b = lead(a + seq![','], "backend_type"@) + file;
    if shared {
        lemma_three_members(
            "backend_path"@,
            Json::Text(backing),
            "backend_type"@,
            Json::Text("File"@),
            "shared"@,
            Json::Bool(true),
        );
        lemma_sum(b, lead(seq![','], "shared"@), json_bool(true));
        lemma_lead(b, seq![','], "shared"@);
    } else {
        lemma_two_members(
            "backend_path"@,
            Json::Text(backing),
            "backend_type"@,
            Json::Text("File"@),
        );
        assert(b + Seq::<char>::empty() =~= b);
    }
}

spec fn load_doc(vmstate: Seq<char>, backing: Seq<char>, shared: bool, enable_diff: bool) -> Json {
    Json::Members(
        seq![
            ("enable_diff_snapshots"@, Json::Bool(enable_diff)),
            ("mem_backend"@, backend_doc(backing, shared)),
            ("resume_vm"@, Json::Bool(true)),
            ("snapshot_path"@, Json::Text(vmstate)),
        ],
    )
}

/// An object inside another, glued in one go.
proof fn lemma_inner(
    a: Seq<char>,
    p: Seq<char>,
    key: Seq<char>,
    x: Seq<char>,
    y: Seq<char>,
    z: Seq<char>,
    w: Seq<char>,
)
    ensures
        a + lead(p + seq!['{'], key) + x + y + z + (seq!['}'] + w) == a + p + (lead(seq!['{'], key)
            + x + y + z + seq!['}']) + w,
{
    assert(a + lead(p + seq!['{'], key) + x + y + z + (seq!['}'] + w) =~= a + p + (lead(
        seq!['{'],
        key,
    ) + x + y + z + seq!['}']) + w);
}

proof fn lemma_load_text(vmstate: Seq<char>, backing: Seq<char>, shared: bool, enable_diff: bool)
    ensures
        snapshot_load(vmstate, backing, shared, enable_diff).body == text_of(
            load_doc(vmstate, backing, shared, enable_diff),
        ),
{
    lemma_load_keys();
    lemma_load_pieces();
    lemma_backend_text(backing, shared);
    let backend = backend_doc(backing, shared);
    lemma_four_members(
        "enable_diff_snapshots"@,
        Json::Bool(enable_diff),
        "mem_backend"@,
        backend,
        "resume_vm"@,
        Json::Bool(true),
        "snapshot_path"@,
        Json::Text(vmstate),
    );
    let a = lead(seq!['{'], "enable_diff_snapshots"@) + json_bool(enable_diff);
    let r = lead(seq![','], "resume_vm"@);
    let w = lead(r + json_bool(true) + seq![','], "snapshot_path"@);
    lemma_inner(
        a,
        lead(seq![','], "mem_backend"@),
        "backend_path"@,
        json_string(backing),
        ",\"backend_type\":\"File\""@,
        shared_piece(shared),
        w,
    );
    lemma_lead(a, seq![','], "mem_backend"@);
    let b = lead(a + seq![','], "mem_backend"@) + text_of(backend);
    lemma_lead(b, r + json_bool(true) + seq![','], "snapshot_path"@);
    lemma_sum(b, r + json_bool(true), seq![',']);
    lemma_sum(b, r, json_bool(true));
    lemma_lead(b, seq![','], "resume_vm"@);
}

/// A restore takes the guest's state from the vmstate file and its memory from
/// the backing that was named, and lets the guest run.
pub proof fn law_restore_runs_from_the_named_files(
    vmstate: Seq<char>,
    backing: Seq<char>,
    shared: bool,
    enable_diff: bool,
)
    ensures
        asked(snapshot_load(vmstate, backing, shared, enable_diff)) == Some(
            Ask::Load { vmstate, memory: backing, shared, track_dirty: enable_diff, run: true },
        ),
{
    reveal(asked);
    lemma_load_keys();
    lemma_backend_keys();
    lemma_load_text(vmstate, backing, shared, enable_diff);
    lemma_places(Seq::empty());
    let backend = backend_doc(backing, shared);
    let d = load_doc(vmstate, backing, shared, enable_diff);
    law_documents_read_back(d);
    lemma_lookup_four(
        "enable_diff_snapshots"@,
        Json::Bool(enable_diff),
        "mem_backend"@,
        backend,
        "resume_vm"@,
        Json::Bool(true),
        "snapshot_path"@,
        Json::Text(vmstate),
    );
    if shared {
        lemma_lookup_three(
            "backend_path"@,
            Json::Text(backing),
            "backend_type"@,
            Json::Text("File"@),
            "shared"@,
            Json::Bool(true),
        );
        assert(flag_at(backend, "shared"@) == Some(true));
    } else {
        lemma_lookup_two(
            "backend_path"@,
            Json::Text(backing),
            "backend_type"@,
            Json::Text("File"@),
            "shared"@,
        );
        assert(flag_at(backend, "shared"@) is None);
    }
    assert(text_at(backend, "backend_path"@) == Some(backing));
    assert(text_at(backend, "backend_type"@) == Some("File"@));
    assert(d.member("mem_backend"@) == Some(backend));
    assert(text_at(d, "snapshot_path"@) == Some(vmstate));
    assert(flag_at(d, "enable_diff_snapshots"@) == Some(enable_diff));
    assert(flag_at(d, "resume_vm"@) == Some(true));
}

// ---------------------------------------------------------------------
// What becomes of a machine
// ---------------------------------------------------------------------

proof fn lemma_after_push(m: Machine, cs: Seq<Call>, c: Call)
    ensures
        m.after(cs.push(c)) == (match m.after(cs) {
            Some(n) => match asked(c) {
                Some(a) => n.answer(a),
                None => None,
            },
            None => None,
        }),
{
    assert(cs.push(c).drop_last() =~= cs);
    assert(cs.push(c).last() == c);
}

/// The drives that a configuration asks for: the root filesystem, then the
/// volumes in the order of their declaration.
pub open spec fn drives_of(cfg: BootConfig) -> Seq<Drive> {
    seq![Drive { path: cfg.rootfs@, read_only: cfg.rootfs_read_only, root: true }] + Seq::new(
        cfg.volumes@.len(),
        |i: int|
            Drive {
                path: cfg.volumes@[i].host_path@,
                read_only: cfg.volumes@[i].read_only,
                root: false,
            },
    )
}

/// A machine that runs as `cfg` says.
pub open spec fn booted(cfg: BootConfig) -> Machine {
    Machine {
        phase: Phase::Running,
        kernel: Some((cfg.kernel@, cfg.full_args())),
        drives: drives_of(cfg),
        size: Some((cfg.mem_size_mib as nat, cfg.vcpu_count as nat)),
        nics: match cfg.network {
            Some(net) => seq![Nic { tap: net.host_dev_name@, mac: opt_view(net.guest_mac) }],
            None => Seq::empty(),
        },
        track_dirty: true,
        restored: None,
    }
}

spec fn volume_calls(cfg: BootConfig) -> Seq<Call> {
    Seq::new(cfg.volumes@.len(), |i: int| volume_call(i, cfg.volumes@[i]))
}

proof fn lemma_volumes_attached(cfg: BootConfig, n: int)
    requires
        0 <= n <= cfg.volumes@.len(),
    ensures
        Machine::fresh().after(
            seq![boot_source_call(cfg), rootfs_call(cfg)] + volume_calls(cfg).take(n),
        ) == Some(
            Machine {
                kernel: Some((cfg.kernel@, cfg.full_args())),
                drives: drives_of(cfg).take(n + 1),
                ..Machine::fresh()
            },
        ),
    decreases n,
{
    let head = seq![boot_source_call(cfg), rootfs_call(cfg)];
    let all = volume_calls(cfg);
    if n == 0 {
        law_kernel_is_as_configured(cfg);
        law_root_drive_is_as_configured(cfg);
        let none = Seq::<Call>::empty();
        lemma_after_push(Machine::fresh(), none, boot_source_call(cfg));
        lemma_after_push(
            Machine::fresh(),
            none.push(boot_source_call(cfg)),
            rootfs_call(cfg),
        );
        assert(head + all.take(0) =~= none.push(boot_source_call(cfg)).push(rootfs_call(cfg)));
        assert(Machine::fresh().after(none) == Some(Machine::fresh()));
        assert(drives_of(cfg).take(1) =~= Machine::fresh().drives.push(drives_of(cfg)[0]));
    } else {
        lemma_volumes_attached(cfg, n - 1);
        let c = volume_call(n - 1, cfg.volumes@[n - 1]);
        law_volume_is_attached_as_declared(n - 1, cfg.volumes@[n - 1]);
        lemma_after_push(Machine::fresh(), head + all.take(n - 1), c);
        assert(head + all.take(n) =~= (head + all.take(n - 1)).push(c));
        assert(drives_of(cfg).take(n + 1) =~= drives_of(cfg).take(n).push(drives_of(cfg)[n]));
    }
}

/// The calls that boot a guest leave it running, with the kernel and command
/// line, the size, the network and the drives of its configuration and no
/// others, each drive writable exactly where it may be.
pub proof fn law_boot_gives_the_configured_machine(cfg: BootConfig)
    ensures
        Machine::fresh().after(boot_calls_of(cfg)) == Some(booted(cfg)),
{
    let n = cfg.volumes@.len() as int;
    let head = seq![boot_source_call(cfg), rootfs_call(cfg)] + volume_calls(cfg);
    lemma_volumes_attached(cfg, n);
    assert(volume_calls(cfg).take(n) =~= volume_calls(cfg));
    assert(drives_of(cfg).take(n + 1) =~= drives_of(cfg));
    law_machine_has_the_configured_size(cfg);
    law_plain_calls_ask_for_what_they_say();
    let sized = head.push(machine_call(cfg));
    lemma_after_push(Machine::fresh(), head, machine_call(cfg));
    let none = Machine::fresh().nics;
    match cfg.network {
        Some(net) => {
            law_network_is_as_configured(net);
            lemma_after_push(Machine::fresh(), sized, network_call(net));
            lemma_after_push(Machine::fresh(), sized.push(network_call(net)), start_call());
            assert(boot_calls_of(cfg) =~= sized.push(network_call(net)).push(start_call()));
            let nic = Nic { tap: net.host_dev_name@, mac: opt_view(net.guest_mac) };
            assert(none.push(nic) =~= seq![nic]);
        },
        None => {
            lemma_after_push(Machine::fresh(), sized, start_call());
            assert(boot_calls_of(cfg) =~= sized.push(start_call()));
            assert(none =~= Seq::<Nic>::empty());
        },
    }
}

/// The name under which the guest sees its drive number `k`, counted from 0.
pub open spec fn drive_device(k: int) -> Seq<char> {
    seq!['v', 'd', (97 + k) as char]
}

/// Volume `i` is the drive behind the root filesystem and the volumes before
/// it, and the guest is told to mount it under that drive's name.
pub proof fn law_mount_hint_names_the_volumes_drive(cfg: BootConfig, i: int)
    requires
        0 <= i < cfg.volumes@.len() <= crate::boot::MAX_VOLUMES,
    ensures
        booted(cfg).drives[i + 1].path == cfg.volumes@[i].host_path@,
        booted(cfg).drives[i + 1].read_only == cfg.volumes@[i].read_only,
        !booted(cfg).drives[i + 1].root,
        mount_hint(i, cfg.volumes@[i]) == drive_device(i + 1) + seq![':']
            + cfg.volumes@[i].guest_path@,
{
    reveal_strlit("vd");
    reveal_strlit(":");
    assert(drive_device(i + 1) =~= crate::boot::device_name(i));
    assert(":"@ =~= seq![':']);
}

/// Pausing stops a guest and resuming lets it go on, and nothing else about it
/// changes.
pub proof fn law_resume_undoes_pause(m: Machine)
    requires
        m.phase == Phase::Running,
    ensures
        m.after(seq![pause_of()]) == Some(Machine { phase: Phase::Paused, ..m }),
        m.after(seq![pause_of(), resume_of()]) == Some(m),
{
    law_plain_calls_ask_for_what_they_say();
    let none = Seq::<Call>::empty();
    lemma_after_push(m, none, pause_of());
    lemma_after_push(m, none.push(pause_of()), resume_of());
    assert(seq![pause_of()] =~= none.push(pause_of()));
    assert(seq![pause_of(), resume_of()] =~= none.push(pause_of()).push(resume_of()));
    assert(m.after(none) == Some(m));
}

/// A child is restored from the snapshot's state, its memory coming from the
/// snapshot's file, or from the memfd that it shares where the fork is live;
/// and it runs.
pub proof fn law_restored_child_runs(snap: Snapshot, opts: ForkOpts, memfd: Seq<char>)
    ensures
        Machine::fresh().after(seq![load_of(snap, opts, memfd)]) == Some(
            Machine {
                phase: Phase::Running,
                track_dirty: opts.enable_diff_snapshots,
                restored: Some(
                    if opts.memory_backend is MemfdShared {
                        (snap.vmstate@, memfd, true)
                    } else {
                        (snap.vmstate@, snap.memory@, false)
                    },
                ),
                ..Machine::fresh()
            },
        ),
{
    let c = load_of(snap, opts, memfd);
    let none = Seq::<Call>::empty();
    if opts.memory_backend is MemfdShared {
        law_restore_runs_from_the_named_files(
            snap.vmstate@,
            memfd,
            true,
            opts.enable_diff_snapshots,
        );
    } else {
        law_restore_runs_from_the_named_files(
            snap.vmstate@,
            snap.memory@,
            false,
            opts.enable_diff_snapshots,
        );
    }
    lemma_after_push(Machine::fresh(), none, c);
    assert(seq![c] =~= none.push(c));
    assert(Machine::fresh().after(none) == Some(Machine::fresh()));
}

/// Two more calls, where it is known what they ask for.
proof fn lemma_two_more(m: Machine, n: Machine, a: Call, b: Call, c: Call, y: Ask, z: Ask)
    requires
        m.after(seq![a]) == Some(n),
        asked(b) == Some(y),
        asked(c) == Some(z),
    ensures
        m.after(seq![a, b, c]) == (match n.answer(y) {
            Some(k) => k.answer(z),
            None => None,
        }),
{
    lemma_after_push(m, seq![a], b);
    lemma_after_push(m, seq![a].push(b), c);
    assert(seq![a, b, c] =~= seq![a].push(b).push(c));
}

/// A diff can be taken of a child that was restored with diffs enabled, and
/// only of such a one.
pub proof fn law_diffs_need_to_be_enabled(
    snap: Snapshot,
    opts: ForkOpts,
    memfd: Seq<char>,
    vmstate: Seq<char>,
    memory: Seq<char>,
)
    ensures
        Machine::fresh().after(
            seq![
                load_of(snap, opts, memfd),
                pause_of(),
                snapshot_create(vmstate, memory, SnapshotKind::Diff),
            ],
        ) is Some <==> opts.enable_diff_snapshots,
{
    let l = load_of(snap, opts, memfd);
    let c = snapshot_create(vmstate, memory, SnapshotKind::Diff);
    law_restored_child_runs(snap, opts, memfd);
    law_plain_calls_ask_for_what_they_say();
    law_snapshot_is_saved_as_asked(vmstate, memory, SnapshotKind::Diff);
    let n = Machine::fresh().after(seq![l])->0;
    lemma_two_more(
        Machine::fresh(),
        n,
        l,
        pause_of(),
        c,
        Ask::Pause,
        Ask::Save { vmstate, memory, kind: SnapshotKind::Diff },
    );
}

/// Warming a guest up leaves it as it was: it runs, and what is written goes
/// to two files of its own.
pub proof fn law_prewarm_leaves_guest_as_it_was(
    m: Machine,
    p: Prewarm,
    scratch: Seq<char>,
    sock: Seq<char>,
    pid: nat,
)
    requires
        m.phase == Phase::Running,
        is_prewarm(p, scratch, sock, pid),
    ensures
        m.after(seq![p.pause@, p.create@, p.resume@]) == Some(m),
        asked(p.create@) == Some(
            Ask::Save { vmstate: p.vmstate@, memory: p.memory@, kind: SnapshotKind::Full },
        ),
{
    law_plain_calls_ask_for_what_they_say();
    law_snapshot_is_saved_as_asked(p.vmstate@, p.memory@, SnapshotKind::Full);
    let none = Seq::<Call>::empty();
    lemma_after_push(m, none, p.pause@);
    lemma_after_push(m, none.push(p.pause@), p.create@);
    lemma_after_push(m, none.push(p.pause@).push(p.create@), p.resume@);
    assert(seq![p.pause@, p.create@, p.resume@] =~= none.push(p.pause@).push(p.create@).push(
        p.resume@,
    ));
    assert(m.after(none) == Some(m));
}

/// Writing memory out takes long, and is given longer than any other call.
pub proof fn law_saving_is_given_the_longest(
    vmstate: Seq<char>,
    memory: Seq<char>,
    kind: SnapshotKind,
    shared: bool,
    diff: bool,
    sock: Seq<char>,
)
    ensures
        ({
            let t = snapshot_create(vmstate, memory, kind).timeout_secs;
            &&& pause_of().timeout_secs < t
            &&& resume_of().timeout_secs < t
            &&& shutdown_of().timeout_secs < t
            &&& start_call().timeout_secs < t
            &&& snapshot_load(vmstate, memory, shared, diff).timeout_secs < t
            &&& write_protect(sock).timeout_secs < t
            &&& pause_of().timeout_secs > 0
        }),
{
}

} // verus!
