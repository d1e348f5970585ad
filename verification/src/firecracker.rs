//! Firecracker's API: which calls boot, pause, snapshot and restore a guest,
//! and how a call is framed and its answer read on the API socket.
use vstd::prelude::*;
use vstd::string::*;
use vstd::utf8::{decode_utf8, encode_utf8, valid_utf8};

use crate::boot::{BootConfig, NetworkConfig, VolumeSpec};
use crate::json::{bool_literal, json_bool, json_string, quote};
use crate::text::{
    chars_of, dec, dec_string, find, first_occurs_at, lines, occurs, occurs_at, parse_dec,
    parse_unsigned, split_lines, split_words, string_of, strip_prefix, trim, trimmed, views, words,
};

verus! {

/// How long an ordinary call may take.
pub const DEFAULT_API_TIMEOUT_SECS: u64 = 10;

/// How long writing a snapshot may take.
pub const SNAPSHOT_TIMEOUT_SECS: u64 = 60;

/// One call of the API.
#[derive(Debug, PartialEq, Eq)]
pub struct ApiCall {
    pub method: String,
    pub path: String,
    pub body: String,
    pub timeout_secs: u64,
}

/// The characters of a call.
pub ghost struct Call {
    pub method: Seq<char>,
    pub path: Seq<char>,
    pub body: Seq<char>,
    pub timeout_secs: u64,
}

impl View for ApiCall {
    type V = Call;

    open spec fn view(&self) -> Call {
        Call {
            method: self.method@,
            path: self.path@,
            body: self.body@,
            timeout_secs: self.timeout_secs,
        }
    }
}

pub open spec fn calls(v: Seq<ApiCall>) -> Seq<Call> {
    v.map_values(|c: ApiCall| c@)
}

pub open spec fn call(method: Seq<char>, path: Seq<char>, body: Seq<char>) -> Call {
    Call { method, path, body, timeout_secs: DEFAULT_API_TIMEOUT_SECS }
}

/// A call with the ordinary timeout.
pub fn api_call(method: &str, path: &str, body: &str) -> (r: ApiCall)
    ensures
        r@ == call(method@, path@, body@),
{
    api_call_with_timeout(method, path, body, DEFAULT_API_TIMEOUT_SECS)
}

pub fn api_call_with_timeout(method: &str, path: &str, body: &str, timeout_secs: u64) -> (r: ApiCall)
    ensures
        r@ == (Call { method: method@, path: path@, body: body@, timeout_secs }),
{
    ApiCall {
        method: method.to_string(),
        path: path.to_string(),
        body: body.to_string(),
        timeout_secs,
    }
}

// ---------------------------------------------------------------------
// Booting
// ---------------------------------------------------------------------

pub open spec fn boot_source_call(cfg: BootConfig) -> Call {
    call(
        "PUT"@,
        "/boot-source"@,
        "{\"boot_args\":"@ + json_string(cfg.full_args()) + ",\"kernel_image_path\":"@
            + json_string(cfg.kernel@) + "}"@,
    )
}

pub open spec fn drive_body(
    id: Seq<char>,
    read_only: bool,
    root: bool,
    path: Seq<char>,
) -> Seq<char> {
    "{\"drive_id\":"@ + json_string(id) + ",\"is_read_only\":"@ + json_bool(read_only)
        + ",\"is_root_device\":"@ + json_bool(root) + ",\"path_on_host\":"@ + json_string(path)
        + "}"@
}

pub open spec fn rootfs_call(cfg: BootConfig) -> Call {
    call(
        "PUT"@,
        "/drives/rootfs"@,
        drive_body("rootfs"@, cfg.rootfs_read_only, true, cfg.rootfs@),
    )
}

pub open spec fn volume_call(i: int, vol: VolumeSpec) -> Call {
    let id = "vol"@ + dec(i as nat);
    call("PUT"@, "/drives/"@ + id, drive_body(id, vol.read_only, false, vol.host_path@))
}

pub open spec fn machine_call(cfg: BootConfig) -> Call {
    call(
        "PUT"@,
        "/machine-config"@,
        "{\"mem_size_mib\":"@ + dec(cfg.mem_size_mib as nat)
            + ",\"track_dirty_pages\":true,\"vcpu_count\":"@ + dec(cfg.vcpu_count as nat) + "}"@,
    )
}

pub open spec fn network_call(net: NetworkConfig) -> Call {
    let tail = "\"host_dev_name\":"@ + json_string(net.host_dev_name@) + ",\"iface_id\":"@
        + json_string(net.iface_id@) + "}"@;
    call(
        "PUT"@,
        "/network-interfaces/"@ + net.iface_id@,
        match net.guest_mac {
            Some(mac) => "{\"guest_mac\":"@ + json_string(mac@) + ","@ + tail,
            None => "{"@ + tail,
        },
    )
}

pub open spec fn start_call() -> Call {
    call("PUT"@, "/actions"@, "{\"action_type\":\"InstanceStart\"}"@)
}

/// The calls that boot a guest: its kernel, its drives in the order of their
/// device names, its size, its network where it has one, and the start.
pub open spec fn boot_calls_of(cfg: BootConfig) -> Seq<Call> {
    let volumes = Seq::new(cfg.volumes@.len(), |i: int| volume_call(i, cfg.volumes@[i]));
    let network = match cfg.network {
        Some(net) => seq![network_call(net)],
        None => Seq::empty(),
    };
    seq![boot_source_call(cfg), rootfs_call(cfg)] + volumes + seq![machine_call(cfg)] + network
        + seq![start_call()]
}

fn drive(id: &str, read_only: bool, root: bool, path: &str) -> (r: ApiCall)
    ensures
        r@ == call("PUT"@, "/drives/"@ + id@, drive_body(id@, read_only, root, path@)),
{
    let q = quote(id);
    let ro = bool_literal(read_only);
    let rt = bool_literal(root);
    let p = quote(path);
    let body = "{\"drive_id\":".to_string().concat(q.as_str()).concat(",\"is_read_only\":").concat(
        ro.as_str(),
    ).concat(",\"is_root_device\":").concat(rt.as_str()).concat(",\"path_on_host\":").concat(
        p.as_str(),
    ).concat("}");
    let url = "/drives/".to_string().concat(id);
    api_call("PUT", url.as_str(), body.as_str())
}

fn boot_source(cfg: &BootConfig) -> (r: ApiCall)
    ensures
        r@ == boot_source_call(*cfg),
{
    let args = cfg.kernel_args();
    let a = quote(args.as_str());
    let k = quote(cfg.kernel.as_str());
    let body = "{\"boot_args\":".to_string().concat(a.as_str()).concat(
        ",\"kernel_image_path\":",
    ).concat(k.as_str()).concat("}");
    api_call("PUT", "/boot-source", body.as_str())
}

fn machine(cfg: &BootConfig) -> (r: ApiCall)
    ensures
        r@ == machine_call(*cfg),
{
    let mem = dec_string(cfg.mem_size_mib as u64);
    let cpu = dec_string(cfg.vcpu_count as u64);
    let body = "{\"mem_size_mib\":".to_string().concat(mem.as_str()).concat(
        ",\"track_dirty_pages\":true,\"vcpu_count\":",
    ).concat(cpu.as_str()).concat("}");
    api_call("PUT", "/machine-config", body.as_str())
}

fn network_interface(net: &NetworkConfig) -> (r: ApiCall)
    ensures
        r@ == network_call(*net),
{
    let dev = quote(net.host_dev_name.as_str());
    let iface = quote(net.iface_id.as_str());
    let tail = "\"host_dev_name\":".to_string().concat(dev.as_str()).concat(
        ",\"iface_id\":",
    ).concat(iface.as_str()).concat("}");
    let body = match &net.guest_mac {
        Some(mac) => {
            let m = quote(mac.as_str());
            "{\"guest_mac\":".to_string().concat(m.as_str()).concat(",").concat(tail.as_str())
        },
        None => "{".to_string().concat(tail.as_str()),
    };
    let url = "/network-interfaces/".to_string().concat(net.iface_id.as_str());
    api_call("PUT", url.as_str(), body.as_str())
}

/// The calls that boot a guest, in order.
pub fn boot_calls(cfg: &BootConfig) -> (r: Vec<ApiCall>)
    ensures
        calls(r@) == boot_calls_of(*cfg),
{
    let mut out: Vec<ApiCall> = Vec::new();
    out.push(boot_source(cfg));
    let root = drive("rootfs", cfg.rootfs_read_only, true, cfg.rootfs.as_str());
    proof {
        reveal_strlit("/drives/");
        reveal_strlit("rootfs");
        reveal_strlit("/drives/rootfs");
        assert("/drives/"@ + "rootfs"@ =~= "/drives/rootfs"@);
    }
    out.push(root);
    let ghost head = seq![boot_source_call(*cfg), rootfs_call(*cfg)];
    let ghost volumes = Seq::new(
        cfg.volumes@.len(),
        |i: int| volume_call(i, cfg.volumes@[i]),
    );
    assert(calls(out@) =~= head + volumes.take(0));
    let mut i: usize = 0;
    while i < cfg.volumes.len()
        invariant
            i <= cfg.volumes.len(),
            volumes == Seq::new(
                cfg.volumes@.len(),
                |i: int| volume_call(i, cfg.volumes@[i]),
            ),
            calls(out@) == head + volumes.take(i as int),
        decreases cfg.volumes.len() - i,
    {
        let n = dec_string(i as u64);
        let id = "vol".to_string().concat(n.as_str());
        let d = drive(
            id.as_str(),
            cfg.volumes[i].read_only,
            false,
            cfg.volumes[i].host_path.as_str(),
        );
        proof {
            assert(d@ == volumes[i as int]);
            assert(calls(out@.push(d)) =~= calls(out@).push(d@));
            assert(head + volumes.take(i + 1) =~= (head + volumes.take(i as int)).push(d@));
        }
        out.push(d);
        i += 1;
    }
    assert(volumes.take(i as int) =~= volumes);
    let m = machine(cfg);
    let ghost before = calls(out@);
    assert(calls(out@.push(m)) =~= before.push(m@));
    out.push(m);
    match &cfg.network {
        Some(net) => {
            let c = network_interface(net);
            let ghost b2 = calls(out@);
            assert(calls(out@.push(c)) =~= b2.push(c@));
            out.push(c);
        },
        None => {},
    }
    let s = api_call("PUT", "/actions", "{\"action_type\":\"InstanceStart\"}");
    let ghost b3 = calls(out@);
    assert(calls(out@.push(s)) =~= b3.push(s@));
    out.push(s);
    assert(calls(out@) =~= boot_calls_of(*cfg));
    out
}

pub open spec fn pause_of() -> Call {
    call("PATCH"@, "/vm"@, "{\"state\":\"Paused\"}"@)
}

/// Stops the vCPUs.
pub fn pause_call() -> (r: ApiCall)
    ensures
        r@ == pause_of(),
{
    api_call("PATCH", "/vm", "{\"state\":\"Paused\"}")
}

pub open spec fn resume_of() -> Call {
    call("PATCH"@, "/vm"@, "{\"state\":\"Resumed\"}"@)
}

/// Lets the vCPUs run again.
pub fn resume_call() -> (r: ApiCall)
    ensures
        r@ == resume_of(),
{
    api_call("PATCH", "/vm", "{\"state\":\"Resumed\"}")
}

pub open spec fn shutdown_of() -> Call {
    call("PUT"@, "/actions"@, "{\"action_type\":\"SendCtrlAltDel\"}"@)
}

/// Asks the guest to shut down.
pub fn shutdown_call() -> (r: ApiCall)
    ensures
        r@ == shutdown_of(),
{
    api_call("PUT", "/actions", "{\"action_type\":\"SendCtrlAltDel\"}")
}

// ---------------------------------------------------------------------
// Snapshots
// ---------------------------------------------------------------------

/// Which pages a snapshot holds.
#[derive(Debug, Clone, Copy, PartialEq, Eq, Structural)]
pub enum SnapshotKind {
    /// Every page of the guest.
    Full,
    /// The pages written since the previous snapshot or restore.
    Diff,
    /// None: the state of the vCPUs and devices alone.
    VmstateOnly,
}

pub open spec fn kind_name(kind: SnapshotKind) -> Seq<char> {
    match kind {
        SnapshotKind::Full => "Full"@,
        SnapshotKind::Diff => "Diff"@,
        SnapshotKind::VmstateOnly => "VmstateOnly"@,
    }
}

pub open spec fn snapshot_create(vmstate: Seq<char>, memory: Seq<char>, kind: SnapshotKind) -> Call {
    Call {
        method: "PUT"@,
        path: "/snapshot/create"@,
        body: "{\"mem_file_path\":"@ + json_string(memory) + ",\"snapshot_path\":"@ + json_string(
            vmstate,
        ) + ",\"snapshot_type\":\""@ + kind_name(kind) + "\"}"@,
        timeout_secs: SNAPSHOT_TIMEOUT_SECS,
    }
}

/// Writes a paused guest's state and memory to files.
pub fn snapshot_create_call(vmstate: &str, memory: &str, kind: SnapshotKind) -> (r: ApiCall)
    ensures
        r@ == snapshot_create(vmstate@, memory@, kind),
{
    let m = quote(memory);
    let v = quote(vmstate);
    let k = match kind {
        SnapshotKind::Full => "Full",
        SnapshotKind::Diff => "Diff",
        SnapshotKind::VmstateOnly => "VmstateOnly",
    };
    let body = "{\"mem_file_path\":".to_string().concat(m.as_str()).concat(
        ",\"snapshot_path\":",
    ).concat(v.as_str()).concat(",\"snapshot_type\":\"").concat(k).concat("\"}");
    api_call_with_timeout("PUT", "/snapshot/create", body.as_str(), SNAPSHOT_TIMEOUT_SECS)
}

pub open spec fn write_protect(sock: Seq<char>) -> Call {
    call("PUT"@, "/uffd/wp"@, "{\"uds_path\":"@ + json_string(sock) + "}"@)
}

/// Asks for a descriptor that reports writes to the guest's memory, to be sent
/// over the socket at `sock`.
pub fn write_protect_call(sock: &str) -> (r: ApiCall)
    ensures
        r@ == write_protect(sock@),
{
    let q = quote(sock);
    let body = "{\"uds_path\":".to_string().concat(q.as_str()).concat("}");
    api_call("PUT", "/uffd/wp", body.as_str())
}

pub open spec fn snapshot_load(
    vmstate: Seq<char>,
    backing: Seq<char>,
    shared: bool,
    enable_diff: bool,
) -> Call {
    call(
        "PUT"@,
        "/snapshot/load"@,
        "{\"enable_diff_snapshots\":"@ + json_bool(enable_diff)
            + ",\"mem_backend\":{\"backend_path\":"@ + json_string(backing)
            + ",\"backend_type\":\"File\""@ + (if shared {
            ",\"shared\":true"@
        } else {
            ""@
        }) + "},\"resume_vm\":true,\"snapshot_path\":"@ + json_string(vmstate) + "}"@,
    )
}

/// Restores a guest from a snapshot's files and lets it run.
pub fn snapshot_load_call(vmstate: &str, backing: &str, shared: bool, enable_diff: bool) -> (r:
    ApiCall)
    ensures
        r@ == snapshot_load(vmstate@, backing@, shared, enable_diff),
{
    let d = bool_literal(enable_diff);
    let b = quote(backing);
    let v = quote(vmstate);
    let s = if shared {
        ",\"shared\":true"
    } else {
        ""
    };
    let body = "{\"enable_diff_snapshots\":".to_string().concat(d.as_str()).concat(
        ",\"mem_backend\":{\"backend_path\":",
    ).concat(b.as_str()).concat(",\"backend_type\":\"File\"").concat(s).concat(
        "},\"resume_vm\":true,\"snapshot_path\":",
    ).concat(v.as_str()).concat("}");
    api_call("PUT", "/snapshot/load", body.as_str())
}

// ---------------------------------------------------------------------
// The API socket
// ---------------------------------------------------------------------

/// A call as an HTTP request.
pub open spec fn request(c: Call) -> Seq<char> {
    c.method + " "@ + c.path
        + " HTTP/1.1\r\nHost: localhost\r\nAccept: application/json\r\nContent-Type: application/json\r\nContent-Length: "@
        + dec(encode_utf8(c.body).len()) + "\r\n\r\n"@ + c.body
}

pub fn request_text(c: &ApiCall) -> (r: String)
    ensures
        r@ == request(c@),
{
    let n = dec_string(c.body.as_str().as_bytes().len() as u64);
    c.method.clone().concat(" ").concat(c.path.as_str()).concat(
        " HTTP/1.1\r\nHost: localhost\r\nAccept: application/json\r\nContent-Type: application/json\r\nContent-Length: ",
    ).concat(n.as_str()).concat("\r\n\r\n").concat(c.body.as_str())
}

/// Where `needle` first occurs in `haystack`.
pub fn find_subslice(haystack: &[u8], needle: &[u8]) -> (r: Option<usize>)
    requires
        needle@.len() > 0,
    ensures
        match r {
            Some(i) => first_occurs_at(haystack@, needle@, i as int),
            None => !occurs(haystack@, needle@),
        },
{
    if needle.len() > haystack.len() {
        assert forall|j: int| !occurs_at(haystack@, needle@, j) by {}
        return None;
    }
    let last: usize = haystack.len() - needle.len();
    let mut i: usize = 0;
    loop
        invariant
            i <= last,
            last == haystack.len() - needle.len(),
            forall|j: int| 0 <= j < i ==> !#[trigger] occurs_at(haystack@, needle@, j),
        decreases last - i,
    {
        let mut k: usize = 0;
        while k < needle.len() && haystack[i + k] == needle[k]
            invariant
                k <= needle.len(),
                i <= last,
                last == haystack.len() - needle.len(),
                forall|j: int| 0 <= j < k ==> haystack@[i + j] == #[trigger] needle@[j],
            decreases needle.len() - k,
        {
            k += 1;
        }
        if k == needle.len() {
            assert(haystack@.subrange(i as int, i + needle@.len()) =~= needle@);
            return Some(i);
        }
        proof {
            let w = haystack@.subrange(i as int, i + needle@.len());
            assert(w[k as int] != needle@[k as int]);
        }
        if i == last {
            assert forall|j: int| !occurs_at(haystack@, needle@, j) by {}
            return None;
        }
        i += 1;
    }
}

/// `std::str::from_utf8`: the characters that the bytes encode, where they
/// are valid UTF-8.
#[verifier::external_body]
fn text_of_bytes(bytes: &[u8]) -> (r: Option<String>)
    ensures
        r is Some <==> valid_utf8(bytes@),
        r matches Some(s) ==> s@ == decode_utf8(bytes@),
{
    std::str::from_utf8(bytes).ok().map(String::from)
}

/// The characters that `String::from_utf8_lossy` makes of the bytes.
pub uninterp spec fn lossy_text(bytes: Seq<u8>) -> Seq<char>;

/// `String::from_utf8_lossy`: valid UTF-8 is decoded as it is; what is not
/// valid comes out as [`lossy_text`] names it.
#[verifier::external_body]
pub(crate) fn lossy_text_of(bytes: &[u8]) -> (r: String)
    ensures
        r@ == lossy_text(bytes@),
        valid_utf8(bytes@) ==> r@ == decode_utf8(bytes@),
{
    String::from_utf8_lossy(bytes).into_owned()
}

pub open spec fn lower_char(c: char) -> char {
    if 'A' <= c && c <= 'Z' {
        (c as int + 32) as char
    } else {
        c
    }
}

/// `s` with ASCII letters in lower case.
pub open spec fn lower(s: Seq<char>) -> Seq<char> {
    s.map_values(|c: char| lower_char(c))
}

pub(crate) fn lowered(s: &str) -> (r: String)
    ensures
        r@ == lower(s@),
{
    let v = chars_of(s);
    let mut out = String::new();
    let mut i: usize = 0;
    while i < v.len()
        invariant
            i <= v.len(),
            v@ == s@,
            out@ == lower(s@.take(i as int)),
        decreases v.len() - i,
    {
        let c = v[i];
        let l = if 'A' <= c && c <= 'Z' {
            ((c as u32 + 32) as u8) as char
        } else {
            c
        };
        assert(l == lower_char(c));
        out.push(l);
        i += 1;
        assert(out@ =~= lower(s@.take(i as int)));
    }
    assert(s@.take(i as int) =~= s@);
    out
}

/// What the first `Content-Length` among the header lines says, or 0.
pub open spec fn length_header(ls: Seq<Seq<char>>) -> nat
    decreases ls.len(),
{
    if ls.len() == 0 {
        0
    } else if "content-length:"@.is_prefix_of(lower(ls[0])) {
        match parse_dec(
            trim(lower(ls[0]).skip("content-length:"@.len() as int)),
            usize::MAX as nat,
        ) {
            Some(n) => n,
            None => 0,
        }
    } else {
        length_header(ls.skip(1))
    }
}

fn content_length(headers: &str) -> (r: usize)
    ensures
        r == length_header(lines(headers@)),
{
    let ls = split_lines(headers);
    let ghost all = lines(headers@);
    let mut i: usize = 0;
    assert(all.skip(0) =~= all);
    while i < ls.len()
        invariant
            i <= ls.len(),
            all == lines(headers@),
            views(ls@) == all,
            length_header(all) == length_header(all.skip(i as int)),
        decreases ls.len() - i,
    {
        let low = lowered(ls[i].as_str());
        assert(all[i as int] == ls@[i as int]@);
        assert(all.skip(i as int)[0] == all[i as int]);
        match strip_prefix(low.as_str(), "content-length:") {
            Some(rest) => {
                let t = trimmed(rest.as_str());
                return match parse_unsigned(t.as_str(), usize::MAX as u64) {
                    Some(n) => n as usize,
                    None => 0,
                };
            },
            None => {},
        }
        assert(all.skip(i as int).skip(1) =~= all.skip(i + 1));
        i += 1;
    }
    0
}

/// The bytes between the head and the body of a response.
pub open spec fn blank_line() -> Seq<u8> {
    seq![13u8, 10u8, 13u8, 10u8]
}

/// Whether `buf` holds a whole response: its head, and as many bytes of body
/// as the head announces.
pub open spec fn complete(buf: Seq<u8>) -> bool {
    exists|i: int|
        {
            &&& #[trigger] first_occurs_at(buf, blank_line(), i)
            &&& valid_utf8(buf.take(i))
            &&& buf.len() >= i + 4 + length_header(lines(decode_utf8(buf.take(i))))
        }
}

pub fn response_complete(buf: &[u8]) -> (r: bool)
    ensures
        r == complete(buf@),
{
    let mark: [u8; 4] = [13, 10, 13, 10];
    assert(mark@ =~= blank_line());
    match find_subslice(buf, &mark) {
        Some(end) => {
            proof {
                assert(occurs_at(buf@, blank_line(), end as int));
                assert forall|j: int| first_occurs_at(buf@, blank_line(), j) implies j == end by {
                    assert(occurs_at(buf@, blank_line(), j));
                }
            }
            let head = slice_head(buf, end);
            match text_of_bytes(head) {
                Some(h) => {
                    let n = content_length(h.as_str());
                    let have: usize = buf.len() - end - 4;
                    have >= n
                },
                None => false,
            }
        },
        None => {
            assert forall|j: int| !first_occurs_at(buf@, blank_line(), j) by {
                assert(!occurs_at(buf@, blank_line(), j));
            }
            false
        },
    }
}

fn slice_head(buf: &[u8], end: usize) -> (r: &[u8])
    requires
        end <= buf@.len(),
    ensures
        r@ == buf@.take(end as int),
{
    let r = vstd::slice::slice_subrange(buf, 0, end);
    assert(r@ =~= buf@.take(end as int));
    r
}

/// A response that is whole stays whole whatever is read behind it.
pub proof fn law_complete_response_stays_complete(buf: Seq<u8>, more: Seq<u8>)
    requires
        complete(buf),
    ensures
        complete(buf + more),
{
    let i = choose|i: int|
        {
            &&& #[trigger] first_occurs_at(buf, blank_line(), i)
            &&& valid_utf8(buf.take(i))
            &&& buf.len() >= i + 4 + length_header(lines(decode_utf8(buf.take(i))))
        };
    let all = buf + more;
    assert(occurs_at(buf, blank_line(), i));
    assert(all.subrange(i, i + 4) =~= buf.subrange(i, i + 4));
    assert(occurs_at(all, blank_line(), i));
    assert forall|j: int| 0 <= j < i implies !#[trigger] occurs_at(all, blank_line(), j) by {
        if occurs_at(all, blank_line(), j) {
            assert(buf.subrange(j, j + 4) =~= all.subrange(j, j + 4));
            assert(occurs_at(buf, blank_line(), j));
        }
    }
    assert(first_occurs_at(all, blank_line(), i));
    assert(all.take(i) =~= buf.take(i));
}

/// What an answer means for the caller.
#[derive(Debug, PartialEq, Eq)]
pub enum ApiAnswer {
    /// A status from 200 to 299.
    Accepted,
    /// Any other status, with the text of the body.
    Refused { status: u16, body: String },
    /// No status where one belongs; the first line of the answer.
    Unparseable { line: String },
}

/// The status of an answer: its second word, as a number of 16 bits.
pub open spec fn answer_status(text: Seq<char>) -> Option<nat> {
    let w = words(text);
    if w.len() > 1 {
        parse_dec(w[1], 65535)
    } else {
        None
    }
}

/// What follows the first blank line, or nothing.
pub open spec fn answer_body(text: Seq<char>) -> Seq<char> {
    if occurs(text, "\r\n\r\n"@) {
        text.skip(crate::boot::first_at(text, "\r\n\r\n"@) + 4)
    } else {
        Seq::empty()
    }
}

pub open spec fn reads_answer(text: Seq<char>, a: ApiAnswer) -> bool {
    match answer_status(text) {
        Some(n) => if 200 <= n < 300 {
            a == ApiAnswer::Accepted
        } else {
            a matches ApiAnswer::Refused { status, body } && status == n && body@ == trim(
                answer_body(text),
            )
        },
        None => a matches ApiAnswer::Unparseable { line } && line@ == (if lines(text).len() > 0 {
            lines(text)[0]
        } else {
            Seq::empty()
        }),
    }
}

/// Reads the answer's text.
pub fn parse_answer(text: &str) -> (r: ApiAnswer)
    ensures
        reads_answer(text@, r),
{
    let ws = split_words(text);
    let status: Option<u64> = if ws.len() > 1 {
        assert(views(ws@)[1] == ws@[1]@);
        parse_unsigned(ws[1].as_str(), 65535)
    } else {
        None
    };
    match status {
        Some(n) => {
            if 200 <= n && n < 300 {
                ApiAnswer::Accepted
            } else {
                let v = chars_of(text);
                let mark = chars_of("\r\n\r\n");
                proof {
                    reveal_strlit("\r\n\r\n");
                }
                let body = match find(&v, &mark) {
                    Some(i) => {
                        proof {
                            crate::boot::lemma_first_at(text@, "\r\n\r\n"@, i as int);
                            assert(occurs_at(text@, "\r\n\r\n"@, i as int));
                        }
                        let total: usize = v.len();
                        assert(i + 4 <= total);
                        let b = string_of(&v, i + 4, total);
                        assert(b@ =~= answer_body(text@));
                        b
                    },
                    None => String::new(),
                };
                ApiAnswer::Refused { status: n as u16, body: trimmed(body.as_str()) }
            }
        },
        None => {
            let ls = split_lines(text);
            let line = if ls.len() > 0 {
                assert(views(ls@)[0] == ls@[0]@);
                ls[0].clone()
            } else {
                String::new()
            };
            ApiAnswer::Unparseable { line }
        },
    }
}

/// Why an answer with this text is not an acceptance of call `c`, if it is
/// not one.
pub open spec fn answer_failure(c: Call, text: Seq<char>) -> Option<Seq<char>> {
    match answer_status(text) {
        Some(n) => if 200 <= n < 300 {
            None
        } else {
            Some(
                "firecracker API "@ + c.method + " "@ + c.path + " returned "@ + dec(n) + ": "@
                    + trim(answer_body(text)),
            )
        },
        None => Some(
            "unparseable status line: "@ + (if lines(text).len() > 0 {
                lines(text)[0]
            } else {
                Seq::empty()
            }),
        ),
    }
}

/// Judges the text of an answer to call `c`.
pub fn judge_answer(c: &ApiCall, text: &str) -> (r: Result<(), String>)
    ensures
        match r {
            Ok(_) => answer_failure(c@, text@) is None,
            Err(e) => answer_failure(c@, text@) == Some(e@),
        },
{
    match parse_answer(text) {
        ApiAnswer::Accepted => Ok(()),
        ApiAnswer::Refused { status, body } => {
            let n = dec_string(status as u64);
            Err(
                "firecracker API ".to_string().concat(c.method.as_str()).concat(" ").concat(
                    c.path.as_str(),
                ).concat(" returned ").concat(n.as_str()).concat(": ").concat(body.as_str()),
            )
        },
        ApiAnswer::Unparseable { line } => Err(
            "unparseable status line: ".to_string().concat(line.as_str()),
        ),
    }
}

/// Reads the bytes of an answer to call `c`: success, or what went wrong.
pub fn read_answer(c: &ApiCall, bytes: &[u8]) -> (r: Result<(), String>)
    ensures
        match r {
            Ok(_) => answer_failure(c@, lossy_text(bytes@)) is None,
            Err(e) => answer_failure(c@, lossy_text(bytes@)) == Some(e@),
        },
{
    let text = lossy_text_of(bytes);
    judge_answer(c, text.as_str())
}

// ---------------------------------------------------------------------
// Waiting for the socket
// ---------------------------------------------------------------------

/// How long a guest that boots, and a child that is restored, may take until
/// its socket is there.
pub const BOOT_SOCK_SECS: u64 = 3;

pub const CHILD_SOCK_SECS: u64 = 5;

/// How long to wait before looking for the socket again.
pub const SOCK_POLL_MS: u64 = 50;

/// What to do about a socket that is waited for.
#[derive(Debug, PartialEq, Eq)]
pub enum SockWait {
    Ready,
    Again,
    GiveUp(String),
}

/// Whether to go on waiting for a socket, `waited_ms` after the start. Once
/// the time is over it is not looked for again.
pub fn wait_for_sock(sock: &str, limit_secs: u64, waited_ms: u64, present: bool) -> (r: SockWait)
    ensures
        match r {
            SockWait::Ready => waited_ms < limit_secs * 1000 && present,
            SockWait::Again => waited_ms < limit_secs * 1000 && !present,
            SockWait::GiveUp(e) => {
                &&& waited_ms >= limit_secs * 1000
                &&& e@ == "socket "@ + sock@ + " never appeared within "@ + dec(limit_secs as nat)
                    + "s"@
            },
        },
{
    if waited_ms / 1000 >= limit_secs {
        let n = dec_string(limit_secs);
        return SockWait::GiveUp(
            "socket ".to_string().concat(sock).concat(" never appeared within ").concat(
                n.as_str(),
            ).concat("s"),
        );
    }
    if present {
        SockWait::Ready
    } else {
        SockWait::Again
    }
}

/// An answer counts as success exactly where its status is of the class that
/// says so, for a caller that reads it as for one that judges it; what is
/// refused keeps its status.
pub proof fn law_only_success_is_accepted(c: Call, text: Seq<char>, n: nat, a: ApiAnswer)
    requires
        answer_status(text) == Some(n),
        reads_answer(text, a),
    ensures
        a is Accepted <==> n / 100 == 2,
        answer_failure(c, text) is None <==> n / 100 == 2,
        a matches ApiAnswer::Refused { status, body } ==> status == n,
{
}

/// A response is whole exactly when as much of its body has come as its head
/// announces.
pub proof fn law_response_waits_for_its_body(head: Seq<u8>, body: Seq<u8>)
    requires
        valid_utf8(head),
        first_occurs_at(head + blank_line() + body, blank_line(), head.len() as int),
    ensures
        complete(head + blank_line() + body) <==> body.len() >= length_header(
            lines(decode_utf8(head)),
        ),
{
    let buf = head + blank_line() + body;
    let at = head.len() as int;
    assert(buf.take(at) =~= head);
    assert forall|j: int| first_occurs_at(buf, blank_line(), j) implies j == at by {
        assert(occurs_at(buf, blank_line(), j));
        assert(occurs_at(buf, blank_line(), at));
    }
}

} // verus!
