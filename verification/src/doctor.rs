//! Checks of the host: what has to be true before a microVM can be forked on
//! it. Each check judges what was observed; observing is the caller's part.
use vstd::prelude::*;
use vstd::utf8::encode_utf8;

use crate::api::opt_view;
use crate::firecracker::{lossy_text, lossy_text_of};
use crate::paths::{join_path, joined_path};
use crate::text::{
    char_pos, chars_of, contains, dec, dec_string, find_char, has_char, join, joined,
    lemma_char_pos, lines, occurs, pad_right, padded_right, parse_dec, parse_unsigned, split_lines,
    split_words, starts_with, str_eq, string_of, trim, trimmed, views, words,
};

verus! {

#[derive(Debug, Clone, Copy, PartialEq, Eq, Structural)]
pub enum Status {
    Pass,
    Warn,
    Fail,
    Skip,
}

impl Status {
    pub open spec fn glyph_text(self) -> Seq<char> {
        match self {
            Status::Pass => "\x1b[32m✓\x1b[0m"@,
            Status::Warn => "\x1b[33m⚠\x1b[0m"@,
            Status::Fail => "\x1b[31m✗\x1b[0m"@,
            Status::Skip => "\x1b[90m·\x1b[0m"@,
        }
    }

    /// A coloured mark for a terminal.
    pub fn glyph(self) -> (r: String)
        ensures
            r@ == self.glyph_text(),
    {
        match self {
            Status::Pass => "\x1b[32m✓\x1b[0m".to_string(),
            Status::Warn => "\x1b[33m⚠\x1b[0m".to_string(),
            Status::Fail => "\x1b[31m✗\x1b[0m".to_string(),
            Status::Skip => "\x1b[90m·\x1b[0m".to_string(),
        }
    }
}

/// The outcome of one check.
#[derive(Debug, PartialEq, Eq)]
pub struct Check {
    pub name: String,
    pub status: Status,
    pub detail: String,
    /// What to do about it.
    pub hint: Option<String>,
}

/// What a [`Check`] says.
pub ghost struct Finding {
    pub name: Seq<char>,
    pub status: Status,
    pub detail: Seq<char>,
    pub hint: Option<Seq<char>>,
}

impl View for Check {
    type V = Finding;

    open spec fn view(&self) -> Finding {
        Finding {
            name: self.name@,
            status: self.status,
            detail: self.detail@,
            hint: opt_view(self.hint),
        }
    }
}

pub open spec fn passed(name: Seq<char>, detail: Seq<char>) -> Finding {
    Finding { name, status: Status::Pass, detail, hint: None }
}

pub open spec fn warned(name: Seq<char>, detail: Seq<char>, hint: Seq<char>) -> Finding {
    Finding { name, status: Status::Warn, detail, hint: Some(hint) }
}

pub open spec fn failed(name: Seq<char>, detail: Seq<char>, hint: Seq<char>) -> Finding {
    Finding { name, status: Status::Fail, detail, hint: Some(hint) }
}

pub open spec fn skipped(name: Seq<char>, detail: Seq<char>) -> Finding {
    Finding { name, status: Status::Skip, detail, hint: None }
}

impl Check {
    pub fn pass(name: &str, detail: &str) -> (r: Check)
        ensures
            r@ == passed(name@, detail@),
    {
        Check {
            name: name.to_string(),
            status: Status::Pass,
            detail: detail.to_string(),
            hint: None,
        }
    }

    pub fn warn(name: &str, detail: &str, hint: &str) -> (r: Check)
        ensures
            r@ == warned(name@, detail@, hint@),
    {
        Check {
            name: name.to_string(),
            status: Status::Warn,
            detail: detail.to_string(),
            hint: Some(hint.to_string()),
        }
    }

    pub fn fail(name: &str, detail: &str, hint: &str) -> (r: Check)
        ensures
            r@ == failed(name@, detail@, hint@),
    {
        Check {
            name: name.to_string(),
            status: Status::Fail,
            detail: detail.to_string(),
            hint: Some(hint.to_string()),
        }
    }

    pub fn skip(name: &str, detail: &str) -> (r: Check)
        ensures
            r@ == skipped(name@, detail@),
    {
        Check {
            name: name.to_string(),
            status: Status::Skip,
            detail: detail.to_string(),
            hint: None,
        }
    }
}

// ---------------------------------------------------------------------
// The checks
// ---------------------------------------------------------------------

/// A file's text, or why it cannot be read.
pub type Observed = Result<String, String>;

/// The first three words of the kernel's version.
pub open spec fn platform_finding(linux: bool, version: Observed) -> Finding {
    if !linux {
        failed("platform"@, "not Linux"@, "forkd requires Linux + KVM"@)
    } else {
        match version {
            Ok(v) => passed(
                "platform"@,
                joined(
                    if words(v@).len() > 3 {
                        words(v@).take(3)
                    } else {
                        words(v@)
                    },
                    " "@,
                ),
            ),
            Err(e) => warned("platform"@, "read /proc/version: "@ + e@, "expected Linux"@),
        }
    }
}

pub fn check_platform(linux: bool, version: &Observed) -> (r: Check)
    ensures
        r@ == platform_finding(linux, *version),
{
    if !linux {
        return Check::fail("platform", "not Linux", "forkd requires Linux + KVM");
    }
    match version {
        Ok(v) => {
            let all = split_words(v.as_str());
            let mut first: Vec<String> = Vec::new();
            let mut i: usize = 0;
            assert(views(first@) =~= words(v@).take(0));
            while i < all.len() && i < 3
                invariant
                    i <= 3,
                    i <= all.len(),
                    views(all@) == words(v@),
                    views(first@) == words(v@).take(i as int),
                decreases 3 - i,
            {
                let w = all[i].clone();
                proof {
                    assert(views(first@.push(w)) =~= views(first@).push(w@));
                    assert(words(v@).take(i + 1) =~= words(v@).take(i as int).push(w@));
                }
                first.push(w);
                i += 1;
            }
            assert(views(all@).len() == all@.len());
            assert(words(v@).take(words(v@).len() as int) =~= words(v@));
            let d = join(&first, " ");
            Check::pass("platform", d.as_str())
        },
        Err(e) => {
            let d = "read /proc/version: ".to_string().concat(e.as_str());
            Check::warn("platform", d.as_str(), "expected Linux")
        },
    }
}

/// Whether `l` is the first of `ls` that starts with `flags`; empty where none
/// does.
pub open spec fn flags_line(ls: Seq<Seq<char>>) -> Seq<char>
    decreases ls.len(),
{
    if ls.len() == 0 {
        Seq::empty()
    } else if "flags"@.is_prefix_of(ls[0]) {
        ls[0]
    } else {
        flags_line(ls.skip(1))
    }
}

/// Whether the CPU can run virtual machines.
pub open spec fn hw_virt_finding(linux: bool, cpuinfo: Observed) -> Finding {
    if !linux {
        skipped("hw virt"@, "not Linux"@)
    } else {
        match cpuinfo {
            Ok(info) => {
                let l = flags_line(lines(info@));
                if occurs(l, " vmx"@) {
                    passed("hw virt"@, "vmx (CPU supports virtualization)"@)
                } else if occurs(l, " svm"@) {
                    passed("hw virt"@, "svm (CPU supports virtualization)"@)
                } else {
                    failed(
                        "hw virt"@,
                        "no vmx or svm flag in /proc/cpuinfo"@,
                        "enable virtualization in BIOS/UEFI (Intel VT-x / AMD-V), or run on bare metal"@,
                    )
                }
            },
            Err(e) => warned("hw virt"@, e@, "expected /proc/cpuinfo on Linux"@),
        }
    }
}

pub fn check_hw_virt(linux: bool, cpuinfo: &Observed) -> (r: Check)
    ensures
        r@ == hw_virt_finding(linux, *cpuinfo),
{
    if !linux {
        return Check::skip("hw virt", "not Linux");
    }
    match cpuinfo {
        Ok(info) => {
            let ls = split_lines(info.as_str());
            let ghost all = lines(info@);
            let mut flags = String::new();
            let mut i: usize = 0;
            let mut found = false;
            assert(all.skip(0) =~= all);
            assert(flags@ =~= Seq::<char>::empty());
            while i < ls.len() && !found
                invariant
                    i <= ls.len(),
                    all == lines(info@),
                    views(ls@) == all,
                    found ==> flags@ == flags_line(all),
                    !found ==> flags@.len() == 0 && flags_line(all) == flags_line(
                        all.skip(i as int),
                    ),
                decreases ls.len() - i,
            {
                assert(all[i as int] == ls@[i as int]@);
                assert(all.skip(i as int)[0] == all[i as int]);
                assert(all.skip(i as int).skip(1) =~= all.skip(i + 1));
                if starts_with(ls[i].as_str(), "flags") {
                    flags = ls[i].clone();
                    found = true;
                }
                i += 1;
            }
            proof {
                assert(views(ls@).len() == ls@.len());
                if !found {
                    assert(all.skip(i as int).len() == 0);
                    assert(flags@ =~= flags_line(all));
                }
            }
            if contains(flags.as_str(), " vmx") {
                Check::pass("hw virt", "vmx (CPU supports virtualization)")
            } else if contains(flags.as_str(), " svm") {
                Check::pass("hw virt", "svm (CPU supports virtualization)")
            } else {
                Check::fail(
                    "hw virt",
                    "no vmx or svm flag in /proc/cpuinfo",
                    "enable virtualization in BIOS/UEFI (Intel VT-x / AMD-V), or run on bare metal",
                )
            }
        },
        Err(e) => Check::warn("hw virt", e.as_str(), "expected /proc/cpuinfo on Linux"),
    }
}

/// Whether KVM can be used: its device is there and opens.
pub open spec fn kvm_finding(linux: bool, exists: bool, open: Result<(), String>) -> Finding {
    if !linux {
        skipped("kvm"@, "not Linux"@)
    } else if !exists {
        failed(
            "kvm"@,
            "/dev/kvm does not exist"@,
            "enable KVM (Intel: kvm_intel; AMD: kvm_amd) or run on bare metal"@,
        )
    } else {
        match open {
            Ok(_) => passed("kvm"@, "/dev/kvm OK"@),
            Err(e) => failed(
                "kvm"@,
                "/dev/kvm: "@ + e@,
                "add yourself to the 'kvm' group: sudo usermod -aG kvm $USER && newgrp kvm"@,
            ),
        }
    }
}

pub fn check_kvm(linux: bool, exists: bool, open: &Result<(), String>) -> (r: Check)
    ensures
        r@ == kvm_finding(linux, exists, *open),
{
    if !linux {
        return Check::skip("kvm", "not Linux");
    }
    if !exists {
        return Check::fail(
            "kvm",
            "/dev/kvm does not exist",
            "enable KVM (Intel: kvm_intel; AMD: kvm_amd) or run on bare metal",
        );
    }
    match open {
        Ok(_) => Check::pass("kvm", "/dev/kvm OK"),
        Err(e) => {
            let d = "/dev/kvm: ".to_string().concat(e.as_str());
            Check::fail(
                "kvm",
                d.as_str(),
                "add yourself to the 'kvm' group: sudo usermod -aG kvm $USER && newgrp kvm",
            )
        },
    }
}

/// Whether memory limits can be enforced. `controllers` is the text of the
/// unified hierarchy's list, where that can be read.
pub open spec fn cgroup_v2_finding(mounted: bool, controllers: Option<String>) -> Finding {
    if !mounted {
        warned(
            "cgroup v2"@,
            "no unified hierarchy mounted"@,
            "forkd works but memory_limit_mib is silently ignored"@,
        )
    } else {
        match controllers {
            Some(c) => passed("cgroup v2"@, trim(c@)),
            None => warned(
                "cgroup v2"@,
                "/sys/fs/cgroup/cgroup.controllers unreadable"@,
                "memory.max enforcement may not work"@,
            ),
        }
    }
}

pub fn check_cgroup_v2(mounted: bool, controllers: &Option<String>) -> (r: Check)
    ensures
        r@ == cgroup_v2_finding(mounted, *controllers),
{
    if !mounted {
        return Check::warn(
            "cgroup v2",
            "no unified hierarchy mounted",
            "forkd works but memory_limit_mib is silently ignored",
        );
    }
    match controllers {
        Some(c) => {
            let t = trimmed(c.as_str());
            Check::pass("cgroup v2", t.as_str())
        },
        None => Check::warn(
            "cgroup v2",
            "/sys/fs/cgroup/cgroup.controllers unreadable",
            "memory.max enforcement may not work",
        ),
    }
}

/// Whether the host forwards packets.
pub open spec fn ip_forward_finding(setting: Observed) -> Finding {
    match setting {
        Ok(v) => if trim(v@) == "1"@ {
            passed("ip_forward"@, "1 (forwarding enabled)"@)
        } else {
            failed(
                "ip_forward"@,
                trim(v@),
                "sudo sysctl -w net.ipv4.ip_forward=1 — or rerun scripts/host-tap.sh"@,
            )
        },
        Err(e) => warned("ip_forward"@, e@, "expected on Linux"@),
    }
}

pub fn check_ip_forward(setting: &Observed) -> (r: Check)
    ensures
        r@ == ip_forward_finding(*setting),
{
    match setting {
        Ok(v) => {
            let t = trimmed(v.as_str());
            if str_eq(t.as_str(), "1") {
                Check::pass("ip_forward", "1 (forwarding enabled)")
            } else {
                Check::fail(
                    "ip_forward",
                    t.as_str(),
                    "sudo sysctl -w net.ipv4.ip_forward=1 — or rerun scripts/host-tap.sh",
                )
            }
        },
        Err(e) => Check::warn("ip_forward", e.as_str(), "expected on Linux"),
    }
}

/// The state of a link, or a question mark where it cannot be read.
pub open spec fn link_state(operstate: Option<Seq<char>>) -> Seq<char> {
    match operstate {
        Some(s) => trim(s),
        None => trim("?"@),
    }
}

/// Whether the tap device is there and up.
pub open spec fn tap_device_finding(
    tap: Seq<char>,
    present: bool,
    operstate: Option<Seq<char>>,
) -> Finding {
    if !present {
        failed("tap device"@, tap + " not present"@, "sudo bash scripts/host-tap.sh"@)
    } else {
        let oper = link_state(operstate);
        if oper == "up"@ || oper == "unknown"@ {
            passed("tap device"@, tap + " ("@ + oper + ")"@)
        } else {
            warned(
                "tap device"@,
                tap + " ("@ + oper + ")"@,
                "sudo ip link set forkd-tap0 up — or rerun scripts/host-tap.sh"@,
            )
        }
    }
}

pub fn check_tap_device(tap: &str, present: bool, operstate: &Option<String>) -> (r: Check)
    ensures
        r@ == tap_device_finding(tap@, present, opt_view(*operstate)),
{
    if !present {
        let d = tap.to_string().concat(" not present");
        return Check::fail("tap device", d.as_str(), "sudo bash scripts/host-tap.sh");
    }
    let oper = match operstate {
        Some(s) => trimmed(s.as_str()),
        None => trimmed("?"),
    };
    let d = tap.to_string().concat(" (").concat(oper.as_str()).concat(")");
    if str_eq(oper.as_str(), "up") || str_eq(oper.as_str(), "unknown") {
        Check::pass("tap device", d.as_str())
    } else {
        Check::warn(
            "tap device",
            d.as_str(),
            "sudo ip link set forkd-tap0 up — or rerun scripts/host-tap.sh",
        )
    }
}

/// How many of `names` are namespaces for children.
pub open spec fn child_netns_count(names: Seq<Seq<char>>) -> nat
    decreases names.len(),
{
    if names.len() == 0 {
        0
    } else {
        child_netns_count(names.drop_last()) + (if "forkd-child-"@.is_prefix_of(names.last()) {
            1nat
        } else {
            0
        })
    }
}

/// Whether namespaces for children have been provisioned. `names` holds the
/// names of the host's namespaces.
pub open spec fn netns_count_finding(dir_exists: bool, names: Seq<Seq<char>>) -> Finding {
    if !dir_exists {
        warned(
            "per-child netns"@,
            "no /var/run/netns"@,
            "needed for fanout >1: sudo bash scripts/netns-setup.sh N"@,
        )
    } else if child_netns_count(names) == 0 {
        warned(
            "per-child netns"@,
            "no forkd-child-* netns present"@,
            "sudo bash scripts/netns-setup.sh N (for fanout > 1)"@,
        )
    } else {
        passed("per-child netns"@, dec(child_netns_count(names)) + " provisioned"@)
    }
}

pub fn check_netns_count(dir_exists: bool, names: &Vec<String>) -> (r: Check)
    ensures
        r@ == netns_count_finding(dir_exists, views(names@)),
{
    if !dir_exists {
        return Check::warn(
            "per-child netns",
            "no /var/run/netns",
            "needed for fanout >1: sudo bash scripts/netns-setup.sh N",
        );
    }
    let ghost all = views(names@);
    let mut count: u64 = 0;
    let mut i: usize = 0;
    while i < names.len()
        invariant
            i <= names.len(),
            all == views(names@),
            count <= i,
            count == child_netns_count(all.take(i as int)),
        decreases names.len() - i,
    {
        assert(all.take(i + 1).drop_last() =~= all.take(i as int));
        assert(all.take(i + 1).last() == names@[i as int]@);
        if starts_with(names[i].as_str(), "forkd-child-") {
            count += 1;
        }
        i += 1;
    }
    assert(all.take(i as int) =~= all);
    if count == 0 {
        Check::warn(
            "per-child netns",
            "no forkd-child-* netns present",
            "sudo bash scripts/netns-setup.sh N (for fanout > 1)",
        )
    } else {
        let n = dec_string(count);
        let d = n.concat(" provisioned");
        Check::pass("per-child netns", d.as_str())
    }
}

/// Whether Firecracker is on the path. `which` is what looking for it printed,
/// where it was found.
pub open spec fn firecracker_binary_finding(which: Option<Vec<u8>>) -> Finding {
    match which {
        Some(out) => if trim(lossy_text(out@)).len() > 0 {
            passed("firecracker"@, trim(lossy_text(out@)))
        } else {
            not_on_path()
        },
        None => not_on_path(),
    }
}

pub fn check_firecracker_binary(which: &Option<Vec<u8>>) -> (r: Check)
    ensures
        r@ == firecracker_binary_finding(*which),
{
    let place = match which {
        Some(out) => {
            let text = lossy_text_of(out.as_slice());
            trimmed(text.as_str())
        },
        None => String::new(),
    };
    if place.as_str().unicode_len() > 0 {
        return Check::pass("firecracker", place.as_str());
    }
    Check::fail(
        "firecracker",
        "not on PATH",
        "install via scripts/setup-host.sh, or curl from https://github.com/firecracker-microvm/firecracker/releases",
    )
}

pub open spec fn not_on_path() -> Finding {
    failed(
        "firecracker"@,
        "not on PATH"@,
        "install via scripts/setup-host.sh, or curl from https://github.com/firecracker-microvm/firecracker/releases"@,
    )
}

/// Whether a word looks like a version: it starts with `v` and has a dot.
pub open spec fn looks_like_version(w: Seq<char>) -> bool {
    w.len() > 0 && w[0] == 'v' && w.contains('.')
}

/// The first word that looks like a version, or a question mark.
pub open spec fn version_word(ws: Seq<Seq<char>>) -> Seq<char>
    decreases ws.len(),
{
    if ws.len() == 0 {
        "?"@
    } else if looks_like_version(ws[0]) {
        ws[0]
    } else {
        version_word(ws.skip(1))
    }
}

pub open spec fn skip_v(s: Seq<char>) -> Seq<char>
    decreases s.len(),
{
    if s.len() > 0 && s[0] == 'v' {
        skip_v(s.skip(1))
    } else {
        s
    }
}

/// The first two numbers of a dotted version.
pub open spec fn major_minor(ver: Seq<char>) -> Option<(nat, nat)> {
    let s = skip_v(ver);
    let a = char_pos(s, '.') as int;
    if a >= s.len() {
        None
    } else {
        let t = s.skip(a + 1);
        let b = char_pos(t, '.') as int;
        match (
            parse_dec(s.take(a), u32::MAX as nat),
            parse_dec(t.take(b), u32::MAX as nat),
        ) {
            (Some(x), Some(y)) => Some((x, y)),
            _ => None,
        }
    }
}

fn find_version(ws: &Vec<String>) -> (r: String)
    ensures
        r@ == version_word(views(ws@)),
{
    let ghost all = views(ws@);
    let mut i: usize = 0;
    assert(all.skip(0) =~= all);
    while i < ws.len()
        invariant
            i <= ws.len(),
            all == views(ws@),
            version_word(all) == version_word(all.skip(i as int)),
        decreases ws.len() - i,
    {
        let v = chars_of(ws[i].as_str());
        assert(all.skip(i as int)[0] == ws@[i as int]@);
        assert(all.skip(i as int).skip(1) =~= all.skip(i + 1));
        if v.len() > 0 && v[0] == 'v' && has_char(ws[i].as_str(), '.') {
            return ws[i].clone();
        }
        i += 1;
    }
    assert(all.skip(i as int).len() == 0);
    "?".to_string()
}

fn read_major_minor(ver: &str) -> (r: Option<(u32, u32)>)
    ensures
        match r {
            Some(p) => major_minor(ver@) == Some((p.0 as nat, p.1 as nat)),
            None => major_minor(ver@) is None,
        },
{
    let v = chars_of(ver);
    let mut i: usize = 0;
    assert(ver@.skip(0) =~= ver@);
    while i < v.len() && v[i] == 'v'
        invariant
            i <= v.len(),
            v@ == ver@,
            skip_v(ver@) == skip_v(ver@.skip(i as int)),
        decreases v.len() - i,
    {
        assert(ver@.skip(i as int).skip(1) =~= ver@.skip(i + 1));
        i += 1;
    }
    let ghost s = ver@.skip(i as int);
    assert(skip_v(ver@) == s);
    let a = find_char(&v, '.', i);
    proof {
        lemma_char_pos(s, '.');
    }
    if a >= v.len() {
        return None;
    }
    let ghost t = s.skip(a - i + 1);
    assert(t =~= ver@.skip(a + 1));
    let b = find_char(&v, '.', a + 1);
    let x = string_of(&v, i, a);
    let y = string_of(&v, a + 1, b);
    proof {
        assert(x@ =~= s.take(a - i));
        assert(y@ =~= t.take(b - a - 1));
    }
    match (parse_unsigned(x.as_str(), u32::MAX as u64), parse_unsigned(y.as_str(), u32::MAX as u64)) {
        (Some(m), Some(n)) => Some((m as u32, n as u32)),
        _ => None,
    }
}

/// What the output of `firecracker --version` says, given its first line.
pub open spec fn version_finding(first: Seq<char>) -> Finding {
    let name = "firecracker version"@;
    let ver = version_word(words(first));
    if first.len() == 0 {
        warned(name, "couldn't parse --version output"@, "unexpected; check binary manually"@)
    } else {
        match major_minor(ver) {
            Some((maj, min)) => if maj > 1 || (maj == 1 && min >= 10) {
                passed(name, ver)
            } else if maj == 1 && min >= 5 {
                warned(
                    name,
                    ver + " works but pre-1.10"@,
                    "upgrade to >=1.10 for the snapshot path forkd v0.3 was tested against"@,
                )
            } else {
                failed(
                    name,
                    ver + " too old (need >=1.5 for diff snapshots)"@,
                    "curl a recent build from https://github.com/firecracker-microvm/firecracker/releases"@,
                )
            },
            None => warned(
                name,
                "could not parse: "@ + first,
                "expected 'Firecracker vMAJ.MIN.PATCH'"@,
            ),
        }
    }
}

pub open spec fn first_line(text: Seq<char>) -> Seq<char> {
    if lines(text).len() > 0 {
        lines(text)[0]
    } else {
        Seq::empty()
    }
}

/// Judges the text that `firecracker --version` printed.
pub fn check_version_text(text: &str) -> (r: Check)
    ensures
        r@ == version_finding(first_line(text@)),
{
    let ls = split_lines(text);
    let first = if ls.len() > 0 {
        assert(lines(text@)[0] == ls@[0]@);
        ls[0].clone()
    } else {
        assert(views(ls@).len() == 0);
        assert(first_line(text@) =~= Seq::<char>::empty());
        String::new()
    };
    assert(first@ =~= first_line(text@));
    if first.as_str().unicode_len() == 0 {
        return Check::warn(
            "firecracker version",
            "couldn't parse --version output",
            "unexpected; check binary manually",
        );
    }
    let ws = split_words(first.as_str());
    let ver = find_version(&ws);
    match read_major_minor(ver.as_str()) {
        Some((maj, min)) => {
            if maj > 1 || (maj == 1 && min >= 10) {
                Check::pass("firecracker version", ver.as_str())
            } else if maj == 1 && min >= 5 {
                let d = ver.concat(" works but pre-1.10");
                Check::warn(
                    "firecracker version",
                    d.as_str(),
                    "upgrade to >=1.10 for the snapshot path forkd v0.3 was tested against",
                )
            } else {
                let d = ver.concat(" too old (need >=1.5 for diff snapshots)");
                Check::fail(
                    "firecracker version",
                    d.as_str(),
                    "curl a recent build from https://github.com/firecracker-microvm/firecracker/releases",
                )
            }
        },
        None => {
            let d = "could not parse: ".to_string().concat(first.as_str());
            Check::warn(
                "firecracker version",
                d.as_str(),
                "expected 'Firecracker vMAJ.MIN.PATCH'",
            )
        },
    }
}

/// Judges what `firecracker --version` printed, where it could be run.
pub open spec fn firecracker_version_finding(stdout: Option<Vec<u8>>) -> Finding {
    match stdout {
        Some(out) => version_finding(first_line(lossy_text(out@))),
        None => skipped("firecracker version"@, "binary not on PATH (see above)"@),
    }
}

pub fn check_firecracker_version(stdout: &Option<Vec<u8>>) -> (r: Check)
    ensures
        r@ == firecracker_version_finding(*stdout),
{
    match stdout {
        Some(out) => {
            let text = lossy_text_of(out.as_slice());
            check_version_text(text.as_str())
        },
        None => Check::skip("firecracker version", "binary not on PATH (see above)"),
    }
}

/// Where a kernel image is looked for, in order.
pub open spec fn kernel_paths() -> Seq<Seq<char>> {
    seq![
        "./vmlinux-6.1.141"@,
        "./vmlinux"@,
        "/var/lib/forkd/kernels/vmlinux"@,
        "/usr/local/share/forkd/vmlinux"@,
    ]
}

pub fn kernel_candidates() -> (r: Vec<String>)
    ensures
        views(r@) == kernel_paths(),
{
    let mut v: Vec<String> = Vec::new();
    v.push("./vmlinux-6.1.141".to_string());
    v.push("./vmlinux".to_string());
    v.push("/var/lib/forkd/kernels/vmlinux".to_string());
    v.push("/usr/local/share/forkd/vmlinux".to_string());
    assert(views(v@) =~= kernel_paths());
    v
}

/// Whether there is a kernel to boot. `exists` says which of the candidates
/// are there.
pub open spec fn kernel_image_finding(exists: Seq<bool>) -> Finding {
    if exists[0] {
        passed("kernel image"@, kernel_paths()[0])
    } else if exists[1] {
        passed("kernel image"@, kernel_paths()[1])
    } else if exists[2] {
        passed("kernel image"@, kernel_paths()[2])
    } else if exists[3] {
        passed("kernel image"@, kernel_paths()[3])
    } else {
        warned(
            "kernel image"@,
            "no vmlinux found in common locations"@,
            "curl https://s3.amazonaws.com/spec.ccfc.min/firecracker-ci/v1.10/x86_64/vmlinux-6.1.141"@,
        )
    }
}

pub fn check_kernel_image(exists: &[bool; 4]) -> (r: Check)
    ensures
        r@ == kernel_image_finding(exists@),
{
    if exists[0] {
        Check::pass("kernel image", "./vmlinux-6.1.141")
    } else if exists[1] {
        Check::pass("kernel image", "./vmlinux")
    } else if exists[2] {
        Check::pass("kernel image", "/var/lib/forkd/kernels/vmlinux")
    } else if exists[3] {
        Check::pass("kernel image", "/usr/local/share/forkd/vmlinux")
    } else {
        Check::warn(
            "kernel image",
            "no vmlinux found in common locations",
            "curl https://s3.amazonaws.com/spec.ccfc.min/firecracker-ci/v1.10/x86_64/vmlinux-6.1.141",
        )
    }
}

/// Where snapshots are kept: under the data directory of the environment, else
/// under that of the home directory, which is root's where there is none.
pub open spec fn snapshots_path(xdg: Option<Seq<char>>, home: Option<Seq<char>>) -> Seq<char> {
    let h = match home {
        Some(p) => p,
        None => "/root"@,
    };
    let d = match xdg {
        Some(p) => p,
        None => joined_path(h, ".local/share"@),
    };
    joined_path(d, "forkd/snapshots"@)
}

pub fn snapshots_dir(xdg: &Option<String>, home: &Option<String>) -> (r: String)
    ensures
        r@ == snapshots_path(opt_view(*xdg), opt_view(*home)),
{
    let data = match xdg {
        Some(p) => p.clone(),
        None => match home {
            Some(h) => join_path(h.as_str(), ".local/share"),
            None => join_path("/root", ".local/share"),
        },
    };
    join_path(data.as_str(), "forkd/snapshots")
}

/// How many snapshots there are.
pub open spec fn snapshot_dir_finding(dir: Seq<char>, exists: bool, count: nat) -> Finding {
    if exists {
        passed("snapshot dir"@, dir + " ("@ + dec(count) + " snapshots)"@)
    } else {
        warned(
            "snapshot dir"@,
            dir + " not created yet"@,
            "created lazily on first `forkd snapshot`"@,
        )
    }
}

pub fn check_snapshot_dir(dir: &str, exists: bool, count: u64) -> (r: Check)
    ensures
        r@ == snapshot_dir_finding(dir@, exists, count as nat),
{
    if !exists {
        let d = dir.to_string().concat(" not created yet");
        return Check::warn(
            "snapshot dir",
            d.as_str(),
            "created lazily on first `forkd snapshot`",
        );
    }
    let n = dec_string(count);
    let d = dir.to_string().concat(" (").concat(n.as_str()).concat(" snapshots)");
    Check::pass("snapshot dir", d.as_str())
}

/// The room on the file system of the snapshot directory.
#[derive(Debug, PartialEq, Eq)]
pub enum DiskSpace {
    /// No directory on the way to it exists.
    NoPath,
    BadPath,
    StatFailed,
    Free {
        /// Free blocks, and how large one is.
        blocks: u64,
        block_size: u64,
        /// The room in GiB, with one and with two digits after the point.
        gib_1: String,
        gib_2: String,
        /// The directory that was asked about.
        probe: String,
    },
}

/// The free bytes, or the largest number where they do not fit.
pub open spec fn free_bytes(blocks: u64, block_size: u64) -> int {
    if blocks * block_size <= u64::MAX {
        blocks * block_size
    } else {
        u64::MAX as int
    }
}

/// Whether there is room for snapshots.
pub open spec fn snapshot_dir_space_finding(space: DiskSpace) -> Finding {
    match space {
        DiskSpace::NoPath => warned("snapshot dir space"@, "no path to stat"@, ""@),
        DiskSpace::BadPath => warned("snapshot dir space"@, "bad path"@, ""@),
        DiskSpace::StatFailed => warned("snapshot dir space"@, "statvfs failed"@, ""@),
        DiskSpace::Free { blocks, block_size, gib_1, gib_2, probe } => if free_bytes(
            blocks,
            block_size,
        ) >= 5 * 0x4000_0000 {
            passed("snapshot dir space"@, gib_1@ + " GiB free at "@ + probe@)
        } else if free_bytes(blocks, block_size) >= 0x4000_0000 {
            warned(
                "snapshot dir space"@,
                gib_1@ + " GiB free"@,
                "low — recommended ≥5 GiB for warmed parent rootfs + memory.bin"@,
            )
        } else {
            failed(
                "snapshot dir space"@,
                gib_2@ + " GiB free"@,
                "clear space; one snapshot is typically 0.5-3 GiB"@,
            )
        },
    }
}

pub fn check_snapshot_dir_space(space: &DiskSpace) -> (r: Check)
    ensures
        r@ == snapshot_dir_space_finding(*space),
{
    match space {
        DiskSpace::NoPath => Check::warn("snapshot dir space", "no path to stat", ""),
        DiskSpace::BadPath => Check::warn("snapshot dir space", "bad path", ""),
        DiskSpace::StatFailed => Check::warn("snapshot dir space", "statvfs failed", ""),
        DiskSpace::Free { blocks, block_size, gib_1, gib_2, probe } => {
            let bytes: u64 = match blocks.checked_mul(*block_size) {
                Some(b) => b,
                None => u64::MAX,
            };
            if bytes >= 0x1_4000_0000 {
                let d = gib_1.clone().concat(" GiB free at ").concat(probe.as_str());
                Check::pass("snapshot dir space", d.as_str())
            } else if bytes >= 0x4000_0000 {
                let d = gib_1.clone().concat(" GiB free");
                Check::warn(
                    "snapshot dir space",
                    d.as_str(),
                    "low — recommended ≥5 GiB for warmed parent rootfs + memory.bin",
                )
            } else {
                let d = gib_2.clone().concat(" GiB free");
                Check::fail(
                    "snapshot dir space",
                    d.as_str(),
                    "clear space; one snapshot is typically 0.5-3 GiB",
                )
            }
        },
    }
}

/// What asking Docker about itself gave.
#[derive(Debug, PartialEq, Eq)]
pub enum DockerInfo {
    Reachable,
    /// It ran and failed; what it printed.
    Failed { stderr: Vec<u8> },
    /// It could not be run.
    Error(String),
}

/// Judges Docker, which only building images needs. `denied` says whether it
/// complained about permissions.
pub open spec fn docker_finding(installed: bool, info: DockerInfo, denied: bool) -> Finding {
    if !installed {
        warned(
            "docker"@,
            "not installed"@,
            "needed only for `forkd from-image` / `forkd parent build`"@,
        )
    } else {
        match info {
            DockerInfo::Reachable => passed("docker"@, "daemon reachable"@),
            DockerInfo::Failed { stderr } => warned(
                "docker"@,
                "daemon unreachable"@,
                if denied {
                    "sudo usermod -aG docker $USER && newgrp docker"@
                } else {
                    "sudo systemctl start docker"@
                },
            ),
            DockerInfo::Error(e) => warned(
                "docker"@,
                "docker info errored: "@ + e@,
                "needed only for from-image / parent build"@,
            ),
        }
    }
}

/// Judges Docker by what asking it about itself gave.
pub open spec fn docker_daemon_finding(installed: bool, info: DockerInfo) -> Finding {
    docker_finding(
        installed,
        info,
        match info {
            DockerInfo::Failed { stderr } => occurs(
                lossy_text(stderr@),
                "permission denied"@,
            ),
            _ => false,
        },
    )
}

pub fn check_docker_daemon(installed: bool, info: &DockerInfo) -> (r: Check)
    ensures
        r@ == docker_daemon_finding(installed, *info),
{
    if !installed {
        return Check::warn(
            "docker",
            "not installed",
            "needed only for `forkd from-image` / `forkd parent build`",
        );
    }
    match info {
        DockerInfo::Reachable => Check::pass("docker", "daemon reachable"),
        DockerInfo::Failed { stderr } => {
            let text = lossy_text_of(stderr.as_slice());
            if contains(text.as_str(), "permission denied") {
                Check::warn(
                    "docker",
                    "daemon unreachable",
                    "sudo usermod -aG docker $USER && newgrp docker",
                )
            } else {
                Check::warn("docker", "daemon unreachable", "sudo systemctl start docker")
            }
        },
        DockerInfo::Error(e) => {
            let d = "docker info errored: ".to_string().concat(e.as_str());
            Check::warn("docker", d.as_str(), "needed only for from-image / parent build")
        },
    }
}

/// What came back from the daemon.
#[derive(Debug, PartialEq, Eq)]
pub enum DaemonReply {
    Answered,
    Status(u16),
    Unreachable(String),
}

/// Whether the daemon answers.
pub open spec fn daemon_finding(url: Seq<char>, reply: DaemonReply) -> Finding {
    match reply {
        DaemonReply::Answered => passed("daemon"@, url + " responding"@),
        DaemonReply::Status(code) => if code == 401 {
            failed(
                "daemon"@,
                url + " HTTP 401"@,
                "set FORKD_TOKEN to match the daemon's --token-file"@,
            )
        } else {
            warned(
                "daemon"@,
                url + " HTTP "@ + dec(code as nat),
                "daemon up but returning non-2xx"@,
            )
        },
        DaemonReply::Unreachable(e) => warned(
            "daemon"@,
            url + " unreachable: "@ + e@,
            "sudo systemctl start forkd-controller (or run it ad-hoc)"@,
        ),
    }
}

pub fn check_daemon(url: &str, reply: &DaemonReply) -> (r: Check)
    ensures
        r@ == daemon_finding(url@, *reply),
{
    match reply {
        DaemonReply::Answered => {
            let d = url.to_string().concat(" responding");
            Check::pass("daemon", d.as_str())
        },
        DaemonReply::Status(code) => {
            if *code == 401 {
                let d = url.to_string().concat(" HTTP 401");
                Check::fail(
                    "daemon",
                    d.as_str(),
                    "set FORKD_TOKEN to match the daemon's --token-file",
                )
            } else {
                let n = dec_string(*code as u64);
                let d = url.to_string().concat(" HTTP ").concat(n.as_str());
                Check::warn("daemon", d.as_str(), "daemon up but returning non-2xx")
            }
        },
        DaemonReply::Unreachable(e) => {
            let d = url.to_string().concat(" unreachable: ").concat(e.as_str());
            Check::warn(
                "daemon",
                d.as_str(),
                "sudo systemctl start forkd-controller (or run it ad-hoc)",
            )
        },
    }
}

// ---------------------------------------------------------------------
// The report
// ---------------------------------------------------------------------

pub open spec fn findings(checks: Seq<Check>) -> Seq<Finding> {
    checks.map_values(|c: Check| c@)
}

/// The bytes of the longest name.
pub open spec fn name_width(fs: Seq<Finding>) -> nat
    decreases fs.len(),
{
    if fs.len() == 0 {
        0
    } else {
        let w = name_width(fs.drop_last());
        let n = encode_utf8(fs.last().name).len();
        if n > w {
            n
        } else {
            w
        }
    }
}

pub open spec fn count_of(fs: Seq<Finding>, status: Status) -> nat
    decreases fs.len(),
{
    if fs.len() == 0 {
        0
    } else {
        count_of(fs.drop_last(), status) + (if fs.last().status == status {
            1nat
        } else {
            0
        })
    }
}

/// The lines for one check: what was found, and what to do about it.
pub open spec fn finding_lines(f: Finding, width: nat) -> Seq<char> {
    let line = "  "@ + f.status.glyph_text() + "  "@ + pad_right(f.name, width, ' ') + "  "@
        + f.detail + "\n"@;
    match f.hint {
        Some(h) => line + "       "@ + pad_right(Seq::empty(), width, ' ') + "    \x1b[90m→ "@ + h
            + "\x1b[0m\n"@,
        None => line,
    }
}

pub open spec fn all_lines(fs: Seq<Finding>, width: nat) -> Seq<char>
    decreases fs.len(),
{
    if fs.len() == 0 {
        Seq::empty()
    } else {
        all_lines(fs.drop_last(), width) + finding_lines(fs.last(), width)
    }
}

pub open spec fn report_text(fs: Seq<Finding>) -> Seq<char> {
    all_lines(fs, name_width(fs)) + "\n  pass="@ + dec(count_of(fs, Status::Pass)) + "  warn="@
        + dec(count_of(fs, Status::Warn)) + "  fail="@ + dec(count_of(fs, Status::Fail))
        + "  skip="@ + dec(count_of(fs, Status::Skip)) + "\n"@
}

fn check_lines(c: &Check, width: usize) -> (r: String)
    ensures
        r@ == finding_lines(c@, width as nat),
{
    let g = c.status.glyph();
    let n = padded_right(c.name.as_str(), width, ' ');
    let line = "  ".to_string().concat(g.as_str()).concat("  ").concat(n.as_str()).concat(
        "  ",
    ).concat(c.detail.as_str()).concat("\n");
    match &c.hint {
        Some(h) => {
            let empty = String::new();
            let pad = padded_right(empty.as_str(), width, ' ');
            assert(empty@ =~= Seq::<char>::empty());
            line.concat("       ").concat(pad.as_str()).concat("    \x1b[90m→ ").concat(
                h.as_str(),
            ).concat("\x1b[0m\n")
        },
        None => line,
    }
}

fn count(checks: &Vec<Check>, status: Status) -> (r: u64)
    ensures
        r == count_of(findings(checks@), status),
{
    let ghost fs = findings(checks@);
    let mut n: u64 = 0;
    let mut i: usize = 0;
    while i < checks.len()
        invariant
            i <= checks.len(),
            fs == findings(checks@),
            n <= i,
            n == count_of(fs.take(i as int), status),
        decreases checks.len() - i,
    {
        assert(fs.take(i + 1).drop_last() =~= fs.take(i as int));
        assert(fs.take(i + 1).last() == checks@[i as int]@);
        if checks[i].status == status {
            n += 1;
        }
        i += 1;
    }
    assert(fs.take(i as int) =~= fs);
    n
}

/// The report on a terminal: the checks in order, then how many ended how.
pub fn report(checks: &Vec<Check>) -> (r: String)
    ensures
        r@ == report_text(findings(checks@)),
{
    let ghost fs = findings(checks@);
    let mut width: usize = 0;
    let mut i: usize = 0;
    while i < checks.len()
        invariant
            i <= checks.len(),
            fs == findings(checks@),
            width == name_width(fs.take(i as int)),
        decreases checks.len() - i,
    {
        assert(fs.take(i + 1).drop_last() =~= fs.take(i as int));
        assert(fs.take(i + 1).last() == checks@[i as int]@);
        let n: usize = checks[i].name.as_str().as_bytes().len();
        if n > width {
            width = n;
        }
        i += 1;
    }
    assert(fs.take(i as int) =~= fs);
    let mut out = String::new();
    let mut j: usize = 0;
    assert(out@ =~= all_lines(fs.take(0), width as nat));
    while j < checks.len()
        invariant
            j <= checks.len(),
            fs == findings(checks@),
            out@ == all_lines(fs.take(j as int), width as nat),
        decreases checks.len() - j,
    {
        assert(fs.take(j + 1).drop_last() =~= fs.take(j as int));
        assert(fs.take(j + 1).last() == checks@[j as int]@);
        let l = check_lines(&checks[j], width);
        out = out.concat(l.as_str());
        j += 1;
    }
    assert(fs.take(j as int) =~= fs);
    let pass = dec_string(count(checks, Status::Pass));
    let warn = dec_string(count(checks, Status::Warn));
    let fail = dec_string(count(checks, Status::Fail));
    let skip = dec_string(count(checks, Status::Skip));
    out.concat("\n  pass=").concat(pass.as_str()).concat("  warn=").concat(warn.as_str()).concat(
        "  fail=",
    ).concat(fail.as_str()).concat("  skip=").concat(skip.as_str()).concat("\n")
}

/// Whether forking can work on this host: it cannot where a check failed.
pub fn verdict(checks: &Vec<Check>) -> (r: Result<(), String>)
    ensures
        match r {
            Ok(_) => forall|i: int|
                0 <= i < checks@.len() ==> (#[trigger] checks@[i]).status != Status::Fail,
            Err(e) => {
                &&& exists|i: int|
                    0 <= i < checks@.len() && (#[trigger] checks@[i]).status == Status::Fail
                &&& e@ == "doctor found blocking issues — see above"@
            },
        },
{
    let mut i: usize = 0;
    while i < checks.len()
        invariant
            i <= checks.len(),
            forall|j: int| 0 <= j < i ==> (#[trigger] checks@[j]).status != Status::Fail,
        decreases checks.len() - i,
    {
        if checks[i].status == Status::Fail {
            return Err("doctor found blocking issues — see above".to_string());
        }
        i += 1;
    }
    Ok(())
}

// ---------------------------------------------------------------------
// A run
// ---------------------------------------------------------------------

/// All that was observed of the host.
#[derive(Debug)]
pub struct HostFacts {
    pub linux: bool,
    /// `/proc/version` and `/proc/cpuinfo`.
    pub version: Observed,
    pub cpuinfo: Observed,
    /// Whether `/dev/kvm` is there, and what opening it gave.
    pub kvm_exists: bool,
    pub kvm_open: Result<(), String>,
    /// Whether the list of cgroup controllers is there, and its text.
    pub cgroup_mounted: bool,
    pub cgroup_controllers: Option<String>,
    pub ip_forward: Observed,
    /// Whether the tap device is there, and the state of its link.
    pub tap_present: bool,
    pub tap_operstate: Option<String>,
    /// Whether the directory of namespaces is there, and the names in it.
    pub netns_dir_exists: bool,
    pub netns_names: Vec<String>,
    /// What looking for Firecracker printed, where it was found.
    pub firecracker_place: Option<Vec<u8>>,
    /// What `firecracker --version` printed, where it could be run.
    pub firecracker_version: Option<Vec<u8>>,
    /// Which of the candidates for a kernel are there.
    pub kernels: [bool; 4],
    /// `XDG_DATA_HOME` and `HOME` in the environment.
    pub xdg_data_home: Option<String>,
    pub home: Option<String>,
    /// Whether the snapshot directory is there, and how many directories it
    /// holds.
    pub snapshots_exist: bool,
    pub snapshot_count: u64,
    pub space: DiskSpace,
    /// Whether Docker is installed, and what asking it gave.
    pub docker_installed: bool,
    pub docker: DockerInfo,
    pub daemon_url: String,
    pub daemon: DaemonReply,
}

/// What the checks find of a host, in the order in which they are shown.
pub open spec fn host_findings(f: HostFacts) -> Seq<Finding> {
    seq![
        platform_finding(f.linux, f.version),
        hw_virt_finding(f.linux, f.cpuinfo),
        kvm_finding(f.linux, f.kvm_exists, f.kvm_open),
        cgroup_v2_finding(f.cgroup_mounted, f.cgroup_controllers),
        ip_forward_finding(f.ip_forward),
        tap_device_finding("forkd-tap0"@, f.tap_present, opt_view(f.tap_operstate)),
        netns_count_finding(f.netns_dir_exists, views(f.netns_names@)),
        firecracker_binary_finding(f.firecracker_place),
        firecracker_version_finding(f.firecracker_version),
        kernel_image_finding(f.kernels@),
        snapshot_dir_finding(
            snapshots_path(opt_view(f.xdg_data_home), opt_view(f.home)),
            f.snapshots_exist,
            f.snapshot_count as nat,
        ),
        snapshot_dir_space_finding(f.space),
        docker_daemon_finding(f.docker_installed, f.docker),
        daemon_finding(f.daemon_url@, f.daemon),
    ]
}

/// Judges a host by every check.
pub fn check_host(f: &HostFacts) -> (r: Vec<Check>)
    ensures
        findings(r@) == host_findings(*f),
{
    let dir = snapshots_dir(&f.xdg_data_home, &f.home);
    let mut v: Vec<Check> = Vec::new();
    v.push(check_platform(f.linux, &f.version));
    v.push(check_hw_virt(f.linux, &f.cpuinfo));
    v.push(check_kvm(f.linux, f.kvm_exists, &f.kvm_open));
    v.push(check_cgroup_v2(f.cgroup_mounted, &f.cgroup_controllers));
    v.push(check_ip_forward(&f.ip_forward));
    v.push(check_tap_device("forkd-tap0", f.tap_present, &f.tap_operstate));
    v.push(check_netns_count(f.netns_dir_exists, &f.netns_names));
    v.push(check_firecracker_binary(&f.firecracker_place));
    v.push(check_firecracker_version(&f.firecracker_version));
    v.push(check_kernel_image(&f.kernels));
    v.push(check_snapshot_dir(dir.as_str(), f.snapshots_exist, f.snapshot_count));
    v.push(check_snapshot_dir_space(&f.space));
    v.push(check_docker_daemon(f.docker_installed, &f.docker));
    v.push(check_daemon(f.daemon_url.as_str(), &f.daemon));
    assert(findings(v@) =~= host_findings(*f));
    v
}

/// What a run of the checks shows, and whether forking can work.
pub fn run(f: &HostFacts) -> (r: (String, Result<(), String>))
    ensures
        r.0@ == report_text(host_findings(*f)),
        r.1 is Ok <==> (forall|i: int|
            0 <= i < host_findings(*f).len() ==> (#[trigger] host_findings(*f)[i]).status
                != Status::Fail),
        r.1 matches Err(e) ==> e@ == "doctor found blocking issues — see above"@,
{
    let checks = check_host(f);
    proof {
        let fs = findings(checks@);
        assert(fs.len() == checks@.len());
        assert forall|i: int| 0 <= i < fs.len() implies (#[trigger] fs[i]).status
            == checks@[i].status by {}
        assert forall|i: int| 0 <= i < checks@.len() implies (#[trigger] checks@[i]).status
            == fs[i].status by {}
    }
    (report(&checks), verdict(&checks))
}

/// The four counts of a report account for every check.
pub proof fn law_counts_cover_all_checks(fs: Seq<Finding>)
    ensures
        count_of(fs, Status::Pass) + count_of(fs, Status::Warn) + count_of(fs, Status::Fail)
            + count_of(fs, Status::Skip) == fs.len(),
    decreases fs.len(),
{
    if fs.len() > 0 {
        law_counts_cover_all_checks(fs.drop_last());
    }
}

/// Whether a version is not older than `maj`.`min`; one that cannot be read may
/// be anything.
pub open spec fn at_least(first: Seq<char>, maj: nat, min: nat) -> bool {
    first.len() > 0 ==> match major_minor(version_word(words(first))) {
        Some((a, b)) => a > maj || a == maj && b >= min,
        None => true,
    }
}

/// Whether guests can be forked on the host, as far as can be told: it is Linux
/// on a CPU with virtualization, KVM opens, packets are forwarded, the tap
/// device is there, so is a Firecracker that knows diff snapshots, a gibibyte
/// is free, and the daemon does not turn the token down.
pub open spec fn can_fork(f: HostFacts) -> bool {
    &&& f.linux
    &&& f.cpuinfo matches Ok(info) ==> occurs(flags_line(lines(info@)), " vmx"@) || occurs(
        flags_line(lines(info@)),
        " svm"@,
    )
    &&& f.kvm_exists && f.kvm_open is Ok
    &&& f.ip_forward matches Ok(v) ==> trim(v@) == "1"@
    &&& f.tap_present
    &&& f.firecracker_place matches Some(out) && trim(lossy_text(out@)).len() > 0
    &&& f.firecracker_version matches Some(out) ==> at_least(first_line(lossy_text(out@)), 1, 5)
    &&& f.space matches DiskSpace::Free { blocks, block_size, .. } ==> blocks * block_size
        >= 1024 * 1024 * 1024
    &&& f.daemon matches DaemonReply::Status(code) ==> code != 401
}

proof fn lemma_all_checks(f: HostFacts, p: spec_fn(Status) -> bool)
    ensures
        ({
            let fs = host_findings(f);
            (forall|i: int| 0 <= i < fs.len() ==> p((#[trigger] fs[i]).status)) <==> {
                &&& p(fs[0].status) && p(fs[1].status) && p(fs[2].status) && p(fs[3].status)
                &&& p(fs[4].status) && p(fs[5].status) && p(fs[6].status) && p(fs[7].status)
                &&& p(fs[8].status) && p(fs[9].status) && p(fs[10].status) && p(fs[11].status)
                &&& p(fs[12].status) && p(fs[13].status)
            }
        }),
{
    let fs = host_findings(f);
    if p(fs[0].status) && p(fs[1].status) && p(fs[2].status) && p(fs[3].status) && p(fs[4].status)
        && p(fs[5].status) && p(fs[6].status) && p(fs[7].status) && p(fs[8].status) && p(
        fs[9].status,
    ) && p(fs[10].status) && p(fs[11].status) && p(fs[12].status) && p(fs[13].status) {
        assert forall|i: int| 0 <= i < fs.len() implies p((#[trigger] fs[i]).status) by {
            assert(i == 0 || i == 1 || i == 2 || i == 3 || i == 4 || i == 5 || i == 6 || i == 7
                || i == 8 || i == 9 || i == 10 || i == 11 || i == 12 || i == 13);
        }
    }
}

/// A run ends well exactly where guests can be forked on the host.
pub proof fn law_blocked_exactly_where_forking_cannot_work(f: HostFacts)
    ensures
        (forall|i: int|
            0 <= i < host_findings(f).len() ==> (#[trigger] host_findings(f)[i]).status
                != Status::Fail) <==> can_fork(f),
{
    let p = |s: Status| s != Status::Fail;
    let fs = host_findings(f);
    lemma_all_checks(f, p);
    assert((forall|i: int| 0 <= i < fs.len() ==> (#[trigger] fs[i]).status != Status::Fail) <==> (
    forall|i: int| 0 <= i < fs.len() ==> p((#[trigger] fs[i]).status)));
}

/// Whether there is nothing on the host to mend.
pub open spec fn nothing_to_mend(f: HostFacts) -> bool {
    &&& can_fork(f)
    &&& f.version is Ok && f.cpuinfo is Ok && f.ip_forward is Ok
    &&& f.cgroup_mounted && f.cgroup_controllers is Some
    &&& link_state(opt_view(f.tap_operstate)) == "up"@ || link_state(opt_view(f.tap_operstate))
        == "unknown"@
    &&& f.netns_dir_exists && child_netns_count(views(f.netns_names@)) > 0
    &&& f.firecracker_version matches Some(out) ==> {
        let first = first_line(lossy_text(out@));
        &&& first.len() > 0
        &&& major_minor(version_word(words(first))) is Some
        &&& at_least(first, 1, 10)
    }
    &&& f.kernels@[0] || f.kernels@[1] || f.kernels@[2] || f.kernels@[3]
    &&& f.snapshots_exist
    &&& f.space matches DiskSpace::Free { blocks, block_size, .. } && blocks * block_size >= 5 * 1024
        * 1024 * 1024
    &&& f.docker_installed && f.docker is Reachable
    &&& f.daemon is Answered
}

/// A run gives no warning either exactly where there is nothing to mend.
pub proof fn law_warned_exactly_where_something_is_to_mend(f: HostFacts)
    ensures
        (forall|i: int|
            0 <= i < host_findings(f).len() ==> (#[trigger] host_findings(f)[i]).status
                != Status::Fail && host_findings(f)[i].status != Status::Warn) <==> nothing_to_mend(
            f,
        ),
{
    let p = |s: Status| s != Status::Fail && s != Status::Warn;
    let fs = host_findings(f);
    lemma_all_checks(f, p);
    assert((forall|i: int|
        0 <= i < fs.len() ==> (#[trigger] fs[i]).status != Status::Fail && fs[i].status
            != Status::Warn) <==> (forall|i: int|
        0 <= i < fs.len() ==> p((#[trigger] fs[i]).status)));
}

} // verus!
