//! Trials of the write-protection machinery outside the daemon: what they set
//! up, and how they judge what they measured.
use vstd::prelude::*;
use vstd::utf8::encode_utf8;

use crate::text::{
    char_pos, chars_of, dec, dec_string, find_char, hex, hex_string, lemma_char_pos, lines,
    pad_left, padded_left, parse_dec, parse_hex, parse_hex_text, parse_unsigned, split_lines,
    split_words, string_of, strip_prefix, trim, trimmed, views, words,
};
use crate::uffd::{UffdMsg, UFFD_EVENT_PAGEFAULT};
use crate::wp::PAGE_SIZE;

verus! {

// ---------------------------------------------------------------------
// The benchmark
// ---------------------------------------------------------------------

/// What the benchmark's region is filled with.
pub const PATTERN: u8 = 0x42;

/// The size of the benchmark's region, in bytes and in pages.
pub fn bench_region(region_mib: u64) -> (r: Result<(usize, usize), String>)
    requires
        region_mib * 0x10_0000 <= usize::MAX,
    ensures
        if region_mib == 0 {
            r matches Err(e) && e@ == "--region-mib must be >= 1"@
        } else {
            r matches Ok(p) && p.0 == region_mib * 0x10_0000 && p.1 == region_mib * 256
        },
{
    if region_mib == 0 {
        return Err("--region-mib must be >= 1".to_string());
    }
    let size: usize = (region_mib as usize) * 0x10_0000;
    let pages: usize = size / PAGE_SIZE;
    Ok((size, pages))
}

/// How many bytes of `data` are not `want`.
pub open spec fn strangers(data: Seq<u8>, want: u8) -> nat
    decreases data.len(),
{
    if data.len() == 0 {
        0
    } else {
        strangers(data.drop_last(), want) + (if data.last() != want {
            1nat
        } else {
            0
        })
    }
}

proof fn lemma_strangers(data: Seq<u8>, want: u8)
    ensures
        strangers(data, want) <= data.len(),
        strangers(data, want) == 0 <==> (forall|i: int|
            0 <= i < data.len() ==> #[trigger] data[i] == want),
    decreases data.len(),
{
    if data.len() > 0 {
        lemma_strangers(data.drop_last(), want);
        if strangers(data.drop_last(), want) == 0 {
            assert forall|i: int| 0 <= i < data.len() - 1 implies data[i] == want by {
                assert(data.drop_last()[i] == data[i]);
            }
        } else {
            let i = choose|i: int|
                0 <= i < data.drop_last().len() && #[trigger] data.drop_last()[i] != want;
            assert(data[i] != want);
        }
    }
}

fn count_strangers(data: &Vec<u8>, want: u8) -> (r: u64)
    ensures
        r == strangers(data@, want),
{
    let mut n: u64 = 0;
    let mut i: usize = 0;
    while i < data.len()
        invariant
            i <= data.len(),
            n <= i,
            n == strangers(data@.take(i as int), want),
        decreases data.len() - i,
    {
        assert(data@.take(i + 1).drop_last() =~= data@.take(i as int));
        if data[i] != want {
            n += 1;
        }
        i += 1;
    }
    assert(data@.take(i as int) =~= data@);
    n
}

/// Whether the benchmark's snapshot holds the region as it was before it was
/// protected: every byte of it the pattern.
pub fn check_bench_snapshot(data: &Vec<u8>, region_size: usize) -> (r: Result<(), String>)
    ensures
        if data@.len() != region_size {
            r matches Err(e) && e@ == "snapshot file size "@ + dec(data@.len()) + " != region size "@
                + dec(region_size as nat)
        } else if exists|i: int| 0 <= i < data@.len() && #[trigger] data@[i] != PATTERN {
            r matches Err(e) && e@ == dec(strangers(data@, PATTERN))
                + " bytes in snapshot don't match the pre-arm pattern (0x42)"@
        } else {
            r is Ok
        },
{
    if data.len() != region_size {
        let a = dec_string(data.len() as u64);
        let b = dec_string(region_size as u64);
        return Err(
            "snapshot file size ".to_string().concat(a.as_str()).concat(
                " != region size ",
            ).concat(b.as_str()),
        );
    }
    let bad = count_strangers(data, PATTERN);
    proof {
        lemma_strangers(data@, PATTERN);
    }
    if bad > 0 {
        let n = dec_string(bad);
        return Err(n.concat(" bytes in snapshot don't match the pre-arm pattern (0x42)"));
    }
    Ok(())
}

// ---------------------------------------------------------------------
// Labelled pages
// ---------------------------------------------------------------------

/// The size of the region in MiB where the environment names none.
pub const DEFAULT_REGION_MIB: usize = 64;

/// The size of the region in MiB, given the environment's setting.
pub open spec fn region_mib(setting: Option<Seq<char>>) -> nat {
    match setting {
        Some(s) => match parse_dec(s, usize::MAX as nat) {
            Some(n) => n,
            None => DEFAULT_REGION_MIB as nat,
        },
        None => DEFAULT_REGION_MIB as nat,
    }
}

/// The size of the region in bytes.
pub fn parse_region_size(setting: &Option<String>) -> (r: usize)
    requires
        region_mib(crate::api::opt_view(*setting)) * 0x10_0000 <= usize::MAX,
    ensures
        r == region_mib(crate::api::opt_view(*setting)) * 0x10_0000,
{
    let mib: usize = match setting {
        Some(s) => match parse_unsigned(s.as_str(), usize::MAX as u64) {
            Some(n) => n as usize,
            None => DEFAULT_REGION_MIB,
        },
        None => DEFAULT_REGION_MIB,
    };
    mib * 0x10_0000
}

pub open spec fn before_text(page: nat) -> Seq<char> {
    "PAGE_"@ + pad_left(dec(page), 6, '0') + "_BEFORE"@
}

pub open spec fn after_text(page: nat) -> Seq<char> {
    "PAGE_"@ + pad_left(dec(page), 6, '0') + "_AFTER "@
}

/// What a page holds before the region is protected.
pub fn before_label(page: usize) -> (r: String)
    ensures
        r@ == before_text(page as nat),
{
    let n = dec_string(page as u64);
    let p = padded_left(n.as_str(), 6, '0');
    "PAGE_".to_string().concat(p.as_str()).concat("_BEFORE")
}

/// What is written to a page afterwards.
pub fn after_label(page: usize) -> (r: String)
    ensures
        r@ == after_text(page as nat),
{
    let n = dec_string(page as u64);
    let p = padded_left(n.as_str(), 6, '0');
    "PAGE_".to_string().concat(p.as_str()).concat("_AFTER ")
}

/// No page's label from before can be taken for one from after.
pub proof fn law_labels_tell_before_from_after(i: nat, j: nat)
    ensures
        before_text(i) != after_text(j),
{
    reveal_strlit("_BEFORE");
    reveal_strlit("_AFTER ");
    let a = before_text(i);
    let b = after_text(j);
    assert(a.last() == 'E');
    assert(b.last() == ' ');
}

/// Whether a page of a snapshot starts with the page's label from before.
pub open spec fn page_is_old(data: Seq<u8>, page: int) -> bool {
    encode_utf8(before_text(page as nat)).is_prefix_of(data.skip(page * PAGE_SIZE))
}

fn starts_with_label(data: &Vec<u8>, page: usize) -> (r: bool)
    requires
        page * PAGE_SIZE + PAGE_SIZE <= data@.len(),
    ensures
        r == page_is_old(data@, page as int),
{
    let label = before_label(page);
    let bytes = label.as_str().as_bytes();
    let size: usize = data.len();
    let at: usize = page * PAGE_SIZE;
    let ghost want = encode_utf8(before_text(page as nat));
    let ghost rest = data@.skip(at as int);
    if bytes.len() > size - at {
        return false;
    }
    let mut i: usize = 0;
    while i < bytes.len()
        invariant
            i <= bytes@.len(),
            bytes@ == want,
            rest == data@.skip(at as int),
            size == data@.len(),
            at + bytes@.len() <= size,
            forall|j: int| 0 <= j < i ==> want[j] == rest[j],
            want == encode_utf8(before_text(page as nat)),
            at == page * PAGE_SIZE,
        decreases bytes@.len() - i,
    {
        assert(rest[i as int] == data@[at + i]);
        if bytes[i] != data[at + i] {
            assert(!want.is_prefix_of(rest)) by {
                if want.is_prefix_of(rest) {
                    assert(want[i as int] == rest.subrange(0, want.len() as int)[i as int]);
                }
            }
            return false;
        }
        i += 1;
    }
    assert(want =~= rest.subrange(0, want.len() as int));
    true
}

/// The pages of a snapshot that do not hold what they held before, in order.
pub open spec fn violations(data: Seq<u8>, pages: nat) -> Seq<usize>
    decreases pages,
{
    if pages == 0 {
        Seq::empty()
    } else {
        let rest = violations(data, (pages - 1) as nat);
        if page_is_old(data, pages - 1) {
            rest
        } else {
            rest.push((pages - 1) as usize)
        }
    }
}

/// Looks at every page of a snapshot. A snapshot of another size cannot be
/// judged.
pub fn check_pages(data: &Vec<u8>, region_size: usize) -> (r: Result<Vec<usize>, String>)
    requires
        region_size % PAGE_SIZE == 0,
    ensures
        if data@.len() != region_size {
            r matches Err(e) && e@ == "snapshot file is "@ + dec(data@.len()) + " bytes, expected "@
                + dec(region_size as nat)
        } else {
            r matches Ok(v) && v@ == violations(data@, (region_size / PAGE_SIZE) as nat)
        },
{
    if data.len() != region_size {
        let a = dec_string(data.len() as u64);
        let b = dec_string(region_size as u64);
        return Err(
            "snapshot file is ".to_string().concat(a.as_str()).concat(
                " bytes, expected ",
            ).concat(b.as_str()),
        );
    }
    let pages: usize = region_size / PAGE_SIZE;
    assert(pages * PAGE_SIZE == region_size);
    let mut bad: Vec<usize> = Vec::new();
    let mut i: usize = 0;
    while i < pages
        invariant
            i <= pages,
            pages * PAGE_SIZE == data@.len(),
            bad@ == violations(data@, i as nat),
        decreases pages - i,
    {
        if !starts_with_label(data, i) {
            bad.push(i);
        }
        i += 1;
    }
    Ok(bad)
}

/// What the trial comes to: it fails where any page was captured too late.
pub fn page_verdict(violations: usize) -> (r: Result<(), String>)
    ensures
        if violations == 0 {
            r is Ok
        } else {
            r matches Err(e) && e@ == "PoC FAILED: "@ + dec(violations as nat)
                + " snapshot pages contained post-WP-arm content"@
        },
{
    if violations == 0 {
        return Ok(());
    }
    let n = dec_string(violations as u64);
    Err(
        "PoC FAILED: ".to_string().concat(n.as_str()).concat(
            " snapshot pages contained post-WP-arm content",
        ),
    )
}

// ---------------------------------------------------------------------
// Huge pages
// ---------------------------------------------------------------------

pub const HUGEPAGE_KIB: usize = 2048;

/// The address range that a line of a memory map starts with, where it does.
pub open spec fn map_header(line: Seq<char>) -> Option<(nat, nat)> {
    let d = char_pos(line, '-') as int;
    if d >= line.len() {
        None
    } else {
        let rest = line.skip(d + 1);
        let s = char_pos(rest, ' ') as int;
        if s >= rest.len() {
            None
        } else {
            match (
                parse_hex_text(line.take(d), usize::MAX as nat),
                parse_hex_text(rest.take(s), usize::MAX as nat),
            ) {
                (Some(a), Some(b)) => Some((a, b)),
                _ => None,
            }
        }
    }
}

fn read_map_header(line: &str) -> (r: Option<(usize, usize)>)
    ensures
        match r {
            Some(p) => map_header(line@) == Some((p.0 as nat, p.1 as nat)),
            None => map_header(line@) is None,
        },
{
    let v = chars_of(line);
    assert(line@.skip(0) =~= line@);
    let d = find_char(&v, '-', 0);
    if d >= v.len() {
        return None;
    }
    let ghost rest = line@.skip(d + 1);
    let e = find_char(&v, ' ', d + 1);
    proof {
        lemma_char_pos(line@, '-');
        lemma_char_pos(rest, ' ');
    }
    if e >= v.len() {
        return None;
    }
    let a = string_of(&v, 0, d);
    let b = string_of(&v, d + 1, e);
    proof {
        assert(a@ =~= line@.take(d as int));
        assert(b@ =~= rest.take(e - d - 1));
    }
    match (parse_hex(a.as_str(), usize::MAX as u64), parse_hex(b.as_str(), usize::MAX as u64)) {
        (Some(x), Some(y)) => Some((x as usize, y as usize)),
        _ => None,
    }
}

/// The KiB of huge pages that a line reports, where it does.
pub open spec fn huge_kib(line: Seq<char>) -> nat {
    let p = "AnonHugePages:"@;
    if p.is_prefix_of(line) {
        let ws = words(trim(line.skip(p.len() as int)));
        if ws.len() == 0 {
            0
        } else {
            match parse_dec(ws[0], usize::MAX as nat) {
                Some(n) => n,
                None => 0,
            }
        }
    } else {
        0
    }
}

fn read_huge_kib(line: &str) -> (r: usize)
    ensures
        r == huge_kib(line@),
{
    match strip_prefix(line, "AnonHugePages:") {
        Some(rest) => {
            let t = trimmed(rest.as_str());
            let ws = split_words(t.as_str());
            if ws.len() == 0 {
                assert(views(ws@).len() == 0);
                0
            } else {
                assert(views(ws@)[0] == ws@[0]@);
                match parse_unsigned(ws[0].as_str(), usize::MAX as u64) {
                    Some(n) => n as usize,
                    None => 0,
                }
            }
        },
        None => 0,
    }
}

/// The KiB of huge pages in the mappings that meet `[start, end)`, given the
/// lines of a memory map; and the mapping that the last header opened.
pub open spec fn huge_in(ls: Seq<Seq<char>>, start: nat, end: nat) -> (nat, Option<(nat, nat)>)
    decreases ls.len(),
{
    if ls.len() == 0 {
        (0, None)
    } else {
        let (sum, at) = huge_in(ls.drop_last(), start, end);
        match map_header(ls.last()) {
            Some(h) => (sum, Some(h)),
            None => match at {
                Some((a, b)) => if a < end && b > start {
                    (sum + huge_kib(ls.last()), at)
                } else {
                    (sum, at)
                },
                None => (sum, at),
            },
        }
    }
}

proof fn lemma_huge_monotone(ls: Seq<Seq<char>>, k: int, start: nat, end: nat)
    requires
        0 <= k <= ls.len(),
    ensures
        huge_in(ls.take(k), start, end).0 <= huge_in(ls, start, end).0,
    decreases ls.len(),
{
    if k == ls.len() {
        assert(ls.take(k) =~= ls);
    } else {
        lemma_huge_monotone(ls.drop_last(), k, start, end);
        assert(ls.drop_last().take(k) =~= ls.take(k));
    }
}

/// How many KiB of huge pages back the region at `start`, according to the
/// text of a memory map. None where the end of the region or the sum is beyond
/// what a number holds.
pub fn read_anon_hugepages_in_smaps(smaps: &str, start: usize, len: usize) -> (r: Option<usize>)
    ensures
        match r {
            Some(n) => {
                &&& start + len <= usize::MAX
                &&& n == huge_in(lines(smaps@), start as nat, (start + len) as nat).0
            },
            None => {
                ||| start + len > usize::MAX
                ||| huge_in(lines(smaps@), start as nat, (start + len) as nat).0 > usize::MAX
            },
        },
{
    let end: usize = match start.checked_add(len) {
        Some(e) => e,
        None => return None,
    };
    let ls = split_lines(smaps);
    let ghost all = lines(smaps@);
    let mut total: usize = 0;
    let mut at: Option<(usize, usize)> = None;
    let mut i: usize = 0;
    assert(huge_in(all.take(0), start as nat, end as nat) == (0nat, None::<(nat, nat)>));
    while i < ls.len()
        invariant
            i <= ls.len(),
            all == lines(smaps@),
            views(ls@) == all,
            end == start + len,
            total == huge_in(all.take(i as int), start as nat, end as nat).0,
            huge_in(all.take(i as int), start as nat, end as nat).1 == (match at {
                Some(p) => Some((p.0 as nat, p.1 as nat)),
                None => None,
            }),
        decreases ls.len() - i,
    {
        proof {
            assert(all.take(i + 1).drop_last() =~= all.take(i as int));
            assert(all.take(i + 1).last() == ls@[i as int]@);
            lemma_huge_monotone(all, i + 1, start as nat, end as nat);
        }
        match read_map_header(ls[i].as_str()) {
            Some(h) => {
                at = Some(h);
            },
            None => match at {
                Some((a, b)) => {
                    if a < end && b > start {
                        let k = read_huge_kib(ls[i].as_str());
                        match total.checked_add(k) {
                            Some(t) => total = t,
                            None => return None,
                        }
                    }
                },
                None => {},
            },
        }
        i += 1;
    }
    assert(all.take(i as int) =~= all);
    Some(total)
}

/// How many whole huge pages so many KiB are.
pub fn huge_pages(kib: usize) -> (r: usize)
    ensures
        r == kib / HUGEPAGE_KIB,
{
    kib / HUGEPAGE_KIB
}

/// The page in the middle of a region that the trial writes to.
pub fn probe_page(region_size: usize) -> (r: usize)
    ensures
        r == region_size / PAGE_SIZE / 2 + 17,
{
    region_size / PAGE_SIZE / 2 + 17
}

/// Where in a region a fault was caught: how far from its start, and in which
/// page.
pub fn locate_fault(addr: usize, base: usize) -> (r: (usize, usize))
    requires
        base <= addr,
    ensures
        r.0 == addr - base,
        r.1 == (addr - base) / PAGE_SIZE as int,
{
    let off: usize = addr - base;
    (off, off / PAGE_SIZE)
}

/// How often a fault is waited for.
pub const MAX_POLLS: usize = 50;

/// Where a page fault is, and where its page starts; None for another event.
pub fn fault_page(msg: &UffdMsg) -> (r: Option<(u64, u64)>)
    ensures
        match r {
            Some(p) => {
                &&& msg.event == UFFD_EVENT_PAGEFAULT
                &&& p.0 == msg.address()
                &&& p.1 == msg.address() - msg.address() % (PAGE_SIZE as int)
            },
            None => msg.event != UFFD_EVENT_PAGEFAULT,
        },
{
    if msg.event != UFFD_EVENT_PAGEFAULT {
        return None;
    }
    let (_, addr): (u64, u64) = msg.as_pagefault();
    Some((addr, addr - addr % PAGE_SIZE as u64))
}

/// What to do when a fault has been waited for.
#[derive(Debug, Clone, Copy, PartialEq, Eq, Structural)]
pub enum AfterPoll {
    Again,
    GiveUp,
    /// A fault was caught at `addr`: let writes to the page at `page` through.
    Caught { addr: u64, page: u64 },
}

/// What to do when a fault has been waited for `polls` times, and `event` came
/// of the last time.
pub fn after_poll(polls: usize, event: &Option<UffdMsg>) -> (r: AfterPoll)
    ensures
        match r {
            AfterPoll::Caught { addr, page } => {
                &&& *event matches Some(m)
                &&& m.event == UFFD_EVENT_PAGEFAULT
                &&& addr == m.address()
                &&& page == m.address() - m.address() % (PAGE_SIZE as int)
            },
            AfterPoll::Again => {
                &&& *event matches Some(m) ==> m.event != UFFD_EVENT_PAGEFAULT
                &&& polls < MAX_POLLS
            },
            AfterPoll::GiveUp => {
                &&& *event matches Some(m) ==> m.event != UFFD_EVENT_PAGEFAULT
                &&& polls >= MAX_POLLS
            },
        },
{
    let fault = match event {
        Some(msg) => fault_page(msg),
        None => None,
    };
    match fault {
        Some((addr, page)) => AfterPoll::Caught { addr, page },
        None => if polls < MAX_POLLS {
            AfterPoll::Again
        } else {
            AfterPoll::GiveUp
        },
    }
}

// ---------------------------------------------------------------------
// A guest that writes one byte
// ---------------------------------------------------------------------

pub const GUEST_MEMORY: usize = 0x10_0000;

/// Where the guest's code stands.
pub const CODE_AT: usize = 0x100;

/// Where the guest writes.
pub const TARGET_AT: usize = 0x1000;

/// What stands there before the guest has run, and after.
pub const BEFORE_MARKER: u8 = 0xbe;

pub const AFTER_MARKER: u8 = 0x42;

/// How often the guest may leave before it has halted.
pub const MAX_EXITS: usize = 20;

/// `mov al, 0x42`, `mov [0x1000], al`, `hlt` in real mode.
pub open spec fn guest_code() -> Seq<u8> {
    seq![0xb0u8, 0x42, 0xa2, 0x00, 0x10, 0xf4]
}

/// The guest's memory before it runs: zeros, but for its code and the marker.
pub open spec fn guest_memory() -> Seq<u8> {
    Seq::new(
        GUEST_MEMORY as nat,
        |i: int|
            if CODE_AT <= i < CODE_AT + 6 {
                guest_code()[i - CODE_AT]
            } else if i == TARGET_AT {
                BEFORE_MARKER
            } else {
                0
            },
    )
}

pub fn guest_image() -> (r: Vec<u8>)
    ensures
        r@ == guest_memory(),
{
    let mut v: Vec<u8> = Vec::new();
    let mut i: usize = 0;
    while i < GUEST_MEMORY
        invariant
            i <= GUEST_MEMORY,
            v@.len() == i,
            forall|j: int| 0 <= j < i ==> v@[j] == 0,
        decreases GUEST_MEMORY - i,
    {
        v.push(0);
        i += 1;
    }
    v.set(CODE_AT, 0xb0);
    v.set(CODE_AT + 1, 0x42);
    v.set(CODE_AT + 2, 0xa2);
    v.set(CODE_AT + 3, 0x00);
    v.set(CODE_AT + 4, 0x10);
    v.set(CODE_AT + 5, 0xf4);
    v.set(TARGET_AT, BEFORE_MARKER);
    assert(v@ =~= guest_memory());
    v
}

/// Why a vCPU came back.
#[derive(Debug, PartialEq, Eq)]
pub enum GuestExit {
    Halted,
    /// It touched a port or a device; nothing answers.
    Device,
    /// Anything else, in words.
    Other(String),
}

/// What to do when a vCPU has come back for the `count`-th time.
#[derive(Debug, Clone, Copy, PartialEq, Eq, Structural)]
pub enum AfterExit {
    RunAgain,
    Stop,
    Runaway,
}

/// The guest runs until it halts or does what it should not, and not forever.
pub fn after_exit(count: usize, exit: &GuestExit) -> (r: AfterExit)
    ensures
        r == (if count > MAX_EXITS {
            AfterExit::Runaway
        } else if exit is Device {
            AfterExit::RunAgain
        } else {
            AfterExit::Stop
        }),
{
    if count > MAX_EXITS {
        return AfterExit::Runaway;
    }
    match exit {
        GuestExit::Device => AfterExit::RunAgain,
        _ => AfterExit::Stop,
    }
}

pub open spec fn byte_text(b: u8) -> Seq<char> {
    "0x"@ + pad_left(hex(b as nat), 2, '0')
}

fn show_byte(b: u8) -> (r: String)
    ensures
        r@ == byte_text(b),
{
    let h = hex_string(b as u64);
    let p = padded_left(h.as_str(), 2, '0');
    "0x".to_string().concat(p.as_str())
}

/// Judges the trial under KVM: the guest has written, its write was caught,
/// and what was caught is what stood there before.
pub fn judge_guest_write(live: u8, caught: &Vec<usize>, captured: u8) -> (r: Result<(), String>)
    ensures
        if live != AFTER_MARKER {
            r matches Err(e) && e@ == "guest never executed the write — live byte is "@ + byte_text(
                live,
            ) + ", expected 0x42"@
        } else if !caught@.contains(TARGET_AT) {
            r matches Err(e) && e@
                == "UFFD_WP did NOT catch the guest write to GPA 0x1000 (page 0x1000). EPT bypass — answer to open question #1 is NEGATIVE: snapshot-time WP on host VMA does not propagate to KVM guests."@
        } else if captured != BEFORE_MARKER {
            r matches Err(e) && e@ == "snapshot byte at 0x1000 is "@ + byte_text(captured)
                + ", expected 0xbe. Handler captured the page AFTER the guest write — ordering invariant broken."@
        } else {
            r is Ok
        },
{
    if live != AFTER_MARKER {
        let b = show_byte(live);
        return Err(
            "guest never executed the write — live byte is ".to_string().concat(
                b.as_str(),
            ).concat(", expected 0x42"),
        );
    }
    let mut seen = false;
    let mut i: usize = 0;
    while i < caught.len()
        invariant
            i <= caught.len(),
            seen == (exists|j: int| 0 <= j < i && #[trigger] caught@[j] == TARGET_AT),
        decreases caught.len() - i,
    {
        if caught[i] == TARGET_AT {
            seen = true;
        }
        i += 1;
    }
    if !seen {
        return Err(
            "UFFD_WP did NOT catch the guest write to GPA 0x1000 (page 0x1000). EPT bypass — answer to open question #1 is NEGATIVE: snapshot-time WP on host VMA does not propagate to KVM guests.".to_string(),
        );
    }
    if captured != BEFORE_MARKER {
        let b = show_byte(captured);
        return Err(
            "snapshot byte at 0x1000 is ".to_string().concat(b.as_str()).concat(
                ", expected 0xbe. Handler captured the page AFTER the guest write — ordering invariant broken.",
            ),
        );
    }
    Ok(())
}

/// Whether a snapshot of the guest is whole and from before its write.
pub fn judge_snapshot(data: &Vec<u8>) -> (r: Result<(), String>)
    ensures
        if data@.len() != GUEST_MEMORY {
            r matches Err(e) && e@ == "snapshot file size mismatch: "@ + dec(data@.len())
                + " != 1048576"@
        } else if data@[TARGET_AT as int] != BEFORE_MARKER {
            r matches Err(e) && e@ == "snapshot[0x1000] = "@ + byte_text(data@[TARGET_AT as int])
                + ", expected 0xbe"@
        } else {
            r is Ok
        },
{
    if data.len() != GUEST_MEMORY {
        let n = dec_string(data.len() as u64);
        return Err(
            "snapshot file size mismatch: ".to_string().concat(n.as_str()).concat(" != 1048576"),
        );
    }
    if data[TARGET_AT] != BEFORE_MARKER {
        let b = show_byte(data[TARGET_AT]);
        return Err(
            "snapshot[0x1000] = ".to_string().concat(b.as_str()).concat(", expected 0xbe"),
        );
    }
    Ok(())
}

/// Whether a guest that was restored does what the first one did.
pub fn judge_restored(after_run: u8) -> (r: Result<(), String>)
    ensures
        if after_run == AFTER_MARKER {
            r is Ok
        } else {
            r matches Err(e) && e@ == "restored VM didn't produce expected guest write: got "@
                + byte_text(after_run)
        },
{
    if after_run == AFTER_MARKER {
        return Ok(());
    }
    let b = show_byte(after_run);
    Err("restored VM didn't produce expected guest write: got ".to_string().concat(b.as_str()))
}

/// The pages that are reported are exactly those that do not hold what they
/// held before, so a snapshot is found in order exactly where every page does.
pub proof fn law_every_late_page_is_reported(data: Seq<u8>, pages: nat, page: usize)
    requires
        pages <= usize::MAX,
    ensures
        violations(data, pages).contains(page) <==> page < pages && !page_is_old(
            data,
            page as int,
        ),
    decreases pages,
{
    if pages > 0 {
        let n = (pages - 1) as nat;
        law_every_late_page_is_reported(data, n, page);
        let rest = violations(data, n);
        let all = violations(data, pages);
        if rest.contains(page) {
            let j = choose|j: int| 0 <= j < rest.len() && rest[j] == page;
            assert(all[j] == page);
        }
        if all.contains(page) && !rest.contains(page) {
            let j = choose|j: int| 0 <= j < all.len() && all[j] == page;
            if j < rest.len() {
                assert(rest[j] == page);
            }
        }
        if page == n && !page_is_old(data, n as int) {
            assert(all.last() == page);
        }
    }
}

} // verus!
