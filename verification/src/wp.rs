//! Capturing a guest's memory behind its back: every page is write-protected
//! at once, the guest runs on, and a page is copied out before the guest may
//! change it.
use vstd::prelude::*;

use crate::text::{dec, dec_string};
use crate::uffd::{UffdMsg, UFFD_EVENT_PAGEFAULT, UFFD_PAGEFAULT_FLAG_WRITE};

verus! {

/// The granularity at which write faults are reported.
pub const PAGE_SIZE: usize = 4096;

/// What a finished capture counts.
#[derive(Debug, Clone, Copy, PartialEq, Eq, Structural)]
pub struct WpBranchStats {
    /// How long protecting the memory took, in nanoseconds.
    pub arm_duration_nanos: u64,
    /// Pages copied because the guest wrote to them.
    pub pages_captured_by_fault: u64,
    /// Pages copied by the pass over what was left.
    pub pages_captured_by_bulk: u64,
    pub total_pages: u64,
}

/// Why a capture cannot start.
#[derive(Debug, Clone, Copy, PartialEq, Eq, Structural)]
pub enum WpError {
    NullRegion,
    /// The length is not a positive multiple of the page size.
    BadSize { size: usize },
}

impl WpError {
    pub open spec fn text(self) -> Seq<char> {
        match self {
            WpError::NullRegion => "WpBranch::begin: region pointer is null"@,
            WpError::BadSize { size } => "WpBranch::begin: region_size "@ + dec(size as nat)
                + " must be a positive multiple of 4096"@,
        }
    }

    pub fn message(&self) -> (r: String)
        ensures
            r@ == self.text(),
    {
        match self {
            WpError::NullRegion => "WpBranch::begin: region pointer is null".to_string(),
            WpError::BadSize { size } => {
                let n = dec_string(*size as u64);
                "WpBranch::begin: region_size ".to_string().concat(n.as_str()).concat(
                    " must be a positive multiple of 4096",
                )
            },
        }
    }
}

/// What to do about an event.
#[derive(Debug, Clone, Copy, PartialEq, Eq, Structural)]
pub enum FaultAction {
    /// It is none of this capture's business.
    Ignore,
    /// Copy the page out where `copy` says so, then let writes to it through.
    Serve { page: usize, page_addr: u64, copy: bool },
}

/// The action that an event calls for, when `captured` says which pages of the
/// memory mapped at `region` have been copied.
pub open spec fn fault_action(region: u64, captured: Seq<bool>, msg: UffdMsg) -> FaultAction {
    let page_addr = msg.address() - msg.address() % 4096;
    let page = (page_addr - region) / 4096;
    if msg.event != UFFD_EVENT_PAGEFAULT || msg.flags() % 2 == 0 || page_addr < region || page
        >= captured.len() {
        FaultAction::Ignore
    } else {
        FaultAction::Serve {
            page: page as usize,
            page_addr: page_addr as u64,
            copy: !captured[page],
        }
    }
}

/// Which pages have been copied once an action is carried out.
pub open spec fn captured_after(captured: Seq<bool>, action: FaultAction) -> Seq<bool> {
    match action {
        FaultAction::Ignore => captured,
        FaultAction::Serve { page, .. } => captured.update(page as int, true),
    }
}

/// Whether `page` is the first at or behind `from` that has not been copied.
pub open spec fn next_clean(captured: Seq<bool>, from: int, page: int) -> bool {
    &&& from <= page < captured.len()
    &&& !captured[page]
    &&& forall|i: int| from <= i < page ==> #[trigger] captured[i]
}

/// How many of the flags are set.
pub open spec fn count_set(s: Seq<bool>) -> nat
    decreases s.len(),
{
    if s.len() == 0 {
        0
    } else {
        count_set(s.drop_last()) + (if s.last() {
            1nat
        } else {
            0nat
        })
    }
}

/// One capture under way.
#[derive(Debug)]
pub struct WpBranch {
    region_addr: u64,
    captured: Vec<bool>,
    by_fault: u64,
    by_bulk: u64,
}

impl WpBranch {
    pub closed spec fn region(&self) -> u64 {
        self.region_addr
    }

    /// Which pages have been copied out, or are being copied.
    pub closed spec fn captured(&self) -> Seq<bool> {
        self.captured@
    }

    pub closed spec fn faults(&self) -> nat {
        self.by_fault as nat
    }

    pub closed spec fn bulk(&self) -> nat {
        self.by_bulk as nat
    }

    /// Every captured page was counted once, on one of the two ways.
    pub open spec fn wf(&self) -> bool {
        &&& self.captured().len() <= usize::MAX
        &&& count_set(self.captured()) == self.faults() + self.bulk()
    }

    /// Starts a capture of the memory mapped at `region_addr`.
    pub fn begin(region_addr: u64, region_size: usize) -> (r: Result<WpBranch, WpError>)
        ensures
            match r {
                Ok(b) => {
                    &&& region_addr != 0
                    &&& region_size > 0
                    &&& region_size % 4096 == 0
                    &&& b.wf()
                    &&& b.region() == region_addr
                    &&& b.captured() == Seq::new((region_size / 4096) as nat, |i: int| false)
                    &&& b.faults() == 0
                    &&& b.bulk() == 0
                },
                Err(WpError::NullRegion) => region_addr == 0,
                Err(WpError::BadSize { size }) => region_addr != 0 && size == region_size && (
                region_size == 0 || region_size % 4096 != 0),
            },
    {
        if region_addr == 0 {
            return Err(WpError::NullRegion);
        }
        if region_size == 0 || region_size % PAGE_SIZE != 0 {
            return Err(WpError::BadSize { size: region_size });
        }
        let pages: usize = region_size / PAGE_SIZE;
        let mut captured: Vec<bool> = Vec::new();
        let mut i: usize = 0;
        while i < pages
            invariant
                i <= pages,
                captured@ == Seq::new(i as nat, |k: int| false),
                count_set(captured@) == 0,
            decreases pages - i,
        {
            assert(captured@.push(false).drop_last() =~= captured@);
            captured.push(false);
            i += 1;
            assert(captured@ =~= Seq::new(i as nat, |k: int| false));
        }
        Ok(WpBranch { region_addr, captured, by_fault: 0, by_bulk: 0 })
    }

    /// How many pages the region has.
    pub fn total_pages(&self) -> (n: usize)
        ensures
            n == self.captured().len(),
    {
        self.captured.len()
    }

    /// Takes an event. The first to come by a page copies it; a page that was
    /// copied before is only let through.
    pub fn on_event(&mut self, msg: &UffdMsg) -> (r: FaultAction)
        requires
            old(self).wf(),
        ensures
            r == fault_action(old(self).region(), old(self).captured(), *msg),
            final(self).wf(),
            final(self).region() == old(self).region(),
            final(self).captured() == captured_after(old(self).captured(), r),
            final(self).bulk() == old(self).bulk(),
            final(self).faults() == old(self).faults() + (match r {
                FaultAction::Serve { copy: true, .. } => 1nat,
                _ => 0nat,
            }),
    {
        if msg.event != UFFD_EVENT_PAGEFAULT {
            return FaultAction::Ignore;
        }
        let (flags, addr) = msg.as_pagefault();
        assert((flags & 1 == 0) == (flags % 2 == 0)) by (bit_vector);
        if flags & UFFD_PAGEFAULT_FLAG_WRITE == 0 {
            return FaultAction::Ignore;
        }
        let page_addr: u64 = addr - addr % 4096;
        if page_addr < self.region_addr {
            return FaultAction::Ignore;
        }
        let index: u64 = (page_addr - self.region_addr) / 4096;
        if index >= self.captured.len() as u64 {
            return FaultAction::Ignore;
        }
        let page: usize = index as usize;
        let copy = !self.captured[page];
        proof {
            lemma_count_update(self.captured@, page as int);
            lemma_count_bound(self.captured@.update(page as int, true));
        }
        if copy {
            self.by_fault = self.by_fault + 1;
        }
        self.captured.set(page, true);
        FaultAction::Serve { page, page_addr, copy }
    }

    /// Claims the next page at or behind `from` that nobody has copied. The
    /// caller copies it before it hands in the next event.
    pub fn claim_clean(&mut self, from: usize) -> (r: Option<usize>)
        requires
            old(self).wf(),
        ensures
            final(self).wf(),
            final(self).region() == old(self).region(),
            final(self).faults() == old(self).faults(),
            match r {
                Some(page) => {
                    &&& next_clean(old(self).captured(), from as int, page as int)
                    &&& final(self).captured() == old(self).captured().update(page as int, true)
                    &&& final(self).bulk() == old(self).bulk() + 1
                },
                None => {
                    &&& forall|i: int|
                        from <= i < old(self).captured().len() ==> #[trigger] old(
                            self,
                        ).captured()[i]
                    &&& final(self).captured() == old(self).captured()
                    &&& final(self).bulk() == old(self).bulk()
                },
            },
    {
        let mut i: usize = from;
        while i < self.captured.len()
            invariant
                from <= i,
                *self == *old(self),
                self.wf(),
                forall|k: int| from <= k < i && k < self.captured@.len() ==> #[trigger] self.captured@[k],
            decreases self.captured.len() - i,
        {
            if !self.captured[i] {
                proof {
                    lemma_count_update(self.captured@, i as int);
                    lemma_count_bound(self.captured@.update(i as int, true));
                }
                self.by_bulk = self.by_bulk + 1;
                self.captured.set(i, true);
                return Some(i);
            }
            i += 1;
        }
        None
    }

    /// Claims every page that nobody has copied, in order. The caller copies
    /// them all before it hands in the next event: a fault on a claimed page is
    /// let through without a copy.
    pub fn bulk_copy_clean(&mut self) -> (r: Vec<usize>)
        requires
            old(self).wf(),
        ensures
            final(self).wf(),
            final(self).region() == old(self).region(),
            final(self).faults() == old(self).faults(),
            final(self).bulk() == old(self).bulk() + r@.len(),
            final(self).captured() == Seq::new(old(self).captured().len(), |i: int| true),
            forall|i: int, j: int| 0 <= i < j < r@.len() ==> #[trigger] r@[i] < #[trigger] r@[j],
            forall|p: usize| #[trigger]
                r@.contains(p) <==> p < old(self).captured().len() && !old(
                    self,
                ).captured()[p as int],
    {
        let mut r: Vec<usize> = Vec::new();
        let mut from: usize = 0;
        let ghost start = self.captured();
        loop
            invariant
                self.wf(),
                self.region() == old(self).region(),
                self.faults() == old(self).faults(),
                self.bulk() == old(self).bulk() + r@.len(),
                start == old(self).captured(),
                self.captured().len() == start.len(),
                from <= start.len(),
                forall|i: int| 0 <= i < from ==> #[trigger] self.captured()[i],
                forall|i: int|
                    from <= i < start.len() ==> #[trigger] self.captured()[i] == start[i],
                forall|i: int, j: int|
                    0 <= i < j < r@.len() ==> #[trigger] r@[i] < #[trigger] r@[j],
                forall|p: usize| #[trigger] r@.contains(p) <==> p < from && !start[p as int],
            ensures
                self.wf(),
                self.region() == old(self).region(),
                self.faults() == old(self).faults(),
                self.bulk() == old(self).bulk() + r@.len(),
                start == old(self).captured(),
                self.captured() == Seq::new(start.len(), |i: int| true),
                forall|i: int, j: int|
                    0 <= i < j < r@.len() ==> #[trigger] r@[i] < #[trigger] r@[j],
                forall|p: usize| #[trigger] r@.contains(p) <==> p < start.len() && !start[p as int],
            decreases start.len() - from,
        {
            let ghost cur = self.captured();
            match self.claim_clean(from) {
                Some(page) => {
                    proof {
                        assert forall|i: int| from <= i < page implies #[trigger] start[i] by {
                            assert(cur[i]);
                        }
                        assert forall|p: usize| #[trigger]
                            r@.push(page).contains(p) <==> p < page + 1 && !start[p as int] by {
                            crate::chain::lemma_push_contains(r@, page, p);
                        }
                        assert forall|i: int, j: int| 0 <= i < j < r@.len() + 1 implies #[trigger] r@.push(
                            page,
                        )[i] < #[trigger] r@.push(page)[j] by {
                            if j == r@.len() {
                                assert(r@.contains(r@[i]));
                            }
                        }
                    }
                    r.push(page);
                    from = page + 1;
                },
                None => {
                    proof {
                        assert forall|i: int| 0 <= i < start.len() implies #[trigger] self.captured()[i] by {
                            assert(cur[i]);
                        }
                        assert(self.captured() =~= Seq::new(start.len(), |i: int| true));
                        assert forall|p: usize| #[trigger]
                            r@.contains(p) <==> p < start.len() && !start[p as int] by {
                            if from <= p < start.len() {
                                assert(cur[p as int]);
                            }
                        }
                    }
                    break;
                },
            }
        }
        r
    }

    /// Ends the capture.
    pub fn finalize(self, arm_duration_nanos: u64) -> (r: WpBranchStats)
        requires
            self.wf(),
        ensures
            r.arm_duration_nanos == arm_duration_nanos,
            r.pages_captured_by_fault == self.faults(),
            r.pages_captured_by_bulk == self.bulk(),
            r.total_pages == self.captured().len(),
    {
        WpBranchStats {
            arm_duration_nanos,
            pages_captured_by_fault: self.by_fault,
            pages_captured_by_bulk: self.by_bulk,
            total_pages: self.captured.len() as u64,
        }
    }
}

proof fn lemma_count_bound(s: Seq<bool>)
    ensures
        count_set(s) <= s.len(),
    decreases s.len(),
{
    if s.len() > 0 {
        lemma_count_bound(s.drop_last());
    }
}

proof fn lemma_count_update(s: Seq<bool>, i: int)
    requires
        0 <= i < s.len(),
    ensures
        count_set(s.update(i, true)) == count_set(s) + (if s[i] {
            0nat
        } else {
            1nat
        }),
    decreases s.len(),
{
    let t = s.update(i, true);
    if i == s.len() - 1 {
        assert(t.drop_last() =~= s.drop_last());
    } else {
        lemma_count_update(s.drop_last(), i);
        assert(t.drop_last() =~= s.drop_last().update(i, true));
    }
}

proof fn lemma_count_all(s: Seq<bool>)
    requires
        forall|i: int| 0 <= i < s.len() ==> s[i],
    ensures
        count_set(s) == s.len(),
    decreases s.len(),
{
    if s.len() > 0 {
        lemma_count_all(s.drop_last());
    }
}

/// After the pass over what was left, every page has been captured exactly
/// once, by a fault or by the pass.
pub proof fn law_every_page_is_captured_once(b: WpBranch)
    requires
        b.wf(),
        b.captured() == Seq::new(b.captured().len(), |i: int| true),
    ensures
        b.faults() + b.bulk() == b.captured().len(),
{
    assert forall|i: int| 0 <= i < b.captured().len() implies b.captured()[i] by {
        assert(Seq::new(b.captured().len(), |i: int| true)[i]);
    }
    lemma_count_all(b.captured());
}

// ---------------------------------------------------------------------
// Why the captured image is consistent
// ---------------------------------------------------------------------

/// The memory, the snapshot file and who may write, page by page.
pub ghost struct Capture {
    /// The memory when it was protected.
    pub frozen: Seq<Seq<u8>>,
    pub live: Seq<Seq<u8>>,
    pub file: Seq<Seq<u8>>,
    pub captured: Seq<bool>,
    /// The pages that the guest may write to again.
    pub open: Seq<bool>,
}

impl Capture {
    /// Nothing is lost: protected memory is as it was, captured pages are in
    /// the file as they were, and only captured pages are open to writes.
    pub open spec fn consistent(self) -> bool {
        let n = self.frozen.len();
        &&& self.live.len() == n
        &&& self.file.len() == n
        &&& self.captured.len() == n
        &&& self.open.len() == n
        &&& forall|i: int| 0 <= i < n && !self.open[i] ==> self.live[i] == #[trigger] self.frozen[i]
        &&& forall|i: int|
            0 <= i < n && self.captured[i] ==> self.file[i] == #[trigger] self.frozen[i]
        &&& forall|i: int| 0 <= i < n && #[trigger] self.open[i] ==> self.captured[i]
    }

    /// All memory has just been protected.
    pub open spec fn armed(live: Seq<Seq<u8>>, file: Seq<Seq<u8>>) -> Capture {
        Capture {
            frozen: live,
            live,
            file,
            captured: Seq::new(live.len(), |i: int| false),
            open: Seq::new(live.len(), |i: int| false),
        }
    }

    /// An event is dealt with: the page is copied where the action says so,
    /// then opened.
    pub open spec fn served(self, action: FaultAction) -> Capture {
        match action {
            FaultAction::Ignore => self,
            FaultAction::Serve { page, copy, .. } => Capture {
                file: if copy {
                    self.file.update(page as int, self.live[page as int])
                } else {
                    self.file
                },
                captured: captured_after(self.captured, action),
                open: self.open.update(page as int, true),
                ..self
            },
        }
    }

    /// The pass over what was left has claimed `page` and copies it.
    pub open spec fn copied(self, page: int) -> Capture {
        Capture {
            file: self.file.update(page, self.live[page]),
            captured: self.captured.update(page, true),
            ..self
        }
    }

    /// The guest writes to `page`; the kernel lets it only where that page is
    /// open.
    pub open spec fn guest_write(self, page: int, bytes: Seq<u8>) -> Capture {
        if 0 <= page < self.open.len() && self.open[page] {
            Capture { live: self.live.update(page, bytes), ..self }
        } else {
            self
        }
    }

    /// What one step of a capture of the memory mapped at `region` leaves.
    pub open spec fn step(self, region: u64, s: CaptureStep) -> Capture {
        match s {
            CaptureStep::Event { msg } => self.served(fault_action(region, self.captured, msg)),
            CaptureStep::Claim { from, page } => if 0 <= from && next_clean(
                self.captured,
                from,
                page,
            ) {
                self.copied(page)
            } else {
                self
            },
            CaptureStep::Write { page, bytes } => self.guest_write(page, bytes),
        }
    }

    /// What a run of steps leaves.
    pub open spec fn run(self, region: u64, steps: Seq<CaptureStep>) -> Capture
        decreases steps.len(),
    {
        if steps.len() == 0 {
            self
        } else {
            self.run(region, steps.drop_last()).step(region, steps.last())
        }
    }
}

/// What can happen while a capture is under way.
pub ghost enum CaptureStep {
    /// The kernel reports a fault.
    Event { msg: UffdMsg },
    /// The pass over what was left claims the first clean page behind `from`.
    Claim { from: int, page: int },
    /// The guest writes to its memory.
    Write { page: int, bytes: Seq<u8> },
}

proof fn lemma_step_keeps_consistency(c: Capture, region: u64, s: CaptureStep)
    requires
        c.consistent(),
        c.frozen.len() <= usize::MAX,
    ensures
        c.step(region, s).consistent(),
        c.step(region, s).frozen == c.frozen,
{
}

/// Whatever the order of faults, copies and guest writes, every page that has
/// reached the snapshot file holds what the guest could read when its memory
/// was protected; and once all pages are captured, the file is that memory.
pub proof fn law_capture_is_a_point_in_time(
    live: Seq<Seq<u8>>,
    file: Seq<Seq<u8>>,
    region: u64,
    steps: Seq<CaptureStep>,
)
    requires
        live.len() == file.len(),
        live.len() <= usize::MAX,
    ensures
        ({
            let c = Capture::armed(live, file).run(region, steps);
            &&& c.consistent()
            &&& c.frozen == live
            &&& c.captured.len() == live.len()
            &&& forall|i: int| 0 <= i < live.len() && #[trigger] c.captured[i] ==> c.file[i] == live[i]
            &&& (forall|i: int| 0 <= i < live.len() ==> #[trigger] c.captured[i]) ==> c.file == live
        }),
    decreases steps.len(),
{
    let start = Capture::armed(live, file);
    let c = start.run(region, steps);
    if steps.len() > 0 {
        law_capture_is_a_point_in_time(live, file, region, steps.drop_last());
        lemma_step_keeps_consistency(start.run(region, steps.drop_last()), region, steps.last());
    }
    assert forall|i: int| 0 <= i < live.len() && #[trigger] c.captured[i] implies c.file[i]
        == live[i] by {
        assert(c.frozen[i] == live[i]);
    }
    if forall|i: int| 0 <= i < live.len() ==> #[trigger] c.captured[i] {
        assert forall|i: int| 0 <= i < live.len() implies c.file[i] == live[i] by {
            assert(c.captured[i]);
        }
        assert(c.file =~= live);
    }
}

} // verus!
