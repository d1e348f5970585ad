//! The state that the controller's request handlers share, and the snapshots
//! that are still being written in the background.
use vstd::prelude::*;

use crate::api::{opt_view, SnapshotInfo, SnapshotStatus};
use crate::metrics::{metrics, metrics_text};
use crate::slots::{BranchSlot, BranchSlotError, BranchSlots};
use crate::state::Registry;
use crate::table::{ascending, Table};
use crate::text::{
    hex, hex_string, lemma_digits_chars, lemma_digits_injective, lemma_padded_digits_injective,
    pad_left, padded_left,
};

verus! {

#[derive(Debug)]
pub struct AppState {
    pub registry: Registry,
    /// The directory that holds one directory per tag.
    pub snapshot_root: String,
    pub branches: BranchSlots,
    /// Where throwaway snapshots of prewarmed sandboxes go.
    pub prewarm_scratch_dir: String,
    /// Snapshots whose memory is still being copied in the background.
    pub live_in_flight: Table<SnapshotInfo>,
}

/// How a background copy ended.
#[derive(Debug, PartialEq, Eq)]
pub enum BulkCopy {
    Done,
    Failed(String),
    Panicked,
}

/// What a background snapshot becomes when its copy has ended.
pub open spec fn is_promoted(info: SnapshotInfo, how: BulkCopy, r: SnapshotInfo) -> bool {
    match how {
        BulkCopy::Done => r == (SnapshotInfo { status: SnapshotStatus::Ready, ..info }),
        BulkCopy::Failed(e) => {
            &&& r == (SnapshotInfo { status: SnapshotStatus::Failed, warning: r.warning, ..info })
            &&& opt_view(r.warning) == Some("background bulk-copy failed: "@ + e@)
        },
        BulkCopy::Panicked => {
            &&& r == (SnapshotInfo { status: SnapshotStatus::Failed, warning: r.warning, ..info })
            &&& opt_view(r.warning) == Some("background bulk-copy thread panicked"@)
        },
    }
}

fn promote(info: SnapshotInfo, how: &BulkCopy) -> (r: SnapshotInfo)
    ensures
        is_promoted(info, *how, r),
{
    let mut next = info;
    match how {
        BulkCopy::Done => {
            next.status = SnapshotStatus::Ready;
        },
        BulkCopy::Failed(e) => {
            next.status = SnapshotStatus::Failed;
            next.warning = Some("background bulk-copy failed: ".to_string().concat(e.as_str()));
        },
        BulkCopy::Panicked => {
            next.status = SnapshotStatus::Failed;
            next.warning = Some("background bulk-copy thread panicked".to_string());
        },
    }
    next
}

/// The state after the end of the background copy of `tag` has been taken: the
/// snapshot has moved from those in flight to the registry. Nothing is changed
/// where no copy of `tag` was in flight.
pub open spec fn reaped(before: AppState, after: AppState, tag: Seq<char>, how: BulkCopy) -> bool {
    &&& after.live_in_flight@ == before.live_in_flight@.remove(tag)
    &&& after.snapshot_root == before.snapshot_root
    &&& after.branches == before.branches
    &&& after.prewarm_scratch_dir == before.prewarm_scratch_dir
    &&& after.registry.state.sandboxes == before.registry.state.sandboxes
    &&& after.registry.state.workspaces == before.registry.state.workspaces
    &&& if before.live_in_flight@.contains_key(tag) {
        let m = after.registry.snapshots();
        &&& m == before.registry.snapshots().insert(tag, m[tag])
        &&& is_promoted(before.live_in_flight@[tag], how, m[tag])
    } else {
        after.registry == before.registry
    }
}

impl AppState {
    /// How far the files of `tag` are written, as far as the daemon knows.
    pub open spec fn status_of(&self, tag: Seq<char>) -> SnapshotStatus {
        if self.live_in_flight@.contains_key(tag) {
            SnapshotStatus::Writing
        } else {
            match self.registry.snapshots().get(tag) {
                Some(i) => i.status,
                None => SnapshotStatus::Ready,
            }
        }
    }

    pub fn snapshot_status(&self, tag: &str) -> (r: SnapshotStatus)
        ensures
            r == self.status_of(tag@),
    {
        if self.live_in_flight.contains(tag) {
            return SnapshotStatus::Writing;
        }
        match self.registry.get_snapshot(tag) {
            Some(i) => i.status,
            None => SnapshotStatus::Ready,
        }
    }

    /// The cap on branches holds, and what is in flight is kept under its tag.
    pub open spec fn wf(&self) -> bool {
        &&& self.branches.wf()
        &&& forall|t: Seq<char>| #[trigger]
            self.live_in_flight@.contains_key(t) ==> self.live_in_flight@[t].tag@ == t
    }

    /// A daemon that has just come up.
    pub fn new(registry: Registry, snapshot_root: &str, cap: usize, prewarm_scratch_dir: &str) -> (r:
        Self)
        ensures
            r.wf(),
            r.registry == registry,
            r.snapshot_root@ == snapshot_root@,
            r.branches.cap() == cap,
            r.branches.held() == Set::<Seq<char>>::empty(),
            r.prewarm_scratch_dir@ == prewarm_scratch_dir@,
            r.live_in_flight@ == Map::<Seq<char>, SnapshotInfo>::empty(),
    {
        AppState {
            registry,
            snapshot_root: snapshot_root.to_string(),
            branches: BranchSlots::new(cap),
            prewarm_scratch_dir: prewarm_scratch_dir.to_string(),
            live_in_flight: Table::new(),
        }
    }

    /// Asks for leave to write `tag`.
    pub fn try_acquire_branch_slot(&mut self, tag: &str) -> (r: Result<BranchSlot, BranchSlotError>)
        requires
            old(self).wf(),
        ensures
            final(self).wf(),
            *final(self) == (AppState { branches: final(self).branches, ..*old(self) }),
            final(self).branches.cap() == old(self).branches.cap(),
            match r {
                Ok(slot) => {
                    &&& old(self).branches.held().len() < old(self).branches.cap()
                    &&& !old(self).branches.held().contains(tag@)
                    &&& slot.tag() == tag@
                    &&& final(self).branches.held() == old(self).branches.held().insert(tag@)
                },
                Err(BranchSlotError::CapacityExceeded) => {
                    &&& old(self).branches.held().len() == old(self).branches.cap()
                    &&& final(self).branches.held() == old(self).branches.held()
                },
                Err(BranchSlotError::AlreadyInFlight) => {
                    &&& old(self).branches.held().len() < old(self).branches.cap()
                    &&& old(self).branches.held().contains(tag@)
                    &&& final(self).branches.held() == old(self).branches.held()
                },
            },
    {
        self.branches.try_acquire_branch_slot(tag)
    }

    /// Takes a slot back.
    pub fn release_branch_slot(&mut self, slot: BranchSlot)
        requires
            old(self).wf(),
        ensures
            final(self).wf(),
            *final(self) == (AppState { branches: final(self).branches, ..*old(self) }),
            final(self).branches.cap() == old(self).branches.cap(),
            final(self).branches.held() == old(self).branches.held().remove(slot.tag()),
    {
        self.branches.release(slot);
    }

    /// Takes the end of the background copy of `tag`: the snapshot moves from
    /// those in flight to the registry, ready or failed. Nothing happens where
    /// no copy of `tag` is in flight.
    pub fn reap_live_branch(&mut self, tag: &str, how: &BulkCopy) -> (r: bool)
        requires
            old(self).wf(),
        ensures
            final(self).wf(),
            r == old(self).live_in_flight@.contains_key(tag@),
            reaped(*old(self), *final(self), tag@, *how),
    {
        match self.live_in_flight.remove(tag) {
            Some(info) => {
                let next = promote(info, how);
                self.registry.insert_snapshot(next);
                true
            },
            None => false,
        }
    }

    /// Takes the ends of several background copies.
    pub fn reap_finished_live_branches(&mut self, finished: &Vec<(String, BulkCopy)>)
        requires
            old(self).wf(),
        ensures
            final(self).wf(),
            final(self).snapshot_root == old(self).snapshot_root,
            final(self).branches == old(self).branches,
            final(self).prewarm_scratch_dir == old(self).prewarm_scratch_dir,
            final(self).registry.state.sandboxes == old(self).registry.state.sandboxes,
            final(self).registry.state.workspaces == old(self).registry.state.workspaces,
            forall|t: Seq<char>| #[trigger]
                final(self).live_in_flight@.contains_key(t) <==> old(
                    self,
                ).live_in_flight@.contains_key(t) && !ends(finished@, t),
            forall|t: Seq<char>| #[trigger]
                final(self).live_in_flight@.contains_key(t) ==> final(self).live_in_flight@[t]
                    == old(self).live_in_flight@[t],
            forall|i: int|
                0 <= i < finished@.len() && first_end(finished@, i) && old(
                    self,
                ).live_in_flight@.contains_key(#[trigger] finished@[i].0@) ==> {
                    let tag = finished@[i].0@;
                    &&& final(self).registry.snapshots().contains_key(tag)
                    &&& is_promoted(
                        old(self).live_in_flight@[tag],
                        finished@[i].1,
                        final(self).registry.snapshots()[tag],
                    )
                },
            forall|t: Seq<char>|
                !(old(self).live_in_flight@.contains_key(t) && ends(finished@, t)) ==> (
                #[trigger] final(self).registry.snapshots().contains_key(t) <==> old(
                    self,
                ).registry.snapshots().contains_key(t)) && final(self).registry.snapshots()[t]
                    == old(self).registry.snapshots()[t],
    {
        let ghost start = self.live_in_flight@;
        let mut i: usize = 0;
        while i < finished.len()
            invariant
                i <= finished.len(),
                self.wf(),
                start == old(self).live_in_flight@,
                self.snapshot_root == old(self).snapshot_root,
                self.branches == old(self).branches,
                self.prewarm_scratch_dir == old(self).prewarm_scratch_dir,
                self.registry.state.sandboxes == old(self).registry.state.sandboxes,
                self.registry.state.workspaces == old(self).registry.state.workspaces,
                forall|t: Seq<char>| #[trigger]
                    self.live_in_flight@.contains_key(t) <==> start.contains_key(t) && !ends(
                        finished@.take(i as int),
                        t,
                    ),
                forall|t: Seq<char>| #[trigger]
                    self.live_in_flight@.contains_key(t) ==> self.live_in_flight@[t] == start[t],
                forall|k: int|
                    0 <= k < i && first_end(finished@, k) && start.contains_key(
                        #[trigger] finished@[k].0@,
                    ) ==> {
                        let tag = finished@[k].0@;
                        &&& self.registry.snapshots().contains_key(tag)
                        &&& is_promoted(
                            start[tag],
                            finished@[k].1,
                            self.registry.snapshots()[tag],
                        )
                    },
                forall|t: Seq<char>|
                    !(start.contains_key(t) && ends(finished@.take(i as int), t)) ==> (
                    #[trigger] self.registry.snapshots().contains_key(t) <==> old(
                        self,
                    ).registry.snapshots().contains_key(t)) && self.registry.snapshots()[t] == old(
                        self,
                    ).registry.snapshots()[t],
            decreases finished.len() - i,
        {
            let ghost before = self.live_in_flight@;
            let ghost reg = self.registry.snapshots();
            let ghost tag = finished@[i as int].0@;
            let reaped = self.reap_live_branch(finished[i].0.as_str(), &finished[i].1);
            proof {
                assert forall|t: Seq<char>| #[trigger]
                    self.live_in_flight@.contains_key(t) <==> start.contains_key(t) && !ends(
                        finished@.take(i + 1),
                        t,
                    ) by {
                    lemma_ends_next(finished@, i as int, t);
                    assert(before.contains_key(t) <==> start.contains_key(t) && !ends(
                        finished@.take(i as int),
                        t,
                    ));
                }
                assert forall|k: int|
                    0 <= k < i + 1 && first_end(finished@, k) && start.contains_key(
                        #[trigger] finished@[k].0@,
                    ) implies {
                    let tag = finished@[k].0@;
                    &&& self.registry.snapshots().contains_key(tag)
                    &&& is_promoted(start[tag], finished@[k].1, self.registry.snapshots()[tag])
                } by {
                    if k == i {
                        if ends(finished@.take(i as int), tag) {
                            let f = finished@.take(i as int);
                            let m = choose|m: int| 0 <= m < f.len() && (#[trigger] f[m]).0@ == tag;
                            assert(finished@[m].0@ == tag);
                        }
                        assert(before.contains_key(tag));
                    } else if tag == finished@[k].0@ {
                        assert(finished@.take(i as int)[k].0@ == tag);
                        assert(ends(finished@.take(i as int), tag));
                        assert(!before.contains_key(tag));
                    }
                }
                assert forall|t: Seq<char>|
                    !(start.contains_key(t) && ends(finished@.take(i + 1), t)) implies (
                #[trigger] self.registry.snapshots().contains_key(t) <==> old(
                    self,
                ).registry.snapshots().contains_key(t)) && self.registry.snapshots()[t] == old(
                    self,
                ).registry.snapshots()[t] by {
                    lemma_ends_next(finished@, i as int, t);
                    assert(reg.contains_key(t) <==> old(self).registry.snapshots().contains_key(
                        t,
                    ));
                    if t == tag {
                        assert(!before.contains_key(tag));
                    }
                }
            }
            i += 1;
        }
        assert(finished@.take(i as int) =~= finished@);
    }

    /// `GET /v1/snapshots`: the registered snapshots, then those in flight.
    pub fn list_snapshots(&self) -> (r: Vec<SnapshotInfo>)
        ensures
            ascending(self.registry.state.snapshots.keys()),
            forall|k: Seq<char>| #[trigger]
                self.registry.state.snapshots.keys().contains(k)
                    <==> self.registry.snapshots().contains_key(k),
            ascending(self.live_in_flight.keys()),
            forall|k: Seq<char>| #[trigger]
                self.live_in_flight.keys().contains(k) <==> self.live_in_flight@.contains_key(k),
            r@ == self.registry.state.snapshots.keys().map_values(
                |k: Seq<char>| self.registry.snapshots()[k],
            ) + self.live_in_flight.keys().map_values(|k: Seq<char>| self.live_in_flight@[k]),
    {
        let mut all = self.registry.list_snapshots();
        let mut writing = self.live_in_flight.list();
        all.append(&mut writing);
        all
    }

    /// What a scrape is answered.
    pub open spec fn scraped(&self, build: Seq<char>) -> Seq<char> {
        metrics_text(
            self.registry.snapshots().dom().len(),
            self.registry.sandboxes().dom().len(),
            self.branches.held().len(),
            self.branches.cap(),
            build,
        )
    }

    /// `GET /metrics`.
    pub fn metrics(&self, build: &str) -> (r: String)
        ensures
            r@ == self.scraped(build@),
    {
        let (snapshots, sandboxes) = self.registry.counts();
        metrics(
            snapshots,
            sandboxes,
            self.branches.in_flight(),
            self.branches.concurrency_cap(),
            build,
        )
    }
}

/// Whether a background copy of `tag` ended.
pub open spec fn ends(finished: Seq<(String, BulkCopy)>, tag: Seq<char>) -> bool {
    exists|i: int| 0 <= i < finished.len() && (#[trigger] finished[i]).0@ == tag
}

/// Whether entry `i` is the first about its tag.
pub open spec fn first_end(finished: Seq<(String, BulkCopy)>, i: int) -> bool {
    forall|j: int| 0 <= j < i ==> (#[trigger] finished[j]).0@ != finished[i].0@
}

proof fn lemma_ends_next(finished: Seq<(String, BulkCopy)>, i: int, t: Seq<char>)
    requires
        0 <= i < finished.len(),
    ensures
        ends(finished.take(i + 1), t) <==> ends(finished.take(i), t) || finished[i].0@ == t,
{
    let a = finished.take(i);
    let b = finished.take(i + 1);
    if ends(a, t) {
        let k = choose|k: int| 0 <= k < a.len() && (#[trigger] a[k]).0@ == t;
        assert(b[k].0@ == t);
    }
    if ends(b, t) {
        let k = choose|k: int| 0 <= k < b.len() && (#[trigger] b[k]).0@ == t;
        if k < i {
            assert(a[k].0@ == t);
        }
    }
    assert(b[i].0@ == finished[i].0@);
}

/// The id of the `seq`-th sandbox, made at `now`.
pub open spec fn sandbox_id(now: nat, seq: nat) -> Seq<char> {
    "sb-"@ + hex(now) + "-"@ + pad_left(hex(seq), 4, '0')
}

/// A short id that can stand in a URL.
pub fn new_sandbox_id(now: u64, seq: u64) -> (r: String)
    ensures
        r@ == sandbox_id(now as nat, seq as nat),
{
    let t = hex_string(now);
    let n = hex_string(seq);
    let p = padded_left(n.as_str(), 4, '0');
    "sb-".to_string().concat(t.as_str()).concat("-").concat(p.as_str())
}

/// Two sandboxes have the same id only if both the time and the number agree,
/// so a daemon that counts its sandboxes never repeats one.
pub proof fn law_sandbox_ids_do_not_repeat(now: nat, seq: nat, now2: nat, seq2: nat)
    requires
        sandbox_id(now, seq) == sandbox_id(now2, seq2),
    ensures
        now == now2,
        seq == seq2,
{
    reveal_strlit("-");
    reveal_strlit("sb-");
    lemma_digits_chars(now, 16);
    lemma_digits_chars(now2, 16);
    let a = hex(now) + "-"@ + pad_left(hex(seq), 4, '0');
    let b = hex(now2) + "-"@ + pad_left(hex(seq2), 4, '0');
    assert(sandbox_id(now, seq).skip(3) =~= a);
    assert(sandbox_id(now2, seq2).skip(3) =~= b);
    let n = hex(now).len() as int;
    let m = hex(now2).len() as int;
    assert(a[n] == '-');
    assert(b[m] == '-');
    if n < m {
        assert(b[n] == hex(now2)[n]);
    }
    if m < n {
        assert(a[m] == hex(now)[m]);
    }
    assert(a.take(n) =~= hex(now));
    assert(b.take(m) =~= hex(now2));
    lemma_digits_injective(now, now2, 16);
    assert(a.skip(n + 1) =~= pad_left(hex(seq), 4, '0'));
    assert(b.skip(m + 1) =~= pad_left(hex(seq2), 4, '0'));
    lemma_padded_digits_injective(seq, seq2, 16, 4);
}

} // verus!
