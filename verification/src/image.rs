//! What the steps of a branch or a suspend leave on disk.
//!
//! The guest goes on writing to its memory while the steps are carried out,
//! except while it is paused; `mem[i]` is its memory when step `i` is. A
//! snapshot is a vmstate and a memory file.
use vstd::prelude::*;

use crate::api::BranchMode;
use crate::branch::{fatal, resumed_on_failure, steps_of, BranchStep};
use crate::daemon::AppState;
use crate::merge::{is_data, law_merge_gives_later_memory, merged, Extent};
use crate::paths::joined_path;
use crate::workspaces::{
    is_suspend_plan, suspend_base, suspend_steps_of, SuspendFacts, SuspendPlan,
};

verus! {

/// A guest and the snapshot that is taken of it.
pub ghost struct Shot {
    pub paused: bool,
    /// Whether the snapshot's directory is there.
    pub dir: bool,
    /// The memory file; None where there is none or nobody can say what it
    /// holds.
    pub memory: Option<Seq<u8>>,
    /// The guest's memory when its vmstate was written.
    pub vmstate: Option<Seq<u8>>,
    /// What is being copied to the memory file.
    pub copying: Option<Seq<u8>>,
    /// A diff on its own, and where it holds data.
    pub diff: Option<(Seq<u8>, Seq<Extent>)>,
    /// Where the guest has written since it was restored or last snapshotted.
    pub dirty: Seq<Extent>,
    /// The memory that a capture saves page by page.
    pub frozen: Option<Seq<u8>>,
}

impl Shot {
    /// Whether a snapshot can be taken: of a guest that stands still, into a
    /// directory that is there.
    pub open spec fn ready(self) -> bool {
        self.paused && self.dir
    }

    /// What one step does, where the guest's memory is `now` and a diff goes
    /// on top of `base`; None for a base that is in its place already.
    pub open spec fn step(self, s: BranchStep, now: Seq<u8>, base: Option<Seq<u8>>) -> Shot {
        match s {
            BranchStep::CreateDir => Shot { dir: true, ..self },
            BranchStep::Preallocate => Shot {
                memory: if self.dir {
                    Some(Seq::new(now.len(), |i: int| 0u8))
                } else {
                    None
                },
                ..self
            },
            BranchStep::StartCopy => match base {
                Some(b) => Shot {
                    copying: if self.dir {
                        Some(b)
                    } else {
                        None
                    },
                    memory: None,
                    ..self
                },
                None => self,
            },
            BranchStep::ArmWriteProtect => Shot { frozen: Some(now), ..self },
            BranchStep::Pause => Shot { paused: true, ..self },
            BranchStep::MeasureDiff => Shot { dirty: Seq::empty(), ..self },
            BranchStep::TakeFull => if self.ready() {
                Shot { memory: Some(now), vmstate: Some(now), dirty: Seq::empty(), ..self }
            } else {
                Shot { memory: None, vmstate: None, ..self }
            },
            BranchStep::TakeDiff => if self.ready() {
                Shot {
                    diff: Some((now, self.dirty)),
                    vmstate: Some(now),
                    dirty: Seq::empty(),
                    ..self
                }
            } else {
                Shot { diff: None, vmstate: None, ..self }
            },
            BranchStep::TakeVmstate => if self.ready() {
                Shot { vmstate: Some(now), ..self }
            } else {
                Shot { vmstate: None, ..self }
            },
            BranchStep::Resume => Shot { paused: false, ..self },
            BranchStep::JoinCopy => match self.copying {
                Some(b) => Shot { memory: Some(b), copying: None, ..self },
                None => self,
            },
            BranchStep::ApplyDiff => match (self.memory, self.diff) {
                (Some(m), Some((d, e))) => Shot {
                    memory: Some(merged(m, d, e)),
                    diff: None,
                    ..self
                },
                _ => Shot { memory: None, ..self },
            },
            // Either way the file ends up with the memory that was protected:
            // a capture holds one moment, whatever the guest writes meanwhile.
            BranchStep::DriveBulkCopy | BranchStep::HandOver => Shot {
                memory: self.frozen,
                ..self
            },
        }
    }

    /// What the first `n` steps leave; a step that fails does nothing.
    pub open spec fn after(
        self,
        steps: Seq<BranchStep>,
        done: Seq<bool>,
        mem: Seq<Seq<u8>>,
        base: Option<Seq<u8>>,
        n: int,
    ) -> Shot
        decreases n,
    {
        if n <= 0 {
            self
        } else {
            let before = self.after(steps, done, mem, base, n - 1);
            if done[n - 1] {
                before.step(steps[n - 1], mem[n - 1], base)
            } else {
                before
            }
        }
    }

    /// A paused guest writes nothing, and memory does not change its size.
    pub open spec fn steady(
        self,
        steps: Seq<BranchStep>,
        done: Seq<bool>,
        mem: Seq<Seq<u8>>,
        base: Option<Seq<u8>>,
    ) -> bool {
        &&& mem.len() == steps.len()
        &&& done.len() == steps.len()
        &&& forall|i: int, j: int|
            0 <= i < j < steps.len() ==> (#[trigger] mem[i]).len() == (#[trigger] mem[j]).len()
        &&& forall|i: int|
            0 < i < steps.len() && #[trigger] self.after(steps, done, mem, base, i).paused
                ==> mem[i] == mem[i - 1]
    }

    /// A guest that runs, before anything has been done.
    pub open spec fn running(memory: Option<Seq<u8>>, dirty: Seq<Extent>) -> Shot {
        Shot {
            paused: false,
            dir: false,
            memory,
            vmstate: None,
            copying: None,
            diff: None,
            dirty,
            frozen: None,
        }
    }
}

/// Whether the guest's dirty log misses nothing: what differs from `base` has
/// been written to.
pub open spec fn logged(base: Seq<u8>, now: Seq<u8>, dirty: Seq<Extent>) -> bool {
    &&& base.len() == now.len()
    &&& forall|k: int| 0 <= k < base.len() && now[k] != base[k] ==> #[trigger] is_data(dirty, k)
}

proof fn lemma_diff_on_base(base: Seq<u8>, now: Seq<u8>, dirty: Seq<Extent>)
    requires
        logged(base, now, dirty),
    ensures
        merged(base, now, dirty) == now,
{
    law_merge_gives_later_memory(base, now, dirty, now);
}

proof fn lemma_full_branch(
    measure_diff: bool,
    wait: bool,
    base: Seq<u8>,
    dirty: Seq<Extent>,
    mem: Seq<Seq<u8>>,
    done: Seq<bool>,
)
    requires
        ({
            let steps = steps_of(BranchMode::Full, measure_diff, wait);
            &&& Shot::running(None, dirty).steady(steps, done, mem, Some(base))
            &&& forall|i: int|
                0 <= i < steps.len() && !(#[trigger] done[i]) ==> !fatal(BranchMode::Full, steps[i])
        }),
    ensures
        ({
            let steps = steps_of(BranchMode::Full, measure_diff, wait);
            let end = Shot::running(None, dirty).after(
                steps,
                done,
                mem,
                Some(base),
                steps.len() as int,
            );
            &&& end.memory == Some(mem[2])
            &&& end.vmstate == Some(mem[2])
            &&& done[steps.len() - 1] ==> !end.paused
        }),
{
    let start = Shot::running(None, dirty);
    let b = Some(base);
    let steps = steps_of(BranchMode::Full, measure_diff, wait);
    assert(done[0] && done[2] && done[3]);
    let s1 = start.after(steps, done, mem, b, 1);
    assert(s1.dir && !s1.paused) by {
        reveal_with_fuel(Shot::after, 2);
    }
    let s2 = start.after(steps, done, mem, b, 2);
    assert(s2.dir && !s2.paused);
    let s3 = start.after(steps, done, mem, b, 3);
    assert(s3.dir && s3.paused);
    assert(mem[3] == mem[2]);
    let s4 = start.after(steps, done, mem, b, 4);
    let s5 = start.after(steps, done, mem, b, 5);
    if measure_diff {
        assert(done[4]);
        assert(s4.dir && s4.paused);
        assert(mem[4] == mem[3]);
        assert(s5.memory == Some(mem[2]) && s5.vmstate == Some(mem[2]));
        let s6 = start.after(steps, done, mem, b, 6);
        assert(s6.memory == s5.memory && s6.vmstate == s5.vmstate);
    } else {
        assert(s4.memory == Some(mem[2]) && s4.vmstate == Some(mem[2]));
        assert(s5.memory == s4.memory && s5.vmstate == s4.vmstate);
    }
}

proof fn lemma_diff_branch(
    measure_diff: bool,
    wait: bool,
    base: Seq<u8>,
    dirty: Seq<Extent>,
    mem: Seq<Seq<u8>>,
    done: Seq<bool>,
)
    requires
        ({
            let steps = steps_of(BranchMode::Diff, measure_diff, wait);
            &&& Shot::running(None, dirty).steady(steps, done, mem, Some(base))
            &&& forall|i: int|
                0 <= i < steps.len() && !(#[trigger] done[i]) ==> !fatal(BranchMode::Diff, steps[i])
            &&& logged(base, mem[3], dirty)
        }),
    ensures
        ({
            let steps = steps_of(BranchMode::Diff, measure_diff, wait);
            let end = Shot::running(None, dirty).after(
                steps,
                done,
                mem,
                Some(base),
                steps.len() as int,
            );
            &&& end.memory == Some(mem[3])
            &&& end.vmstate == Some(mem[3])
            &&& done[5] ==> !end.paused
        }),
{
    let start = Shot::running(None, dirty);
    let b = Some(base);
    let steps = steps_of(BranchMode::Diff, measure_diff, wait);
    assert(done[0] && done[2] && done[3] && done[4] && done[6] && done[7]);
    let s1 = start.after(steps, done, mem, b, 1);
    assert(s1.dir && !s1.paused && s1.dirty == dirty) by {
        reveal_with_fuel(Shot::after, 2);
    }
    let s2 = start.after(steps, done, mem, b, 2);
    assert(s2.dir && !s2.paused && s2.dirty == dirty);
    let s3 = start.after(steps, done, mem, b, 3);
    assert(s3.dir && s3.dirty == dirty && s3.copying == b);
    let s4 = start.after(steps, done, mem, b, 4);
    assert(s4.paused && s4.dir && s4.dirty == dirty && s4.copying == b);
    assert(mem[4] == mem[3]);
    let s5 = start.after(steps, done, mem, b, 5);
    assert(s5.diff == Some((mem[3], dirty)) && s5.vmstate == Some(mem[3]) && s5.copying == b);
    let s6 = start.after(steps, done, mem, b, 6);
    assert(s6.diff == s5.diff && s6.vmstate == s5.vmstate && s6.copying == b);
    let s7 = start.after(steps, done, mem, b, 7);
    assert(s7.diff == s5.diff && s7.vmstate == s5.vmstate && s7.memory == b);
    lemma_diff_on_base(base, mem[3], dirty);
    let s8 = start.after(steps, done, mem, b, 8);
    assert(s8.memory == Some(mem[3]));
}

proof fn lemma_live_branch(
    measure_diff: bool,
    wait: bool,
    base: Seq<u8>,
    dirty: Seq<Extent>,
    mem: Seq<Seq<u8>>,
    done: Seq<bool>,
)
    requires
        ({
            let steps = steps_of(BranchMode::Live, measure_diff, wait);
            &&& Shot::running(None, dirty).steady(steps, done, mem, Some(base))
            &&& forall|i: int|
                0 <= i < steps.len() && !(#[trigger] done[i]) ==> !fatal(BranchMode::Live, steps[i])
        }),
    ensures
        ({
            let steps = steps_of(BranchMode::Live, measure_diff, wait);
            let end = Shot::running(None, dirty).after(
                steps,
                done,
                mem,
                Some(base),
                steps.len() as int,
            );
            &&& end.memory == Some(mem[2])
            &&& end.vmstate == Some(mem[3])
            &&& !end.paused
        }),
{
    let start = Shot::running(None, dirty);
    let b = Some(base);
    let steps = steps_of(BranchMode::Live, measure_diff, wait);
    assert(done[0] && done[2] && done[3] && done[4] && done[5] && done[6]);
    let s1 = start.after(steps, done, mem, b, 1);
    assert(s1.dir && !s1.paused) by {
        reveal_with_fuel(Shot::after, 2);
    }
    let s2 = start.after(steps, done, mem, b, 2);
    assert(s2.dir && !s2.paused);
    let s3 = start.after(steps, done, mem, b, 3);
    assert(s3.dir && s3.frozen == Some(mem[2]));
    let s4 = start.after(steps, done, mem, b, 4);
    assert(s4.paused && s4.dir && s4.frozen == Some(mem[2]));
    assert(mem[4] == mem[3]);
    let s5 = start.after(steps, done, mem, b, 5);
    assert(s5.vmstate == Some(mem[3]) && s5.frozen == Some(mem[2]));
    let s6 = start.after(steps, done, mem, b, 6);
    assert(!s6.paused && s6.vmstate == Some(mem[3]) && s6.frozen == Some(mem[2]));
    let s7 = start.after(steps, done, mem, b, 7);
    assert(s7.memory == Some(mem[2]));
}

/// A branch that is not failed leaves a whole snapshot, even where steps that
/// it can do without failed: the vmstate is of the moment of the pause, and
/// the memory file holds the guest's memory of that moment, in full and not as
/// a diff. A live branch's holds the memory of the moment when writes began to
/// be caught, which comes before the pause. Where every step went well, the
/// source runs again.
pub proof fn law_branch_snapshot_is_whole(
    mode: BranchMode,
    measure_diff: bool,
    wait: bool,
    base: Seq<u8>,
    dirty: Seq<Extent>,
    mem: Seq<Seq<u8>>,
    done: Seq<bool>,
    p: int,
)
    requires
        ({
            let steps = steps_of(mode, measure_diff, wait);
            &&& Shot::running(None, dirty).steady(steps, done, mem, Some(base))
            &&& forall|i: int|
                0 <= i < steps.len() && !(#[trigger] done[i]) ==> !fatal(mode, steps[i])
            &&& 0 <= p < steps.len() && steps[p] == BranchStep::Pause
            &&& mode == BranchMode::Diff ==> logged(base, mem[p], dirty)
        }),
    ensures
        ({
            let steps = steps_of(mode, measure_diff, wait);
            let end = Shot::running(None, dirty).after(
                steps,
                done,
                mem,
                Some(base),
                steps.len() as int,
            );
            &&& end.vmstate == Some(mem[p])
            &&& mode != BranchMode::Live ==> end.memory == Some(mem[p])
            &&& mode == BranchMode::Live ==> exists|a: int|
                0 <= a < p && #[trigger] steps[a] == BranchStep::ArmWriteProtect && end.memory
                    == Some(mem[a])
            &&& (forall|i: int| 0 <= i < steps.len() ==> #[trigger] done[i]) ==> !end.paused
        }),
{
    let steps = steps_of(mode, measure_diff, wait);
    match mode {
        BranchMode::Full => {
            assert(p == 2);
            lemma_full_branch(measure_diff, wait, base, dirty, mem, done);
        },
        BranchMode::Diff => {
            assert(p == 3);
            lemma_diff_branch(measure_diff, wait, base, dirty, mem, done);
        },
        BranchMode::Live => {
            assert(p == 3);
            assert(steps[2] == BranchStep::ArmWriteProtect);
            lemma_live_branch(measure_diff, wait, base, dirty, mem, done);
        },
    }
}

/// Every branch pauses its source, and hands a capture over to the background
/// exactly where it is not waited for.
pub proof fn law_branch_pauses_its_source(mode: BranchMode, measure_diff: bool, wait: bool)
    ensures
        steps_of(mode, measure_diff, wait).contains(BranchStep::Pause),
        steps_of(mode, measure_diff, wait).contains(BranchStep::HandOver) <==> mode
            == BranchMode::Live && !wait,
        steps_of(mode, measure_diff, wait).contains(BranchStep::MeasureDiff) <==> mode
            == BranchMode::Full && measure_diff,
{
    let steps = steps_of(mode, measure_diff, wait);
    match mode {
        BranchMode::Full => {
            assert(steps[2] == BranchStep::Pause);
            if measure_diff {
                assert(steps[3] == BranchStep::MeasureDiff);
            }
        },
        BranchMode::Diff => {
            assert(steps[3] == BranchStep::Pause);
        },
        BranchMode::Live => {
            assert(steps[3] == BranchStep::Pause);
            if !wait {
                assert(steps[6] == BranchStep::HandOver);
            }
        },
    }
}

/// A live branch never leaves its source paused: where a step fails, the
/// source runs or is resumed at once, unless resuming is what failed.
pub proof fn law_failed_live_branch_leaves_source_running(
    measure_diff: bool,
    wait: bool,
    base: Seq<u8>,
    dirty: Seq<Extent>,
    mem: Seq<Seq<u8>>,
    done: Seq<bool>,
    i: int,
)
    requires
        ({
            let steps = steps_of(BranchMode::Live, measure_diff, wait);
            &&& 0 <= i < steps.len() && steps[i] != BranchStep::Resume
            &&& forall|j: int| 0 <= j < i ==> #[trigger] done[j]
        }),
    ensures
        ({
            let steps = steps_of(BranchMode::Live, measure_diff, wait);
            Shot::running(None, dirty).after(steps, done, mem, Some(base), i).paused
                ==> resumed_on_failure(steps[i])
        }),
{
    let steps = steps_of(BranchMode::Live, measure_diff, wait);
    reveal_with_fuel(Shot::after, 8);
    assert(forall|j: int| 0 <= j < i ==> done[j]);
    if i > 0 {
        assert(done[0]);
    }
    if i > 1 {
        assert(done[1]);
    }
    if i > 2 {
        assert(done[2]);
    }
    if i > 3 {
        assert(done[3]);
    }
    if i > 4 {
        assert(done[4]);
    }
    if i > 5 {
        assert(done[5]);
    }
}

// ---------------------------------------------------------------------
// Suspends
// ---------------------------------------------------------------------

/// The files when the steps of a suspend begin: its directory has been
/// cleared where the plan says so.
pub open spec fn files_at_start(p: SuspendPlan, files: Map<Seq<char>, Seq<u8>>) -> Map<
    Seq<char>,
    Seq<u8>,
> {
    if p.clear {
        files.remove(joined_path(p.snap_dir@, "memory.bin"@))
    } else {
        files
    }
}

/// What the plan copies to the memory file, where it copies anything.
pub open spec fn copied(p: SuspendPlan, files: Map<Seq<char>, Seq<u8>>) -> Option<Seq<u8>> {
    match p.copy_from {
        Some(path) => files_at_start(p, files).get(path@),
        None => None,
    }
}

/// The guest and its snapshot before the steps of a suspend.
pub open spec fn at_suspend(
    p: SuspendPlan,
    files: Map<Seq<char>, Seq<u8>>,
    dirty: Seq<Extent>,
) -> Shot {
    Shot::running(files_at_start(p, files).get(joined_path(p.snap_dir@, "memory.bin"@)), dirty)
}

/// A suspend, whether of everything or of what changed, leaves the vmstate and
/// the memory of the moment of the pause: what is resumed later is what was
/// suspended. The base of a diff is looked for where the workspace's entry
/// says, and may be the very file that is written.
pub proof fn law_suspend_keeps_the_whole_state(
    plan: SuspendPlan,
    s: AppState,
    name: Seq<char>,
    diff: bool,
    facts: SuspendFacts,
    files: Map<Seq<char>, Seq<u8>>,
    dirty: Seq<Extent>,
    mem: Seq<Seq<u8>>,
    p: int,
)
    requires
        is_suspend_plan(plan, s, name, diff, facts),
        ({
            let steps = suspend_steps_of(diff);
            let base = suspend_base(s, s.registry.workspaces()[name], facts.last_branch_exists);
            let done = Seq::new(steps.len(), |i: int| true);
            &&& at_suspend(plan, files, dirty).steady(steps, done, mem, copied(plan, files))
            &&& 0 <= p < steps.len() && steps[p] == BranchStep::Pause
            &&& diff ==> files.contains_key(base) && logged(files[base], mem[p], dirty)
        }),
    ensures
        ({
            let steps = suspend_steps_of(diff);
            let done = Seq::new(steps.len(), |i: int| true);
            let end = at_suspend(plan, files, dirty).after(
                steps,
                done,
                mem,
                copied(plan, files),
                steps.len() as int,
            );
            &&& end.vmstate == Some(mem[p])
            &&& end.memory == Some(mem[p])
            &&& !end.paused
        }),
{
    let steps = suspend_steps_of(diff);
    let done = Seq::new(steps.len(), |i: int| true);
    let start = at_suspend(plan, files, dirty);
    let b = copied(plan, files);
    let base = suspend_base(s, s.registry.workspaces()[name], facts.last_branch_exists);
    let place = joined_path(plan.snap_dir@, "memory.bin"@);
    let s1 = start.after(steps, done, mem, b, 1);
    assert(s1 == Shot { dir: true, ..start }) by {
        reveal_with_fuel(Shot::after, 2);
    }
    let s2 = start.after(steps, done, mem, b, 2);
    let s3 = start.after(steps, done, mem, b, 3);
    let s4 = start.after(steps, done, mem, b, 4);
    if diff {
        assert(p == 2);
        if base == place {
            assert(b is None);
            assert(s2.memory == Some(files[base]) && s2.copying is None);
        } else {
            assert(b == Some(files[base]));
            assert(s2.copying == b);
        }
        assert(s3.paused && s3.dir && s3.dirty == dirty);
        assert(mem[3] == mem[2]);
        assert(s4.diff == Some((mem[2], dirty)) && s4.vmstate == Some(mem[2]));
        assert(s4.copying == s2.copying && s4.memory == s2.memory);
        let s5 = start.after(steps, done, mem, b, 5);
        assert(s5.diff == s4.diff && s5.vmstate == s4.vmstate && s5.copying == s4.copying
            && s5.memory == s4.memory && !s5.paused);
        let s6 = start.after(steps, done, mem, b, 6);
        assert(s6.memory == Some(files[base]) && s6.diff == s4.diff && s6.vmstate == s4.vmstate
            && !s6.paused);
        lemma_diff_on_base(files[base], mem[2], dirty);
        let s7 = start.after(steps, done, mem, b, 7);
        assert(s7.memory == Some(mem[2]));
    } else {
        assert(p == 1);
        assert(s2.paused && s2.dir);
        assert(mem[2] == mem[1]);
        assert(s3.memory == Some(mem[1]) && s3.vmstate == Some(mem[1]));
        assert(s4.memory == s3.memory && s4.vmstate == s3.vmstate);
    }
}

/// A suspend pauses its guest, and what it takes is what was asked for.
pub proof fn law_suspend_takes_what_was_asked_for(diff: bool)
    ensures
        suspend_steps_of(diff).contains(BranchStep::Pause),
        suspend_steps_of(diff).contains(BranchStep::TakeDiff) <==> diff,
        suspend_steps_of(diff).contains(BranchStep::TakeFull) <==> !diff,
{
    let steps = suspend_steps_of(diff);
    if diff {
        assert(steps[2] == BranchStep::Pause && steps[3] == BranchStep::TakeDiff);
    } else {
        assert(steps[1] == BranchStep::Pause && steps[2] == BranchStep::TakeFull);
    }
}

} // verus!
