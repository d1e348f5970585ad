//! Merging a diff snapshot's sparse memory file into a base image.
//!
//! Where the diff has data, the base takes it; where the diff has a hole, the
//! base keeps what it has.
use vstd::prelude::*;

use crate::text::{dec, dec_string};

verus! {

/// How much is copied at a time.
pub const MERGE_CHUNK: u64 = 1048576;

/// The two files differ in length.
#[derive(Debug, Clone, Copy, PartialEq, Eq, Structural)]
pub struct SizeMismatch {
    pub diff: u64,
    pub base: u64,
}

impl SizeMismatch {
    pub fn message(&self) -> (r: String)
        ensures
            r@ == "apply_diff: size mismatch (diff="@ + dec(self.diff as nat) + " B vs base="@
                + dec(self.base as nat)
                + " B); refusing to corrupt base — diff and base must have identical logical size"@,
    {
        let d = dec_string(self.diff);
        let b = dec_string(self.base);
        "apply_diff: size mismatch (diff=".to_string().concat(d.as_str()).concat(
            " B vs base=",
        ).concat(b.as_str()).concat(
            " B); refusing to corrupt base — diff and base must have identical logical size",
        )
    }
}

/// A walk over the data regions of a diff. It asks for the next data behind
/// the cursor, then for the hole that ends that data, and hands the region in
/// between out in chunks.
#[derive(Debug, Clone, Copy, PartialEq, Eq)]
pub struct MergeWalk {
    pub len: u64,
    /// Everything before it has been looked at.
    pub cursor: u64,
    /// The end of the region being copied; the cursor where there is none.
    pub region_end: u64,
    pub copied: u64,
}

impl MergeWalk {
    pub open spec fn wf(self) -> bool {
        self.copied <= self.cursor <= self.region_end <= self.len
    }

    /// Starts a merge of two files of these lengths.
    pub fn start(diff_len: u64, base_len: u64) -> (r: Result<MergeWalk, SizeMismatch>)
        ensures
            match r {
                Ok(w) => diff_len == base_len && w.wf() && w.len == diff_len && w.cursor == 0
                    && w.region_end == 0 && w.copied == 0,
                Err(e) => diff_len != base_len && e == (SizeMismatch {
                    diff: diff_len,
                    base: base_len,
                }),
            },
    {
        if diff_len != base_len {
            return Err(SizeMismatch { diff: diff_len, base: base_len });
        }
        Ok(MergeWalk { len: diff_len, cursor: 0, region_end: 0, copied: 0 })
    }

    /// Takes the offset of the next data at or behind the cursor (`None`:
    /// there is none). Answers whether there is a region to copy.
    pub fn on_data(&mut self, data: Option<u64>) -> (more: bool)
        requires
            old(self).wf(),
            old(self).cursor == old(self).region_end,
            data matches Some(d) ==> old(self).cursor <= d,
        ensures
            more == (data matches Some(d) && d < old(self).len),
            final(self).wf(),
            more ==> *final(self) == (MergeWalk {
                cursor: data->0,
                region_end: data->0,
                ..*old(self)
            }),
            !more ==> *final(self) == *old(self),
    {
        match data {
            Some(d) => {
                if d >= self.len {
                    return false;
                }
                self.cursor = d;
                self.region_end = d;
                true
            },
            None => false,
        }
    }

    /// Takes the offset of the hole that ends the data at the cursor.
    pub fn on_hole(&mut self, hole: u64)
        requires
            old(self).wf(),
            old(self).cursor == old(self).region_end,
            old(self).cursor <= hole,
        ensures
            final(self).wf(),
            *final(self) == (MergeWalk {
                region_end: if hole < old(self).len {
                    hole
                } else {
                    old(self).len
                },
                ..*old(self)
            }),
    {
        self.region_end = if hole < self.len {
            hole
        } else {
            self.len
        };
    }

    /// The next chunk of the region, as offset and length; the walk counts it
    /// as copied.
    pub fn next_chunk(&mut self) -> (r: Option<(u64, u64)>)
        requires
            old(self).wf(),
        ensures
            final(self).wf(),
            match r {
                Some((at, n)) => {
                    &&& old(self).cursor < old(self).region_end
                    &&& at == old(self).cursor
                    &&& n == (if old(self).region_end - old(self).cursor < MERGE_CHUNK {
                        old(self).region_end - old(self).cursor
                    } else {
                        MERGE_CHUNK as int
                    })
                    &&& *final(self) == (MergeWalk {
                        cursor: (at + n) as u64,
                        copied: (old(self).copied + n) as u64,
                        ..*old(self)
                    })
                },
                None => old(self).cursor == old(self).region_end && *final(self) == *old(self),
            },
    {
        if self.cursor == self.region_end {
            return None;
        }
        let remaining: u64 = self.region_end - self.cursor;
        let n: u64 = if remaining < MERGE_CHUNK {
            remaining
        } else {
            MERGE_CHUNK
        };
        let at: u64 = self.cursor;
        self.cursor = at + n;
        self.copied = self.copied + n;
        Some((at, n))
    }
}

/// A region of a sparse file that holds data.
#[derive(Debug, Clone, Copy, PartialEq, Eq, Structural)]
pub struct Extent {
    pub start: u64,
    pub end: u64,
}

/// What a file system reports of a file: data regions that are not empty, in
/// order and with holes between them.
pub open spec fn extents_ok(e: Seq<Extent>) -> bool {
    &&& forall|i: int| 0 <= i < e.len() ==> (#[trigger] e[i]).start < e[i].end
    &&& forall|i: int, j: int|
        0 <= i < j < e.len() ==> (#[trigger] e[i]).end < (#[trigger] e[j]).start
}

/// Whether offset `i` lies in a data region.
pub open spec fn is_data(e: Seq<Extent>, i: int) -> bool {
    exists|k: int| 0 <= k < e.len() && (#[trigger] e[k]).start <= i < e[k].end
}

/// The base after the merge.
pub open spec fn merged(base: Seq<u8>, diff: Seq<u8>, e: Seq<Extent>) -> Seq<u8> {
    Seq::new(base.len(), |i: int| if is_data(e, i) { diff[i] } else { base[i] })
}

/// The first offset at or behind `from` that holds data.
pub fn seek_data(e: &Vec<Extent>, from: u64) -> (r: Option<u64>)
    requires
        extents_ok(e@),
    ensures
        match r {
            Some(d) => {
                &&& from <= d
                &&& is_data(e@, d as int)
                &&& forall|i: int| from <= i < d ==> !is_data(e@, i)
            },
            None => forall|i: int| from <= i ==> !is_data(e@, i),
        },
{
    let mut k: usize = 0;
    while k < e.len()
        invariant
            k <= e.len(),
            extents_ok(e@),
            forall|j: int| 0 <= j < k ==> (#[trigger] e@[j]).end <= from,
        decreases e.len() - k,
    {
        if e[k].end > from {
            let d: u64 = if e[k].start > from {
                e[k].start
            } else {
                from
            };
            proof {
                assert(e@[k as int].start <= d < e@[k as int].end);
                assert forall|i: int| from <= i < d implies !is_data(e@, i) by {
                    if is_data(e@, i) {
                        let m = choose|m: int|
                            0 <= m < e@.len() && (#[trigger] e@[m]).start <= i < e@[m].end;
                        if m > k {
                            assert(e@[k as int].end < e@[m].start);
                        }
                    }
                }
            }
            return Some(d);
        }
        k += 1;
    }
    None
}

/// The first offset at or behind `from`, which holds data, that does not.
pub fn seek_hole(e: &Vec<Extent>, from: u64) -> (r: u64)
    requires
        extents_ok(e@),
        is_data(e@, from as int),
    ensures
        from < r,
        !is_data(e@, r as int),
        forall|i: int| from <= i < r ==> is_data(e@, i),
{
    let mut k: usize = 0;
    while k < e.len()
        invariant
            k <= e.len(),
            extents_ok(e@),
            is_data(e@, from as int),
            forall|j: int| 0 <= j < k ==> !((#[trigger] e@[j]).start <= from < e@[j].end),
        decreases e.len() - k,
    {
        if e[k].start <= from && from < e[k].end {
            proof {
                let x = e@[k as int];
                assert forall|i: int| from <= i < x.end implies is_data(e@, i) by {
                    assert(e@[k as int].start <= i < e@[k as int].end);
                }
                if is_data(e@, x.end as int) {
                    let m = choose|m: int|
                        0 <= m < e@.len() && (#[trigger] e@[m]).start <= x.end < e@[m].end;
                    if m < k {
                        assert(e@[m].end < e@[k as int].start);
                    } else if m > k {
                        assert(e@[k as int].end < e@[m].start);
                    }
                }
            }
            return e[k].end;
        }
        k += 1;
    }
    proof {
        let m = choose|m: int|
            0 <= m < e@.len() && (#[trigger] e@[m]).start <= from < e@[m].end;
        assert(e@[m].start <= from < e@[m].end);
    }
    from
}

/// How many of the offsets from `lo` up to `hi` hold data.
pub open spec fn data_count(e: Seq<Extent>, lo: int, hi: int) -> int
    decreases hi - lo,
{
    if hi <= lo {
        0
    } else {
        data_count(e, lo, hi - 1) + (if is_data(e, hi - 1) {
            1int
        } else {
            0int
        })
    }
}

proof fn lemma_count_none(e: Seq<Extent>, lo: int, mid: int, hi: int)
    requires
        lo <= mid <= hi,
        forall|i: int| mid <= i < hi ==> !is_data(e, i),
    ensures
        data_count(e, lo, hi) == data_count(e, lo, mid),
    decreases hi - mid,
{
    if mid < hi {
        lemma_count_none(e, lo, mid, hi - 1);
    }
}

proof fn lemma_count_all(e: Seq<Extent>, lo: int, mid: int, hi: int)
    requires
        lo <= mid <= hi,
        forall|i: int| mid <= i < hi ==> is_data(e, i),
    ensures
        data_count(e, lo, hi) == data_count(e, lo, mid) + (hi - mid),
    decreases hi - mid,
{
    if mid < hi {
        lemma_count_all(e, lo, mid, hi - 1);
    }
}

fn copy_range(diff: &Vec<u8>, base: &mut Vec<u8>, at: usize, n: usize)
    requires
        at + n <= old(base)@.len(),
        diff@.len() == old(base)@.len(),
    ensures
        final(base)@.len() == old(base)@.len(),
        forall|i: int|
            0 <= i < old(base)@.len() ==> #[trigger] final(base)@[i] == (if at <= i < at + n {
                diff@[i]
            } else {
                old(base)@[i]
            }),
{
    let mut k: usize = 0;
    while k < n
        invariant
            k <= n,
            at + n <= base.len(),
            base@.len() == old(base)@.len(),
            diff@.len() == base@.len(),
            forall|i: int|
                0 <= i < base@.len() ==> #[trigger] base@[i] == (if at <= i < at + k {
                    diff@[i]
                } else {
                    old(base)@[i]
                }),
        decreases n - k,
    {
        let b = diff[at + k];
        base.set(at + k, b);
        k += 1;
    }
}

/// Merges the diff into the base: every byte of data in the diff replaces the
/// byte at the same offset of the base, and everything else stays. Says how
/// many bytes were copied. Files of different lengths are refused, and the
/// base is not touched.
pub fn apply_diff(diff: &Vec<u8>, extents: &Vec<Extent>, base: &mut Vec<u8>) -> (r: Result<
    u64,
    SizeMismatch,
>)
    requires
        extents_ok(extents@),
    ensures
        match r {
            Ok(n) => {
                &&& diff@.len() == old(base)@.len()
                &&& final(base)@ == merged(old(base)@, diff@, extents@)
                &&& n == data_count(extents@, 0, diff@.len() as int)
            },
            Err(e) => {
                &&& diff@.len() != old(base)@.len()
                &&& e == (SizeMismatch {
                    diff: diff@.len() as u64,
                    base: old(base)@.len() as u64,
                })
                &&& final(base)@ == old(base)@
            },
        },
{
    let mut walk = match MergeWalk::start(diff.len() as u64, base.len() as u64) {
        Ok(w) => w,
        Err(e) => {
            return Err(e);
        },
    };
    let ghost start = base@;
    let total: usize = diff.len();
    loop
        invariant
            extents_ok(extents@),
            walk.wf(),
            walk.cursor == walk.region_end,
            walk.len == total,
            total == diff@.len(),
            diff@.len() == base@.len(),
            base@.len() == start.len(),
            start == old(base)@,
            walk.copied == data_count(extents@, 0, walk.cursor as int),
            forall|i: int|
                0 <= i < base@.len() ==> #[trigger] base@[i] == (if i < walk.cursor && is_data(
                    extents@,
                    i,
                ) {
                    diff@[i]
                } else {
                    start[i]
                }),
        ensures
            diff@.len() == start.len(),
            start == old(base)@,
            base@ == merged(start, diff@, extents@),
            walk.copied == data_count(extents@, 0, diff@.len() as int),
        decreases walk.len - walk.cursor,
    {
        let ghost from = walk.cursor;
        let data = seek_data(extents, walk.cursor);
        if !walk.on_data(data) {
            proof {
                lemma_count_none(extents@, 0, from as int, diff@.len() as int);
                assert(base@ =~= merged(start, diff@, extents@));
            }
            break;
        }
        proof {
            lemma_count_none(extents@, 0, from as int, walk.cursor as int);
        }
        let ghost at0 = walk.cursor;
        let hole = seek_hole(extents, walk.cursor);
        walk.on_hole(hole);
        let ghost end = walk.region_end;
        loop
            invariant
                extents_ok(extents@),
                walk.wf(),
                walk.len == total,
                total == diff@.len(),
                walk.region_end == end,
                end <= hole,
                from <= at0 <= walk.cursor <= end,
                at0 < end,
                diff@.len() == base@.len(),
                base@.len() == start.len(),
                forall|i: int| from <= i < at0 ==> !is_data(extents@, i),
                forall|i: int| at0 <= i < hole ==> is_data(extents@, i),
                walk.copied == data_count(extents@, 0, walk.cursor as int),
                forall|i: int|
                    0 <= i < base@.len() ==> #[trigger] base@[i] == (if i < walk.cursor && is_data(
                        extents@,
                        i,
                    ) {
                        diff@[i]
                    } else {
                        start[i]
                    }),
            ensures
                walk.wf(),
                walk.cursor == walk.region_end,
                walk.region_end == end,
                walk.len == total,
                total == diff@.len(),
                at0 < end,
                from <= at0,
                diff@.len() == base@.len(),
                base@.len() == start.len(),
                walk.copied == data_count(extents@, 0, walk.cursor as int),
                forall|i: int|
                    0 <= i < base@.len() ==> #[trigger] base@[i] == (if i < walk.cursor && is_data(
                        extents@,
                        i,
                    ) {
                        diff@[i]
                    } else {
                        start[i]
                    }),
            decreases walk.region_end - walk.cursor,
        {
            let ghost before = walk.cursor;
            match walk.next_chunk() {
                Some((at, n)) => {
                    proof {
                        lemma_count_all(extents@, 0, before as int, walk.cursor as int);
                    }
                    assert(at + n <= total);
                    copy_range(diff, base, at as usize, n as usize);
                },
                None => {
                    break;
                },
            }
        }
    }
    Ok(walk.copied)
}

/// A merge keeps the base's length, changes nothing under a hole, and doing it
/// again changes nothing more.
pub proof fn law_merge_is_idempotent(base: Seq<u8>, diff: Seq<u8>, e: Seq<Extent>)
    ensures
        merged(base, diff, e).len() == base.len(),
        forall|i: int|
            0 <= i < base.len() && !is_data(e, i) ==> #[trigger] merged(base, diff, e)[i]
                == base[i],
        merged(merged(base, diff, e), diff, e) == merged(base, diff, e),
{
    assert(merged(merged(base, diff, e), diff, e) =~= merged(base, diff, e));
}

/// Where a diff holds the memory of a later time at every offset that changed
/// since the base was taken, merging it turns the base into that memory.
pub proof fn law_merge_gives_later_memory(
    base: Seq<u8>,
    diff: Seq<u8>,
    e: Seq<Extent>,
    later: Seq<u8>,
)
    requires
        later.len() == base.len(),
        forall|i: int| 0 <= i < base.len() && later[i] != base[i] ==> #[trigger] is_data(e, i),
        forall|i: int| 0 <= i < base.len() && #[trigger] is_data(e, i) ==> diff[i] == later[i],
    ensures
        merged(base, diff, e) == later,
{
    assert forall|i: int| 0 <= i < base.len() implies merged(base, diff, e)[i] == later[i] by {
        if later[i] != base[i] {
            assert(is_data(e, i));
        }
    }
    assert(merged(base, diff, e) =~= later);
}

} // verus!
