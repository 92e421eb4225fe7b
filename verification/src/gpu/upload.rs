//! Uploading instance lists: how buffers grow, and which records changed.
use vstd::prelude::*;

use crate::gpu::instance::ShapeInstance;
use crate::scalar::Scalar;

verus! {

/// `cap` doubled until it holds `needed` records.
pub open spec fn grown(cap: nat, needed: nat) -> nat
    decreases
            (if cap >= needed {
                0
            } else {
                needed - cap
            }),
{
    if cap == 0 || cap >= needed {
        cap
    } else {
        grown(cap * 2, needed)
    }
}

/// The capacity a buffer has after `needed` records were asked of it.
pub open spec fn capacity_for(cap: nat, needed: nat) -> nat {
    if needed > cap {
        grown(
            if cap == 0 {
                1
            } else {
                cap
            },
            needed,
        )
    } else {
        cap
    }
}

/// Grow a capacity by doubling, if it is too small.
pub fn grow_capacity(cap: u64, needed: u32) -> (r: u64)
    ensures
        r == capacity_for(cap as nat, needed as nat),
        r >= needed,
{
    if needed as u64 <= cap {
        return cap;
    }
    let mut c: u64 = if cap == 0 {
        1
    } else {
        cap
    };
    let ghost start = c;
    while c < needed as u64
        invariant
            c > 0,
            c < 2 * needed || c == start,
            start <= needed,
            grown(c as nat, needed as nat) == grown(start as nat, needed as nat),
        decreases needed + needed - c,
    {
        c = c * 2;
    }
    c
}

/// A capacity grown by doubling is enough, and, if it had to grow, less than
/// twice what was asked for.
pub proof fn growth_is_tight(cap: nat, needed: nat)
    ensures
        capacity_for(cap, needed) >= needed,
        capacity_for(cap, needed) >= cap,
        needed > cap ==> capacity_for(cap, needed) < 2 * needed,
{
    if needed > cap {
        lemma_grown(
            if cap == 0 {
                1
            } else {
                cap
            },
            needed,
        );
    }
}

proof fn lemma_grown(cap: nat, needed: nat)
    requires
        0 < cap <= needed,
    ensures
        needed <= grown(cap, needed),
        cap <= grown(cap, needed),
        grown(cap, needed) < 2 * needed || grown(cap, needed) == cap,
    decreases needed - cap,
{
    if cap < needed && cap * 2 <= needed {
        lemma_grown(cap * 2, needed);
    } else if cap < needed {
        assert(grown(cap, needed) == grown(cap * 2, needed));
    }
}

/// A stretch of records to write: `start` up to, not including, `end`.
#[derive(Copy, Clone, Debug, PartialEq, Eq, Structural)]
pub struct Run {
    pub start: usize,
    pub end: usize,
}

pub open spec fn in_run(r: Run, i: int) -> bool {
    r.start <= i < r.end
}

pub open spec fn covered(runs: Seq<Run>, i: int) -> bool {
    exists|k: int| 0 <= k < runs.len() && in_run(#[trigger] runs[k], i)
}

/// Whether `runs` are the longest stretches, in order, in which two lists of
/// one length differ.
pub open spec fn is_diff<T>(prev: Seq<T>, next: Seq<T>, runs: Seq<Run>) -> bool {
    &&& forall|k: int|
        0 <= k < runs.len() ==> (#[trigger] runs[k]).start < runs[k].end <= next.len()
    &&& forall|k: int, l: int|
        0 <= k < l < runs.len() ==> (#[trigger] runs[k]).end < (#[trigger] runs[l]).start
    &&& forall|i: int| #![trigger prev[i]] #![trigger next[i]]
        0 <= i < next.len() ==> (prev[i] != next[i] <==> covered(runs, i))
}

/// The list after the runs of `next` are written over it.
pub open spec fn patched<T>(prev: Seq<T>, next: Seq<T>, runs: Seq<Run>) -> Seq<T> {
    Seq::new(
        prev.len(),
        |i: int|
            if covered(runs, i) {
                next[i]
            } else {
                prev[i]
            },
    )
}

/// Writing only what differs is enough: the patched list is the new one.
pub proof fn diff_restores<T>(prev: Seq<T>, next: Seq<T>, runs: Seq<Run>)
    requires
        prev.len() == next.len(),
        is_diff(prev, next, runs),
    ensures
        patched(prev, next, runs) == next,
{
    assert forall|i: int| 0 <= i < next.len() implies patched(prev, next, runs)[i] == next[i] by {
        assert(prev[i] != next[i] <==> covered(runs, i));
    }
    assert(patched(prev, next, runs) =~= next);
}

/// Equal lists need no writing.
pub proof fn equal_lists_need_nothing<T>(list: Seq<T>, runs: Seq<Run>)
    requires
        is_diff(list, list, runs),
    ensures
        runs.len() == 0,
{
    if runs.len() > 0 {
        let r = runs[0];
        let i = r.start as int;
        assert(r.start < r.end <= list.len());
        assert(in_run(runs[0], i));
        assert(covered(runs, i));
        assert(list.contains(list[i]));
    }
}

/// Find the stretches in which two lists of one length differ.
pub fn diff_runs<S: Scalar>(prev: &[ShapeInstance<S>], next: &[ShapeInstance<S>]) -> (r: Vec<Run>)
    requires
        prev@.len() == next@.len(),
    ensures
        is_diff(prev@, next@, r@),
{
    let mut runs: Vec<Run> = Vec::new();
    let mut i: usize = 0;
    while i < next.len()
        invariant
            prev@.len() == next@.len(),
            i <= next.len(),
            forall|k: int|
                0 <= k < runs@.len() ==> (#[trigger] runs@[k]).start < runs@[k].end <= i,
            forall|k: int, l: int|
                0 <= k < l < runs@.len() ==> (#[trigger] runs@[k]).end < (#[trigger] runs@[l]).start,
            runs@.len() > 0 && runs@.last().end == i && i < next@.len() ==> prev@[i as int]
                == next@[i as int],
            forall|j: int| #![trigger prev@[j]] #![trigger next@[j]]
                0 <= j < i ==> (prev@[j] != next@[j] <==> covered(runs@, j)),
        decreases next.len() - i,
    {
        if next[i].identical(&prev[i]) {
            proof {
                if covered(runs@, i as int) {
                    let k = choose|k: int| 0 <= k < runs@.len() && in_run(#[trigger] runs@[k], i as int);
                    assert(runs@[k].end <= i);
                }
            }
            i = i + 1;
        } else {
            let start: usize = i;
            let ghost before = runs@;
            while i < next.len() && !next[i].identical(&prev[i])
                invariant
                    prev@.len() == next@.len(),
                    start <= i <= next.len(),
                    forall|j: int| #![trigger prev@[j]] #![trigger next@[j]]
                        start <= j < i ==> prev@[j] != next@[j],
                ensures
                    start <= i <= next.len(),
                    forall|j: int| #![trigger prev@[j]] #![trigger next@[j]]
                        start <= j < i ==> prev@[j] != next@[j],
                    i < next@.len() ==> next@[i as int] == prev@[i as int],
                decreases next.len() - i,
            {
                i = i + 1;
            }
            proof {
                if i == start {
                    assert(next@[start as int] == prev@[start as int]);
                }
            }
            runs.push(Run { start, end: i });
            proof {
                let all = runs@;
                assert forall|j: int| #![trigger prev@[j]] #![trigger next@[j]]
                    0 <= j < i implies (prev@[j] != next@[j] <==> covered(all, j)) by {
                    if j < start {
                        if covered(before, j) {
                            let k = choose|k: int|
                                0 <= k < before.len() && in_run(#[trigger] before[k], j);
                            assert(in_run(all[k], j));
                        }
                        if covered(all, j) {
                            let k = choose|k: int| 0 <= k < all.len() && in_run(#[trigger] all[k], j);
                            assert(k < before.len());
                            assert(in_run(before[k], j));
                        }
                    } else {
                        assert(in_run(all[all.len() - 1], j));
                    }
                }
                assert forall|k: int, l: int| 0 <= k < l < all.len() implies (
                #[trigger] all[k]).end < (#[trigger] all[l]).start by {
                    if l == before.len() {
                        assert(all[k] == before[k]);
                        if before[k].end == start {
                            if k < before.len() - 1 {
                                assert(before[k].end < before[before.len() - 1].start);
                            } else {
                                assert(prev@[start as int] == next@[start as int]);
                            }
                        }
                    }
                }
            }
        }
    }
    runs
}

} // verus!
