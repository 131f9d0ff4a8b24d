//! Thread-count candidates for the benchmark autotuner: a coarse sweep of
//! powers of two up to the limit, then a refinement around the best one.

use vstd::prelude::*;

verus! {

/// `2 * t`, saturating at `usize::MAX`.
pub open spec fn saturating_double(t: nat) -> nat {
    if 2 * t > usize::MAX {
        usize::MAX as nat
    } else {
        2 * t
    }
}

/// `t, 2t, 4t, ...` (saturating) while below `max`.
pub open spec fn doublings_below(t: nat, max: nat) -> Seq<usize>
    decreases
            (if t >= max {
                0
            } else {
                max - t
            }),
{
    if t == 0 || t >= max || max > usize::MAX {
        Seq::empty()
    } else {
        seq![t as usize] + doublings_below(saturating_double(t), max)
    }
}

/// The coarse sweep: the powers of two below `max`, then `max` itself.
pub open spec fn coarse_sweep(max: nat) -> Seq<usize> {
    doublings_below(1, max).push(max as usize)
}

/// `start..=end`.
pub open spec fn inclusive_range(start: nat, end: nat) -> Seq<usize> {
    if start > end {
        Seq::empty()
    } else {
        Seq::new((end - start + 1) as nat, |i: int| (start + i) as usize)
    }
}

/// Every entry of `s` is below the next one.
pub open spec fn strictly_increasing(s: Seq<usize>) -> bool {
    forall|i: int, j: int| 0 <= i < j < s.len() ==> s[i] < s[j]
}

/// The doublings increase strictly, start at `t` and stay in `[t, max)`.
pub proof fn lemma_doublings_increasing(t: nat, max: nat)
    ensures
        strictly_increasing(doublings_below(t, max)),
        forall|i: int|
            0 <= i < doublings_below(t, max).len() ==> t <= #[trigger] doublings_below(t, max)[i]
                < max,
    decreases
            (if t >= max {
                0
            } else {
                max - t
            }),
{
    if !(t == 0 || t >= max || max > usize::MAX) {
        let next = saturating_double(t);
        lemma_doublings_increasing(next, max);
        let rest = doublings_below(next, max);
        let s = doublings_below(t, max);
        assert(s == seq![t as usize] + rest);
        assert forall|i: int| 0 <= i < s.len() implies t <= #[trigger] s[i] < max by {
            if i > 0 {
                assert(s[i] == rest[i - 1]);
            }
        }
        assert forall|i: int, j: int| 0 <= i < j < s.len() implies s[i] < s[j] by {
            assert(s[j] == rest[j - 1]);
            if i > 0 {
                assert(s[i] == rest[i - 1]);
            }
        }
    }
}

/// Coarse thread-count candidates: powers of two below `max_threads`, then
/// `max_threads`, in increasing order without repeats.
pub fn coarse_candidates(max_threads: usize) -> (r: Vec<usize>)
    ensures
        r@ == coarse_sweep(max_threads as nat),
        strictly_increasing(r@),
{
    let mut candidates: Vec<usize> = Vec::new();
    let mut threads: usize = 1;
    while threads < max_threads
        invariant
            1 <= threads,
            candidates@ + doublings_below(threads as nat, max_threads as nat) == doublings_below(
                1,
                max_threads as nat,
            ),
        decreases
                (if threads >= max_threads {
                    0
                } else {
                    max_threads - threads
                }),
    {
        let ghost before = candidates@;
        candidates.push(threads);
        let next = if threads > usize::MAX / 2 {
            usize::MAX
        } else {
            threads * 2
        };
        proof {
            assert(next == saturating_double(threads as nat));
            assert(doublings_below(threads as nat, max_threads as nat) == seq![threads] + doublings_below(
                next as nat,
                max_threads as nat,
            ));
            assert(candidates@ + doublings_below(next as nat, max_threads as nat) =~= before
                + doublings_below(threads as nat, max_threads as nat));
        }
        threads = next;
    }
    proof {
        assert(doublings_below(threads as nat, max_threads as nat) =~= Seq::<usize>::empty());
        assert(candidates@ =~= doublings_below(1, max_threads as nat));
        lemma_doublings_increasing(1, max_threads as nat);
    }
    candidates.push(max_threads);
    proof {
        let d = doublings_below(1, max_threads as nat);
        assert forall|i: int, j: int| 0 <= i < j < candidates@.len() implies candidates@[i]
            < candidates@[j] by {
            if j == d.len() {
                assert(d[i] < max_threads);
            }
        }
    }
    candidates
}

/// The first refinement candidate: `best - 2`, but at least one.
pub open spec fn refine_start(best: nat) -> nat {
    if best >= 3 {
        (best - 2) as nat
    } else {
        1
    }
}

/// The last refinement candidate: `best + 2` (saturating), but at most
/// `max_threads`.
pub open spec fn refine_end(best: nat, max_threads: nat) -> nat {
    let up = if best + 2 > usize::MAX {
        usize::MAX as nat
    } else {
        best + 2
    };
    if up < max_threads {
        up
    } else {
        max_threads
    }
}

/// Refinement candidates: `best - 2 ..= best + 2`, clamped below by one
/// and above by `max_threads`.
pub fn refinement_candidates(best: usize, max_threads: usize) -> (r: Vec<usize>)
    ensures
        r@ == inclusive_range(refine_start(best as nat), refine_end(best as nat, max_threads as nat)),
{
    let start = if best.saturating_sub(2) > 1 {
        best.saturating_sub(2)
    } else {
        1
    };
    let up = best.saturating_add(2);
    let end = if up < max_threads {
        up
    } else {
        max_threads
    };
    let mut out: Vec<usize> = Vec::new();
    if start <= end {
        let mut t: usize = start;
        loop
            invariant_except_break
                start <= t <= end,
                out@ == Seq::new((t - start) as nat, |i: int| (start + i) as usize),
            ensures
                out@ == Seq::new((end - start + 1) as nat, |i: int| (start + i) as usize),
            decreases end - t,
        {
            out.push(t);
            if t == end {
                assert(out@ =~= Seq::new((end - start + 1) as nat, |i: int| (start + i) as usize));
                break;
            }
            assert(out@ =~= Seq::new((t + 1 - start) as nat, |i: int| (start + i) as usize));
            t = t + 1;
        }
    }
    out
}

} // verus!
