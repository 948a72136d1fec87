use vstd::prelude::*;

verus! {

/// `[lo, hi)` is a maximal run of strictly positive values bounded on both
/// sides by a non-positive value.
pub open spec fn interior_run(s: Seq<i64>, lo: int, hi: int) -> bool {
    &&& 0 < lo < hi < s.len()
    &&& s[lo - 1] <= 0
    &&& s[hi] <= 0
    &&& forall|k: int| lo <= k < hi ==> s[k] > 0
}

/// `i` holds the largest value of `s[lo..hi)`, and is the first place that does.
pub open spec fn first_max_in(s: Seq<i64>, lo: int, hi: int, i: int) -> bool {
    &&& lo <= i < hi
    &&& forall|k: int| lo <= k < hi ==> s[k] <= s[i]
    &&& forall|k: int| lo <= k < i ==> s[k] < s[i]
}

/// `i` is the peak of an interior run of strictly positive values of `s`.
pub open spec fn is_peak(s: Seq<i64>, i: int) -> bool {
    exists|lo: int, hi: int| interior_run(s, lo, hi) && first_max_in(s, lo, hi, i)
}

/// `peaks` lists, in increasing order of index, exactly the peaks of `s`, each
/// with its value.
pub open spec fn peaks_of(s: Seq<i64>, peaks: Seq<(usize, i64)>) -> bool {
    &&& forall|j: int|
        0 <= j < peaks.len() ==> {
            &&& (peaks[j].0 as int) < s.len()
            &&& peaks[j].1 == s[peaks[j].0 as int]
            &&& is_peak(s, peaks[j].0 as int)
        }
    &&& forall|j: int, k: int| 0 <= j < k < peaks.len() ==> peaks[j].0 < peaks[k].0
    &&& forall|i: int| is_peak(s, i) ==> exists|j: int| 0 <= j < peaks.len() && peaks[j].0 == i
}

proof fn lemma_peak_in_run(s: Seq<i64>, lo: int, hi: int, i: int)
    requires
        is_peak(s, i),
        lo <= i < hi,
        lo == 0 || s[lo - 1] <= 0,
        forall|k: int| lo <= k < hi ==> s[k] > 0,
    ensures
        hi < s.len() ==> s[hi] <= 0 ==> lo > 0 && interior_run(s, lo, hi) && first_max_in(s, lo, hi, i),
        hi == s.len() ==> false,
        lo == 0 ==> false,
{
    let (a, b) = choose|a: int, b: int| interior_run(s, a, b) && first_max_in(s, a, b, i);
    if a < lo {
        assert(s[lo - 1] > 0);
    }
    if lo < a {
        assert(s[a - 1] > 0);
    }
    if b < hi {
        assert(s[b] > 0);
    }
    if hi < b {
        assert(s[hi] > 0);
    }
}

proof fn lemma_peaks_inside(s: Seq<i64>, peaks: Seq<(usize, i64)>)
    requires
        peaks_of(s, peaks),
    ensures
        forall|j: int| 0 <= j < peaks.len() ==> 0 < peaks[j].0 < s.len() - 1 && peaks[j].1 > 0,
{
    assert forall|j: int| 0 <= j < peaks.len() implies 0 < peaks[j].0 < s.len() - 1 && peaks[j].1 > 0 by {
        let i = peaks[j].0 as int;
        let (a, b) = choose|a: int, b: int| interior_run(s, a, b) && first_max_in(s, a, b, i);
    }
}

spec fn has_index(p: Seq<(usize, i64)>, i: int) -> bool {
    exists|j: int| 0 <= j < p.len() && p[j].0 == i
}

spec fn sorted_from(s: Seq<i64>, p: Seq<(usize, i64)>) -> bool {
    &&& forall|j: int, k: int| 0 <= j < k < p.len() ==> p[j].0 < p[k].0
    &&& forall|j: int| 0 <= j < p.len() ==> (p[j].0 as int) < s.len() && p[j].1 == s[p[j].0 as int]
}

proof fn lemma_drop_first_indices(s: Seq<i64>, p: Seq<(usize, i64)>, i: int)
    requires
        sorted_from(s, p),
        p.len() > 0,
    ensures
        has_index(p.drop_first(), i) == (has_index(p, i) && i != p[0].0),
{
    let p1 = p.drop_first();
    if has_index(p1, i) {
        let j = choose|j: int| 0 <= j < p1.len() && p1[j].0 == i;
        assert(p[j + 1].0 == i);
        assert(p[0].0 < p[j + 1].0);
    }
    if has_index(p, i) && i != p[0].0 {
        let j = choose|j: int| 0 <= j < p.len() && p[j].0 == i;
        assert(p1[j - 1].0 == i);
    }
}

proof fn lemma_same_indices_equal(s: Seq<i64>, p: Seq<(usize, i64)>, q: Seq<(usize, i64)>)
    requires
        sorted_from(s, p),
        sorted_from(s, q),
        forall|i: int| has_index(p, i) == has_index(q, i),
    ensures
        p == q,
    decreases p.len(),
{
    if p.len() == 0 && q.len() > 0 {
        assert(has_index(q, q[0].0 as int));
    } else if q.len() == 0 && p.len() > 0 {
        assert(has_index(p, p[0].0 as int));
    } else if p.len() > 0 {
        assert(has_index(p, p[0].0 as int));
        assert(has_index(q, q[0].0 as int));
        let jq = choose|j: int| 0 <= j < q.len() && q[j].0 == p[0].0;
        let jp = choose|j: int| 0 <= j < p.len() && p[j].0 == q[0].0;
        if jq > 0 {
            assert(q[0].0 < q[jq].0);
            if jp > 0 {
                assert(p[0].0 < p[jp].0);
            }
        }
        assert(p[0] == q[0]);
        let p1 = p.drop_first();
        let q1 = q.drop_first();
        assert forall|i: int| has_index(p1, i) == has_index(q1, i) by {
            lemma_drop_first_indices(s, p, i);
            lemma_drop_first_indices(s, q, i);
        }
        lemma_same_indices_equal(s, p1, q1);
        assert(p.len() == q.len());
        assert forall|k: int| 0 <= k < p.len() implies p[k] == q[k] by {
            if k > 0 {
                assert(p[k] == p1[k - 1]);
                assert(q[k] == q1[k - 1]);
            }
        }
        assert(p =~= q);
    } else {
        assert(p =~= q);
    }
}

/// The peaks of a sequence are determined by it: two lists that both list
/// exactly the peaks of `s` in increasing order of index are the same list, so
/// scanning one sequence twice gives one result.
pub proof fn lemma_peaks_unique(s: Seq<i64>, p: Seq<(usize, i64)>, q: Seq<(usize, i64)>)
    requires
        peaks_of(s, p),
        peaks_of(s, q),
    ensures
        p == q,
{
    assert forall|i: int| has_index(p, i) == has_index(q, i) by {
        if has_index(p, i) {
            let j = choose|j: int| 0 <= j < p.len() && p[j].0 == i;
            assert(is_peak(s, p[j].0 as int));
        }
        if has_index(q, i) {
            let j = choose|j: int| 0 <= j < q.len() && q[j].0 == i;
            assert(is_peak(s, q[j].0 as int));
        }
    }
    lemma_same_indices_equal(s, p, q);
}

/// Finds the peaks of `data`: for each run of strictly positive values that has
/// a non-positive value on both sides, the place and value of its largest entry
/// (the first one where it repeats). A leading run and a run that reaches the
/// end give no peak.
pub fn detect_peaks(data: &[i64]) -> (r: Vec<(usize, i64)>)
    ensures
        peaks_of(data@, r@),
        forall|j: int| 0 <= j < r@.len() ==> 0 < r@[j].0 < data@.len() - 1 && r@[j].1 > 0,
{
    let n: usize = data.len();
    let ghost s = data@;
    let mut out: Vec<(usize, i64)> = Vec::new();
    let mut idx: usize = 0;
    while idx < n && data[idx] > 0
        invariant
            idx <= n,
            n == s.len(),
            s == data@,
            forall|k: int| 0 <= k < idx ==> s[k] > 0,
        decreases n - idx,
    {
        idx = idx + 1;
    }
    proof {
        assert forall|i: int| 0 <= i < idx implies !is_peak(s, i) by {
            if is_peak(s, i) {
                lemma_peak_in_run(s, 0, idx as int, i);
                if (idx as int) < s.len() {
                    let (a, b) = choose|a: int, b: int| interior_run(s, a, b) && first_max_in(s, a, b, i);
                    assert(s[a - 1] > 0);
                }
            }
        }
    }
    while idx < n
        invariant
            idx <= n,
            n == s.len(),
            s == data@,
            idx < n ==> s[idx as int] <= 0,
            forall|j: int|
                0 <= j < out.len() ==> {
                    &&& (out@[j].0 as int) < idx
                    &&& out@[j].1 == s[out@[j].0 as int]
                    &&& is_peak(s, out@[j].0 as int)
                },
            forall|j: int, k: int| 0 <= j < k < out.len() ==> out@[j].0 < out@[k].0,
            forall|i: int|
                0 <= i < idx && is_peak(s, i) ==> exists|j: int| 0 <= j < out.len() && out@[j].0 == i,
        decreases n - idx,
    {
        let start: usize = idx;
        while idx < n && data[idx] <= 0
            invariant
                start <= idx <= n,
                n == s.len(),
                s == data@,
                forall|k: int| start <= k < idx ==> s[k] <= 0,
                start < n ==> s[start as int] <= 0,
            decreases n - idx,
        {
            idx = idx + 1;
        }
        assert forall|i: int| start <= i < idx implies !is_peak(s, i) by {
            if is_peak(s, i) {
                let (a, b) = choose|a: int, b: int| interior_run(s, a, b) && first_max_in(s, a, b, i);
                assert(s[i] > 0);
            }
        }
        if idx == n {
            proof { lemma_peaks_inside(s, out@); }
            return out;
        }
        let lo: usize = idx;
        let mut max: i64 = data[idx];
        let mut max_index: usize = idx;
        idx = idx + 1;
        while idx < n && data[idx] > 0
            invariant
                0 < lo < idx <= n,
                n == s.len(),
                s == data@,
                s[lo - 1] <= 0,
                forall|k: int| lo <= k < idx ==> s[k] > 0,
                max == s[max_index as int],
                first_max_in(s, lo as int, idx as int, max_index as int),
            decreases n - idx,
        {
            if data[idx] > max {
                max = data[idx];
                max_index = idx;
            }
            idx = idx + 1;
        }
        if idx == n {
            assert forall|i: int| lo <= i < n implies !is_peak(s, i) by {
                if is_peak(s, i) {
                    lemma_peak_in_run(s, lo as int, n as int, i);
                }
            }
            proof { lemma_peaks_inside(s, out@); }
            return out;
        }
        proof {
            assert(interior_run(s, lo as int, idx as int));
            assert(is_peak(s, max_index as int));
            assert forall|i: int| lo <= i < idx && is_peak(s, i) implies i == max_index by {
                lemma_peak_in_run(s, lo as int, idx as int, i);
                if i < max_index {
                    assert(s[i] < s[max_index as int]);
                }
                if max_index < i {
                    assert(s[max_index as int] < s[i]);
                }
            }
        }
        let ghost prev = out@;
        out.push((max_index, max));
        proof {
            assert forall|i: int|
                0 <= i < idx && is_peak(s, i) implies exists|j: int| 0 <= j < out.len() && out@[j].0 == i by {
                if i < start {
                    let j = choose|j: int| 0 <= j < prev.len() && prev[j].0 == i;
                    assert(out@[j] == prev[j]);
                } else {
                    assert(out@[prev.len() as int].0 == i);
                }
            }
        }
    }
    proof { lemma_peaks_inside(s, out@); }
    out
}

} // verus!
