use vstd::prelude::*;

verus! {

/// A peak passes when its value is above both the relative threshold and the
/// clarity threshold.
pub open spec fn accepts(p: (usize, i64), threshold: i64, threshold2: i64) -> bool {
    p.1 > threshold && p.1 > threshold2
}

/// The first peak of `peaks`, in list order, that passes both thresholds.
pub open spec fn chosen(peaks: Seq<(usize, i64)>, threshold: i64, threshold2: i64) -> Option<(usize, i64)>
    decreases peaks.len(),
{
    if peaks.len() == 0 {
        None
    } else if accepts(peaks[0], threshold, threshold2) {
        Some(peaks[0])
    } else {
        chosen(peaks.drop_first(), threshold, threshold2)
    }
}

/// `p` is the entry of `peaks` with the largest value, the last one where that
/// value repeats.
pub open spec fn is_key_maximum(peaks: Seq<(usize, i64)>, p: (usize, i64)) -> bool {
    exists|j: int|
        0 <= j < peaks.len() && peaks[j] == p
            && (forall|k: int| 0 <= k < peaks.len() ==> peaks[k].1 <= p.1)
            && (forall|k: int| j < k < peaks.len() ==> peaks[k].1 < p.1)
}

proof fn lemma_chosen_skip(peaks: Seq<(usize, i64)>, t: i64, c: i64, j: int)
    requires
        0 <= j <= peaks.len(),
        forall|k: int| 0 <= k < j ==> !accepts(peaks[k], t, c),
    ensures
        chosen(peaks, t, c) == chosen(peaks.subrange(j, peaks.len() as int), t, c),
    decreases j,
{
    if j > 0 {
        let rest = peaks.drop_first();
        lemma_chosen_skip(rest, t, c, j - 1);
        assert(rest.subrange(j - 1, rest.len() as int) =~= peaks.subrange(j, peaks.len() as int));
    } else {
        assert(peaks.subrange(0, peaks.len() as int) =~= peaks);
    }
}

/// Returns the first peak, in list order, whose value is above both
/// `threshold` and `threshold2`, or `None` when no peak is.
pub fn choose_peak(peaks: Vec<(usize, i64)>, threshold: i64, threshold2: i64) -> (r: Option<(usize, i64)>)
    ensures
        r == chosen(peaks@, threshold, threshold2),
{
    let mut i: usize = 0;
    while i < peaks.len()
        invariant
            i <= peaks.len(),
            forall|k: int| 0 <= k < i ==> !accepts(peaks@[k], threshold, threshold2),
        decreases peaks.len() - i,
    {
        let p = peaks[i];
        if p.1 > threshold && p.1 > threshold2 {
            proof {
                lemma_chosen_skip(peaks@, threshold, threshold2, i as int);
                let rest = peaks@.subrange(i as int, peaks.len() as int);
                assert(rest[0] == p);
            }
            return Some(p);
        }
        i = i + 1;
    }
    proof {
        lemma_chosen_skip(peaks@, threshold, threshold2, i as int);
    }
    None
}

/// Returns the peak with the largest value (the last one where that value
/// repeats), or `None` for an empty list.
pub fn key_maximum(peaks: &Vec<(usize, i64)>) -> (r: Option<(usize, i64)>)
    ensures
        r.is_none() == (peaks@.len() == 0),
        r matches Some(p) ==> is_key_maximum(peaks@, p),
{
    if peaks.len() == 0 {
        return None;
    }
    let mut best: (usize, i64) = peaks[0];
    let ghost mut at: int = 0;
    let mut i: usize = 1;
    while i < peaks.len()
        invariant
            1 <= i <= peaks.len(),
            0 <= at < i,
            peaks@[at] == best,
            forall|k: int| 0 <= k < i ==> peaks@[k].1 <= best.1,
            forall|k: int| at < k < i ==> peaks@[k].1 < best.1,
        decreases peaks.len() - i,
    {
        if peaks[i].1 >= best.1 {
            best = peaks[i];
            proof {
                at = i as int;
            }
        }
        i = i + 1;
    }
    Some(best)
}

/// Raising the relative threshold only tightens selection: a peak that passes
/// the higher threshold passes the lower one, and where a peak is chosen at the
/// higher threshold, one is chosen at the lower, and the peak chosen at the
/// higher threshold passes the lower as well.
pub proof fn lemma_threshold_monotone(peaks: Seq<(usize, i64)>, lower: i64, higher: i64, threshold2: i64)
    requires
        lower <= higher,
    ensures
        forall|k: int|
            0 <= k < peaks.len() && accepts(peaks[k], higher, threshold2) ==> accepts(
                peaks[k],
                lower,
                threshold2,
            ),
        chosen(peaks, higher, threshold2) is Some ==> chosen(peaks, lower, threshold2) is Some,
        chosen(peaks, higher, threshold2) matches Some(p) ==> accepts(p, lower, threshold2),
    decreases peaks.len(),
{
    if peaks.len() > 0 {
        lemma_threshold_monotone(peaks.drop_first(), lower, higher, threshold2);
    }
}

} // verus!
