//! Step-response metrics of a PID loop: where the rise window and the settling
//! point fall along the sampled response.

use vstd::prelude::*;

verus! {

/// Some sample at or after `lo` has reached the high level.
pub open spec fn reaches_high_from(high: Seq<bool>, lo: int) -> bool {
    exists|hi: int| lo <= hi < high.len() && #[trigger] high[hi]
}

/// The rise window of a sampled response: given, for each sample, whether it has
/// reached the low level (10% of the setpoint) and the high level (90%), the
/// first sample at the low level and the first sample from there on at the high
/// level. `None` when no sample reaches the low level or none at or after the
/// first such sample reaches the high level.
pub fn rise_window(reached_low: &Vec<bool>, reached_high: &Vec<bool>) -> (r: Option<(usize, usize)>)
    requires
        reached_low@.len() == reached_high@.len(),
    ensures
        match r {
            Some((lo, hi)) => {
                &&& lo <= hi < reached_low@.len()
                &&& reached_low@[lo as int]
                &&& reached_high@[hi as int]
                &&& forall|k: int| 0 <= k < lo ==> !#[trigger] reached_low@[k]
                &&& forall|k: int| lo <= k < hi ==> !#[trigger] reached_high@[k]
            },
            None => forall|lo: int, hi: int|
                0 <= lo <= hi < reached_low@.len() ==> !(#[trigger] reached_low@[lo]
                    && #[trigger] reached_high@[hi]),
        },
{
    let n = reached_low.len();
    let mut low: Option<usize> = None;
    let mut i: usize = 0;
    while i < n
        invariant
            n == reached_low@.len(),
            n == reached_high@.len(),
            i <= n,
            match low {
                None => forall|k: int| 0 <= k < i ==> !#[trigger] reached_low@[k],
                Some(lo) => {
                    &&& lo < i
                    &&& reached_low@[lo as int]
                    &&& forall|k: int| 0 <= k < lo ==> !#[trigger] reached_low@[k]
                    &&& forall|k: int| lo <= k < i ==> !#[trigger] reached_high@[k]
                },
            },
        decreases n - i,
    {
        if low.is_none() && reached_low[i] {
            low = Some(i);
        }
        match low {
            Some(lo) => {
                if reached_high[i] {
                    return Some((lo, i));
                }
            },
            None => {},
        }
        i = i + 1;
    }
    match low {
        None => {},
        Some(lo) => {
            assert forall|a: int, b: int|
                0 <= a <= b < reached_low@.len() implies !(#[trigger] reached_low@[a]
                && #[trigger] reached_high@[b]) by {
                if reached_low@[a] && reached_high@[b] {
                    assert(a >= lo);
                }
            }
        },
    }
    None
}

/// `k` is where the response settles: no sample from `k` on lies outside the
/// band, and `k` is either the first sample or follows one outside the band.
pub open spec fn settles_at(outside: Seq<bool>, k: int) -> bool {
    &&& 0 <= k <= outside.len()
    &&& (k == 0 || outside[k - 1])
    &&& forall|j: int| k <= j < outside.len() ==> !#[trigger] outside[j]
}

/// The settling point of a sampled response: given, for each sample, whether it
/// lies outside the tolerance band around the setpoint, the index (into a time
/// axis of `time_len` points) from which the response stays within the band:
/// the sample after the last one outside it, or the first sample when none is
/// outside. `None` when that index is not on the time axis (the last sample is
/// outside the band, or the axis is empty).
pub fn settling_index(outside: &Vec<bool>, time_len: usize) -> (r: Option<usize>)
    ensures
        match r {
            Some(k) => settles_at(outside@, k as int) && k < time_len,
            None => forall|k: int| settles_at(outside@, k) ==> k >= time_len,
        },
        r matches Some(k) ==> {
            &&& k < time_len
            &&& k <= outside@.len()
            &&& forall|j: int| k <= j < outside@.len() ==> !#[trigger] outside@[j]
            &&& (k == 0 || outside@[k - 1])
        },
        (forall|j: int| 0 <= j < outside@.len() ==> !#[trigger] outside@[j]) ==> r == (if time_len
            > 0 {
            Some(0usize)
        } else {
            None::<usize>
        }),
        outside@.len() > 0 && outside@[outside@.len() - 1] ==> r == (if outside@.len() < time_len {
            Some(outside@.len() as usize)
        } else {
            None::<usize>
        }),
{
    let n = outside.len();
    let mut i: usize = n;
    while i > 0
        invariant
            n == outside@.len(),
            i <= n,
            forall|j: int| i <= j < n ==> !#[trigger] outside@[j],
        ensures
            i <= n,
            forall|j: int| i <= j < n ==> !#[trigger] outside@[j],
            i == 0 || outside@[i - 1],
        decreases i,
    {
        if outside[i - 1] {
            break;
        }
        i = i - 1;
    }
    assert(settles_at(outside@, i as int));
    assert forall|k: int| settles_at(outside@, k) implies k == i by {
        if k < i {
            assert(!outside@[i - 1]);
        } else if k > i {
            assert(!outside@[k - 1]);
        }
    }
    if i < time_len {
        Some(i)
    } else {
        None
    }
}

} // verus!
