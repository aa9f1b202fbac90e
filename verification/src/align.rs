//! Aligning a primary row with the rows of a secondary source by time: the
//! row at the very same moment, the nearest row within a window, all rows
//! within a window, or the nearest row in the same resample bucket.

use vstd::prelude::*;
use crate::options::FusionAlignmentMode;
use crate::rows::positions_where;

verus! {

/// A moment: whole seconds since the Unix epoch and the nanoseconds past them.
#[derive(Clone, Copy, Debug, PartialEq, Eq, Structural)]
pub struct Moment {
    pub seconds: i64,
    pub nanos: u32,
}

/// Moments the alignment works with: within 2^48 seconds of the epoch (every
/// date-time chrono can hold lies well inside) and with fewer than
/// 2 * 10^9 nanoseconds.
pub open spec fn moment_in_range(m: Moment) -> bool {
    -0x1_0000_0000_0000 <= m.seconds <= 0x1_0000_0000_0000 && m.nanos < 2_000_000_000
}

/// Every moment of a list is in range.
pub open spec fn moments_in_range(times: Seq<Option<Moment>>) -> bool {
    forall|k: int| 0 <= k < times.len() ==> (#[trigger] times[k] matches Some(t) ==> moment_in_range(t))
}

/// A moment in nanoseconds since the epoch.
pub open spec fn total_nanos(m: Moment) -> int {
    m.seconds * 1_000_000_000 + m.nanos
}

/// The whole seconds between two moments, the difference rounded toward zero
/// and taken absolute.
pub open spec fn distance_seconds(a: Moment, b: Moment) -> int {
    let d = total_nanos(a) - total_nanos(b);
    (if d < 0 {
        -d
    } else {
        d
    }) / 1_000_000_000
}

/// The resample bucket of a moment: its seconds divided by the bucket size,
/// rounded toward zero.
pub open spec fn bucket_of(m: Moment, size: int) -> int {
    let s = m.seconds as int;
    if s >= 0 {
        s / size
    } else {
        -((-s) / size)
    }
}

/// The distance of candidate `k` when it takes part: it has a moment and lies
/// within `width` seconds of `p` (or, when resampling, in `p`'s bucket of
/// `width` seconds).
pub open spec fn eligible_distance(times: Seq<Option<Moment>>, p: Moment, k: int, resample: bool, width: int) -> Option<int> {
    match times[k] {
        None => None,
        Some(t) => if (if resample {
            bucket_of(t, width) == bucket_of(p, width)
        } else {
            distance_seconds(t, p) <= width
        }) {
            Some(distance_seconds(t, p))
        } else {
            None
        },
    }
}

/// The first position holding the least value among those that hold one.
pub open spec fn first_min(ds: Seq<Option<int>>) -> Option<int>
    decreases ds.len(),
{
    if ds.len() == 0 {
        None
    } else {
        let prev = first_min(ds.drop_last());
        match ds.last() {
            None => prev,
            Some(d) => match prev {
                None => Some(ds.len() - 1),
                Some(k) => if d < ds[k]->0 {
                    Some(ds.len() - 1)
                } else {
                    prev
                },
            },
        }
    }
}

/// The first least value: no value is smaller, every earlier value is
/// larger, and there is none only when no position holds a value.
pub proof fn lemma_first_min_least(ds: Seq<Option<int>>)
    ensures
        match first_min(ds) {
            Some(k) => 0 <= k < ds.len() && ds[k] is Some && (forall|j: int|
                0 <= j < ds.len() && #[trigger] ds[j] is Some ==> ds[k]->0 <= ds[j]->0) && (forall|j: int|
                0 <= j < k && #[trigger] ds[j] is Some ==> ds[k]->0 < ds[j]->0),
            None => forall|j: int| 0 <= j < ds.len() ==> #[trigger] ds[j] is None,
        },
    decreases ds.len(),
{
    if ds.len() > 0 {
        let n = ds.len() as int;
        let prev = ds.drop_last();
        lemma_first_min_least(prev);
        assert forall|j: int| 0 <= j < prev.len() implies #[trigger] prev[j] == ds[j] by {}
        assert(ds.last() == ds[n - 1]);
        match first_min(prev) {
            None => {
                assert forall|j: int| 0 <= j < n - 1 implies #[trigger] ds[j] is None by {
                    assert(prev[j] is None);
                }
            },
            Some(k) => {
                assert forall|j: int| 0 <= j < k && #[trigger] ds[j] is Some implies ds[k]->0 < ds[j]->0 by {
                    assert(prev[j] is Some);
                }
                match ds[n - 1] {
                    None => {
                        assert forall|j: int| 0 <= j < n && #[trigger] ds[j] is Some implies ds[k]->0 <= ds[j]->0 by {
                            if j < n - 1 {
                                assert(prev[j] is Some);
                            }
                        }
                    },
                    Some(d) => {
                        if d < ds[k]->0 {
                            assert forall|j: int| 0 <= j < n - 1 && #[trigger] ds[j] is Some implies d < ds[j]->0 by {
                                assert(prev[j] is Some);
                            }
                        } else {
                            assert forall|j: int| 0 <= j < n && #[trigger] ds[j] is Some implies ds[k]->0 <= ds[j]->0 by {
                                if j < n - 1 {
                                    assert(prev[j] is Some);
                                }
                            }
                        }
                    },
                }
            },
        }
    }
}

/// The first position whose moment is `p`.
pub open spec fn first_exact(times: Seq<Option<Moment>>, p: Moment) -> Option<int>
    decreases times.len(),
{
    if times.len() == 0 {
        None
    } else {
        match first_exact(times.drop_last(), p) {
            Some(k) => Some(k),
            None => if times.last() == Some(p) {
                Some(times.len() - 1)
            } else {
                None
            },
        }
    }
}

/// The exact position is a row at the moment with none before it; there is
/// none only when no row is at the moment.
pub proof fn lemma_first_exact_first(times: Seq<Option<Moment>>, p: Moment)
    ensures
        match first_exact(times, p) {
            Some(k) => 0 <= k < times.len() && times[k] == Some(p) && forall|j: int|
                0 <= j < k ==> #[trigger] times[j] != Some(p),
            None => forall|j: int| 0 <= j < times.len() ==> #[trigger] times[j] != Some(p),
        },
    decreases times.len(),
{
    if times.len() > 0 {
        let prev = times.drop_last();
        lemma_first_exact_first(prev, p);
        assert forall|j: int| 0 <= j < prev.len() implies #[trigger] prev[j] == times[j] by {}
        match first_exact(prev, p) {
            Some(k) => {
                assert forall|j: int| 0 <= j < k implies #[trigger] times[j] != Some(p) by {
                    assert(prev[j] != Some(p));
                }
            },
            None => {
                assert forall|j: int| 0 <= j < times.len() - 1 implies #[trigger] times[j] != Some(p) by {
                    assert(prev[j] != Some(p));
                }
            },
        }
    }
}

/// The distances of the candidates (see `eligible_distance`).
pub open spec fn candidate_distances(times: Seq<Option<Moment>>, p: Moment, resample: bool, width: int) -> Seq<Option<int>> {
    Seq::new(times.len(), |k: int| eligible_distance(times, p, k, resample, width))
}

/// The sum of the distances to `p` of the moments at the positions.
pub open spec fn distance_sum(times: Seq<Option<Moment>>, p: Moment, positions: Seq<usize>) -> int
    decreases positions.len(),
{
    if positions.len() == 0 {
        0
    } else {
        distance_sum(times, p, positions.drop_last()) + distance_seconds(times[positions.last() as int]->0, p)
    }
}

/// How a primary row is aligned.
#[derive(Clone, Debug)]
pub enum Alignment {
    /// The first row at the primary's very moment.
    Exact(usize),
    /// The nearest row within the window (the first of equally near ones) and
    /// its distance in seconds.
    Nearest(usize, i64),
    /// The rows within the window and their mean distance in seconds, rounded
    /// down.
    Window(Vec<usize>, i64),
    /// The nearest row in the primary's resample bucket (the first of equally
    /// near ones) and its distance in seconds.
    Resampled(usize, i64),
}

/// Abstract value of an alignment.
pub enum AlignmentView {
    Exact(int),
    Nearest(int, int),
    Window(Seq<usize>, int),
    Resampled(int, int),
}

impl View for Alignment {
    type V = AlignmentView;

    open spec fn view(&self) -> AlignmentView {
        match self {
            Alignment::Exact(k) => AlignmentView::Exact(*k as int),
            Alignment::Nearest(k, d) => AlignmentView::Nearest(*k as int, *d as int),
            Alignment::Window(ks, d) => AlignmentView::Window(ks@, *d as int),
            Alignment::Resampled(k, d) => AlignmentView::Resampled(*k as int, *d as int),
        }
    }
}

/// The nearest row within `width` seconds.
pub open spec fn nearest_spec(times: Seq<Option<Moment>>, p: Moment, width: int) -> Option<AlignmentView> {
    match first_min(candidate_distances(times, p, false, width)) {
        Some(k) => Some(AlignmentView::Nearest(k, distance_seconds(times[k]->0, p))),
        None => None,
    }
}

/// The nearest row in `p`'s bucket of `width` seconds.
pub open spec fn resampled_spec(times: Seq<Option<Moment>>, p: Moment, width: int) -> Option<AlignmentView> {
    match first_min(candidate_distances(times, p, true, width)) {
        Some(k) => Some(AlignmentView::Resampled(k, distance_seconds(times[k]->0, p))),
        None => None,
    }
}

/// The rows within `width` seconds, with their mean distance.
pub open spec fn window_spec(times: Seq<Option<Moment>>, p: Moment, width: int) -> Option<AlignmentView> {
    let sel = positions_where(times.len(), |k: int| eligible_distance(times, p, k, false, width) is Some);
    if sel.len() == 0 {
        None
    } else {
        Some(AlignmentView::Window(sel, distance_sum(times, p, sel) / (sel.len() as int)))
    }
}

/// The alignment a mode gives (window and bucket sizes below one count as
/// one): the exact row, the nearest row within the window, all rows within the
/// window, or the nearest row in the bucket; the "exact then" modes fall back
/// when no row is at the very moment.
pub open spec fn alignment_spec(
    times: Seq<Option<Moment>>,
    p: Moment,
    mode: FusionAlignmentMode,
    window_seconds: int,
    resample_seconds: int,
) -> Option<AlignmentView> {
    let w = if window_seconds < 1 {
        1
    } else {
        window_seconds
    };
    let r = if resample_seconds < 1 {
        1
    } else {
        resample_seconds
    };
    let exact = match first_exact(times, p) {
        Some(k) => Some(AlignmentView::Exact(k)),
        None => None,
    };
    match mode {
        FusionAlignmentMode::ExactTime => exact,
        FusionAlignmentMode::ExactThenNearest => if exact is Some {
            exact
        } else {
            nearest_spec(times, p, w)
        },
        FusionAlignmentMode::NearestWithinWindow => nearest_spec(times, p, w),
        FusionAlignmentMode::ExactThenWindow => if exact is Some {
            exact
        } else {
            window_spec(times, p, w)
        },
        FusionAlignmentMode::WindowAggregation => window_spec(times, p, w),
        FusionAlignmentMode::ResampleNearest => resampled_spec(times, p, r),
    }
}

fn distance_exec(a: Moment, b: Moment) -> (r: i64)
    requires
        moment_in_range(a),
        moment_in_range(b),
    ensures
        r == distance_seconds(a, b),
        0 <= r <= 0x4_0000_0000_0000,
{
    let ta: i128 = (a.seconds as i128) * 1_000_000_000 + (a.nanos as i128);
    let tb: i128 = (b.seconds as i128) * 1_000_000_000 + (b.nanos as i128);
    let d: i128 = ta - tb;
    let m: i128 = if d < 0 {
        -d
    } else {
        d
    };
    proof {
        vstd::arithmetic::div_mod::lemma_div_is_ordered(
            m as int,
            2 * (0x1_0000_0000_0000int * 1_000_000_000 + 2_000_000_000),
            1_000_000_000,
        );
    }
    (m / 1_000_000_000) as i64
}

fn bucket_exec(m: Moment, size: i64) -> (r: i64)
    requires
        moment_in_range(m),
        size >= 1,
    ensures
        r == bucket_of(m, size as int),
{
    if m.seconds >= 0 {
        m.seconds / size
    } else {
        let magnitude: i64 = -m.seconds;
        assert(magnitude / size <= magnitude) by (nonlinear_arith)
            requires
                magnitude >= 0,
                size >= 1,
        ;
        -(magnitude / size)
    }
}

fn first_exact_exec(times: &Vec<Option<Moment>>, p: Moment) -> (r: Option<usize>)
    ensures
        match first_exact(times@, p) {
            Some(k) => r matches Some(i) && i as int == k,
            None => r is None,
        },
{
    let mut i: usize = 0;
    while i < times.len()
        invariant
            0 <= i <= times@.len(),
            first_exact(times@.take(i as int), p) is None,
        decreases times.len() - i,
    {
        assert(times@.take(i + 1).drop_last() =~= times@.take(i as int));
        if times[i] == Some(p) {
            proof {
                assert(first_exact(times@.take(i + 1), p) == Some(i as int));
                lemma_first_exact_prefix(times@, p, i + 1);
            }
            return Some(i);
        }
        i += 1;
    }
    assert(times@.take(times@.len() as int) =~= times@);
    None
}

/// A position found in a prefix is the position found in the whole.
proof fn lemma_first_exact_prefix(times: Seq<Option<Moment>>, p: Moment, n: int)
    requires
        0 <= n <= times.len(),
        first_exact(times.take(n), p) is Some,
    ensures
        first_exact(times, p) == first_exact(times.take(n), p),
    decreases times.len() - n,
{
    if n < times.len() {
        assert(times.take(n + 1).drop_last() =~= times.take(n));
        lemma_first_exact_prefix(times, p, n + 1);
    } else {
        assert(times.take(n) =~= times);
    }
}

/// The first nearest candidate (see `first_min`): position and distance.
fn first_min_exec(times: &Vec<Option<Moment>>, p: Moment, resample: bool, width: i64) -> (r: Option<(usize, i64)>)
    requires
        moment_in_range(p),
        moments_in_range(times@),
        width >= 1,
    ensures
        match first_min(candidate_distances(times@, p, resample, width as int)) {
            Some(k) => r matches Some((i, d)) && i as int == k && d as int == distance_seconds(times@[k]->0, p),
            None => r is None,
        },
{
    let ghost ds = candidate_distances(times@, p, resample, width as int);
    let mut best: Option<(usize, i64)> = None;
    let mut i: usize = 0;
    let target: i64 = if resample {
        bucket_exec(p, width)
    } else {
        0
    };
    while i < times.len()
        invariant
            ds == candidate_distances(times@, p, resample, width as int),
            0 <= i <= times@.len(),
            moment_in_range(p),
            moments_in_range(times@),
            width >= 1,
            resample ==> target == bucket_of(p, width as int),
            match first_min(ds.take(i as int)) {
                Some(k) => best matches Some((bi, bd)) && bi as int == k && bd as int == ds[k]->0 && 0 <= k < i
                    && ds[k] is Some && ds[k]->0 == distance_seconds(times@[k]->0, p),
                None => best is None,
            },
        decreases times.len() - i,
    {
        let ghost prev = ds.take(i as int);
        assert(ds.take(i + 1).drop_last() =~= prev);
        assert(ds.take(i + 1).last() == ds[i as int]);
        match times[i] {
            Some(t) => {
                let d = distance_exec(t, p);
                let eligible = if resample {
                    bucket_exec(t, width) == target
                } else {
                    d <= width
                };
                if eligible {
                    assert(ds[i as int] == Some(d as int));
                    match best {
                        None => {
                            best = Some((i, d));
                        },
                        Some((_, bd)) => {
                            if d < bd {
                                best = Some((i, d));
                            }
                        },
                    }
                } else {
                    assert(ds[i as int] is None);
                }
            },
            None => {
                assert(ds[i as int] is None);
            },
        }
        i += 1;
    }
    assert(ds.take(times@.len() as int) =~= ds);
    best
}

/// Aligns a primary moment with the moments of a secondary source's rows (see
/// `alignment_spec`).
pub fn choose_alignment(
    times: &Vec<Option<Moment>>,
    primary: Moment,
    mode: FusionAlignmentMode,
    window_seconds: i64,
    resample_seconds: i64,
) -> (r: Option<Alignment>)
    requires
        moment_in_range(primary),
        moments_in_range(times@),
    ensures
        match r {
            Some(a) => alignment_spec(times@, primary, mode, window_seconds as int, resample_seconds as int)
                == Some(a@),
            None => alignment_spec(times@, primary, mode, window_seconds as int, resample_seconds as int) is None,
        },
{
    let w: i64 = if window_seconds < 1 {
        1
    } else {
        window_seconds
    };
    let rs: i64 = if resample_seconds < 1 {
        1
    } else {
        resample_seconds
    };
    let exact = match first_exact_exec(times, primary) {
        Some(k) => Some(Alignment::Exact(k)),
        None => None,
    };
    match mode {
        FusionAlignmentMode::ExactTime => exact,
        FusionAlignmentMode::ExactThenNearest => if exact.is_some() {
            exact
        } else {
            nearest_exec(times, primary, w)
        },
        FusionAlignmentMode::NearestWithinWindow => nearest_exec(times, primary, w),
        FusionAlignmentMode::ExactThenWindow => if exact.is_some() {
            exact
        } else {
            window_exec(times, primary, w)
        },
        FusionAlignmentMode::WindowAggregation => window_exec(times, primary, w),
        FusionAlignmentMode::ResampleNearest => match first_min_exec(times, primary, true, rs) {
            Some((k, d)) => Some(Alignment::Resampled(k, d)),
            None => None,
        },
    }
}

fn nearest_exec(times: &Vec<Option<Moment>>, p: Moment, w: i64) -> (r: Option<Alignment>)
    requires
        moment_in_range(p),
        moments_in_range(times@),
        w >= 1,
    ensures
        match r {
            Some(a) => nearest_spec(times@, p, w as int) == Some(a@),
            None => nearest_spec(times@, p, w as int) is None,
        },
{
    match first_min_exec(times, p, false, w) {
        Some((k, d)) => Some(Alignment::Nearest(k, d)),
        None => None,
    }
}

fn window_exec(times: &Vec<Option<Moment>>, p: Moment, w: i64) -> (r: Option<Alignment>)
    requires
        moment_in_range(p),
        moments_in_range(times@),
        w >= 1,
    ensures
        match r {
            Some(a) => window_spec(times@, p, w as int) == Some(a@),
            None => window_spec(times@, p, w as int) is None,
        },
{
    let ghost keep = |k: int| eligible_distance(times@, p, k, false, w as int) is Some;
    let mut sel: Vec<usize> = Vec::new();
    let mut sum: i128 = 0;
    let mut i: usize = 0;
    while i < times.len()
        invariant
            keep == (|k: int| eligible_distance(times@, p, k, false, w as int) is Some),
            0 <= i <= times@.len(),
            moment_in_range(p),
            moments_in_range(times@),
            w >= 1,
            sel@ == positions_where(i as nat, keep),
            sel@.len() <= i,
            sum == distance_sum(times@, p, sel@),
            0 <= sum <= (sel@.len() as int) * 0x4_0000_0000_0000,
            sel@.len() <= usize::MAX,
        decreases times.len() - i,
    {
        match times[i] {
            Some(t) => {
                let d = distance_exec(t, p);
                if d <= w {
                    assert(keep(i as int));
                    let ghost before = sel@;
                    sel.push(i);
                    assert(sel@.drop_last() =~= before);
                    assert(sum + d <= (sel@.len() as int) * 0x4_0000_0000_0000) by (nonlinear_arith)
                        requires
                            sum <= ((sel@.len() - 1) as int) * 0x4_0000_0000_0000,
                            d <= 0x4_0000_0000_0000,
                    ;
                    sum = sum + (d as i128);
                } else {
                    assert(!keep(i as int));
                }
            },
            None => {
                assert(!keep(i as int));
            },
        }
        i += 1;
    }
    if sel.len() == 0 {
        return None;
    }
    let count: i128 = sel.len() as i128;
    let mean: i128 = sum / count;
    assert(mean <= sum) by (nonlinear_arith)
        requires
            count >= 1,
            sum >= 0,
            mean == sum / count,
    ;
    assert(mean <= 0x4_0000_0000_0000) by (nonlinear_arith)
        requires
            count >= 1,
            0 <= sum <= 0x4_0000_0000_0000 * count,
            mean == sum / count,
    ;
    Some(Alignment::Window(sel, mean as i64))
}

/// In the modes that try the exact moment first, a secondary row at the very
/// primary moment wins: the alignment is that row, the first one at the
/// moment. With only the exact moment to go by, a primary moment that no row
/// has gets no alignment.
pub proof fn lemma_exact_row_wins(
    times: Seq<Option<Moment>>,
    p: Moment,
    mode: FusionAlignmentMode,
    window_seconds: int,
    resample_seconds: int,
    k: int,
)
    requires
        mode == FusionAlignmentMode::ExactTime || mode == FusionAlignmentMode::ExactThenNearest
            || mode == FusionAlignmentMode::ExactThenWindow,
    ensures
        0 <= k < times.len() && times[k] == Some(p) && (forall|j: int|
            0 <= j < k ==> #[trigger] times[j] != Some(p)) ==> alignment_spec(
            times,
            p,
            mode,
            window_seconds,
            resample_seconds,
        ) == Some(AlignmentView::Exact(k)),
        mode == FusionAlignmentMode::ExactTime && (forall|j: int|
            0 <= j < times.len() ==> #[trigger] times[j] != Some(p)) ==> alignment_spec(
            times,
            p,
            mode,
            window_seconds,
            resample_seconds,
        ) is None,
{
    lemma_first_exact_first(times, p);
    if 0 <= k < times.len() && times[k] == Some(p) && (forall|j: int|
        0 <= j < k ==> #[trigger] times[j] != Some(p)) {
        match first_exact(times, p) {
            Some(f) => {
                if f < k {
                    assert(times[f] != Some(p));
                } else if f > k {
                    assert(times[k] != Some(p));
                }
            },
            None => {
                assert(times[k] != Some(p));
            },
        }
    }
}

} // verus!
