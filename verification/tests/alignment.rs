use data_workbench::align::{choose_alignment, Alignment, Moment};
use data_workbench::options::FusionAlignmentMode;

fn at(seconds: i64) -> Option<Moment> {
    Some(Moment { seconds, nanos: 0 })
}

fn moment(seconds: i64, nanos: u32) -> Moment {
    Moment { seconds, nanos }
}

fn index_of(a: Option<Alignment>) -> Option<(usize, i64)> {
    match a {
        Some(Alignment::Exact(k)) => Some((k, 0)),
        Some(Alignment::Nearest(k, d)) | Some(Alignment::Resampled(k, d)) => Some((k, d)),
        _ => None,
    }
}

#[test]
fn exact_alignment_takes_the_first_row_at_the_moment() {
    let times = vec![at(5), None, at(10), at(10)];
    let a = choose_alignment(&times, moment(10, 0), FusionAlignmentMode::ExactTime, 5, 60);
    assert!(matches!(a, Some(Alignment::Exact(2))));
    let none = choose_alignment(&times, moment(10, 1), FusionAlignmentMode::ExactTime, 5, 60);
    assert!(none.is_none());
}

#[test]
fn nearest_alignment_keeps_the_first_of_equally_near_rows() {
    let times = vec![at(100), at(94), at(106), None, at(103)];
    let a = choose_alignment(&times, moment(100, 500_000_000), FusionAlignmentMode::NearestWithinWindow, 5, 60);
    // 100 is 0.5 s away, which rounds toward zero to 0 s.
    assert_eq!(index_of(a), Some((0, 0)));
    let b = choose_alignment(&times, moment(97, 0), FusionAlignmentMode::NearestWithinWindow, 3, 60);
    assert_eq!(index_of(b), Some((0, 3)));
    let c = choose_alignment(&times, moment(200, 0), FusionAlignmentMode::ExactThenNearest, 5, 60);
    assert!(c.is_none());
    let d = choose_alignment(&times, moment(103, 0), FusionAlignmentMode::ExactThenNearest, 5, 60);
    assert!(matches!(d, Some(Alignment::Exact(4))));
    // A window below one second counts as one second.
    let e = choose_alignment(&times, moment(101, 0), FusionAlignmentMode::NearestWithinWindow, 0, 60);
    assert_eq!(index_of(e), Some((0, 1)));
}

#[test]
fn window_alignment_lists_rows_with_their_mean_distance() {
    let times = vec![at(100), at(94), at(106), None, at(103)];
    match choose_alignment(&times, moment(101, 0), FusionAlignmentMode::WindowAggregation, 5, 60) {
        Some(Alignment::Window(rows, mean)) => {
            assert_eq!(rows, vec![0, 2, 4]);
            assert_eq!(mean, (1 + 5 + 2) / 3);
        }
        other => panic!("unexpected {other:?}"),
    }
    assert!(choose_alignment(&times, moment(0, 0), FusionAlignmentMode::ExactThenWindow, 5, 60).is_none());
}

#[test]
fn resampling_uses_buckets_rounded_toward_zero() {
    let times = vec![at(-59), at(-61), at(59), at(1)];
    let a = choose_alignment(&times, moment(30, 0), FusionAlignmentMode::ResampleNearest, 5, 60);
    assert_eq!(index_of(a), Some((2, 29)));
    // -59 / 60 rounds toward zero to bucket 0, the bucket of 30 as well.
    let b = choose_alignment(&vec![at(-59), at(-61)], moment(30, 0), FusionAlignmentMode::ResampleNearest, 5, 60);
    assert_eq!(index_of(b), Some((0, 89)));
    let c = choose_alignment(&vec![at(-61)], moment(30, 0), FusionAlignmentMode::ResampleNearest, 5, 60);
    assert!(c.is_none());
}
