use gstreamed::frame_times::millis;
use gstreamed::frame_times::AggregatedTimes;
use gstreamed::frame_times::FrameTimer;
use gstreamed::frame_times::FrameTimes;
use gstreamed::frame_times::Stage;

#[test]
fn aggregate_avg() {
    let f1 = FrameTimes::uniform(4000);
    let f2 = FrameTimes::uniform(8000);

    let mut agg = AggregatedTimes::default();
    agg.push(f1);
    agg.push(f2);

    let avg = agg.avg(false);
    let tgt = FrameTimes::uniform(6000);
    assert_eq!(avg, tgt);
}

#[test]
fn aggregate_avg_ignore_first() {
    let f1 = FrameTimes::uniform(40000);
    let f2 = FrameTimes::uniform(200);

    let mut agg = AggregatedTimes::default();
    agg.push(f1);
    agg.push(f2);

    let avg = agg.avg(true);
    let tgt = FrameTimes::uniform(200);
    assert_eq!(avg, tgt);
}

#[test]
fn aggregate_min_and_max() {
    let mut f1 = FrameTimes::uniform(600);
    f1.forward_pass = millis(5000);
    f1.bbox_extraction = millis(200);
    f1.nms = millis(300);

    let mut f2 = FrameTimes::uniform(900);
    f2.frame_to_buffer = millis(100);
    f2.forward_pass = millis(499);

    let f3 = FrameTimes::uniform(500);

    let mut agg = AggregatedTimes::default();
    agg.push(f1);
    agg.push(f2);
    agg.push(f3);

    let min = agg.min(false);
    let mut min_tgt = FrameTimes::uniform(500);
    min_tgt.frame_to_buffer = millis(100);
    min_tgt.forward_pass = millis(499);
    min_tgt.bbox_extraction = millis(200);
    min_tgt.nms = millis(300);
    assert_eq!(min, min_tgt);

    let max = agg.max(false);
    let mut max_tgt = FrameTimes::uniform(900);
    max_tgt.frame_to_buffer = millis(600);
    max_tgt.forward_pass = millis(5000);
    assert_eq!(max, max_tgt);
}

#[test]
fn millis_are_nanoseconds() {
    assert_eq!(millis(0), 0);
    assert_eq!(millis(1), 1_000_000);
    assert_eq!(millis(u64::MAX), u64::MAX as u128 * 1_000_000);
}

#[test]
fn uniform_sets_every_stage() {
    let t = FrameTimes::uniform(7);
    let stages = [
        Stage::FrameToBuffer,
        Stage::BufferResize,
        Stage::BufferToTensor,
        Stage::ForwardPass,
        Stage::BboxExtraction,
        Stage::Nms,
        Stage::Tracking,
        Stage::Annotation,
        Stage::BufferToFrame,
    ];
    for s in stages {
        assert_eq!(t.get(s), 7_000_000);
    }
}

#[test]
fn total_is_the_sum_of_the_stages() {
    let mut t = FrameTimes::uniform(1);
    t.nms = 5;
    assert_eq!(t.total(), 8 * 1_000_000 + 5);
    assert_eq!(t.checked_total(), Some(8 * 1_000_000 + 5));
    assert_eq!(FrameTimes::default().total(), 0);
}

#[test]
fn checked_total_reports_overflow() {
    let mut t = FrameTimes::default();
    t.frame_to_buffer = u128::MAX;
    assert_eq!(t.checked_total(), Some(u128::MAX));
    t.buffer_to_frame = 1;
    assert_eq!(t.checked_total(), None);
}

#[test]
fn aggregates_of_nothing_are_zero() {
    let agg = AggregatedTimes::default();
    assert_eq!(agg.len(), 0);
    assert_eq!(agg.avg(false), FrameTimes::default());
    assert_eq!(agg.avg(true), FrameTimes::default());
    assert_eq!(agg.min(false), FrameTimes::default());
    assert_eq!(agg.min(true), FrameTimes::default());
    assert_eq!(agg.max(false), FrameTimes::default());
    assert_eq!(agg.max(true), FrameTimes::default());
}

#[test]
fn ignoring_the_only_record_leaves_nothing() {
    let mut agg = AggregatedTimes::default();
    agg.push(FrameTimes::uniform(300));
    assert_eq!(agg.len(), 1);
    assert_eq!(agg.avg(true), FrameTimes::default());
    assert_eq!(agg.min(true), FrameTimes::default());
    assert_eq!(agg.max(true), FrameTimes::default());
    assert_eq!(agg.avg(false), FrameTimes::uniform(300));
    assert_eq!(agg.min(false), FrameTimes::uniform(300));
    assert_eq!(agg.max(false), FrameTimes::uniform(300));
}

#[test]
fn average_rounds_down() {
    let mut a = FrameTimes::default();
    a.tracking = 1;
    let mut b = FrameTimes::default();
    b.tracking = 2;
    let mut c = FrameTimes::default();
    c.tracking = 2;
    let mut agg = AggregatedTimes::default();
    agg.push(a);
    agg.push(b);
    agg.push(c);
    assert_eq!(agg.avg(false).tracking, 1);
    assert_eq!(agg.avg(true).tracking, 2);
}

#[test]
fn average_of_the_largest_values_does_not_overflow() {
    let mut a = FrameTimes::default();
    a.annotation = u128::MAX;
    let mut agg = AggregatedTimes::default();
    agg.push(a);
    agg.push(a);
    agg.push(a);
    assert_eq!(agg.avg(false).annotation, u128::MAX);
    let mut b = FrameTimes::default();
    b.annotation = u128::MAX - 3;
    agg.push(b);
    assert_eq!(agg.avg(false).annotation, u128::MAX - 1);
}

#[test]
fn min_and_max_ignore_the_first_record() {
    let mut agg = AggregatedTimes::default();
    agg.push(FrameTimes::uniform(10_000));
    agg.push(FrameTimes::uniform(5));
    agg.push(FrameTimes::uniform(9));
    assert_eq!(agg.max(true), FrameTimes::uniform(9));
    assert_eq!(agg.max(false), FrameTimes::uniform(10_000));
    assert_eq!(agg.min(true), FrameTimes::uniform(5));
    let mut low = AggregatedTimes::default();
    low.push(FrameTimes::uniform(1));
    low.push(FrameTimes::uniform(5));
    assert_eq!(low.min(true), FrameTimes::uniform(5));
    assert_eq!(low.min(false), FrameTimes::uniform(1));
}

#[test]
fn setting_a_stage_leaves_the_others() {
    let mut t = FrameTimes::uniform(2);
    t.set(Stage::Tracking, 17);
    let mut want = FrameTimes::uniform(2);
    want.tracking = 17;
    assert_eq!(t, want);
    t.set(Stage::FrameToBuffer, 0);
    t.set(Stage::BufferToFrame, u128::MAX);
    assert_eq!(t.get(Stage::FrameToBuffer), 0);
    assert_eq!(t.get(Stage::BufferToFrame), u128::MAX);
    assert_eq!(t.get(Stage::Nms), 2_000_000);
    assert_eq!(t.checked_total(), None);
}

#[test]
fn a_timer_records_one_stage_only() {
    let mut t = FrameTimes::uniform(2);
    let timer = FrameTimer::start();
    timer.record(&mut t, Stage::ForwardPass);
    let mut want = FrameTimes::uniform(2);
    want.forward_pass = t.forward_pass;
    assert_eq!(t, want);
    let first = t.forward_pass;
    let mut spent: u64 = 0;
    for i in 0..100_000u64 {
        spent = spent.wrapping_add(i * i);
    }
    assert!(spent > 0);
    timer.record(&mut t, Stage::ForwardPass);
    assert!(t.forward_pass >= first);
}

#[test]
fn records_are_summed_stage_by_stage() {
    let mut a = FrameTimes::uniform(1);
    a.nms = 5;
    let mut b = FrameTimes::uniform(2);
    b.tracking = 7;
    let total = FrameTimes::sum(&vec![a, b, FrameTimes::default()]).unwrap();
    let mut want = FrameTimes::uniform(3);
    want.nms = 2_000_005;
    want.tracking = 1_000_007;
    assert_eq!(total, want);
    assert_eq!(FrameTimes::sum(&vec![]), Some(FrameTimes::default()));
    assert_eq!(FrameTimes::sum(&vec![a]), Some(a));
}

#[test]
fn a_sum_beyond_what_fits_is_none() {
    let mut a = FrameTimes::default();
    a.annotation = u128::MAX;
    assert_eq!(FrameTimes::sum(&vec![a, FrameTimes::default()]), Some(a));
    let mut b = FrameTimes::default();
    b.annotation = 1;
    assert_eq!(FrameTimes::sum(&vec![a, b]), None);
    assert_eq!(FrameTimes::sum(&vec![b, a, b]), None);
    let mut c = FrameTimes::default();
    c.frame_to_buffer = 1;
    assert!(FrameTimes::sum(&vec![a, c]).is_some());
}
