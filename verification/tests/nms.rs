use gstreamed::bbox::intersection;
use gstreamed::bbox::non_maximum_suppression;
use gstreamed::bbox::overlaps;
use gstreamed::bbox::sort_boxes;
use gstreamed::bbox::suppress_class;
use gstreamed::bbox::Bbox;
use gstreamed::bbox::KeyPoint;
use gstreamed::img_dimensions::ImgDimensions;
use gstreamed::img_dimensions::Ratio;

fn plain(xmin: u32, ymin: u32, xmax: u32, ymax: u32, class: usize, confidence: i32) -> Bbox {
    Bbox {
        xmin,
        ymin,
        xmax,
        ymax,
        class,
        detector_confidence: confidence,
        tracker_confidence: 0,
        tracker_id: None,
        data: vec![],
    }
}

#[test]
fn area_and_intersection_are_exact() {
    let a = plain(0, 0, 10, 10, 0, 1);
    let b = plain(5, 5, 15, 25, 0, 1);
    assert_eq!(a.width(), 10);
    assert_eq!(a.height(), 10);
    assert_eq!(a.area(), 100);
    assert_eq!(b.area(), 200);
    assert_eq!(intersection(&a, &b), 25);
    assert_eq!(intersection(&b, &a), 25);
    let far = plain(20, 20, 30, 30, 0, 1);
    assert_eq!(intersection(&a, &far), 0);
    let touching = plain(10, 0, 20, 10, 0, 1);
    assert_eq!(intersection(&a, &touching), 0);
}

#[test]
fn a_box_with_corners_out_of_order_has_no_area() {
    let b = plain(10, 10, 5, 20, 0, 1);
    assert_eq!(b.width(), 0);
    assert_eq!(b.height(), 10);
    assert_eq!(b.area(), 0);
}

#[test]
fn the_largest_boxes_do_not_overflow() {
    let a = plain(0, 0, u32::MAX, u32::MAX, 0, 1);
    assert_eq!(a.area(), u32::MAX as u64 * u32::MAX as u64);
    assert!(overlaps(&a, &a, Ratio::new(u32::MAX - 1, u32::MAX)));
    assert!(!overlaps(&a, &a, Ratio::new(u32::MAX, u32::MAX)));
}

#[test]
fn overlap_is_compared_exactly() {
    // Shared 50 of a union of 150: one third.
    let a = plain(0, 0, 10, 10, 0, 1);
    let b = plain(5, 0, 15, 10, 0, 1);
    assert!(!overlaps(&a, &b, Ratio::new(1, 3)));
    assert!(overlaps(&a, &b, Ratio::new(33, 100)));
    assert!(!overlaps(&a, &b, Ratio::new(34, 100)));
    assert!(overlaps(&a, &b, Ratio::new(0, 1)));
    let far = plain(50, 50, 60, 60, 0, 1);
    assert!(!overlaps(&a, &far, Ratio::new(0, 1)));
}

#[test]
fn boxes_of_no_area_exceed_nothing() {
    let a = plain(3, 3, 3, 3, 0, 1);
    assert!(!overlaps(&a, &a, Ratio::new(0, 1)));
    assert!(!overlaps(&a, &a, Ratio::new(1, 2)));
}

#[test]
fn a_ratio_without_denominator_is_never_exceeded() {
    let a = plain(0, 0, 10, 10, 0, 1);
    assert!(!overlaps(&a, &a, Ratio::new(0, 0)));
    assert!(!overlaps(&a, &a, Ratio::new(1, 0)));
}

#[test]
fn sorting_is_by_falling_confidence_and_stable() {
    let boxes = vec![
        plain(0, 0, 1, 1, 0, 5),
        plain(1, 0, 2, 1, 0, 9),
        plain(2, 0, 3, 1, 0, 5),
        plain(3, 0, 4, 1, 0, 7),
        plain(4, 0, 5, 1, 0, 9),
        plain(5, 0, 6, 1, 0, 5),
    ];
    let sorted = sort_boxes(boxes);
    let order: Vec<(i32, u32)> = sorted.iter().map(|b| (b.detector_confidence, b.xmin)).collect();
    assert_eq!(order, vec![(9, 1), (9, 4), (7, 3), (5, 0), (5, 2), (5, 5)]);
}

#[test]
fn sorting_nothing_gives_nothing() {
    assert_eq!(sort_boxes(vec![]), vec![]);
    assert_eq!(suppress_class(vec![], Ratio::new(1, 2)), vec![]);
}

#[test]
fn same_class_full_overlap_keeps_the_more_confident() {
    let low = plain(10, 10, 50, 50, 3, 600_000);
    let high = plain(10, 10, 50, 50, 3, 900_000);
    let kept = suppress_class(vec![low, high.clone()], Ratio::new(1, 2));
    assert_eq!(kept, vec![high]);
}

#[test]
fn different_classes_are_never_suppressed_by_each_other() {
    let a = plain(10, 10, 50, 50, 0, 600_000);
    let b = plain(10, 10, 50, 50, 1, 900_000);
    let mut per_class = vec![vec![a.clone()], vec![b.clone()], vec![]];
    non_maximum_suppression(&mut per_class, Ratio::new(1, 2));
    assert_eq!(per_class, vec![vec![a], vec![b], vec![]]);
}

#[test]
fn suppression_is_greedy_in_order_of_confidence() {
    // b overlaps a and c beyond the threshold; a and c do not overlap.
    let a = plain(0, 0, 10, 10, 0, 90);
    let b = plain(4, 0, 14, 10, 0, 80);
    let c = plain(8, 0, 18, 10, 0, 70);
    let kept = suppress_class(vec![c.clone(), b.clone(), a.clone()], Ratio::new(3, 10));
    assert_eq!(kept, vec![a.clone(), c.clone()]);
    // With b the most confident, b suppresses both.
    let mut top = b.clone();
    top.detector_confidence = 95;
    let kept = suppress_class(vec![c, top.clone(), a], Ratio::new(3, 10));
    assert_eq!(kept, vec![top]);
}

#[test]
fn equal_confidence_keeps_the_first_that_came() {
    let first = plain(0, 0, 10, 10, 0, 50);
    let second = plain(1, 0, 11, 10, 0, 50);
    let kept = suppress_class(vec![first.clone(), second.clone()], Ratio::new(1, 2));
    assert_eq!(kept, vec![first.clone()]);
    let kept = suppress_class(vec![second.clone(), first], Ratio::new(1, 2));
    assert_eq!(kept, vec![second]);
}

#[test]
fn suppression_twice_is_suppression_once() {
    let boxes = vec![
        plain(0, 0, 10, 10, 0, 90),
        plain(4, 0, 14, 10, 0, 80),
        plain(8, 0, 18, 10, 0, 70),
        plain(100, 100, 120, 130, 0, 70),
        plain(101, 100, 121, 130, 0, 99),
        plain(30, 30, 30, 30, 0, 10),
    ];
    let threshold = Ratio::new(45, 100);
    let once = suppress_class(boxes, threshold);
    let twice = suppress_class(once.clone(), threshold);
    assert_eq!(once, twice);
    assert_eq!(once.len(), 5);
    let mut per_class = vec![once.clone(), vec![], once.clone()];
    non_maximum_suppression(&mut per_class, threshold);
    assert_eq!(per_class, vec![once.clone(), vec![], once]);
}

#[test]
fn suppression_carries_annotations_along() {
    let mut a = plain(0, 0, 10, 10, 0, 10);
    a.data = vec![KeyPoint { x: 1, y: 2, mask: 3 }];
    let mut b = plain(50, 50, 60, 60, 0, 20);
    b.data = vec![KeyPoint { x: 4, y: 5, mask: 6 }, KeyPoint { x: 7, y: 8, mask: 9 }];
    let kept = suppress_class(vec![a.clone(), b.clone()], Ratio::new(1, 2));
    assert_eq!(kept, vec![b, a]);
}

#[test]
fn from_center_cuts_to_the_canvas() {
    let bounds = ImgDimensions::new(640, 384);
    let b = Bbox::from_center(100, 50, 40, 20, bounds, 7, 123).unwrap();
    assert_eq!((b.xmin, b.ymin, b.xmax, b.ymax), (80, 40, 120, 60));
    assert_eq!(b.class, 7);
    assert_eq!(b.detector_confidence, 123);
    assert_eq!(b.tracker_confidence, 0);
    assert_eq!(b.tracker_id, None);
    assert!(b.data.is_empty());
    // Odd sizes: the left edge is the centre less half the width, rounded down.
    let odd = Bbox::from_center(100, 50, 41, 21, bounds, 0, 0).unwrap();
    assert_eq!((odd.xmin, odd.ymin, odd.xmax, odd.ymax), (80, 40, 121, 61));
    // A box that leaves the canvas is truncated, never dropped.
    let out = Bbox::from_center(630, -5, 40, 20, bounds, 0, 0).unwrap();
    assert_eq!((out.xmin, out.ymin, out.xmax, out.ymax), (610, 0, 640, 5));
    let gone = Bbox::from_center(-100, 1000, 40, 20, bounds, 0, 0).unwrap();
    assert_eq!((gone.xmin, gone.ymin, gone.xmax, gone.ymax), (0, 384, 0, 384));
}

#[test]
fn from_center_drops_boxes_without_size() {
    let bounds = ImgDimensions::new(640, 384);
    assert_eq!(Bbox::from_center(100, 50, 0, 20, bounds, 0, 0), None);
    assert_eq!(Bbox::from_center(100, 50, 20, 0, bounds, 0, 0), None);
    assert!(Bbox::from_center(100, 50, 1, 1, bounds, 0, 0).is_some());
}

#[test]
fn from_center_stands_the_extremes() {
    let bounds = ImgDimensions::new(u32::MAX, u32::MAX);
    let b = Bbox::from_center(i32::MAX, i32::MIN, u32::MAX, u32::MAX, bounds, 0, 0).unwrap();
    assert_eq!(b.xmin, 0);
    assert_eq!(b.xmax, (i32::MAX as i64 - (u32::MAX / 2) as i64 + u32::MAX as i64) as u32);
    assert_eq!(b.ymin, 0);
    assert_eq!(b.ymax, 0);
}

#[test]
fn confidences_below_zero_sort_like_any_other() {
    let boxes = vec![plain(0, 0, 1, 1, 0, -5), plain(1, 0, 2, 1, 0, 3), plain(2, 0, 3, 1, 0, -1)];
    let sorted = sort_boxes(boxes);
    let order: Vec<i32> = sorted.iter().map(|b| b.detector_confidence).collect();
    assert_eq!(order, vec![3, -1, -5]);
    let low = plain(10, 10, 50, 50, 0, -7);
    let high = plain(10, 10, 50, 50, 0, -2);
    assert_eq!(suppress_class(vec![low, high.clone()], Ratio::new(1, 2)), vec![high]);
}
