use gstreamed::bbox::Bbox;
use gstreamed::frame_times::FrameTimes;
use gstreamed::img_dimensions::ImgDimensions;
use gstreamed::img_dimensions::Ratio;
use gstreamed::yolo_parser::extract_boxes;
use gstreamed::yolo_parser::parse_predictions;
use gstreamed::yolo_parser::ParseError;
use gstreamed::yolo_parser::RawPredictions;
use gstreamed::yolo_parser::BBOX_OFFSET;

/// Builds the tensor from one column per anchor.
fn tensor(rows: usize, anchors: &[Vec<i32>]) -> RawPredictions {
    let n = anchors.len();
    let mut data = vec![0; rows * n];
    for (a, column) in anchors.iter().enumerate() {
        assert_eq!(column.len(), rows);
        for (r, v) in column.iter().enumerate() {
            data[r * n + a] = *v;
        }
    }
    RawPredictions { shape: vec![1, rows, n], data }
}

fn plain(xmin: u32, ymin: u32, xmax: u32, ymax: u32, class: usize, confidence: i32) -> Bbox {
    Bbox {
        xmin,
        ymin,
        xmax,
        ymax,
        class,
        detector_confidence: confidence,
        tracker_confidence: 0,
        tracker_id: None,
        data: vec![],
    }
}

const DIMS: ImgDimensions = ImgDimensions { width: 640, height: 384 };

#[test]
fn box_rows_come_first() {
    assert_eq!(BBOX_OFFSET, 4);
}

#[test]
fn reads_values_by_row_and_anchor() {
    let p = tensor(6, &[vec![1, 2, 3, 4, 5, 6], vec![7, 8, 9, 10, 11, 12]]);
    assert!(p.check_layout(2));
    assert!(!p.check_layout(1));
    assert_eq!(p.get(0, 0), 1);
    assert_eq!(p.get(5, 0), 6);
    assert_eq!(p.get(0, 1), 7);
    assert_eq!(p.get(3, 1), 10);
    assert_eq!(p.data, vec![1, 7, 2, 8, 3, 9, 4, 10, 5, 11, 6, 12]);
}

#[test]
fn each_anchor_goes_to_its_best_class() {
    let p = tensor(
        7,
        &[
            vec![100, 50, 40, 20, 10, 900, 30],
            vec![200, 100, 10, 10, 700, 20, 30],
            vec![300, 200, 20, 40, 1, 2, 800],
            vec![400, 300, 60, 60, 5, 950, 6],
        ],
    );
    let out = extract_boxes(&p, DIMS, 3, 500).unwrap();
    assert_eq!(
        out,
        vec![
            vec![plain(195, 95, 205, 105, 0, 700)],
            vec![plain(80, 40, 120, 60, 1, 900), plain(370, 270, 430, 330, 1, 950)],
            vec![plain(290, 180, 310, 220, 2, 800)],
        ]
    );
}

#[test]
fn a_tie_goes_to_the_class_seen_first() {
    let p = tensor(
        7,
        &[vec![100, 50, 40, 20, 5, 9, 9], vec![100, 50, 40, 20, 9, 9, 9], vec![100, 50, 40, 20, 1, 9, 10]],
    );
    let out = extract_boxes(&p, DIMS, 3, 0).unwrap();
    assert_eq!(out[0].len(), 1);
    assert_eq!(out[1].len(), 1);
    assert_eq!(out[2].len(), 1);
    assert_eq!(out[1][0].detector_confidence, 9);
    assert_eq!(out[0][0].detector_confidence, 9);
    assert_eq!(out[2][0].detector_confidence, 10);
}

#[test]
fn the_threshold_leaves_out_what_is_under_it() {
    let p = tensor(
        5,
        &[vec![100, 50, 40, 20, 249_999], vec![100, 50, 40, 20, 250_000], vec![100, 50, 40, 20, 250_001]],
    );
    let out = extract_boxes(&p, DIMS, 1, 250_000).unwrap();
    let kept: Vec<i32> = out[0].iter().map(|b| b.detector_confidence).collect();
    assert_eq!(kept, vec![250_000, 250_001]);
}

#[test]
fn the_greatest_score_decides_also_below_zero() {
    let p = tensor(6, &[vec![100, 50, 40, 20, -2, -1], vec![100, 50, 40, 20, -1, 0]]);
    // Under a threshold of zero the first anchor goes, the second stays, in class 1.
    let out = extract_boxes(&p, DIMS, 2, 0).unwrap();
    assert_eq!(out, vec![vec![], vec![plain(80, 40, 120, 60, 1, 0)]]);
    // A threshold below every score keeps both, each in the class of its greatest score.
    let all = extract_boxes(&p, DIMS, 2, -1).unwrap();
    assert_eq!(
        all,
        vec![vec![], vec![plain(80, 40, 120, 60, 1, -1), plain(80, 40, 120, 60, 1, 0)]]
    );
    let lowest = extract_boxes(&p, DIMS, 2, i32::MIN).unwrap();
    assert_eq!(lowest, all);
    let none = extract_boxes(&p, DIMS, 2, 1).unwrap();
    assert_eq!(none, vec![vec![], vec![]]);
}

#[test]
fn scores_of_zero_go_to_the_first_class() {
    let p = tensor(6, &[vec![100, 50, 40, 20, 0, 0], vec![100, 50, 40, 20, i32::MIN, i32::MIN]]);
    let out = extract_boxes(&p, DIMS, 2, i32::MIN).unwrap();
    assert_eq!(
        out,
        vec![vec![plain(80, 40, 120, 60, 0, 0), plain(80, 40, 120, 60, 0, i32::MIN)], vec![]]
    );
    let kept = extract_boxes(&p, DIMS, 2, 0).unwrap();
    assert_eq!(kept, vec![vec![plain(80, 40, 120, 60, 0, 0)], vec![]]);
}

#[test]
fn boxes_are_cut_to_the_canvas_and_never_dropped_for_it() {
    let p = tensor(
        5,
        &[
            vec![630, -5, 40, 20, 9],
            vec![-100, 1000, 40, 20, 9],
            vec![i32::MAX, i32::MIN, i32::MAX, i32::MAX, 9],
        ],
    );
    let out = extract_boxes(&p, DIMS, 1, 1).unwrap();
    assert_eq!(
        out[0],
        vec![plain(610, 0, 640, 5, 0, 9), plain(0, 384, 0, 384, 0, 9), plain(640, 0, 640, 0, 0, 9)]
    );
}

#[test]
fn boxes_without_size_are_dropped() {
    let p = tensor(
        5,
        &[
            vec![100, 50, 0, 20, 9],
            vec![100, 50, 20, 0, 9],
            vec![100, 50, -3, 20, 9],
            vec![100, 50, 20, i32::MIN, 9],
            vec![100, 50, 1, 1, 9],
        ],
    );
    let out = extract_boxes(&p, DIMS, 1, 1).unwrap();
    assert_eq!(out[0], vec![plain(100, 50, 101, 51, 0, 9)]);
}

#[test]
fn no_anchors_give_empty_classes() {
    let p = RawPredictions { shape: vec![1, 7, 0], data: vec![] };
    assert_eq!(extract_boxes(&p, DIMS, 3, 0), Ok(vec![vec![], vec![], vec![]]));
}

#[test]
fn no_classes_give_no_lists() {
    let p = tensor(4, &[vec![100, 50, 40, 20]]);
    assert_eq!(extract_boxes(&p, DIMS, 0, 0), Ok(vec![]));
}

#[test]
fn malformed_tensors_are_rejected() {
    let good = tensor(6, &[vec![1, 2, 3, 4, 5, 6]]);
    assert!(extract_boxes(&good, DIMS, 2, 0).is_ok());
    assert_eq!(extract_boxes(&good, DIMS, 1, 0), Err(ParseError::MalformedPredictions));
    assert_eq!(extract_boxes(&good, DIMS, 3, 0), Err(ParseError::MalformedPredictions));
    assert_eq!(extract_boxes(&good, DIMS, u32::MAX, 0), Err(ParseError::MalformedPredictions));
    let flat = RawPredictions { shape: vec![6, 1], data: vec![0; 6] };
    assert_eq!(extract_boxes(&flat, DIMS, 2, 0), Err(ParseError::MalformedPredictions));
    let deep = RawPredictions { shape: vec![1, 1, 6, 1], data: vec![0; 6] };
    assert_eq!(extract_boxes(&deep, DIMS, 2, 0), Err(ParseError::MalformedPredictions));
    let batch = RawPredictions { shape: vec![2, 6, 1], data: vec![0; 12] };
    assert_eq!(extract_boxes(&batch, DIMS, 2, 0), Err(ParseError::MalformedPredictions));
    let none = RawPredictions { shape: vec![0, 6, 1], data: vec![] };
    assert_eq!(extract_boxes(&none, DIMS, 2, 0), Err(ParseError::MalformedPredictions));
    let short = RawPredictions { shape: vec![1, 6, 2], data: vec![0; 11] };
    assert_eq!(extract_boxes(&short, DIMS, 2, 0), Err(ParseError::MalformedPredictions));
    let long = RawPredictions { shape: vec![1, 6, 2], data: vec![0; 13] };
    assert_eq!(extract_boxes(&long, DIMS, 2, 0), Err(ParseError::MalformedPredictions));
    let vast = RawPredictions { shape: vec![1, 6, usize::MAX], data: vec![0; 6] };
    assert_eq!(extract_boxes(&vast, DIMS, 2, 0), Err(ParseError::MalformedPredictions));
    let empty = RawPredictions { shape: vec![], data: vec![] };
    assert_eq!(extract_boxes(&empty, DIMS, 2, 0), Err(ParseError::MalformedPredictions));
}

#[test]
fn parsing_suppresses_within_each_class_only() {
    let p = tensor(
        6,
        &[
            vec![100, 100, 40, 40, 600, 0],
            vec![100, 100, 40, 40, 900, 0],
            vec![100, 100, 40, 40, 0, 700],
            vec![300, 300, 40, 40, 0, 800],
        ],
    );
    let mut times = FrameTimes::uniform(3);
    let out = parse_predictions(&p, DIMS, 2, 500, Ratio::new(1, 2), &mut times).unwrap();
    assert_eq!(
        out,
        vec![
            vec![plain(80, 80, 120, 120, 0, 900)],
            vec![plain(280, 280, 320, 320, 1, 800), plain(80, 80, 120, 120, 1, 700)],
        ]
    );
    let mut want = FrameTimes::uniform(3);
    want.bbox_extraction = times.bbox_extraction;
    want.nms = times.nms;
    assert_eq!(times, want);
}

#[test]
fn parsing_a_malformed_tensor_fails_and_leaves_suppression_untimed() {
    let p = RawPredictions { shape: vec![1, 6, 2], data: vec![0; 11] };
    let mut times = FrameTimes::uniform(3);
    let out = parse_predictions(&p, DIMS, 2, 500, Ratio::new(1, 2), &mut times);
    assert_eq!(out, Err(ParseError::MalformedPredictions));
    let mut want = FrameTimes::uniform(3);
    want.bbox_extraction = times.bbox_extraction;
    assert_eq!(times, want);
}
