use gstreamed::bbox::Bbox;
use gstreamed::bbox::KeyPoint;
use gstreamed::img_dimensions::ImgDimensions;
use gstreamed::remap::remap_bbox;
use gstreamed::remap::remap_bboxes;
use gstreamed::remap::remap_coordinate;

fn plain(xmin: u32, ymin: u32, xmax: u32, ymax: u32, class: usize, confidence: i32) -> Bbox {
    Bbox {
        xmin,
        ymin,
        xmax,
        ymax,
        class,
        detector_confidence: confidence,
        tracker_confidence: 0,
        tracker_id: None,
        data: vec![],
    }
}

#[test]
fn a_coordinate_is_scaled_and_rounded_down() {
    assert_eq!(remap_coordinate(320, 640, 1920), 960);
    assert_eq!(remap_coordinate(1, 640, 1920), 3);
    assert_eq!(remap_coordinate(1, 3, 2), 0);
    assert_eq!(remap_coordinate(2, 3, 2), 1);
    assert_eq!(remap_coordinate(3, 3, 2), 2);
    assert_eq!(remap_coordinate(640, 640, 0), 0);
    assert_eq!(remap_coordinate(5, 0, 1920), 0);
    assert_eq!(remap_coordinate(u32::MAX, 1, u32::MAX), u32::MAX);
}

#[test]
fn a_box_is_remapped_corner_by_corner() {
    let scaled = ImgDimensions::new(640, 360);
    let frame = ImgDimensions::new(1920, 1080);
    let mut b = plain(80, 40, 120, 60, 3, 900_000);
    b.tracker_id = Some(4);
    b.tracker_confidence = 5;
    b.data = vec![KeyPoint { x: 1, y: 2, mask: 3 }];
    let r = remap_bbox(b.clone(), scaled, frame);
    let mut want = b;
    want.xmin = 240;
    want.ymin = 120;
    want.xmax = 360;
    want.ymax = 180;
    assert_eq!(r, want);
}

#[test]
fn subpixel_units_come_out_as_pixels() {
    // Boxes held in sixteenths of a pixel of a 640 by 360 image.
    let units = ImgDimensions::new(640 * 16, 360 * 16);
    let frame = ImgDimensions::new(1920, 1080);
    let r = remap_bbox(plain(1288, 648, 10_240, 5_760, 0, 0), units, frame);
    assert_eq!((r.xmin, r.ymin, r.xmax, r.ymax), (241, 121, 1920, 1080));
}

#[test]
fn the_round_trip_loses_less_than_a_unit_when_enlarging() {
    let scaled = 640;
    let frame = 1920;
    for v in 0..=scaled {
        let there = remap_coordinate(v, scaled, frame);
        let back = remap_coordinate(there, frame, scaled);
        assert!(there <= frame);
        assert!(back <= v);
        assert!(v - back <= 1);
        assert!((v - back) as u64 * (frame as u64) < (scaled + frame) as u64);
    }
    assert_eq!(remap_coordinate(remap_coordinate(321, 640, 1920), 1920, 640), 321);
}

#[test]
fn the_round_trip_loses_less_than_the_factor_when_shrinking() {
    let from = 1000;
    let to = 7;
    for v in 0..=from {
        let back = remap_coordinate(remap_coordinate(v, from, to), to, from);
        assert!(back <= v);
        assert!(((v - back) as u64) * (to as u64) < (from + to) as u64);
    }
    assert_eq!(remap_coordinate(remap_coordinate(999, 1000, 7), 7, 1000), 857);
}

#[test]
fn all_classes_are_remapped() {
    let scaled = ImgDimensions::new(640, 384);
    let frame = ImgDimensions::new(1280, 768);
    let per_class = vec![
        vec![plain(0, 0, 10, 10, 0, 1), plain(20, 30, 40, 50, 0, 2)],
        vec![],
        vec![plain(640, 384, 640, 384, 2, 3)],
    ];
    let out = remap_bboxes(per_class, scaled, frame);
    assert_eq!(
        out,
        vec![
            vec![plain(0, 0, 20, 20, 0, 1), plain(40, 60, 80, 100, 0, 2)],
            vec![],
            vec![plain(1280, 768, 1280, 768, 2, 3)],
        ]
    );
    assert_eq!(remap_bboxes(vec![], scaled, frame), Vec::<Vec<Bbox>>::new());
}
