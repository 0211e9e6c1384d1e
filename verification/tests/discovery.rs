use gstreamed::discovery::discover_resolution;
use gstreamed::discovery::discover_resolution_from_stream_info;
use gstreamed::discovery::CapsField;
use gstreamed::discovery::DiscoveryError;
use gstreamed::discovery::FileInfo;
use gstreamed::img_dimensions::ImgDimensions;
use gstreamed::inference::PipelineConfig;
use gstreamed::inference::Which;
use gstreamed::inference::SCORE_ONE;
use gstreamed::inference::SUBPIXEL;
use gstreamed::img_dimensions::Ratio;

#[test]
fn a_stream_gives_its_width_and_height() {
    let fields = vec![CapsField::Other, CapsField::Width(1920), CapsField::Other, CapsField::Height(1080)];
    assert_eq!(
        discover_resolution_from_stream_info(&fields),
        Some(FileInfo { width: 1920, height: 1080 })
    );
    let swapped = vec![CapsField::Height(1080), CapsField::Width(1920)];
    assert_eq!(
        discover_resolution_from_stream_info(&swapped),
        Some(FileInfo { width: 1920, height: 1080 })
    );
}

#[test]
fn the_scan_stops_once_both_are_known() {
    let fields = vec![
        CapsField::Width(1),
        CapsField::Width(2),
        CapsField::Height(3),
        CapsField::Height(4),
        CapsField::Width(5),
    ];
    assert_eq!(discover_resolution_from_stream_info(&fields), Some(FileInfo { width: 2, height: 3 }));
}

#[test]
fn a_stream_without_both_gives_nothing() {
    assert_eq!(discover_resolution_from_stream_info(&vec![]), None);
    assert_eq!(discover_resolution_from_stream_info(&vec![CapsField::Width(5)]), None);
    assert_eq!(
        discover_resolution_from_stream_info(&vec![CapsField::Height(5), CapsField::Other]),
        None
    );
}

#[test]
fn the_first_stream_with_a_resolution_wins() {
    let streams = vec![
        vec![CapsField::Other],
        vec![CapsField::Width(640)],
        vec![CapsField::Width(1280), CapsField::Height(720)],
        vec![CapsField::Width(1920), CapsField::Height(1080)],
    ];
    assert_eq!(discover_resolution(&streams), Ok(FileInfo { width: 1280, height: 720 }));
}

#[test]
fn no_stream_with_a_resolution_is_an_error() {
    assert_eq!(discover_resolution(&vec![]), Err(DiscoveryError::NoResolution));
    let streams = vec![vec![CapsField::Width(640)], vec![CapsField::Height(480)], vec![]];
    assert_eq!(discover_resolution(&streams), Err(DiscoveryError::NoResolution));
}

#[test]
fn frame_dims_refuse_negative_sides() {
    assert_eq!(FileInfo { width: 1920, height: 1080 }.frame_dims(), Some(ImgDimensions::new(1920, 1080)));
    assert_eq!(FileInfo { width: 0, height: 0 }.frame_dims(), Some(ImgDimensions::new(0, 0)));
    assert_eq!(FileInfo { width: -1, height: 1080 }.frame_dims(), None);
    assert_eq!(FileInfo { width: 1920, height: i32::MIN }.frame_dims(), None);
    assert_eq!(
        FileInfo { width: i32::MAX, height: i32::MAX }.frame_dims(),
        Some(ImgDimensions::new(i32::MAX as u32, i32::MAX as u32))
    );
}

#[test]
fn every_size_names_its_weights() {
    assert_eq!(Which::N.weights_file(), "yolov8n.safetensors");
    assert_eq!(Which::S.weights_file(), "yolov8s.safetensors");
    assert_eq!(Which::M.weights_file(), "yolov8m.safetensors");
    assert_eq!(Which::L.weights_file(), "yolov8l.safetensors");
    assert_eq!(Which::X.weights_file(), "yolov8x.safetensors");
    let sizes = [Which::N, Which::S, Which::M, Which::L, Which::X];
    for which in sizes {
        assert_eq!(which.weights_file(), format!("yolov8{}.safetensors", which.suffix()));
    }
    assert_eq!(Which::N.suffix(), 'n');
    assert_eq!(Which::X.suffix(), 'x');
}

#[test]
fn the_default_settings() {
    let config = PipelineConfig::default();
    assert_eq!(config.model_input_dims, ImgDimensions::new(640, 384));
    assert_eq!(config.conf_threshold, SCORE_ONE / 4);
    assert_eq!(config.nms_threshold, Ratio::new(45, 100));
    assert_eq!(config.legend_size, 14);
    assert_eq!(config.num_classes, 80);
}

#[test]
fn the_canvas_in_coordinate_units() {
    let config = PipelineConfig::default();
    assert_eq!(SUBPIXEL, 16);
    assert_eq!(config.canvas_units(ImgDimensions::new(640, 360)), ImgDimensions::new(10_240, 5_760));
    assert_eq!(
        config.canvas_units(ImgDimensions::new(u32::MAX, 1)),
        ImgDimensions::new(u32::MAX, 16)
    );
}
