//! What the pipeline is set up with: the size of the model, thresholds and
//! the fixed-point units in which scores and coordinates are held.

use crate::img_dimensions::ImgDimensions;
use crate::img_dimensions::Ratio;
use vstd::prelude::*;

verus! {

/// The score that stands for certainty: scores are held in millionths.
pub const SCORE_ONE: i32 = 1_000_000;

/// Coordinate units in one pixel of the scaled image.
pub const SUBPIXEL: u32 = 16;

/// The size of the detector.
#[derive(Debug, Clone, Copy, PartialEq, Eq, Structural)]
pub enum Which {
    N,
    S,
    M,
    L,
    X,
}

impl Which {
    /// The letter that names the size.
    pub fn suffix(&self) -> (letter: char)
        ensures
            letter == match *self {
                Which::N => 'n',
                Which::S => 's',
                Which::M => 'm',
                Which::L => 'l',
                Which::X => 'x',
            },
    {
        match self {
            Which::N => 'n',
            Which::S => 's',
            Which::M => 'm',
            Which::L => 'l',
            Which::X => 'x',
        }
    }

    /// The file that holds the weights of a detector of this size.
    pub fn weights_file(&self) -> (name: &'static str)
        ensures
            name@ == match *self {
                Which::N => "yolov8n.safetensors"@,
                Which::S => "yolov8s.safetensors"@,
                Which::M => "yolov8m.safetensors"@,
                Which::L => "yolov8l.safetensors"@,
                Which::X => "yolov8x.safetensors"@,
            },
    {
        match self {
            Which::N => "yolov8n.safetensors",
            Which::S => "yolov8s.safetensors",
            Which::M => "yolov8m.safetensors",
            Which::L => "yolov8l.safetensors",
            Which::X => "yolov8x.safetensors",
        }
    }
}

/// The settings of one pipeline.
#[derive(Debug, Clone, Copy, PartialEq, Eq, Structural)]
pub struct PipelineConfig {
    /// The canvas that the detector reads, in pixels.
    pub model_input_dims: ImgDimensions,
    /// Anchors whose best score is under this are left out; in millionths.
    pub conf_threshold: i32,
    /// Intersection over union beyond which a box suppresses another.
    pub nms_threshold: Ratio,
    /// Height of the legend drawn over a box, in pixels; zero for none.
    pub legend_size: u32,
    /// The number of classes of the taxonomy.
    pub num_classes: u32,
}

impl Default for PipelineConfig {
    fn default() -> (config: Self)
        ensures
            config.model_input_dims == (ImgDimensions { width: 640, height: 384 }),
            config.conf_threshold == 250_000,
            config.nms_threshold == (Ratio { num: 45, den: 100 }),
            config.legend_size == 14,
            config.num_classes == 80,
    {
        PipelineConfig {
            model_input_dims: ImgDimensions { width: 640, height: 384 },
            conf_threshold: 250_000,
            nms_threshold: Ratio { num: 45, den: 100 },
            legend_size: 14,
            num_classes: 80,
        }
    }
}

impl PipelineConfig {
    /// The canvas in coordinate units, in which boxes are held.
    pub fn canvas_units(&self, scaled_dims: ImgDimensions) -> (units: ImgDimensions)
        ensures
            units == (ImgDimensions {
                width: crate::img_dimensions::saturated((scaled_dims.width * SUBPIXEL) as nat),
                height: crate::img_dimensions::saturated((scaled_dims.height * SUBPIXEL) as nat),
            }),
    {
        ImgDimensions {
            width: crate::img_dimensions::saturate(scaled_dims.width as u64 * SUBPIXEL as u64),
            height: crate::img_dimensions::saturate(scaled_dims.height as u64 * SUBPIXEL as u64),
        }
    }
}

} // verus!
