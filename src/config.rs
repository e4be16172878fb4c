use vstd::prelude::*;
use vstd::string::StringExecFns;

use crate::pixels::PixelType;

verus! {

/// Capture resolution, pixel format name and frame rate.
#[derive(Clone, Debug)]
pub struct CameraSettings {
    pub width: u32,
    pub height: u32,
    pub format: String,
    pub frame_rate: u32,
}

/// The pipeline configuration, read once at startup.
#[derive(Clone, Debug)]
pub struct Settings {
    pub camera: CameraSettings,
    pub downsample_ratio: u32,
    pub sobel_thresh: i16,
    pub edge_thresh: u32,
    pub output_path: String,
    pub output_buffer_size: usize,
}

/// Why a configuration cannot drive the pipeline.
#[derive(Clone, Copy, Debug, PartialEq, Eq, Structural)]
pub enum SettingsError {
    /// The camera format is not one the scorer reads.
    UnsupportedFormat,
    /// A downsample ratio of zero.
    ZeroRatio,
    /// The frame has more pixels than a motion score can count.
    FrameTooLarge,
}

/// The pixel layout named by a camera format.
pub open spec fn format_pixel_type(format: Seq<char>) -> Option<PixelType> {
    if format == "YUYV"@ {
        Some(PixelType::YUYV)
    } else {
        None
    }
}

pub fn pixel_type_of(format: &String) -> (t: Option<PixelType>)
    ensures
        t == format_pixel_type(format@),
{
    let yuyv = String::from_str("YUYV");
    proof {
        reveal_strlit("YUYV");
    }
    if *format == yuyv {
        Some(PixelType::YUYV)
    } else {
        None
    }
}

/// The outcome of `check_settings`.
pub open spec fn settings_verdict(s: Settings) -> Result<PixelType, SettingsError> {
    match format_pixel_type(s.camera.format@) {
        None => Err(SettingsError::UnsupportedFormat),
        Some(t) => if s.downsample_ratio == 0 {
            Err(SettingsError::ZeroRatio)
        } else if s.camera.width * s.camera.height > u32::MAX {
            Err(SettingsError::FrameTooLarge)
        } else {
            Ok(t)
        },
    }
}

/// Checks a configuration before the pipeline starts and gives the pixel
/// layout of the camera's frames.
pub fn check_settings(s: &Settings) -> (r: Result<PixelType, SettingsError>)
    ensures
        r == settings_verdict(*s),
{
    match pixel_type_of(&s.camera.format) {
        None => Err(SettingsError::UnsupportedFormat),
        Some(t) => {
            let (w, h) = (s.camera.width as u64, s.camera.height as u64);
            assert(w * h <= u32::MAX * u32::MAX) by (nonlinear_arith)
                requires
                    w <= u32::MAX,
                    h <= u32::MAX,
            ;
            if s.downsample_ratio == 0 {
                Err(SettingsError::ZeroRatio)
            } else if w * h > u32::MAX as u64 {
                Err(SettingsError::FrameTooLarge)
            } else {
                Ok(t)
            }
        },
    }
}

} // verus!
