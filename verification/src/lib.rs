//! Remove Gemini visible sparkle watermarks from RGBA buffers: the verified
//! core (templates, masks, geometry, classification, link tables).
use vstd::prelude::*;

pub mod blend;
pub mod cli;
pub mod detect;
pub mod fill;
pub mod mask;
pub mod native_link;
pub mod residual;
pub mod template;
pub mod video;
pub mod window;

pub use template::{
    sparkle_geometry, sparkle_template, sparkle_template_from, SparkleGeometry, SPARKLE_INSET, SPARKLE_SIZE,
};

verus! {

/// Overlay template as composited onto the image:
/// `observed = alpha * rgb + (1 - alpha) * original`.
/// RGBA buffer; alpha is overlay opacity, RGB is straight (non-premultiplied) overlay color.
#[derive(Clone, Debug)]
pub struct WatermarkTemplate {
    pub width: u32,
    pub height: u32,
    pub data: Vec<u8>,
}

impl WatermarkTemplate {
    /// The data holds exactly `width * height` RGBA pixels.
    pub open spec fn wf(&self) -> bool {
        self.data@.len() == self.width * self.height * 4
    }
}

/// Mutable RGBA view (`data.len() == width * height * 4`).
pub struct RgbaImage<'a> {
    pub width: u32,
    pub height: u32,
    pub data: &'a mut [u8],
}

/// Outcome of removing the sparkle from an image.
#[derive(Clone, Debug, PartialEq, Eq, Structural)]
pub enum RemoveResult {
    Removed { x: u32, y: u32 },
    NotFound,
}

} // verus!
