//! Detection and decoding of QR codes in grayscale images.
//!
//! The library decides what is tried on an image and in which order, and
//! what comes back from it; the two decoders themselves are run by the caller.
//! An image is binarized and handed to the first decoder; where that reads
//! nothing the second decoder gets the image as it is. Where both read nothing
//! and the caller allows it, the image is tried again at a descending ladder
//! of smaller scales. Every bounding box is reported in the pixel grid of the
//! image that detection began with.

pub mod backend;
pub mod coord;
pub mod detect;
pub mod geometry;
pub mod ladder;
pub mod prepare;
pub mod raster;

pub use coord::{Coord, Point};
pub use detect::{Action, Detection, Detector, Phase, Reading};
pub use geometry::{bbox_from_points, rescale_bbox, BoundingBox, Scale};
pub use ladder::{scale_ladder, LadderConfig};
pub use raster::{DetectError, Image};
