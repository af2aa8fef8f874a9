//! Grayscale images as the library holds them, and the errors that a raw
//! buffer can be refused with.

use vstd::prelude::*;

verus! {

/// Why a raw buffer was not taken as an image.
#[derive(Clone, Copy, Debug, PartialEq, Eq, Structural)]
pub enum DetectError {
    /// The buffer's length is not `width * height`.
    InputShape,
    /// The length matches, but an image of this size has no pixel.
    BufferConstruction,
}

impl DetectError {
    /// What went wrong, in words.
    pub fn message(&self) -> (text: String)
        ensures
            text@ == match *self {
                DetectError::InputShape => "Data length does not match width and height"@,
                DetectError::BufferConstruction => "Could not create image"@,
            },
    {
        match self {
            DetectError::InputShape => "Data length does not match width and height".to_owned(),
            DetectError::BufferConstruction => "Could not create image".to_owned(),
        }
    }
}

/// A grid of 8-bit intensity samples, row by row without padding.
#[derive(Clone, Debug)]
pub struct Image {
    pub width: u32,
    pub height: u32,
    pub data: Vec<u8>,
}

/// An image as contracts speak of it: its size and its samples.
pub struct Raster {
    pub width: u32,
    pub height: u32,
    pub pixels: Seq<u8>,
}

impl Raster {
    /// The raster has at least one pixel and one sample for each.
    pub open spec fn wf(self) -> bool {
        &&& self.width > 0
        &&& self.height > 0
        &&& self.pixels.len() == self.width * self.height
    }
}

impl View for Image {
    type V = Raster;

    open spec fn view(&self) -> Raster {
        Raster { width: self.width, height: self.height, pixels: self.data@ }
    }
}

/// What `Image::from_raw` answers for a buffer of `len` samples.
pub open spec fn shape_verdict(len: nat, width: u32, height: u32) -> Option<DetectError> {
    if len != width * height {
        Some(DetectError::InputShape)
    } else if width == 0 || height == 0 {
        Some(DetectError::BufferConstruction)
    } else {
        None
    }
}

impl Image {
    /// The image has at least one pixel and one sample for each.
    pub open spec fn wf(&self) -> bool {
        &&& self.width > 0
        &&& self.height > 0
        &&& self.data@.len() == self.width * self.height
    }

    /// Takes a raw buffer as an image of the given size. A buffer whose length
    /// is not `width * height` is refused as `InputShape`; an empty one of
    /// matching length as `BufferConstruction`.
    pub fn from_raw(width: u32, height: u32, data: Vec<u8>) -> (r: Result<Image, DetectError>)
        ensures
            match shape_verdict(data@.len(), width, height) {
                Some(e) => r == Err::<Image, DetectError>(e),
                None => r matches Ok(image) && image.wf() && image.width == width && image.height
                    == height && image.data@ == data@,
            },
            data@.len() != width * height <==> r == Err::<Image, DetectError>(
                DetectError::InputShape,
            ),
    {
        assert(width as u64 * height as u64 <= 0xffff_ffff * 0xffff_ffff) by (nonlinear_arith)
            requires
                width <= 0xffff_ffff,
                height <= 0xffff_ffff,
        ;
        let area: u64 = width as u64 * height as u64;
        if data.len() as u64 != area {
            Err(DetectError::InputShape)
        } else if area == 0 {
            assert(width == 0 || height == 0) by (nonlinear_arith)
                requires
                    width * height == 0,
            ;
            Err(DetectError::BufferConstruction)
        } else {
            assert(width != 0 && height != 0) by (nonlinear_arith)
                requires
                    width * height != 0,
            ;
            Ok(Image { width, height, data })
        }
    }

    /// The number of pixels.
    pub fn pixel_count(&self) -> (n: u64)
        ensures
            n == self.width * self.height,
    {
        assert(self.width as u64 * self.height as u64 <= 0xffff_ffff * 0xffff_ffff)
            by (nonlinear_arith)
            requires
                self.width <= 0xffff_ffff,
                self.height <= 0xffff_ffff,
        ;
        self.width as u64 * self.height as u64
    }
}

} // verus!
