//! The captured frame: geometry, pixel-buffer layout, and the color triplet
//! that one LED receives.
//!
//! A frame is `width * height` pixels, row-major, 4 bytes per pixel in
//! blue-green-red-alpha order, with no row padding.

use vstd::prelude::*;

verus! {

/// One LED's color: the averaged red, green and blue channel of a sampling
/// zone.
#[derive(Clone, Copy, Debug, PartialEq, Eq, Structural)]
pub struct Triplet {
    pub r: u8,
    pub g: u8,
    pub b: u8,
}

impl Triplet {
    /// Exact black, the color of an unlit LED and of a letterbox bar.
    pub open spec fn is_black(self) -> bool {
        self.r == 0 && self.g == 0 && self.b == 0
    }
}

/// The pixel buffer is well formed for the given geometry: 4 bytes per
/// pixel, `width * height` pixels, nothing else.
pub open spec fn frame_wf(width: int, height: int, img: Seq<u8>) -> bool {
    img.len() == width * height * 4
}

/// Channel `c` of the pixel at (`row`, `col`): `c` = 0 is blue, 1 is green,
/// 2 is red, 3 is alpha, following the buffer's blue-green-red-alpha order.
pub open spec fn pixel_chan(width: int, img: Seq<u8>, row: int, col: int, c: int) -> u8 {
    img[4 * (row * width + col) + c]
}

/// The red/green/blue channels of every pixel of the frame equal `t`'s.
pub open spec fn uniform_frame(width: int, height: int, img: Seq<u8>, t: Triplet) -> bool {
    forall|row: int, col: int|
        #![trigger pixel_chan(width, img, row, col, 0)]
        #![trigger pixel_chan(width, img, row, col, 1)]
        #![trigger pixel_chan(width, img, row, col, 2)]
        0 <= row < height && 0 <= col < width ==> {
            &&& pixel_chan(width, img, row, col, 0) == t.b
            &&& pixel_chan(width, img, row, col, 1) == t.g
            &&& pixel_chan(width, img, row, col, 2) == t.r
        }
}

/// A captured frame handed in by the capture subsystem: geometry plus the
/// raw blue-green-red-alpha pixel buffer.
pub struct Frame {
    pub width: usize,
    pub height: usize,
    pub data: Vec<u8>,
}

impl Frame {
    pub open spec fn wf(self) -> bool {
        frame_wf(self.width as int, self.height as int, self.data@)
    }

    /// Builds a frame, checking that the buffer length matches the geometry.
    pub fn new(width: usize, height: usize, data: Vec<u8>) -> (r: Option<Frame>)
        ensures
            r is Some <==> frame_wf(width as int, height as int, data@),
            r is Some ==> {
                &&& r->Some_0.width == width
                &&& r->Some_0.height == height
                &&& r->Some_0.data@ == data@
                &&& r->Some_0.wf()
            },
    {
        let buf_len = data.len();
        if let Some(pixels) = width.checked_mul(height) {
            if let Some(bytes) = pixels.checked_mul(4) {
                if bytes == buf_len {
                    return Some(Frame { width, height, data });
                }
            }
        }
        None
    }
}

} // verus!
