//! Letterbox detection: how many blank rows sit at the top of a frame
//! before picture content starts.
//!
//! The detector is a single-scanline heuristic: it samples one pixel per
//! row, a quarter of the way across the frame, over at most the top eighth
//! of the frame, and reports the first row whose sample is not exactly
//! black.

use vstd::prelude::*;
use crate::frame::frame_wf;
use crate::frame::pixel_chan;

verus! {

/// Column sampled by the detector: a quarter of the way across the frame.
pub open spec fn sample_col(width: int) -> int {
    width / 4
}

/// Largest letterbox thickness considered: an eighth of the frame height.
pub open spec fn max_stripe(height: int) -> int {
    height / 8
}

/// The sampled pixel of `row` is exactly black.
pub open spec fn sampled_row_black(width: int, img: Seq<u8>, row: int) -> bool {
    &&& pixel_chan(width, img, row, sample_col(width), 0) == 0
    &&& pixel_chan(width, img, row, sample_col(width), 1) == 0
    &&& pixel_chan(width, img, row, sample_col(width), 2) == 0
}

/// Index of the first sampled row in `[0, n)` that is not black, or `n`
/// when every one of them is black.
pub open spec fn first_lit_row_upto(width: int, img: Seq<u8>, n: int) -> int
    decreases n,
{
    if n <= 0 {
        0
    } else {
        let p = first_lit_row_upto(width, img, n - 1);
        if p < n - 1 {
            p
        } else if !sampled_row_black(width, img, n - 1) {
            n - 1
        } else {
            n
        }
    }
}

/// The letterbox blanking offset of a frame: the first non-black sampled
/// row within the top eighth, or the whole eighth when none is found.
pub open spec fn blank_offset_spec(width: int, height: int, img: Seq<u8>) -> int {
    first_lit_row_upto(width, img, max_stripe(height))
}

/// `first_lit_row_upto(width, img, n)` equals any `k` with every sampled
/// row before `k` black and, when `k < n`, row `k` itself not black.
pub proof fn lemma_first_lit_row_value(width: int, img: Seq<u8>, n: int, k: int)
    requires
        0 <= k <= n,
        forall|i: int| 0 <= i < k ==> sampled_row_black(width, img, i),
        k < n ==> !sampled_row_black(width, img, k),
    ensures
        first_lit_row_upto(width, img, n) == k,
    decreases n,
{
    if n > 0 {
        if k < n - 1 {
            lemma_first_lit_row_value(width, img, n - 1, k);
        } else {
            lemma_first_lit_row_value(width, img, n - 1, n - 1);
        }
    }
}

/// The blanking offset never exceeds the top eighth of the frame.
pub proof fn lemma_blank_offset_bounds(width: int, height: int, img: Seq<u8>)
    requires
        height >= 0,
    ensures
        0 <= blank_offset_spec(width, height, img) <= max_stripe(height),
{
    lemma_first_lit_row_bounds(width, img, max_stripe(height));
}

/// `first_lit_row_upto` stays within `[0, n]`.
pub proof fn lemma_first_lit_row_bounds(width: int, img: Seq<u8>, n: int)
    ensures
        0 <= first_lit_row_upto(width, img, n) <= if n <= 0 { 0 } else { n },
    decreases n,
{
    if n > 0 {
        lemma_first_lit_row_bounds(width, img, n - 1);
    }
}

/// Number of blank letterbox rows at the top of the frame: the first row
/// whose sampled pixel is not exactly black, or `height / 8` when the
/// whole scanned range is black.
#[verifier::loop_isolation(false)]
pub fn compute_vertical_blank_offset(width: usize, height: usize, img: &[u8]) -> (r: usize)
    requires
        frame_wf(width as int, height as int, img@),
        max_stripe(height as int) > 0 ==> width > 0,
    ensures
        r == blank_offset_spec(width as int, height as int, img@),
        r <= max_stripe(height as int),
        forall|i: int| 0 <= i < r ==> sampled_row_black(width as int, img@, i),
        r < max_stripe(height as int) ==> !sampled_row_black(width as int, img@, r as int),
{
    let buf_len = img.len();
    let mid = width / 4;
    let max_blank_stripe_height = height / 8;
    for row in 0..max_blank_stripe_height
        invariant
            forall|i: int| 0 <= i < row ==> sampled_row_black(width as int, img@, i),
    {
        proof {
            assert(row * width + mid < width * height) by (nonlinear_arith)
                requires
                    row <= height - 1,
                    mid <= width - 1,
                    width >= 1,
            ;
            assert(width * height * 4 == buf_len);
        }
        let pixel_offset = 4 * (row * width + mid);
        let blue = img[pixel_offset];
        let green = img[pixel_offset + 1];
        let red = img[pixel_offset + 2];
        if !(blue == 0 && green == 0 && red == 0) {
            proof {
                lemma_first_lit_row_value(
                    width as int,
                    img@,
                    max_stripe(height as int),
                    row as int,
                );
            }
            return row;
        }
    }
    proof {
        lemma_first_lit_row_value(
            width as int,
            img@,
            max_stripe(height as int),
            max_stripe(height as int),
        );
    }
    max_blank_stripe_height
}

} // verus!
