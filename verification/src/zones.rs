//! Edge-zone mapping: turning frame geometry and an LED layout into the
//! ordered rectangular sampling zones of the strip, and averaging each
//! zone into one color triplet.
//!
//! The order of the zones is the wire contract: it matches the physical
//! wiring around the screen perimeter — bottom-right edge left to right,
//! right edge bottom to top, top edge right to left, left edge top to
//! bottom, bottom-left edge left to right.

use vstd::arithmetic::div_mod::lemma_div_non_zero;
use vstd::arithmetic::div_mod::lemma_div_nonincreasing;
use vstd::arithmetic::div_mod::lemma_div_pos_is_pos;
use vstd::arithmetic::div_mod::lemma_fundamental_div_mod;
use vstd::arithmetic::div_mod::lemma_mod_division_less_than_divisor;
use vstd::arithmetic::div_mod::lemma_div_is_ordered;
use vstd::arithmetic::div_mod::lemma_div_multiples_vanish;
use vstd::arithmetic::mul::lemma_mul_is_commutative;
use vstd::prelude::*;
use crate::blank::blank_offset_spec;
use crate::blank::lemma_first_lit_row_value;
use crate::blank::max_stripe;
use crate::blank::sampled_row_black;
use crate::frame::frame_wf;
use crate::frame::uniform_frame;
use crate::frame::pixel_chan;
use crate::frame::Triplet;
use crate::layout::LayoutConfig;

verus! {

/// A rectangular sampling region of the frame, driving one LED.
#[derive(Clone, Copy, Debug, PartialEq, Eq, Structural)]
pub struct Zone {
    pub row_start: usize,
    pub row_count: usize,
    pub col_start: usize,
    pub col_count: usize,
}

impl Zone {
    /// The zone lies fully inside a `width` by `height` frame.
    pub open spec fn in_frame(self, width: int, height: int) -> bool {
        &&& self.row_start + self.row_count <= height
        &&& self.col_start + self.col_count <= width
    }

    /// Number of pixels the zone covers.
    pub open spec fn pixel_count(self) -> int {
        self.row_count * self.col_count
    }
}

/// How many pixels deep, from the screen edge inward, each sampling zone
/// extends: two percent of (width + height), rounded to nearest.
pub open spec fn depth_spec(width: int, height: int) -> int {
    (width + height + 25) / 50
}

/// Pixel span of one top-edge LED along the horizontal axis; the two
/// extra slots reserve half-pitch margins at the corners so corner LEDs
/// are not double-counted between adjacent edges.
pub open spec fn pitch_h(width: int, cfg: LayoutConfig) -> int {
    width / (cfg.leds_top + 2)
}

/// Pixel span of one side-edge LED along the vertical axis.
pub open spec fn pitch_v(height: int, cfg: LayoutConfig) -> int {
    height / (cfg.leds_left + 2)
}

/// The sampling zone of the LED at strip index `i`, for a frame whose top
/// `blank` rows are letterbox bars, in the fixed physical wiring order:
/// bottom-right, right, top, left, bottom-left.
pub open spec fn led_zone(width: int, height: int, cfg: LayoutConfig, blank: int, i: int) -> Zone {
    let d = depth_spec(width, height);
    let ph = pitch_h(width, cfg);
    let pv = pitch_v(height, cfg);
    if i < cfg.leds_bottom_right {
        Zone {
            row_start: (height - d - blank) as usize,
            row_count: d as usize,
            col_start: (width - ph * (cfg.leds_bottom_right + 1 - i)) as usize,
            col_count: ph as usize,
        }
    } else if i < cfg.leds_bottom_right + cfg.leds_right {
        let j = i - cfg.leds_bottom_right;
        Zone {
            row_start: (height - pv * (2 + j)) as usize,
            row_count: pv as usize,
            col_start: (width - d) as usize,
            col_count: d as usize,
        }
    } else if i < cfg.leds_bottom_right + cfg.leds_right + cfg.leds_top {
        let j = i - cfg.leds_bottom_right - cfg.leds_right;
        Zone {
            row_start: blank as usize,
            row_count: d as usize,
            col_start: (width - ph * (2 + j)) as usize,
            col_count: ph as usize,
        }
    } else if i < cfg.leds_bottom_right + cfg.leds_right + cfg.leds_top + cfg.leds_left {
        let j = i - cfg.leds_bottom_right - cfg.leds_right - cfg.leds_top;
        Zone {
            row_start: (pv * (1 + j)) as usize,
            row_count: pv as usize,
            col_start: 0,
            col_count: d as usize,
        }
    } else {
        let j = i - cfg.leds_bottom_right - cfg.leds_right - cfg.leds_top - cfg.leds_left;
        Zone {
            row_start: (height - d - blank) as usize,
            row_count: d as usize,
            col_start: (ph * (1 + j)) as usize,
            col_count: ph as usize,
        }
    }
}

/// Validated frame geometry: under it every sampling zone, for every
/// blanking offset the detector can return, lies inside the frame, so the
/// mapper cannot fail mid-stream.
pub open spec fn frame_geometry_ok(width: int, height: int, cfg: LayoutConfig) -> bool {
    let d = depth_spec(width, height);
    &&& 0 <= width
    &&& 0 <= height
    &&& (max_stripe(height) > 0 ==> width >= 1)
    &&& width + height + 25 <= usize::MAX
    &&& d <= width
    &&& d + max_stripe(height) <= height
    &&& pitch_h(width, cfg) * (cfg.leds_bottom_right + 1) <= width
}

/// Dividing a nonnegative value leaves a nonnegative quotient whose
/// product with the divisor does not exceed the value.
proof fn lemma_div_mul_le(x: int, c: int)
    requires
        0 <= x,
        0 < c,
    ensures
        0 <= x / c,
        c * (x / c) <= x,
        (x / c) * c <= x,
{
    lemma_fundamental_div_mod(x, c);
    lemma_mod_division_less_than_divisor(x, c);
    lemma_div_pos_is_pos(x, c);
    lemma_mul_is_commutative(c, x / c);
}

/// A pitch-aligned span: when `bound` pitches fit inside `limit`, the
/// `m`-th pitch ends within `limit` and starts no earlier than zero.
proof fn lemma_pitch_span(pitch: int, m: int, bound: int, limit: int)
    requires
        0 <= pitch,
        1 <= m <= bound,
        pitch * bound <= limit,
    ensures
        0 <= pitch * (m - 1),
        pitch * (m - 1) + pitch == pitch * m,
        pitch * m <= limit,
{
    assert(0 <= pitch * (m - 1) && pitch * (m - 1) + pitch == pitch * m && pitch * m <= limit)
        by (nonlinear_arith)
        requires
            0 <= pitch,
            1 <= m <= bound,
            pitch * bound <= limit,
    ;
}

/// Zone containment: under validated geometry, every computed sampling
/// zone lies fully inside the frame, whatever blanking offset the
/// detector reported.
pub proof fn lemma_zone_containment(width: int, height: int, cfg: LayoutConfig, blank: int)
    requires
        cfg.wf(),
        frame_geometry_ok(width, height, cfg),
        0 <= blank <= max_stripe(height),
    ensures
        forall|i: int|
            0 <= i < cfg.total_spec() ==> (#[trigger] led_zone(width, height, cfg, blank, i))
                .in_frame(width, height),
{
    let d = depth_spec(width, height);
    let ph = pitch_h(width, cfg);
    let pv = pitch_v(height, cfg);
    lemma_div_mul_le(width + height + 25, 50);
    lemma_div_mul_le(width, cfg.leds_top + 2);
    lemma_div_mul_le(height, cfg.leds_left + 2);
    assert forall|i: int|
        0 <= i < cfg.total_spec() implies (#[trigger] led_zone(width, height, cfg, blank, i))
        .in_frame(width, height) by {
        let br = cfg.leds_bottom_right as int;
        let rr = cfg.leds_right as int;
        let tt = cfg.leds_top as int;
        let ll = cfg.leds_left as int;
        if i < br {
            lemma_pitch_span(ph, br + 1 - i, br + 1, width);
            assert(led_zone(width, height, cfg, blank, i).in_frame(width, height));
        } else if i < br + rr {
            let j = i - br;
            lemma_pitch_span(pv, 2 + j, ll + 2, height);
            assert(led_zone(width, height, cfg, blank, i).in_frame(width, height));
        } else if i < br + rr + tt {
            let j = i - br - rr;
            lemma_pitch_span(ph, 2 + j, tt + 2, width);
            assert(led_zone(width, height, cfg, blank, i).in_frame(width, height));
        } else if i < br + rr + tt + ll {
            let j = i - br - rr - tt;
            lemma_pitch_span(pv, 2 + j, ll + 2, height);
            assert(led_zone(width, height, cfg, blank, i).in_frame(width, height));
        } else {
            let j = i - br - rr - tt - ll;
            lemma_pitch_span(ph, 2 + j, br + 1, width);
            assert(led_zone(width, height, cfg, blank, i).in_frame(width, height));
        }
    }
}

/// Sum of channel `c` over the first `ncols` pixels of `row`, starting at
/// column `col_start`.
pub open spec fn row_chan_sum(
    width: int,
    img: Seq<u8>,
    row: int,
    col_start: int,
    ncols: int,
    c: int,
) -> int
    decreases ncols,
{
    if ncols <= 0 {
        0
    } else {
        row_chan_sum(width, img, row, col_start, ncols - 1, c) + pixel_chan(
            width,
            img,
            row,
            col_start + ncols - 1,
            c,
        )
    }
}

/// Sum of channel `c` over the first `nrows` rows of a rectangle.
pub open spec fn rect_chan_sum(
    width: int,
    img: Seq<u8>,
    row_start: int,
    nrows: int,
    col_start: int,
    ncols: int,
    c: int,
) -> int
    decreases nrows,
{
    if nrows <= 0 {
        0
    } else {
        rect_chan_sum(width, img, row_start, nrows - 1, col_start, ncols, c) + row_chan_sum(
            width,
            img,
            row_start + nrows - 1,
            col_start,
            ncols,
            c,
        )
    }
}

/// Sum of channel `c` over a whole zone.
pub open spec fn zone_chan_sum(width: int, img: Seq<u8>, z: Zone, c: int) -> int {
    rect_chan_sum(
        width,
        img,
        z.row_start as int,
        z.row_count as int,
        z.col_start as int,
        z.col_count as int,
        c,
    )
}

/// The average color of a zone, channels reordered from the buffer's
/// blue-green-red order to red-green-blue, with truncating division; an
/// empty zone averages to black.
pub open spec fn zone_avg(width: int, img: Seq<u8>, z: Zone) -> Triplet {
    let n = z.pixel_count();
    if n <= 0 {
        Triplet { r: 0, g: 0, b: 0 }
    } else {
        Triplet {
            r: (zone_chan_sum(width, img, z, 2) / n) as u8,
            g: (zone_chan_sum(width, img, z, 1) / n) as u8,
            b: (zone_chan_sum(width, img, z, 0) / n) as u8,
        }
    }
}

/// A row sum of byte-sized channels stays within `255` per pixel.
pub proof fn lemma_row_chan_sum_bounds(
    width: int,
    img: Seq<u8>,
    row: int,
    col_start: int,
    ncols: int,
    c: int,
)
    requires
        ncols >= 0,
    ensures
        0 <= row_chan_sum(width, img, row, col_start, ncols, c) <= 255 * ncols,
    decreases ncols,
{
    if ncols > 0 {
        lemma_row_chan_sum_bounds(width, img, row, col_start, ncols - 1, c);
    }
}

/// A rectangle sum of byte-sized channels stays within `255` per pixel.
pub proof fn lemma_rect_chan_sum_bounds(
    width: int,
    img: Seq<u8>,
    row_start: int,
    nrows: int,
    col_start: int,
    ncols: int,
    c: int,
)
    requires
        nrows >= 0,
        ncols >= 0,
    ensures
        0 <= rect_chan_sum(width, img, row_start, nrows, col_start, ncols, c) <= 255 * (nrows
            * ncols),
    decreases nrows,
{
    if nrows > 0 {
        lemma_rect_chan_sum_bounds(width, img, row_start, nrows - 1, col_start, ncols, c);
        lemma_row_chan_sum_bounds(width, img, row_start + nrows - 1, col_start, ncols, c);
        assert(255 * ((nrows - 1) * ncols) + 255 * ncols == 255 * (nrows * ncols))
            by (nonlinear_arith);
    } else {
        assert(255 * (nrows * ncols) >= 0) by (nonlinear_arith)
            requires
                nrows == 0,
        ;
    }
}

/// Over a row whose channel `c` is constantly `v`, the sum is `ncols * v`.
pub proof fn lemma_row_chan_sum_uniform(
    width: int,
    img: Seq<u8>,
    row: int,
    col_start: int,
    ncols: int,
    c: int,
    v: u8,
)
    requires
        ncols >= 0,
        forall|col: int|
            col_start <= col < col_start + ncols ==> #[trigger] pixel_chan(width, img, row, col, c)
                == v,
    ensures
        row_chan_sum(width, img, row, col_start, ncols, c) == ncols * v,
    decreases ncols,
{
    if ncols > 0 {
        lemma_row_chan_sum_uniform(width, img, row, col_start, ncols - 1, c, v);
        assert((ncols - 1) * v + v == ncols * v) by (nonlinear_arith);
    } else {
        assert(ncols * v == 0) by (nonlinear_arith)
            requires
                ncols == 0,
        ;
    }
}

/// Over a rectangle whose channel `c` is constantly `v`, the sum is the
/// pixel count times `v`.
pub proof fn lemma_rect_chan_sum_uniform(
    width: int,
    img: Seq<u8>,
    row_start: int,
    nrows: int,
    col_start: int,
    ncols: int,
    c: int,
    v: u8,
)
    requires
        nrows >= 0,
        ncols >= 0,
        forall|row: int, col: int|
            row_start <= row < row_start + nrows && col_start <= col < col_start + ncols
                ==> #[trigger] pixel_chan(width, img, row, col, c) == v,
    ensures
        rect_chan_sum(width, img, row_start, nrows, col_start, ncols, c) == (nrows * ncols) * v,
    decreases nrows,
{
    if nrows > 0 {
        lemma_rect_chan_sum_uniform(width, img, row_start, nrows - 1, col_start, ncols, c, v);
        lemma_row_chan_sum_uniform(width, img, row_start + nrows - 1, col_start, ncols, c, v);
        assert(((nrows - 1) * ncols) * v + ncols * v == (nrows * ncols) * v) by (nonlinear_arith);
    } else {
        assert((nrows * ncols) * v == 0) by (nonlinear_arith)
            requires
                nrows == 0,
        ;
    }
}

/// Average color of one sampling zone: sums each channel over the zone as
/// an unsigned accumulator, then divides by the pixel count, truncating;
/// an empty zone yields black.
#[verifier::loop_isolation(false)]
pub fn average_zone(width: usize, height: usize, img: &[u8], z: Zone) -> (t: Triplet)
    requires
        frame_wf(width as int, height as int, img@),
        z.in_frame(width as int, height as int),
    ensures
        t == zone_avg(width as int, img@, z),
{
    let buf_len = img.len();
    let mut sum_r: u128 = 0;
    let mut sum_g: u128 = 0;
    let mut sum_b: u128 = 0;
    for row_i in 0..z.row_count
        invariant
            sum_b == rect_chan_sum(
                width as int,
                img@,
                z.row_start as int,
                row_i as int,
                z.col_start as int,
                z.col_count as int,
                0,
            ),
            sum_g == rect_chan_sum(
                width as int,
                img@,
                z.row_start as int,
                row_i as int,
                z.col_start as int,
                z.col_count as int,
                1,
            ),
            sum_r == rect_chan_sum(
                width as int,
                img@,
                z.row_start as int,
                row_i as int,
                z.col_start as int,
                z.col_count as int,
                2,
            ),
    {
        let row = z.row_start + row_i;
        for col_i in 0..z.col_count
            invariant
                row == z.row_start + row_i,
                sum_b == rect_chan_sum(
                    width as int,
                    img@,
                    z.row_start as int,
                    row_i as int,
                    z.col_start as int,
                    z.col_count as int,
                    0,
                ) + row_chan_sum(
                    width as int,
                    img@,
                    row as int,
                    z.col_start as int,
                    col_i as int,
                    0,
                ),
                sum_g == rect_chan_sum(
                    width as int,
                    img@,
                    z.row_start as int,
                    row_i as int,
                    z.col_start as int,
                    z.col_count as int,
                    1,
                ) + row_chan_sum(
                    width as int,
                    img@,
                    row as int,
                    z.col_start as int,
                    col_i as int,
                    1,
                ),
                sum_r == rect_chan_sum(
                    width as int,
                    img@,
                    z.row_start as int,
                    row_i as int,
                    z.col_start as int,
                    z.col_count as int,
                    2,
                ) + row_chan_sum(
                    width as int,
                    img@,
                    row as int,
                    z.col_start as int,
                    col_i as int,
                    2,
                ),
        {
            let col = z.col_start + col_i;
            proof {
                lemma_rect_chan_sum_bounds(
                    width as int,
                    img@,
                    z.row_start as int,
                    row_i as int,
                    z.col_start as int,
                    z.col_count as int,
                    0,
                );
                lemma_rect_chan_sum_bounds(
                    width as int,
                    img@,
                    z.row_start as int,
                    row_i as int,
                    z.col_start as int,
                    z.col_count as int,
                    1,
                );
                lemma_rect_chan_sum_bounds(
                    width as int,
                    img@,
                    z.row_start as int,
                    row_i as int,
                    z.col_start as int,
                    z.col_count as int,
                    2,
                );
                lemma_row_chan_sum_bounds(
                    width as int,
                    img@,
                    row as int,
                    z.col_start as int,
                    col_i as int,
                    0,
                );
                lemma_row_chan_sum_bounds(
                    width as int,
                    img@,
                    row as int,
                    z.col_start as int,
                    col_i as int,
                    1,
                );
                lemma_row_chan_sum_bounds(
                    width as int,
                    img@,
                    row as int,
                    z.col_start as int,
                    col_i as int,
                    2,
                );
                assert(row * width + col < width * height) by (nonlinear_arith)
                    requires
                        row <= height - 1,
                        col <= width - 1,
                        width >= 1,
                ;
                assert(255 * (row_i * z.col_count) + 255 * col_i + 255 <= u128::MAX)
                    by (nonlinear_arith)
                    requires
                        0 <= row_i <= height,
                        0 <= z.col_count <= width,
                        0 <= col_i <= width,
                        width * height * 4 <= usize::MAX,
                ;
                assert(width * height * 4 == buf_len);
            }
            let idx = 4 * (row * width + col);
            sum_b = sum_b + (img[idx] as u128);
            sum_g = sum_g + (img[idx + 1] as u128);
            sum_r = sum_r + (img[idx + 2] as u128);
        }
    }
    let pixels = match z.row_count.checked_mul(z.col_count) {
        Some(n) => n,
        None => {
            proof {
                assert(z.row_count * z.col_count <= height * width) by (nonlinear_arith)
                    requires
                        0 <= z.row_count <= height,
                        0 <= z.col_count <= width,
                ;
                assert(height * width * 4 == width * height * 4) by (nonlinear_arith);
                assert(width * height * 4 == buf_len);
            }
            0
        },
    };
    if pixels == 0 {
        return Triplet { r: 0, g: 0, b: 0 };
    }
    let n = pixels as u128;
    proof {
        lemma_rect_chan_sum_bounds(
            width as int,
            img@,
            z.row_start as int,
            z.row_count as int,
            z.col_start as int,
            z.col_count as int,
            0,
        );
        lemma_rect_chan_sum_bounds(
            width as int,
            img@,
            z.row_start as int,
            z.row_count as int,
            z.col_start as int,
            z.col_count as int,
            1,
        );
        lemma_rect_chan_sum_bounds(
            width as int,
            img@,
            z.row_start as int,
            z.row_count as int,
            z.col_start as int,
            z.col_count as int,
            2,
        );
        lemma_div_chain(sum_r as int, pixels as int);
        lemma_div_chain(sum_g as int, pixels as int);
        lemma_div_chain(sum_b as int, pixels as int);
    }
    Triplet { r: (sum_r / n) as u8, g: (sum_g / n) as u8, b: (sum_b / n) as u8 }
}

/// A channel sum divided by the pixel count stays within a byte.
proof fn lemma_div_chain(sum: int, n: int)
    requires
        0 < n,
        0 <= sum <= 255 * n,
    ensures
        0 <= sum / n <= 255,
{
    lemma_div_pos_is_pos(sum, n);
    lemma_div_is_ordered(sum, 255 * n, n);
    lemma_mul_is_commutative(255, n);
    lemma_div_multiples_vanish(255, n);
}

/// The triplet driven onto the LED at strip index `i`.
pub open spec fn led_triplet(
    width: int,
    height: int,
    img: Seq<u8>,
    cfg: LayoutConfig,
    blank: int,
    i: int,
) -> Triplet {
    zone_avg(width, img, led_zone(width, height, cfg, blank, i))
}

/// All strip triplets, one per LED, in wiring order.
pub open spec fn led_triplets(
    width: int,
    height: int,
    img: Seq<u8>,
    cfg: LayoutConfig,
    blank: int,
) -> Seq<Triplet> {
    Seq::new(
        cfg.total_spec() as nat,
        |i: int| led_triplet(width, height, img, cfg, blank, i),
    )
}

/// Maps the frame to the ordered triplet sequence of the strip: one
/// sampling zone per LED, averaged, in the fixed physical wiring order.
#[verifier::loop_isolation(false)]
#[verifier::rlimit(80)]
pub fn map_edge_triplets(
    width: usize,
    height: usize,
    img: &[u8],
    cfg: &LayoutConfig,
    blank: usize,
) -> (r: Vec<Triplet>)
    requires
        cfg.wf(),
        frame_wf(width as int, height as int, img@),
        frame_geometry_ok(width as int, height as int, *cfg),
        blank <= max_stripe(height as int),
    ensures
        r@ == led_triplets(width as int, height as int, img@, *cfg, blank as int),
        r@.len() == cfg.total_spec(),
{
    let d = (width + height + 25) / 50;
    let ph = width / (cfg.leds_top + 2);
    let pv = height / (cfg.leds_left + 2);
    proof {
        assert(d == depth_spec(width as int, height as int));
        assert(ph == pitch_h(width as int, *cfg));
        assert(pv == pitch_v(height as int, *cfg));
        lemma_div_mul_le(width as int, cfg.leds_top + 2);
        lemma_div_mul_le(height as int, cfg.leds_left + 2);
    }
    let mut triplets: Vec<Triplet> = Vec::new();
    let br_count = cfg.leds_bottom_right;
    for i in 0..br_count
        invariant
            triplets@.len() == i,
            forall|k: int|
                0 <= k < i ==> triplets@[k] == led_triplet(
                    width as int,
                    height as int,
                    img@,
                    *cfg,
                    blank as int,
                    k,
                ),
    {
        proof {
            lemma_pitch_span(ph as int, br_count + 1 - i, br_count + 1, width as int);
        }
        let zone = Zone {
            row_start: height - d - blank,
            row_count: d,
            col_start: width - ph * (br_count + 1 - i),
            col_count: ph,
        };
        let t = average_zone(width, height, img, zone);
        proof {
            assert(zone == led_zone(width as int, height as int, *cfg, blank as int, i as int));
        }
        triplets.push(t);
    }
    let r_count = cfg.leds_right;
    for i in 0..r_count
        invariant
            triplets@.len() == cfg.leds_bottom_right + i,
            forall|k: int|
                0 <= k < cfg.leds_bottom_right + i ==> triplets@[k] == led_triplet(
                    width as int,
                    height as int,
                    img@,
                    *cfg,
                    blank as int,
                    k,
                ),
    {
        proof {
            lemma_pitch_span(pv as int, 2 + i, cfg.leds_left + 2, height as int);
        }
        let zone = Zone {
            row_start: height - pv * (2 + i),
            row_count: pv,
            col_start: width - d,
            col_count: d,
        };
        let t = average_zone(width, height, img, zone);
        proof {
            assert(zone == led_zone(
                width as int,
                height as int,
                *cfg,
                blank as int,
                cfg.leds_bottom_right + i,
            ));
        }
        triplets.push(t);
    }
    let t_count = cfg.leds_top;
    for i in 0..t_count
        invariant
            triplets@.len() == cfg.leds_bottom_right + cfg.leds_right + i,
            forall|k: int|
                0 <= k < cfg.leds_bottom_right + cfg.leds_right + i ==> triplets@[k]
                    == led_triplet(width as int, height as int, img@, *cfg, blank as int, k),
    {
        proof {
            lemma_pitch_span(ph as int, 2 + i, cfg.leds_top + 2, width as int);
        }
        let zone = Zone {
            row_start: blank,
            row_count: d,
            col_start: width - ph * (2 + i),
            col_count: ph,
        };
        let t = average_zone(width, height, img, zone);
        proof {
            assert(zone == led_zone(
                width as int,
                height as int,
                *cfg,
                blank as int,
                cfg.leds_bottom_right + cfg.leds_right + i,
            ));
        }
        triplets.push(t);
    }
    let l_count = cfg.leds_left;
    for i in 0..l_count
        invariant
            triplets@.len() == cfg.leds_bottom_right + cfg.leds_right + cfg.leds_top + i,
            forall|k: int|
                0 <= k < cfg.leds_bottom_right + cfg.leds_right + cfg.leds_top + i
                    ==> triplets@[k] == led_triplet(
                    width as int,
                    height as int,
                    img@,
                    *cfg,
                    blank as int,
                    k,
                ),
    {
        proof {
            lemma_pitch_span(pv as int, 2 + i, cfg.leds_left + 2, height as int);
        }
        let zone = Zone {
            row_start: pv * (1 + i),
            row_count: pv,
            col_start: 0,
            col_count: d,
        };
        let t = average_zone(width, height, img, zone);
        proof {
            assert(zone == led_zone(
                width as int,
                height as int,
                *cfg,
                blank as int,
                cfg.leds_bottom_right + cfg.leds_right + cfg.leds_top + i,
            ));
        }
        triplets.push(t);
    }
    let bl_count = cfg.leds_bottom_left;
    for i in 0..bl_count
        invariant
            triplets@.len() == cfg.leds_bottom_right + cfg.leds_right + cfg.leds_top
                + cfg.leds_left + i,
            forall|k: int|
                0 <= k < cfg.leds_bottom_right + cfg.leds_right + cfg.leds_top + cfg.leds_left + i
                    ==> triplets@[k] == led_triplet(
                    width as int,
                    height as int,
                    img@,
                    *cfg,
                    blank as int,
                    k,
                ),
    {
        proof {
            lemma_pitch_span(ph as int, 2 + i, cfg.leds_bottom_right + 1, width as int);
        }
        let zone = Zone {
            row_start: height - d - blank,
            row_count: d,
            col_start: ph * (1 + i),
            col_count: ph,
        };
        let t = average_zone(width, height, img, zone);
        proof {
            assert(zone == led_zone(
                width as int,
                height as int,
                *cfg,
                blank as int,
                cfg.leds_bottom_right + cfg.leds_right + cfg.leds_top + cfg.leds_left + i,
            ));
        }
        triplets.push(t);
    }
    proof {
        assert(triplets@ =~= led_triplets(
            width as int,
            height as int,
            img@,
            *cfg,
            blank as int,
        ));
    }
    triplets
}

/// Uniform-color invariant: a frame filled entirely with one non-black
/// color is detected as letterbox-free, and every LED of the strip is
/// driven with exactly that color.
pub proof fn lemma_uniform_frame_triplets(
    width: int,
    height: int,
    img: Seq<u8>,
    cfg: LayoutConfig,
    t: Triplet,
)
    requires
        cfg.wf(),
        frame_wf(width, height, img),
        frame_geometry_ok(width, height, cfg),
        depth_spec(width, height) >= 1,
        width >= cfg.leds_top + 2,
        height >= cfg.leds_left + 2,
        uniform_frame(width, height, img, t),
        !t.is_black(),
    ensures
        blank_offset_spec(width, height, img) == 0,
        forall|i: int|
            0 <= i < cfg.total_spec() ==> led_triplets(width, height, img, cfg, 0)[i] == t,
{
    let d = depth_spec(width, height);
    let ph = pitch_h(width, cfg);
    let pv = pitch_v(height, cfg);
    assert(!sampled_row_black(width, img, 0));
    lemma_first_lit_row_value(width, img, max_stripe(height), 0);
    lemma_div_non_zero(width, cfg.leds_top + 2);
    lemma_div_non_zero(height, cfg.leds_left + 2);
    lemma_div_nonincreasing(width, cfg.leds_top + 2);
    lemma_div_nonincreasing(height, cfg.leds_left + 2);
    lemma_zone_containment(width, height, cfg, 0);
    assert forall|i: int|
        0 <= i < cfg.total_spec() implies led_triplets(width, height, img, cfg, 0)[i] == t by {
        let z = led_zone(width, height, cfg, 0, i);
        assert(z.in_frame(width, height));
        assert(z.row_count >= 1 && z.col_count >= 1);
        let nr = z.row_count as int;
        let nc = z.col_count as int;
        assert(nr * nc >= 1) by (nonlinear_arith)
            requires
                nr >= 1,
                nc >= 1,
        ;
        lemma_rect_chan_sum_uniform(width, img, z.row_start as int, nr, z.col_start as int, nc, 0, t.b);
        lemma_rect_chan_sum_uniform(width, img, z.row_start as int, nr, z.col_start as int, nc, 1, t.g);
        lemma_rect_chan_sum_uniform(width, img, z.row_start as int, nr, z.col_start as int, nc, 2, t.r);
        lemma_div_multiples_vanish(t.b as int, nr * nc);
        lemma_div_multiples_vanish(t.g as int, nr * nc);
        lemma_div_multiples_vanish(t.r as int, nr * nc);
        assert(led_triplet(width, height, img, cfg, 0, i) == t);
    }
}

/// Runtime form of the geometry validation; meant to run at session
/// startup, before any frame is mapped.
pub fn check_frame_geometry(width: usize, height: usize, cfg: &LayoutConfig) -> (r: bool)
    requires
        cfg.wf(),
    ensures
        r == frame_geometry_ok(width as int, height as int, *cfg),
{
    let ms = height / 8;
    if ms > 0 && width == 0 {
        return false;
    }
    let with_height = match width.checked_add(height) {
        Some(s) => s,
        None => {
            return false;
        },
    };
    let rounded = match with_height.checked_add(25) {
        Some(s) => s,
        None => {
            return false;
        },
    };
    let d = rounded / 50;
    if d > width {
        return false;
    }
    if d + ms > height {
        return false;
    }
    let ph = width / (cfg.leds_top + 2);
    match ph.checked_mul(cfg.leds_bottom_right + 1) {
        Some(p) => p <= width,
        None => false,
    }
}

} // verus!
