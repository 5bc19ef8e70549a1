//! Payload encoding: the fixed-size wire buffer handed to the LED
//! controller — a four-byte header marker, three bytes per LED in
//! red-green-blue order, and a four-byte footer marker.

use vstd::prelude::*;
use crate::blank::blank_offset_spec;
use crate::blank::compute_vertical_blank_offset;
use crate::frame::frame_wf;
use crate::frame::Triplet;
use crate::layout::LayoutConfig;
use crate::zones::frame_geometry_ok;
use crate::zones::led_triplets;
use crate::zones::map_edge_triplets;

verus! {

/// A triplet sequence flattened to bytes: red, green, blue for each LED,
/// consecutively.
pub open spec fn bytes_of_triplets(ts: Seq<Triplet>) -> Seq<u8> {
    Seq::new(
        (3 * ts.len()) as nat,
        |j: int|
            {
                let t = ts[j / 3];
                if j % 3 == 0 {
                    t.r
                } else if j % 3 == 1 {
                    t.g
                } else {
                    t.b
                }
            },
    )
}

/// The full wire payload of a frame: header marker, the strip's triplets
/// in wiring order (sampled past the detected letterbox bars), footer
/// marker.
pub open spec fn payload_spec(width: int, height: int, img: Seq<u8>, cfg: LayoutConfig) -> Seq<
    u8,
> {
    cfg.header@ + bytes_of_triplets(
        led_triplets(width, height, img, cfg, blank_offset_spec(width, height, img)),
    ) + cfg.footer@
}

/// Why encoding was refused; a configuration-consistency error, detected
/// at startup, never mid-stream.
#[derive(Clone, Copy, Debug, PartialEq, Eq, Structural)]
pub enum EncodeError {
    /// The number of triplets does not match the configured LED total.
    CountMismatch,
}

/// Flattening one more triplet appends exactly its three channel bytes.
proof fn lemma_bytes_of_triplets_extend(ts: Seq<Triplet>, i: int)
    requires
        0 <= i < ts.len(),
    ensures
        bytes_of_triplets(ts.take(i + 1)) == bytes_of_triplets(ts.take(i)).push(ts[i].r).push(
            ts[i].g,
        ).push(ts[i].b),
{
    let lhs = bytes_of_triplets(ts.take(i + 1));
    let rhs = bytes_of_triplets(ts.take(i)).push(ts[i].r).push(ts[i].g).push(ts[i].b);
    assert forall|j: int| 0 <= j < lhs.len() implies lhs[j] == rhs[j] by {
        if j < 3 * i {
            assert(j / 3 < i);
        } else {
            assert(j / 3 == i);
        }
    }
    assert(lhs =~= rhs);
}

/// Writes the wire buffer for a triplet sequence already known to match
/// the configured LED total.
#[verifier::loop_isolation(false)]
fn encode_exact(cfg: &LayoutConfig, triplets: &Vec<Triplet>) -> (r: Vec<u8>)
    requires
        cfg.wf(),
        triplets@.len() == cfg.total_spec(),
    ensures
        r@ == cfg.header@ + bytes_of_triplets(triplets@) + cfg.footer@,
        r@.len() == 8 + 3 * cfg.total_spec(),
{
    let mut out: Vec<u8> = Vec::new();
    out.push(cfg.header[0]);
    out.push(cfg.header[1]);
    out.push(cfg.header[2]);
    out.push(cfg.header[3]);
    proof {
        assert(out@ =~= cfg.header@ + bytes_of_triplets(triplets@.take(0)));
    }
    let n = triplets.len();
    for i in 0..n
        invariant
            out@ == cfg.header@ + bytes_of_triplets(triplets@.take(i as int)),
            out@.len() == 4 + 3 * i,
    {
        let t = triplets[i];
        out.push(t.r);
        out.push(t.g);
        out.push(t.b);
        proof {
            lemma_bytes_of_triplets_extend(triplets@, i as int);
            assert(out@ =~= cfg.header@ + bytes_of_triplets(triplets@.take(i + 1)));
        }
    }
    proof {
        assert(triplets@.take(n as int) =~= triplets@);
    }
    out.push(cfg.footer[0]);
    out.push(cfg.footer[1]);
    out.push(cfg.footer[2]);
    out.push(cfg.footer[3]);
    proof {
        assert(out@ =~= cfg.header@ + bytes_of_triplets(triplets@) + cfg.footer@);
    }
    out
}

/// Assembles the wire payload from the ordered triplet sequence; fails
/// exactly when the triplet count does not match the configured LED
/// total.
pub fn encode_payload(cfg: &LayoutConfig, triplets: &Vec<Triplet>) -> (r: Result<
    Vec<u8>,
    EncodeError,
>)
    requires
        cfg.wf(),
    ensures
        r is Ok <==> triplets@.len() == cfg.total_spec(),
        r is Err ==> r->Err_0 == EncodeError::CountMismatch,
        r is Ok ==> r->Ok_0@ == cfg.header@ + bytes_of_triplets(triplets@) + cfg.footer@,
        r is Ok ==> r->Ok_0@.len() == 8 + 3 * cfg.total_spec(),
{
    if triplets.len() != cfg.total_leds() {
        return Err(EncodeError::CountMismatch);
    }
    Ok(encode_exact(cfg, triplets))
}

/// The whole per-frame transform: detect the letterbox blanking, map the
/// edges to ordered triplets, and frame them with the wire markers.
pub fn compute_serial_payload(width: usize, height: usize, img: &[u8], cfg: &LayoutConfig) -> (p:
    Vec<u8>)
    requires
        cfg.wf(),
        frame_wf(width as int, height as int, img@),
        frame_geometry_ok(width as int, height as int, *cfg),
    ensures
        p@ == payload_spec(width as int, height as int, img@, *cfg),
        p@.len() == 8 + 3 * cfg.total_spec(),
{
    let blank = compute_vertical_blank_offset(width, height, img);
    let triplets = map_edge_triplets(width, height, img, cfg, blank);
    encode_exact(cfg, &triplets)
}

} // verus!
