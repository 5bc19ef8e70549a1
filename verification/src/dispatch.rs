//! Throttled dispatch: gates incoming frame events by elapsed time and
//! turns the ones that pass into wire payloads.
//!
//! Time is measured in abstract, monotone clock ticks supplied by the
//! caller; the dispatcher keeps a single piece of state, the tick of the
//! last emitted payload. A frame arriving inside the throttle window is
//! dropped silently — a dropped real-time sample is cheaper than a stale
//! one — and there is no retry or buffering of undelivered frames.

use vstd::prelude::*;
use crate::frame::Frame;
use crate::layout::LayoutConfig;
use crate::payload::compute_serial_payload;
use crate::payload::payload_spec;
use crate::zones::frame_geometry_ok;

verus! {

/// The throttle gate: a frame event at `now` passes when at least
/// `period` ticks have elapsed since the last emitted payload.
pub open spec fn gate_passes(last: int, now: int, period: int) -> bool {
    now - last >= period
}

/// Drives the per-frame pipeline, at most once per throttle period.
pub struct ThrottledDispatcher {
    /// The LED layout the payloads are computed for.
    pub config: LayoutConfig,
    /// Minimum number of ticks between two emitted payloads.
    pub period: u64,
    /// Tick of the last emitted payload, or of construction.
    pub last_dispatch: u64,
}

impl ThrottledDispatcher {
    pub open spec fn wf(self) -> bool {
        self.config.wf()
    }

    /// Builds a dispatcher; `now` is the construction tick, so the first
    /// frame can be emitted only a full period later.
    pub fn new(config: LayoutConfig, period: u64, now: u64) -> (d: ThrottledDispatcher)
        requires
            config.wf(),
        ensures
            d.config == config,
            d.period == period,
            d.last_dispatch == now,
            d.wf(),
    {
        ThrottledDispatcher { config, period, last_dispatch: now }
    }

    /// Handles one frame event: inside the throttle window the frame is
    /// dropped and nothing changes; otherwise the tick is recorded and
    /// the frame's wire payload is returned for the transport to write.
    pub fn on_frame(&mut self, now: u64, frame: &Frame) -> (r: Option<Vec<u8>>)
        requires
            old(self).wf(),
            frame.wf(),
            now >= old(self).last_dispatch,
            frame_geometry_ok(frame.width as int, frame.height as int, old(self).config),
        ensures
            final(self).wf(),
            final(self).config == old(self).config,
            final(self).period == old(self).period,
            r is Some <==> gate_passes(
                old(self).last_dispatch as int,
                now as int,
                old(self).period as int,
            ),
            r is None ==> *final(self) == *old(self),
            r is Some ==> final(self).last_dispatch == now,
            r is Some ==> r->Some_0@ == payload_spec(
                frame.width as int,
                frame.height as int,
                frame.data@,
                old(self).config,
            ),
    {
        if now - self.last_dispatch < self.period {
            return None;
        }
        self.last_dispatch = now;
        let payload = compute_serial_payload(
            frame.width,
            frame.height,
            frame.data.as_slice(),
            &self.config,
        );
        Some(payload)
    }
}

/// Throttle gating: once a payload was emitted at tick `t1`, a second
/// frame event half a period later is dropped, while one two periods
/// later is emitted again.
pub proof fn lemma_throttle_gating(last: int, period: int, t1: int)
    requires
        period >= 1,
        gate_passes(last, t1, period),
    ensures
        !gate_passes(t1, t1 + period / 2, period),
        gate_passes(t1, t1 + 2 * period, period),
{
}

} // verus!
