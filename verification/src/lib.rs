//! Ambient-lighting core: turns a captured screen frame into the fixed-size
//! serial payload that drives an LED strip around the screen.
//!
//! The pipeline is: detect letterbox blanking at the top of the frame
//! ([`blank`]), map screen-edge regions to physically ordered LED sampling
//! zones and average each into a color triplet ([`zones`]), frame the
//! triplets with the configured header and footer markers ([`payload`]), and
//! gate the whole computation on a throttle period ([`dispatch`]).

pub mod blank;
pub mod dispatch;
pub mod frame;
pub mod layout;
pub mod payload;
pub mod zones;
