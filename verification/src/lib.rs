//! Verified core of a P25 multi-band-excitation vocoder.
//!
//! The signal processing of a vocoder is floating point.  Around it stands a
//! great deal of discrete logic: framing, buffering, searching, tie-breaking,
//! voicing bookkeeping, frame dispatch and bit packing.  That logic is here.
//!
//! Three conventions run through the modules:
//!
//! * Sample and amplitude values are opaque.  Code that only moves them is
//!   generic over a `Copy` payload.
//! * Where values are compared, they stand as order keys: integers that
//!   compare as the values do (see [`order_key`]).
//! * A test of a real-valued quantity against a threshold arrives as a `bool`.

pub mod amplitude;
pub mod analysis;
pub mod basis;
pub mod denoise;
pub mod dvsi_soft_decision;
pub mod lookahead;
pub mod mbe_baseline;
pub mod order_key;
pub mod phase_regen;
pub mod pitch;
pub mod predenoise;
pub mod predictor;
pub mod profile;
pub mod pyin;
pub mod refine;
pub mod selection;
pub mod silence;
pub mod tone_detect;
pub mod vuv;
