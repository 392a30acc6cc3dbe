//! Core of a lossy, gapless audio codec.
//!
//! The codec compresses multi-channel PCM audio with a windowed MDCT,
//! a perceptual sparse quantizer with a per-frame raw-PCM fallback, and
//! an overlap-add inverse pipeline that preserves the interleaved sample
//! count exactly across independently encoded segments.
//!
//! This crate holds the verified core: the encoded-stream data model and
//! its structural invariants, the padding and frame-count arithmetic that
//! the gapless property rests on, the critical-band partition, the
//! data-movement steps of the pipeline (deinterleave, pad, scatter,
//! interleave, trim), and the binary container with a proved round-trip.
//! Floating-point signal arithmetic (windowing, the transform itself, the
//! masking model) lives outside the verified core and drives it through
//! plain integer values: samples cross the boundary as their raw 32-bit
//! words, scale factors as their raw bit patterns.
use vstd::prelude::*;

pub mod bands;
pub mod container;
pub mod files;
pub mod frames;
pub mod layout;
pub mod pcm;
pub mod stream;

verus! {

/// Samples per MDCT analysis block (2N).
pub const FRAME_SIZE: usize = 2048;

/// Hop between successive frames; also the MDCT bin count N.
pub const HOP_SIZE: usize = 1024;

/// Hops accumulated before the streaming decoder flushes a chunk.
pub const FRAMES_PER_CHUNK: usize = 500;

/// Frames decoded in parallel per batch.
pub const DECODE_BATCH: usize = 32;

} // verus!
