//! Per-frame compression decision and stream assembly.
//!
//! A frame is stored sparsely only when the size estimate of the sparse
//! representation is below 85% of the raw 16-bit PCM size; otherwise the
//! already-windowed block is stored raw.
use vstd::prelude::*;
use crate::FRAME_SIZE;
use crate::HOP_SIZE;
use crate::layout::ENCODER_DELAY;
use crate::layout::frame_count;
use crate::layout::padded_len;
use crate::layout::num_frames;
use crate::layout::padded_channel_len;
use crate::stream::AudioHeader;
use crate::stream::CodecError;
use crate::stream::EncodedAudio;
use crate::stream::EncodedFrame;
use crate::stream::FrameView;
use crate::stream::GaplessInfo;
use crate::stream::frame_is_wf;

verus! {

/// Serialized bytes of the sparse pair lists: per channel, a length word
/// plus four bytes per retained coefficient.
pub open spec fn pairs_bytes(coeffs: Seq<Seq<(u16, i16)>>) -> nat
    decreases coeffs.len(),
{
    if coeffs.len() == 0 {
        0
    } else {
        pairs_bytes(coeffs.drop_last()) + 8 + 4 * coeffs.last().len()
    }
}

/// Estimated size of a spectral frame: the pair lists, a length word plus
/// four bytes per scale factor, and fixed frame overhead.
pub open spec fn spectral_size_estimate(coeffs: Seq<Seq<(u16, i16)>>) -> nat {
    pairs_bytes(coeffs) + 8 + 4 * coeffs.len() + 64
}

/// Raw 16-bit PCM size of one frame over `ch` channels.
pub open spec fn raw_frame_size(ch: nat) -> nat {
    (FRAME_SIZE as nat) * ch * 2
}

/// The raw fallback is chosen when the estimate reaches 85% of the raw
/// size: `est >= 0.85 * raw`, stated exactly over integers.
pub open spec fn prefers_raw(est: nat, raw: nat) -> bool {
    20 * est >= 17 * raw
}

/// Estimated size of a spectral frame.
#[verifier::loop_isolation(false)]
pub fn estimate_spectral_size(coeffs: &Vec<Vec<(u16, i16)>>) -> (n: usize)
    requires
        coeffs@.len() <= u16::MAX,
        forall|c: int| 0 <= c < coeffs@.len() ==> (#[trigger] coeffs@[c])@.len() <= HOP_SIZE,
    ensures
        n == spectral_size_estimate(coeffs.deep_view()),
        n <= 270000000,
{
    let ghost dv = coeffs.deep_view();
    let mut sum: usize = 0;
    let mut c: usize = 0;
    while c < coeffs.len()
        invariant
            c <= coeffs@.len(),
            sum == pairs_bytes(dv.take(c as int)),
            sum <= c * 4104,
        decreases coeffs@.len() - c,
    {
        let pairs = &coeffs[c];
        proof {
            crate::stream::lemma_deep_view_pairs(coeffs, c as int);
            assert(dv.take(c as int + 1).drop_last() =~= dv.take(c as int));
            assert((c + 1) * 4104 == c * 4104 + 4104) by (nonlinear_arith);
            assert(c * 4104 <= u16::MAX * 4104) by (nonlinear_arith)
                requires
                    0 <= c <= u16::MAX,
            ;
        }
        sum = sum + (8 + 4 * pairs.len());
        c += 1;
    }
    proof {
        assert(dv.take(c as int) =~= dv);
        assert(c * 4104 <= u16::MAX * 4104) by (nonlinear_arith)
            requires
                0 <= c <= u16::MAX,
        ;
    }
    sum + 8 + 4 * coeffs.len() + 64
}

/// Build one encoded frame from the quantizer's outputs, choosing the
/// sparse or the raw representation by the size estimate.
///
/// `sparse` and `scales` hold one entry per channel; `raw_pcm` holds the
/// windowed block, interleaved, scaled to 16 bits.  Inputs that violate
/// the frame invariant are rejected with `InvalidInput`.
pub fn make_frame(
    sparse: Vec<Vec<(u16, i16)>>,
    scales: Vec<u32>,
    raw_pcm: Vec<i16>,
    channels: u16,
) -> (r: Result<EncodedFrame, CodecError>)
    ensures
        r is Ok <==> (FrameView::Spectral { coeffs: sparse.deep_view(), scales: scales@ }).wf(
            channels as nat,
        ) && raw_pcm@.len() == (FRAME_SIZE as nat) * (channels as nat),
        r matches Err(e) ==> e == CodecError::InvalidInput,
        r matches Ok(f) ==> f@.wf(channels as nat) && f@ == (if prefers_raw(
            spectral_size_estimate(sparse.deep_view()),
            raw_frame_size(channels as nat),
        ) {
            FrameView::Raw { pcm: raw_pcm@ }
        } else {
            FrameView::Spectral { coeffs: sparse.deep_view(), scales: scales@ }
        }),
{
    let spectral = EncodedFrame::Spectral {
        sparse_coeffs_per_channel: sparse,
        scale_factors: scales,
    };
    if !frame_is_wf(&spectral, channels) {
        return Err(CodecError::InvalidInput);
    }
    if raw_pcm.len() != FRAME_SIZE * (channels as usize) {
        return Err(CodecError::InvalidInput);
    }
    let est = match &spectral {
        EncodedFrame::Spectral { sparse_coeffs_per_channel, scale_factors: _ } => {
            proof {
                assert forall|c: int|
                    0 <= c < sparse_coeffs_per_channel@.len() implies (
                #[trigger] sparse_coeffs_per_channel@[c])@.len() <= HOP_SIZE by {
                    crate::stream::lemma_deep_view_pairs(sparse_coeffs_per_channel, c);
                }
            }
            estimate_spectral_size(sparse_coeffs_per_channel)
        },
        EncodedFrame::Raw { .. } => 0,
    };
    let raw_size: u64 = (channels as u64) * 4096;
    proof {
        assert(raw_size == raw_frame_size(channels as nat)) by (nonlinear_arith)
            requires
                raw_size == (channels as u64) * 4096,
                FRAME_SIZE == 2048,
        ;
    }
    if 20 * (est as u64) >= 17 * raw_size {
        Ok(EncodedFrame::Raw { raw_pcm })
    } else {
        Ok(spectral)
    }
}

/// The inputs from which `assemble_stream` builds a stream.
pub open spec fn assemble_ok(
    sample_rate: u32,
    channels: u16,
    total_samples: u64,
    frames: Seq<FrameView>,
) -> bool {
    &&& sample_rate >= 1
    &&& channels >= 1
    &&& total_samples % (channels as u64) == 0
    &&& (total_samples as nat) / (channels as nat) + 2 * (HOP_SIZE as nat) <= usize::MAX as nat
    &&& frames.len() == frame_count(padded_len((total_samples as nat) / (channels as nat)))
    &&& forall|i: int| 0 <= i < frames.len() ==> (#[trigger] frames[i]).wf(channels as nat)
}

/// Assemble a stream from the header values and the encoded frames,
/// computing the gapless metadata and establishing every structural
/// invariant; inputs that would violate one are rejected.
#[verifier::loop_isolation(false)]
pub fn assemble_stream(
    sample_rate: u32,
    channels: u16,
    total_samples: u64,
    frames: Vec<EncodedFrame>,
) -> (r: Result<EncodedAudio, CodecError>)
    ensures
        r is Ok <==> assemble_ok(sample_rate, channels, total_samples, frames.deep_view()),
        r matches Err(e) ==> e == CodecError::InvalidInput,
        r matches Ok(s) ==> {
            let l = (total_samples as nat) / (channels as nat);
            &&& s@.wf()
            &&& s@.header == (AudioHeader { sample_rate, channels, total_samples })
            &&& s@.frames == frames.deep_view()
            &&& s@.gapless_info.encoder_delay == ENCODER_DELAY
            &&& s@.gapless_info.original_length == total_samples
            &&& s@.gapless_info.padding == padded_len(l) - l - (ENCODER_DELAY as nat)
        },
{
    if sample_rate < 1 || channels == 0 {
        return Err(CodecError::InvalidInput);
    }
    if total_samples % (channels as u64) != 0 {
        return Err(CodecError::InvalidInput);
    }
    let l64 = total_samples / (channels as u64);
    if l64 > usize::MAX as u64 - 2 * (HOP_SIZE as u64) {
        return Err(CodecError::InvalidInput);
    }
    let l = l64 as usize;
    let p = padded_channel_len(l);
    let f = num_frames(p);
    if frames.len() != f {
        return Err(CodecError::InvalidInput);
    }
    let mut i: usize = 0;
    while i < frames.len()
        invariant
            i <= frames@.len(),
            forall|k: int| 0 <= k < i ==> (#[trigger] frames.deep_view()[k]).wf(channels as nat),
        decreases frames@.len() - i,
    {
        if !frame_is_wf(&frames[i], channels) {
            proof {
                assert(!(frames.deep_view()[i as int]).wf(channels as nat));
            }
            return Err(CodecError::InvalidInput);
        }
        i += 1;
    }
    let padding = (p - l - ENCODER_DELAY) as u32;
    let s = EncodedAudio {
        header: AudioHeader { sample_rate, channels, total_samples },
        frames,
        gapless_info: GaplessInfo {
            encoder_delay: ENCODER_DELAY as u32,
            padding,
            original_length: total_samples,
        },
    };
    proof {
        crate::layout::lemma_padded_len_props(l as nat);
        assert(s@.per_channel_padded() == padded_len(l as nat));
    }
    Ok(s)
}

} // verus!
