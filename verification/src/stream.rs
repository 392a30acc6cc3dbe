//! The encoded-stream data model and its structural invariants.
//!
//! Scale factors are carried as the raw bit patterns of the encoder's
//! 32-bit floating-point scale values; the invariant that a scale is
//! strictly positive is the invariant on those bit patterns.
use vstd::prelude::*;
use vstd::arithmetic::div_mod::*;
use vstd::arithmetic::mul::*;
use vstd::pervasive::VecAdditionalExecFns;
use crate::FRAME_SIZE;
use crate::HOP_SIZE;

verus! {

/// Error taxonomy of the library.
#[derive(Clone, Copy, Debug, PartialEq, Eq, Structural)]
pub enum CodecError {
    /// Bad arguments at the API boundary.
    InvalidInput,
    /// Failure reading or writing bytes.
    IOError,
    /// Bytes that cannot be deserialized, or a deserialized stream that
    /// violates a structural invariant.
    CorruptStream,
    /// A file of a kind the codec does not handle.
    UnsupportedFormat,
    /// An audio sink rejected a submitted buffer.
    PlaybackError,
}

/// Immutable per-stream header.
#[derive(Clone, Copy, Debug, PartialEq, Eq, Structural)]
pub struct AudioHeader {
    pub sample_rate: u32,
    pub channels: u16,
    pub total_samples: u64,
}

/// Gapless metadata: leading silence, trailing padding (both per
/// channel), and the original interleaved length.
#[derive(Clone, Copy, Debug, PartialEq, Eq, Structural)]
pub struct GaplessInfo {
    pub encoder_delay: u32,
    pub padding: u32,
    pub original_length: u64,
}

/// One encoded frame: either a sparse spectral representation with one
/// scale factor per channel, or a raw windowed PCM fallback block.
#[derive(Debug, Clone, PartialEq)]
pub enum EncodedFrame {
    Spectral {
        /// Per channel, (bin index, quantized value) pairs for the
        /// retained coefficients.
        sparse_coeffs_per_channel: Vec<Vec<(u16, i16)>>,
        /// Per channel, the scale factor's 32-bit float bit pattern.
        scale_factors: Vec<u32>,
    },
    Raw {
        /// Windowed, interleaved 16-bit PCM for the whole analysis block.
        raw_pcm: Vec<i16>,
    },
}

/// A complete encoded stream: header, time-ordered frames, gapless
/// metadata.
#[derive(Debug, Clone, PartialEq)]
pub struct EncodedAudio {
    pub header: AudioHeader,
    pub frames: Vec<EncodedFrame>,
    pub gapless_info: GaplessInfo,
}

/// Mathematical model of a frame.
#[verifier::ext_equal]
pub enum FrameView {
    Spectral { coeffs: Seq<Seq<(u16, i16)>>, scales: Seq<u32> },
    Raw { pcm: Seq<i16> },
}

/// Mathematical model of a stream.
#[verifier::ext_equal]
pub struct StreamView {
    pub header: AudioHeader,
    pub frames: Seq<FrameView>,
    pub gapless_info: GaplessInfo,
}

impl View for EncodedFrame {
    type V = FrameView;

    open spec fn view(&self) -> FrameView {
        match self {
            EncodedFrame::Spectral { sparse_coeffs_per_channel, scale_factors } => {
                FrameView::Spectral {
                    coeffs: sparse_coeffs_per_channel.deep_view(),
                    scales: scale_factors@,
                }
            },
            EncodedFrame::Raw { raw_pcm } => FrameView::Raw { pcm: raw_pcm@ },
        }
    }
}

impl DeepView for EncodedFrame {
    type V = FrameView;

    open spec fn deep_view(&self) -> FrameView {
        self.view()
    }
}

impl View for EncodedAudio {
    type V = StreamView;

    open spec fn view(&self) -> StreamView {
        StreamView {
            header: self.header,
            frames: self.frames.deep_view(),
            gapless_info: self.gapless_info,
        }
    }
}

/// Bit patterns of the strictly positive finite 32-bit floats.
pub open spec fn scale_positive(bits: u32) -> bool {
    1 <= bits <= 0x7F7FFFFFu32
}

impl FrameView {
    /// Structural invariant of a frame over `channels` channels: a
    /// spectral frame carries one pair list and one positive scale per
    /// channel, with bin indices in range and no duplicate bin; a raw
    /// frame carries exactly one analysis block of samples per channel.
    pub open spec fn wf(self, channels: nat) -> bool {
        match self {
            FrameView::Spectral { coeffs, scales } => {
                &&& coeffs.len() == channels
                &&& scales.len() == channels
                &&& forall|c: int| 0 <= c < coeffs.len() ==> (#[trigger] coeffs[c]).len()
                    <= HOP_SIZE
                &&& forall|c: int, j: int|
                    0 <= c < coeffs.len() && 0 <= j < coeffs[c].len() ==> (
                    #[trigger] coeffs[c][j]).0 < HOP_SIZE
                &&& forall|c: int, j1: int, j2: int|
                    0 <= c < coeffs.len() && 0 <= j1 < j2 < coeffs[c].len()
                        ==> coeffs[c][j1].0 != coeffs[c][j2].0
                &&& forall|c: int| 0 <= c < scales.len() ==> scale_positive(#[trigger] scales[c])
            },
            FrameView::Raw { pcm } => pcm.len() == (FRAME_SIZE as nat) * channels,
        }
    }
}

impl StreamView {
    /// Per-channel padded length claimed by the gapless metadata.
    pub open spec fn per_channel_padded(self) -> nat {
        (self.gapless_info.encoder_delay as nat) + (self.header.total_samples as nat) / (
        self.header.channels as nat) + (self.gapless_info.padding as nat)
    }

    /// Structural invariant of a stream.
    pub open spec fn wf(self) -> bool {
        &&& self.header.sample_rate >= 1
        &&& self.header.channels >= 1
        &&& self.header.total_samples % (self.header.channels as u64) == 0
        &&& self.gapless_info.original_length == self.header.total_samples
        &&& self.per_channel_padded() % (HOP_SIZE as nat) == 0
        &&& self.frames.len() == crate::layout::frame_count(self.per_channel_padded())
        &&& forall|i: int|
            0 <= i < self.frames.len() ==> (#[trigger] self.frames[i]).wf(
                self.header.channels as nat,
            )
    }
}

/// The deep view of a pair-list vector is, entry for entry, the view of
/// that entry.
pub proof fn lemma_deep_view_pairs(v: &Vec<Vec<(u16, i16)>>, c: int)
    requires
        0 <= c < v@.len(),
    ensures
        v.deep_view()[c] == v@[c]@,
{
    assert(v.deep_view()[c] =~= v@[c]@) by {
        assert forall|j: int| 0 <= j < v@[c]@.len() implies v.deep_view()[c][j] == v@[c]@[j] by {
            let t = v@[c]@[j];
            assert(t.deep_view() == (t.0, t.1));
        }
    }
}

/// The deep view of a pair-list vector is its plain view.
pub proof fn lemma_pairs_deep_is_view(x: &Vec<(u16, i16)>)
    ensures
        x.deep_view() == x@,
{
    assert(x.deep_view() =~= x@) by {
        assert forall|j: int| 0 <= j < x@.len() implies x.deep_view()[j] == x@[j] by {
            let t = x@[j];
            assert(t.deep_view() == (t.0, t.1));
        }
    }
}

/// Runtime check of the frame invariant.
#[verifier::loop_isolation(false)]
pub fn frame_is_wf(f: &EncodedFrame, channels: u16) -> (r: bool)
    ensures
        r == f@.wf(channels as nat),
{
    match f {
        EncodedFrame::Spectral { sparse_coeffs_per_channel: coeffs, scale_factors } => {
            if coeffs.len() != channels as usize || scale_factors.len() != channels as usize {
                return false;
            }
            let mut c: usize = 0;
            while c < coeffs.len()
                invariant
                    coeffs@.len() == channels as nat,
                    scale_factors@.len() == channels as nat,
                    c <= coeffs@.len(),
                    forall|ci: int| 0 <= ci < c ==> (#[trigger] coeffs@[ci])@.len() <= HOP_SIZE,
                    forall|ci: int, j: int|
                        0 <= ci < c && 0 <= j < coeffs@[ci]@.len() ==> (
                        #[trigger] coeffs@[ci]@[j]).0 < HOP_SIZE,
                    forall|ci: int, j1: int, j2: int|
                        0 <= ci < c && 0 <= j1 < j2 < coeffs@[ci]@.len() ==> coeffs@[ci]@[j1].0
                            != coeffs@[ci]@[j2].0,
                    forall|ci: int| 0 <= ci < c ==> scale_positive(#[trigger] scale_factors@[ci]),
                decreases coeffs@.len() - c,
            {
                let s = scale_factors[c];
                if s < 1 || s > 0x7F7FFFFFu32 {
                    proof {
                        assert(!scale_positive(scale_factors@[c as int]));
                    }
                    return false;
                }
                let pairs = &coeffs[c];
                if pairs.len() > HOP_SIZE {
                    proof {
                        lemma_deep_view_pairs(coeffs, c as int);
                    }
                    return false;
                }
                let mut seen: Vec<bool> = vec![false; HOP_SIZE];
                let mut j: usize = 0;
                while j < pairs.len()
                    invariant
                        c < coeffs@.len(),
                        pairs@ == coeffs@[c as int]@,
                        j <= pairs@.len(),
                        pairs@.len() <= HOP_SIZE,
                        seen@.len() == HOP_SIZE,
                        forall|b: int|
                            0 <= b < HOP_SIZE ==> (#[trigger] seen@[b] <==> exists|k: int|
                                0 <= k < j && (#[trigger] pairs@[k]).0 == b),
                        forall|k: int| 0 <= k < j ==> (#[trigger] pairs@[k]).0 < HOP_SIZE,
                        forall|k1: int, k2: int|
                            0 <= k1 < k2 < j ==> pairs@[k1].0 != pairs@[k2].0,
                    decreases pairs@.len() - j,
                {
                    let bin = pairs[j].0;
                    if bin as usize >= HOP_SIZE {
                        proof {
                            lemma_deep_view_pairs(coeffs, c as int);
                            assert(coeffs.deep_view()[c as int][j as int].0 >= HOP_SIZE);
                        }
                        return false;
                    }
                    if seen[bin as usize] {
                        proof {
                            lemma_deep_view_pairs(coeffs, c as int);
                            let k = choose|k: int| 0 <= k < j && (#[trigger] pairs@[k]).0
                                == bin as int;
                            assert(coeffs.deep_view()[c as int][k].0 == coeffs.deep_view()[
                            c as int][j as int].0);
                        }
                        return false;
                    }
                    seen.set(bin as usize, true);
                    proof {
                        assert forall|b: int|
                            0 <= b < HOP_SIZE implies (#[trigger] seen@[b] <==> exists|k: int|
                            0 <= k < j + 1 && (#[trigger] pairs@[k]).0 == b) by {
                            if b == bin as int {
                                assert((pairs@[j as int]).0 == b);
                            }
                        }
                    }
                    j += 1;
                }
                proof {
                    lemma_deep_view_pairs(coeffs, c as int);
                }
                c += 1;
            }
            proof {
                assert forall|ci: int| 0 <= ci < coeffs@.len() implies (
                #[trigger] coeffs.deep_view()[ci]).len() <= HOP_SIZE by {
                    lemma_deep_view_pairs(coeffs, ci);
                }
                assert forall|ci: int, j: int|
                    0 <= ci < coeffs@.len() && 0 <= j < coeffs.deep_view()[ci].len() implies (
                #[trigger] coeffs.deep_view()[ci][j]).0 < HOP_SIZE by {
                    lemma_deep_view_pairs(coeffs, ci);
                }
                assert forall|ci: int, j1: int, j2: int|
                    0 <= ci < coeffs@.len() && 0 <= j1 < j2 < coeffs.deep_view()[ci].len()
                    implies coeffs.deep_view()[ci][j1].0 != coeffs.deep_view()[ci][j2].0 by {
                    lemma_deep_view_pairs(coeffs, ci);
                }
            }
            true
        },
        EncodedFrame::Raw { raw_pcm } => raw_pcm.len() == FRAME_SIZE * (channels as usize),
    }
}

/// For every well-formed stream, the overlap-add decoder emits enough
/// samples that dropping the encoder delay and truncating to the
/// original length returns exactly the original length: the gapless
/// property, for any stream that passed the structural checks.
pub proof fn lemma_wf_stream_decode_length(v: StreamView)
    requires
        v.wf(),
    ensures
        crate::layout::trim_len(
            crate::layout::decoded_total(v.frames.len(), v.header.channels as nat),
            (v.gapless_info.encoder_delay as nat) * (v.header.channels as nat),
            v.gapless_info.original_length as nat,
        ) == v.gapless_info.original_length,
{
    let h = HOP_SIZE as nat;
    let ch = v.header.channels as nat;
    let delay = v.gapless_info.encoder_delay as nat;
    let l = (v.header.total_samples as nat) / ch;
    let per = v.per_channel_padded();
    let f = v.frames.len() as nat;
    assert(v.header.total_samples == l * ch) by {
        lemma_fundamental_div_mod(v.header.total_samples as int, ch as int);
        lemma_mul_is_commutative(ch as int, l as int);
    }
    let per_channel = f * h + h;
    assert(per_channel >= delay + l) by {
        if per < FRAME_SIZE as nat {
            // A multiple of the hop below the frame size is at most one hop.
            assert(f == 1);
            lemma_fundamental_div_mod(per as int, h as int);
        } else {
            lemma_fundamental_div_mod(per as int, h as int);
            let q = per / h;
            lemma_fundamental_div_mod_converse(
                (per - FRAME_SIZE as nat) as int,
                h as int,
                q as int - 2,
                0,
            );
            assert(f == q - 1);
            assert((q - 1) * h as int + h as int == q * h as int) by (nonlinear_arith);
        }
    }
    assert(crate::layout::decoded_total(f, ch) >= (delay + l) * ch) by {
        lemma_mul_inequality((delay + l) as int, per_channel as int, ch as int);
    }
    assert((delay + l) * ch == delay * ch + l * ch) by {
        lemma_mul_is_distributive_add_other_way(ch as int, delay as int, l as int);
    }
}

/// Runtime check of the stream invariant.
#[verifier::loop_isolation(false)]
pub fn stream_is_wf(s: &EncodedAudio) -> (r: bool)
    ensures
        r == s@.wf(),
{
    if s.header.sample_rate < 1 {
        return false;
    }
    if s.header.channels < 1 {
        return false;
    }
    if s.header.total_samples % (s.header.channels as u64) != 0 {
        return false;
    }
    if s.gapless_info.original_length != s.header.total_samples {
        return false;
    }
    let per: u128 = (s.gapless_info.encoder_delay as u128) + (s.header.total_samples as u128) / (
    s.header.channels as u128) + (s.gapless_info.padding as u128);
    if per % (HOP_SIZE as u128) != 0 {
        return false;
    }
    let expected: u128 = if per < FRAME_SIZE as u128 {
        1
    } else {
        (per - FRAME_SIZE as u128) / (HOP_SIZE as u128) + 1
    };
    proof {
        assert(per == s@.per_channel_padded());
        assert(expected == crate::layout::frame_count(s@.per_channel_padded()));
    }
    if s.frames.len() as u128 != expected {
        return false;
    }
    let mut i: usize = 0;
    while i < s.frames.len()
        invariant
            i <= s.frames@.len(),
            forall|k: int|
                0 <= k < i ==> (#[trigger] s.frames.deep_view()[k]).wf(s.header.channels as nat),
        decreases s.frames@.len() - i,
    {
        if !frame_is_wf(&s.frames[i], s.header.channels) {
            proof {
                assert(!(s.frames.deep_view()[i as int]).wf(s.header.channels as nat));
            }
            return false;
        }
        i += 1;
    }
    true
}

} // verus!
