//! The binary container: a little-endian layout for an encoded stream,
//! with serializer and parser verified against one spec-level layout and
//! a proved round-trip.
//!
//! Layout: a four-byte magic, the header fields, the gapless metadata,
//! a frame count, then each frame in time order.  A spectral frame is a
//! zero tag followed, per channel, by the scale bits, a pair count and
//! the (bin, value) pairs; a raw frame is a one tag followed by a sample
//! count and the samples.  Malformed, truncated or trailing bytes, and
//! streams that violate a structural invariant, are rejected.
use vstd::prelude::*;
use vstd::bytes::*;
use crate::stream::CodecError;
use crate::stream::EncodedAudio;
use crate::stream::FrameView;
use crate::stream::StreamView;

verus! {

/// File magic: `GLC1`.
pub open spec fn magic_bytes() -> Seq<u8> {
    seq![0x47u8, 0x4Cu8, 0x43u8, 0x31u8]
}

/// The two's-complement 16-bit pattern of a sample value.
pub open spec fn i16_bits(x: i16) -> u16 {
    if x >= 0 {
        x as u16
    } else {
        (x + 0x10000) as u16
    }
}

/// The sample value of a two's-complement 16-bit pattern.
pub open spec fn u16_val(b: u16) -> i16 {
    if b < 0x8000 {
        b as i16
    } else {
        (b - 0x10000) as i16
    }
}

pub proof fn lemma_i16_bits_roundtrip(x: i16)
    ensures
        u16_val(i16_bits(x)) == x,
{
}

/// Serialized form of one channel's sparse pairs.
pub open spec fn ser_pairs(ps: Seq<(u16, i16)>) -> Seq<u8>
    decreases ps.len(),
{
    if ps.len() == 0 {
        Seq::empty()
    } else {
        spec_u16_to_le_bytes(ps.first().0) + spec_u16_to_le_bytes(i16_bits(ps.first().1))
            + ser_pairs(ps.drop_first())
    }
}

/// Serialized form of a raw frame's samples.
pub open spec fn ser_i16s(s: Seq<i16>) -> Seq<u8>
    decreases s.len(),
{
    if s.len() == 0 {
        Seq::empty()
    } else {
        spec_u16_to_le_bytes(i16_bits(s.first())) + ser_i16s(s.drop_first())
    }
}

/// Serialized form of a spectral frame's channels: per channel the scale
/// bits, the pair count, and the pairs.
pub open spec fn ser_channels(coeffs: Seq<Seq<(u16, i16)>>, scales: Seq<u32>) -> Seq<u8>
    recommends
        coeffs.len() == scales.len(),
    decreases scales.len(),
{
    if scales.len() == 0 {
        Seq::empty()
    } else {
        spec_u32_to_le_bytes(scales.first()) + spec_u64_to_le_bytes(coeffs.first().len() as u64)
            + ser_pairs(coeffs.first()) + ser_channels(coeffs.drop_first(), scales.drop_first())
    }
}

/// Serialized form of one frame.
pub open spec fn ser_frame(f: FrameView) -> Seq<u8> {
    match f {
        FrameView::Spectral { coeffs, scales } => seq![0u8] + ser_channels(coeffs, scales),
        FrameView::Raw { pcm } => seq![1u8] + spec_u64_to_le_bytes(pcm.len() as u64) + ser_i16s(
            pcm,
        ),
    }
}

/// Serialized form of the frame sequence.
pub open spec fn ser_frames(fs: Seq<FrameView>) -> Seq<u8>
    decreases fs.len(),
{
    if fs.len() == 0 {
        Seq::empty()
    } else {
        ser_frame(fs.first()) + ser_frames(fs.drop_first())
    }
}

/// Serialized form of the fixed-size head of the container.
pub open spec fn ser_head(v: StreamView) -> Seq<u8> {
    magic_bytes() + spec_u32_to_le_bytes(v.header.sample_rate) + spec_u16_to_le_bytes(
        v.header.channels,
    ) + spec_u64_to_le_bytes(v.header.total_samples) + spec_u32_to_le_bytes(
        v.gapless_info.encoder_delay,
    ) + spec_u32_to_le_bytes(v.gapless_info.padding) + spec_u64_to_le_bytes(
        v.gapless_info.original_length,
    ) + spec_u64_to_le_bytes(v.frames.len() as u64)
}

/// Serialized form of a whole stream.
pub open spec fn ser_stream(v: StreamView) -> Seq<u8> {
    ser_head(v) + ser_frames(v.frames)
}

// Parsing.  Each parse function consumes bytes from an offset and
// returns the parsed value with the next offset, or nothing when the
// input runs out.
pub open spec fn parse_u8(b: Seq<u8>, i: int) -> Option<(u8, int)> {
    if 0 <= i && i + 1 <= b.len() {
        Some((b[i], i + 1))
    } else {
        None
    }
}

pub open spec fn parse_u16(b: Seq<u8>, i: int) -> Option<(u16, int)> {
    if 0 <= i && i + 2 <= b.len() {
        Some((spec_u16_from_le_bytes(b.subrange(i, i + 2)), i + 2))
    } else {
        None
    }
}

pub open spec fn parse_u32(b: Seq<u8>, i: int) -> Option<(u32, int)> {
    if 0 <= i && i + 4 <= b.len() {
        Some((spec_u32_from_le_bytes(b.subrange(i, i + 4)), i + 4))
    } else {
        None
    }
}

pub open spec fn parse_u64(b: Seq<u8>, i: int) -> Option<(u64, int)> {
    if 0 <= i && i + 8 <= b.len() {
        Some((spec_u64_from_le_bytes(b.subrange(i, i + 8)), i + 8))
    } else {
        None
    }
}

pub open spec fn parse_pairs(b: Seq<u8>, i: int, count: nat) -> Option<(Seq<(u16, i16)>, int)>
    decreases count,
{
    if count == 0 {
        Some((Seq::empty(), i))
    } else {
        match parse_u16(b, i) {
            None => None,
            Some((bin, i1)) => match parse_u16(b, i1) {
                None => None,
                Some((qb, i2)) => match parse_pairs(b, i2, (count - 1) as nat) {
                    None => None,
                    Some((rest, j)) => Some((seq![(bin, u16_val(qb))] + rest, j)),
                },
            },
        }
    }
}

pub open spec fn parse_i16s(b: Seq<u8>, i: int, count: nat) -> Option<(Seq<i16>, int)>
    decreases count,
{
    if count == 0 {
        Some((Seq::empty(), i))
    } else {
        match parse_u16(b, i) {
            None => None,
            Some((qb, i1)) => match parse_i16s(b, i1, (count - 1) as nat) {
                None => None,
                Some((rest, j)) => Some((seq![u16_val(qb)] + rest, j)),
            },
        }
    }
}

pub open spec fn parse_channels(b: Seq<u8>, i: int, remaining: nat) -> Option<
    (Seq<Seq<(u16, i16)>>, Seq<u32>, int),
>
    decreases remaining,
{
    if remaining == 0 {
        Some((Seq::empty(), Seq::empty(), i))
    } else {
        match parse_u32(b, i) {
            None => None,
            Some((scale, i1)) => match parse_u64(b, i1) {
                None => None,
                Some((count, i2)) => match parse_pairs(b, i2, count as nat) {
                    None => None,
                    Some((ps, i3)) => match parse_channels(b, i3, (remaining - 1) as nat) {
                        None => None,
                        Some((coeffs, scales, j)) => Some(
                            (seq![ps] + coeffs, seq![scale] + scales, j),
                        ),
                    },
                },
            },
        }
    }
}

pub open spec fn parse_frame(b: Seq<u8>, i: int, ch: nat) -> Option<(FrameView, int)> {
    match parse_u8(b, i) {
        None => None,
        Some((tag, i1)) => if tag == 0 {
            match parse_channels(b, i1, ch) {
                None => None,
                Some((coeffs, scales, j)) => Some((FrameView::Spectral { coeffs, scales }, j)),
            }
        } else if tag == 1 {
            match parse_u64(b, i1) {
                None => None,
                Some((count, i2)) => match parse_i16s(b, i2, count as nat) {
                    None => None,
                    Some((pcm, j)) => Some((FrameView::Raw { pcm }, j)),
                },
            }
        } else {
            None
        },
    }
}

pub open spec fn parse_frames(b: Seq<u8>, i: int, count: nat, ch: nat) -> Option<
    (Seq<FrameView>, int),
>
    decreases count,
{
    if count == 0 {
        Some((Seq::empty(), i))
    } else {
        match parse_frame(b, i, ch) {
            None => None,
            Some((f, i1)) => match parse_frames(b, i1, (count - 1) as nat, ch) {
                None => None,
                Some((fs, j)) => Some((seq![f] + fs, j)),
            },
        }
    }
}

/// Parse a whole container: the head at fixed offsets, then exactly the
/// announced number of frames, with nothing left over, gated on the
/// structural invariant.
pub open spec fn parse_stream(b: Seq<u8>) -> Option<StreamView> {
    if b.len() < 42 || b.subrange(0, 4) != magic_bytes() {
        None
    } else {
        let sample_rate = spec_u32_from_le_bytes(b.subrange(4, 8));
        let channels = spec_u16_from_le_bytes(b.subrange(8, 10));
        let total_samples = spec_u64_from_le_bytes(b.subrange(10, 18));
        let encoder_delay = spec_u32_from_le_bytes(b.subrange(18, 22));
        let padding = spec_u32_from_le_bytes(b.subrange(22, 26));
        let original_length = spec_u64_from_le_bytes(b.subrange(26, 34));
        let frame_count = spec_u64_from_le_bytes(b.subrange(34, 42));
        match parse_frames(b, 42, frame_count as nat, channels as nat) {
            None => None,
            Some((frames, end)) => {
                if end != b.len() {
                    None
                } else {
                    let v = StreamView {
                        header: crate::stream::AudioHeader { sample_rate, channels, total_samples },
                        frames,
                        gapless_info: crate::stream::GaplessInfo {
                            encoder_delay,
                            padding,
                            original_length,
                        },
                    };
                    if v.wf() {
                        Some(v)
                    } else {
                        None
                    }
                }
            },
        }
    }
}

// Round trip: parsing what the serializer produced returns the stream.
/// Splitting a subrange known to be a concatenation.
proof fn lemma_subrange_concat(b: Seq<u8>, i: int, x: Seq<u8>, y: Seq<u8>)
    requires
        0 <= i,
        i + x.len() + y.len() <= b.len(),
        b.subrange(i, i + x.len() + y.len()) == x + y,
    ensures
        b.subrange(i, i + x.len()) == x,
        b.subrange(i + x.len(), i + x.len() + y.len()) == y,
{
    let whole = b.subrange(i, i + x.len() + y.len());
    assert(b.subrange(i, i + x.len()) =~= x) by {
        assert forall|k: int| 0 <= k < x.len() implies b.subrange(i, i + x.len())[k] == x[k] by {
            assert(whole[k] == (x + y)[k]);
        }
    }
    assert(b.subrange(i + x.len(), i + x.len() + y.len()) =~= y) by {
        assert forall|k: int| 0 <= k < y.len() implies b.subrange(
            i + x.len(),
            i + x.len() + y.len(),
        )[k] == y[k] by {
            assert(whole[x.len() + k] == (x + y)[x.len() + k]);
        }
    }
}

proof fn lemma_parse_u16_of(b: Seq<u8>, i: int, x: u16)
    requires
        0 <= i,
        i + 2 <= b.len(),
        b.subrange(i, i + 2) == spec_u16_to_le_bytes(x),
    ensures
        parse_u16(b, i) == Some((x, i + 2)),
{
    lemma_auto_spec_u16_to_from_le_bytes();
    assert(spec_u16_to_le_bytes(x).len() == 2);
    assert(spec_u16_from_le_bytes(spec_u16_to_le_bytes(x)) == x);
}

proof fn lemma_parse_u32_of(b: Seq<u8>, i: int, x: u32)
    requires
        0 <= i,
        i + 4 <= b.len(),
        b.subrange(i, i + 4) == spec_u32_to_le_bytes(x),
    ensures
        parse_u32(b, i) == Some((x, i + 4)),
{
    lemma_auto_spec_u32_to_from_le_bytes();
    assert(spec_u32_to_le_bytes(x).len() == 4);
    assert(spec_u32_from_le_bytes(spec_u32_to_le_bytes(x)) == x);
}

proof fn lemma_parse_u64_of(b: Seq<u8>, i: int, x: u64)
    requires
        0 <= i,
        i + 8 <= b.len(),
        b.subrange(i, i + 8) == spec_u64_to_le_bytes(x),
    ensures
        parse_u64(b, i) == Some((x, i + 8)),
{
    lemma_auto_spec_u64_to_from_le_bytes();
    assert(spec_u64_to_le_bytes(x).len() == 8);
    assert(spec_u64_from_le_bytes(spec_u64_to_le_bytes(x)) == x);
}

proof fn lemma_parse_pairs_of_ser(b: Seq<u8>, i: int, ps: Seq<(u16, i16)>)
    requires
        0 <= i,
        i + ser_pairs(ps).len() <= b.len(),
        b.subrange(i, i + ser_pairs(ps).len()) == ser_pairs(ps),
    ensures
        parse_pairs(b, i, ps.len()) == Some((ps, i + ser_pairs(ps).len())),
    decreases ps.len(),
{
    lemma_auto_spec_u16_to_from_le_bytes();
    if ps.len() == 0 {
        assert(ps =~= Seq::<(u16, i16)>::empty());
    } else {
        let p0 = ps.first();
        let x = spec_u16_to_le_bytes(p0.0);
        let y = spec_u16_to_le_bytes(i16_bits(p0.1));
        let rest = ser_pairs(ps.drop_first());
        assert(ser_pairs(ps) == x + y + rest);
        assert(x + y + rest =~= x + (y + rest));
        lemma_subrange_concat(b, i, x, y + rest);
        assert(y + rest =~= y + rest);
        lemma_subrange_concat(b, i + 2, y, rest);
        lemma_parse_u16_of(b, i, p0.0);
        lemma_parse_u16_of(b, i + 2, i16_bits(p0.1));
        lemma_parse_pairs_of_ser(b, i + 4, ps.drop_first());
        lemma_i16_bits_roundtrip(p0.1);
        assert(seq![(p0.0, u16_val(i16_bits(p0.1)))] + ps.drop_first() =~= ps);
    }
}

proof fn lemma_parse_i16s_of_ser(b: Seq<u8>, i: int, s: Seq<i16>)
    requires
        0 <= i,
        i + ser_i16s(s).len() <= b.len(),
        b.subrange(i, i + ser_i16s(s).len()) == ser_i16s(s),
    ensures
        parse_i16s(b, i, s.len()) == Some((s, i + ser_i16s(s).len())),
    decreases s.len(),
{
    lemma_auto_spec_u16_to_from_le_bytes();
    if s.len() == 0 {
        assert(s =~= Seq::<i16>::empty());
    } else {
        let x = spec_u16_to_le_bytes(i16_bits(s.first()));
        let rest = ser_i16s(s.drop_first());
        assert(ser_i16s(s) == x + rest);
        lemma_subrange_concat(b, i, x, rest);
        lemma_parse_u16_of(b, i, i16_bits(s.first()));
        lemma_parse_i16s_of_ser(b, i + 2, s.drop_first());
        lemma_i16_bits_roundtrip(s.first());
        assert(seq![u16_val(i16_bits(s.first()))] + s.drop_first() =~= s);
    }
}

proof fn lemma_parse_channels_of_ser(b: Seq<u8>, i: int, coeffs: Seq<Seq<(u16, i16)>>, scales: Seq<
    u32,
>)
    requires
        0 <= i,
        coeffs.len() == scales.len(),
        forall|c: int| 0 <= c < coeffs.len() ==> (#[trigger] coeffs[c]).len() <= 0xFFFFFFFF,
        i + ser_channels(coeffs, scales).len() <= b.len(),
        b.subrange(i, i + ser_channels(coeffs, scales).len()) == ser_channels(coeffs, scales),
    ensures
        parse_channels(b, i, scales.len()) == Some(
            (coeffs, scales, i + ser_channels(coeffs, scales).len()),
        ),
    decreases scales.len(),
{
    lemma_auto_spec_u32_to_from_le_bytes();
    lemma_auto_spec_u64_to_from_le_bytes();
    if scales.len() == 0 {
        assert(coeffs =~= Seq::<Seq<(u16, i16)>>::empty());
        assert(scales =~= Seq::<u32>::empty());
    } else {
        let c0 = coeffs.first();
        let x = spec_u32_to_le_bytes(scales.first());
        let y = spec_u64_to_le_bytes(c0.len() as u64);
        let z = ser_pairs(c0);
        let rest = ser_channels(coeffs.drop_first(), scales.drop_first());
        assert(ser_channels(coeffs, scales) == x + y + z + rest);
        assert(x + y + z + rest =~= x + (y + (z + rest)));
        lemma_subrange_concat(b, i, x, y + (z + rest));
        lemma_subrange_concat(b, i + 4, y, z + rest);
        lemma_subrange_concat(b, i + 12, z, rest);
        lemma_parse_u32_of(b, i, scales.first());
        lemma_parse_u64_of(b, i + 4, c0.len() as u64);
        lemma_parse_pairs_of_ser(b, i + 12, c0);
        assert((c0.len() as u64) as nat == c0.len());
        lemma_parse_channels_of_ser(b, i + 12 + z.len(), coeffs.drop_first(), scales.drop_first());
        assert(seq![c0] + coeffs.drop_first() =~= coeffs);
        assert(seq![scales.first()] + scales.drop_first() =~= scales);
    }
}

proof fn lemma_parse_frame_of_ser(b: Seq<u8>, i: int, f: FrameView, ch: nat)
    requires
        0 <= i,
        ch <= 0xFFFF,
        f.wf(ch),
        i + ser_frame(f).len() <= b.len(),
        b.subrange(i, i + ser_frame(f).len()) == ser_frame(f),
    ensures
        parse_frame(b, i, ch) == Some((f, i + ser_frame(f).len())),
{
    lemma_auto_spec_u64_to_from_le_bytes();
    match f {
        FrameView::Spectral { coeffs, scales } => {
            let rest = ser_channels(coeffs, scales);
            assert(ser_frame(f) == seq![0u8] + rest);
            lemma_subrange_concat(b, i, seq![0u8], rest);
            assert(b[i] == 0u8) by {
                assert(b.subrange(i, i + 1)[0] == b[i]);
            }
            assert(parse_u8(b, i) == Some((0u8, i + 1)));
            lemma_parse_channels_of_ser(b, i + 1, coeffs, scales);
        },
        FrameView::Raw { pcm } => {
            let y = spec_u64_to_le_bytes(pcm.len() as u64);
            let z = ser_i16s(pcm);
            assert(ser_frame(f) == seq![1u8] + y + z);
            assert(seq![1u8] + y + z =~= seq![1u8] + (y + z));
            lemma_subrange_concat(b, i, seq![1u8], y + z);
            lemma_subrange_concat(b, i + 1, y, z);
            assert(b[i] == 1u8) by {
                assert(b.subrange(i, i + 1)[0] == b[i]);
            }
            assert(parse_u8(b, i) == Some((1u8, i + 1)));
            lemma_parse_u64_of(b, i + 1, pcm.len() as u64);
            assert((pcm.len() as u64) as nat == pcm.len());
            lemma_parse_i16s_of_ser(b, i + 9, pcm);
        },
    }
}

proof fn lemma_parse_frames_of_ser(b: Seq<u8>, i: int, fs: Seq<FrameView>, ch: nat)
    requires
        0 <= i,
        ch <= 0xFFFF,
        forall|k: int| 0 <= k < fs.len() ==> (#[trigger] fs[k]).wf(ch),
        i + ser_frames(fs).len() <= b.len(),
        b.subrange(i, i + ser_frames(fs).len()) == ser_frames(fs),
    ensures
        parse_frames(b, i, fs.len(), ch) == Some((fs, i + ser_frames(fs).len())),
    decreases fs.len(),
{
    if fs.len() == 0 {
        assert(fs =~= Seq::<FrameView>::empty());
    } else {
        let x = ser_frame(fs.first());
        let rest = ser_frames(fs.drop_first());
        assert(ser_frames(fs) == x + rest);
        lemma_subrange_concat(b, i, x, rest);
        lemma_parse_frame_of_ser(b, i, fs.first(), ch);
        lemma_parse_frames_of_ser(b, i + x.len(), fs.drop_first(), ch);
        assert(seq![fs.first()] + fs.drop_first() =~= fs);
    }
}

/// Container round trip: parsing the serialized form of any stream that
/// satisfies the structural invariant returns exactly that stream.
pub proof fn lemma_container_round_trip(v: StreamView)
    requires
        v.wf(),
    ensures
        parse_stream(ser_stream(v)) == Some(v),
{
    let b = ser_stream(v);
    lemma_auto_spec_u16_to_from_le_bytes();
    lemma_auto_spec_u32_to_from_le_bytes();
    lemma_auto_spec_u64_to_from_le_bytes();
    // The frame count fits in 64 bits: it is at most the padded length,
    // divided by the hop.
    assert(v.frames.len() <= 0xFFFFFFFFFFFFFFFF) by {
        let p = v.per_channel_padded();
        assert(p <= 0xFFFFFFFFu64 + 0xFFFFFFFFFFFFFFFFu64 + 0xFFFFFFFFu64);
        if p >= crate::FRAME_SIZE {
            vstd::arithmetic::div_mod::lemma_div_is_ordered(
                (p - crate::FRAME_SIZE) as int,
                0xFFFFFFFFFFFFFFFFFFint,
                crate::HOP_SIZE as int,
            );
        }
    }
    let s1 = spec_u32_to_le_bytes(v.header.sample_rate);
    let s2 = spec_u16_to_le_bytes(v.header.channels);
    let s3 = spec_u64_to_le_bytes(v.header.total_samples);
    let s4 = spec_u32_to_le_bytes(v.gapless_info.encoder_delay);
    let s5 = spec_u32_to_le_bytes(v.gapless_info.padding);
    let s6 = spec_u64_to_le_bytes(v.gapless_info.original_length);
    let s7 = spec_u64_to_le_bytes(v.frames.len() as u64);
    let fr = ser_frames(v.frames);
    assert(b == magic_bytes() + s1 + s2 + s3 + s4 + s5 + s6 + s7 + fr);
    assert(magic_bytes() + s1 + s2 + s3 + s4 + s5 + s6 + s7 + fr =~= magic_bytes() + (s1 + (s2 + (
    s3 + (s4 + (s5 + (s6 + (s7 + fr))))))));
    assert(b.subrange(0, b.len() as int) =~= b);
    assert(b == magic_bytes() + (s1 + (s2 + (s3 + (s4 + (s5 + (s6 + (s7 + fr))))))));
    lemma_subrange_concat(b, 0, magic_bytes(), s1 + (s2 + (s3 + (s4 + (s5 + (s6 + (s7 + fr)))))));
    lemma_subrange_concat(b, 4, s1, s2 + (s3 + (s4 + (s5 + (s6 + (s7 + fr))))));
    lemma_subrange_concat(b, 8, s2, s3 + (s4 + (s5 + (s6 + (s7 + fr)))));
    lemma_subrange_concat(b, 10, s3, s4 + (s5 + (s6 + (s7 + fr))));
    lemma_subrange_concat(b, 18, s4, s5 + (s6 + (s7 + fr)));
    lemma_subrange_concat(b, 22, s5, s6 + (s7 + fr));
    lemma_subrange_concat(b, 26, s6, s7 + fr);
    lemma_subrange_concat(b, 34, s7, fr);
    assert(((v.frames.len() as u64) as nat) == v.frames.len());
    lemma_parse_frames_of_ser(b, 42, v.frames, v.header.channels as nat);
    let parsed = parse_stream(b);
    assert(parsed matches Some(pv) && pv =~= v);
}

// The executable serializer.
/// The two's-complement 16-bit pattern of a sample value.
pub fn bits_of_i16(x: i16) -> (r: u16)
    ensures
        r == i16_bits(x),
{
    if x >= 0 {
        x as u16
    } else {
        ((x as i32) + 0x10000) as u16
    }
}

/// The sample value of a two's-complement 16-bit pattern.
pub fn val_of_u16(b: u16) -> (r: i16)
    ensures
        r == u16_val(b),
{
    if b < 0x8000 {
        b as i16
    } else {
        ((b as i32) - 0x10000) as i16
    }
}

fn push_u16(out: &mut Vec<u8>, x: u16)
    ensures
        final(out)@ == old(out)@ + spec_u16_to_le_bytes(x),
{
    let mut b = u16_to_le_bytes(x);
    out.append(&mut b);
}

fn push_u32(out: &mut Vec<u8>, x: u32)
    ensures
        final(out)@ == old(out)@ + spec_u32_to_le_bytes(x),
{
    let mut b = u32_to_le_bytes(x);
    out.append(&mut b);
}

fn push_u64(out: &mut Vec<u8>, x: u64)
    ensures
        final(out)@ == old(out)@ + spec_u64_to_le_bytes(x),
{
    let mut b = u64_to_le_bytes(x);
    out.append(&mut b);
}

proof fn lemma_ser_pairs_snoc(s: Seq<(u16, i16)>, x: (u16, i16))
    ensures
        ser_pairs(s.push(x)) == ser_pairs(s) + spec_u16_to_le_bytes(x.0) + spec_u16_to_le_bytes(
            i16_bits(x.1),
        ),
    decreases s.len(),
{
    lemma_auto_spec_u16_to_from_le_bytes();
    if s.len() == 0 {
        assert(s.push(x).first() == x);
        assert(s.push(x).drop_first() =~= Seq::<(u16, i16)>::empty());
        assert(s =~= Seq::<(u16, i16)>::empty());
        assert(ser_pairs(Seq::<(u16, i16)>::empty()) == Seq::<u8>::empty());
        assert(ser_pairs(s.push(x)) =~= ser_pairs(s) + spec_u16_to_le_bytes(x.0)
            + spec_u16_to_le_bytes(i16_bits(x.1)));
    } else {
        let a = spec_u16_to_le_bytes(s.first().0);
        let bb = spec_u16_to_le_bytes(i16_bits(s.first().1));
        let xx = spec_u16_to_le_bytes(x.0);
        let yy = spec_u16_to_le_bytes(i16_bits(x.1));
        lemma_ser_pairs_snoc(s.drop_first(), x);
        assert(s.push(x).first() == s.first());
        assert(s.push(x).drop_first() =~= s.drop_first().push(x));
        assert(ser_pairs(s.drop_first().push(x)) == ser_pairs(s.drop_first()) + xx + yy);
        assert(ser_pairs(s.push(x)) == a + bb + ser_pairs(s.drop_first().push(x)));
        assert(a + bb + (ser_pairs(s.drop_first()) + xx + yy) =~= (a + bb + ser_pairs(
            s.drop_first(),
        )) + xx + yy);
        assert(ser_pairs(s) == a + bb + ser_pairs(s.drop_first()));
        assert(ser_pairs(s.push(x)) == ser_pairs(s) + xx + yy);
    }
}

proof fn lemma_ser_i16s_snoc(s: Seq<i16>, x: i16)
    ensures
        ser_i16s(s.push(x)) == ser_i16s(s) + spec_u16_to_le_bytes(i16_bits(x)),
    decreases s.len(),
{
    lemma_auto_spec_u16_to_from_le_bytes();
    if s.len() == 0 {
        assert(s.push(x).first() == x);
        assert(s.push(x).drop_first() =~= Seq::<i16>::empty());
        assert(s =~= Seq::<i16>::empty());
        assert(ser_i16s(Seq::<i16>::empty()) == Seq::<u8>::empty());
        assert(ser_i16s(s.push(x)) =~= ser_i16s(s) + spec_u16_to_le_bytes(i16_bits(x)));
    } else {
        lemma_ser_i16s_snoc(s.drop_first(), x);
        assert(s.push(x).first() == s.first());
        assert(s.push(x).drop_first() =~= s.drop_first().push(x));
        assert(ser_i16s(s.push(x)) =~= ser_i16s(s) + spec_u16_to_le_bytes(i16_bits(x)));
    }
}

proof fn lemma_ser_channels_snoc(
    coeffs: Seq<Seq<(u16, i16)>>,
    scales: Seq<u32>,
    c: Seq<(u16, i16)>,
    s: u32,
)
    requires
        coeffs.len() == scales.len(),
    ensures
        ser_channels(coeffs.push(c), scales.push(s)) == ser_channels(coeffs, scales)
            + spec_u32_to_le_bytes(s) + spec_u64_to_le_bytes(c.len() as u64) + ser_pairs(c),
    decreases scales.len(),
{
    lemma_auto_spec_u16_to_from_le_bytes();
    lemma_auto_spec_u32_to_from_le_bytes();
    lemma_auto_spec_u64_to_from_le_bytes();
    if scales.len() == 0 {
        assert(coeffs.push(c).first() == c);
        assert(scales.push(s).first() == s);
        assert(coeffs.push(c).drop_first() =~= Seq::<Seq<(u16, i16)>>::empty());
        assert(scales.push(s).drop_first() =~= Seq::<u32>::empty());
        assert(coeffs =~= Seq::<Seq<(u16, i16)>>::empty());
        assert(scales =~= Seq::<u32>::empty());
        assert(ser_channels(Seq::<Seq<(u16, i16)>>::empty(), Seq::<u32>::empty())
            == Seq::<u8>::empty());
        assert(ser_channels(coeffs.push(c), scales.push(s)) =~= ser_channels(coeffs, scales)
            + spec_u32_to_le_bytes(s) + spec_u64_to_le_bytes(c.len() as u64) + ser_pairs(c));
    } else {
        lemma_ser_channels_snoc(coeffs.drop_first(), scales.drop_first(), c, s);
        assert(coeffs.push(c).first() == coeffs.first());
        assert(scales.push(s).first() == scales.first());
        assert(coeffs.push(c).drop_first() =~= coeffs.drop_first().push(c));
        assert(scales.push(s).drop_first() =~= scales.drop_first().push(s));
        assert(ser_channels(coeffs.push(c), scales.push(s)) =~= ser_channels(coeffs, scales)
            + spec_u32_to_le_bytes(s) + spec_u64_to_le_bytes(c.len() as u64) + ser_pairs(c));
    }
}

proof fn lemma_ser_frames_snoc(fs: Seq<FrameView>, f: FrameView)
    ensures
        ser_frames(fs.push(f)) == ser_frames(fs) + ser_frame(f),
    decreases fs.len(),
{
    if fs.len() == 0 {
        assert(fs.push(f).first() == f);
        assert(fs.push(f).drop_first() =~= Seq::<FrameView>::empty());
        assert(fs =~= Seq::<FrameView>::empty());
        assert(ser_frames(Seq::<FrameView>::empty()) == Seq::<u8>::empty());
        assert(ser_frames(fs.push(f)) =~= ser_frames(fs) + ser_frame(f));
    } else {
        lemma_ser_frames_snoc(fs.drop_first(), f);
        assert(fs.push(f).first() == fs.first());
        assert(fs.push(f).drop_first() =~= fs.drop_first().push(f));
        assert(ser_frames(fs.push(f)) =~= ser_frames(fs) + ser_frame(f));
    }
}

#[verifier::loop_isolation(false)]
fn serialize_pairs(out: &mut Vec<u8>, pairs: &Vec<(u16, i16)>)
    ensures
        final(out)@ == old(out)@ + ser_pairs(pairs@),
{
    let mut j: usize = 0;
    while j < pairs.len()
        invariant
            j <= pairs@.len(),
            out@ == old(out)@ + ser_pairs(pairs@.take(j as int)),
        decreases pairs@.len() - j,
    {
        let (bin, q) = pairs[j];
        push_u16(out, bin);
        push_u16(out, bits_of_i16(q));
        proof {
            lemma_ser_pairs_snoc(pairs@.take(j as int), pairs@[j as int]);
            assert(pairs@.take(j as int + 1) =~= pairs@.take(j as int).push(pairs@[j as int]));
        }
        j += 1;
    }
    proof {
        assert(pairs@.take(pairs@.len() as int) =~= pairs@);
    }
}

#[verifier::loop_isolation(false)]
fn serialize_i16s(out: &mut Vec<u8>, pcm: &Vec<i16>)
    ensures
        final(out)@ == old(out)@ + ser_i16s(pcm@),
{
    let mut j: usize = 0;
    while j < pcm.len()
        invariant
            j <= pcm@.len(),
            out@ == old(out)@ + ser_i16s(pcm@.take(j as int)),
        decreases pcm@.len() - j,
    {
        push_u16(out, bits_of_i16(pcm[j]));
        proof {
            lemma_ser_i16s_snoc(pcm@.take(j as int), pcm@[j as int]);
            assert(pcm@.take(j as int + 1) =~= pcm@.take(j as int).push(pcm@[j as int]));
        }
        j += 1;
    }
    proof {
        assert(pcm@.take(pcm@.len() as int) =~= pcm@);
    }
}

#[verifier::loop_isolation(false)]
fn serialize_frame(out: &mut Vec<u8>, f: &crate::stream::EncodedFrame)
    requires
        f@ matches FrameView::Spectral { coeffs, scales } ==> coeffs.len() == scales.len(),
    ensures
        final(out)@ == old(out)@ + ser_frame(f@),
{
    match f {
        crate::stream::EncodedFrame::Spectral {
            sparse_coeffs_per_channel: coeffs,
            scale_factors: scales,
        } => {
            out.push(0u8);
            proof {
                assert(out@ =~= old(out)@ + seq![0u8]);
                assert(coeffs.deep_view().take(0) =~= Seq::<Seq<(u16, i16)>>::empty());
                assert(scales@.take(0) =~= Seq::<u32>::empty());
            }
            let mut c: usize = 0;
            while c < scales.len()
                invariant
                    c <= scales@.len(),
                    out@ == old(out)@ + seq![0u8] + ser_channels(
                        coeffs.deep_view().take(c as int),
                        scales@.take(c as int),
                    ),
                decreases scales@.len() - c,
            {
                push_u32(out, scales[c]);
                push_u64(out, coeffs[c].len() as u64);
                serialize_pairs(out, &coeffs[c]);
                proof {
                    crate::stream::lemma_deep_view_pairs(coeffs, c as int);
                    lemma_ser_channels_snoc(
                        coeffs.deep_view().take(c as int),
                        scales@.take(c as int),
                        coeffs.deep_view()[c as int],
                        scales@[c as int],
                    );
                    assert(coeffs.deep_view().take(c as int + 1) =~= coeffs.deep_view().take(
                        c as int,
                    ).push(coeffs.deep_view()[c as int]));
                    assert(scales@.take(c as int + 1) =~= scales@.take(c as int).push(
                        scales@[c as int],
                    ));
                }
                c += 1;
            }
            proof {
                assert(coeffs.deep_view().take(scales@.len() as int) =~= coeffs.deep_view());
                assert(scales@.take(scales@.len() as int) =~= scales@);
                assert(out@ =~= old(out)@ + ser_frame(f@));
            }
        },
        crate::stream::EncodedFrame::Raw { raw_pcm } => {
            out.push(1u8);
            proof {
                assert(out@ =~= old(out)@ + seq![1u8]);
            }
            push_u64(out, raw_pcm.len() as u64);
            serialize_i16s(out, raw_pcm);
            proof {
                assert(out@ =~= old(out)@ + ser_frame(f@));
            }
        },
    }
}

/// Serialize a well-formed stream to its container bytes.
#[verifier::loop_isolation(false)]
pub fn serialize_encoded(s: &EncodedAudio) -> (out: Vec<u8>)
    requires
        s@.wf(),
    ensures
        out@ == ser_stream(s@),
{
    let mut out: Vec<u8> = Vec::new();
    out.push(0x47u8);
    out.push(0x4Cu8);
    out.push(0x43u8);
    out.push(0x31u8);
    proof {
        assert(out@ =~= magic_bytes());
    }
    push_u32(&mut out, s.header.sample_rate);
    push_u16(&mut out, s.header.channels);
    push_u64(&mut out, s.header.total_samples);
    push_u32(&mut out, s.gapless_info.encoder_delay);
    push_u32(&mut out, s.gapless_info.padding);
    push_u64(&mut out, s.gapless_info.original_length);
    push_u64(&mut out, s.frames.len() as u64);
    proof {
        assert(out@ =~= ser_head(s@));
        assert(s@.frames.take(0) =~= Seq::<FrameView>::empty());
    }
    let mut fi: usize = 0;
    while fi < s.frames.len()
        invariant
            fi <= s.frames@.len(),
            out@ == ser_head(s@) + ser_frames(s@.frames.take(fi as int)),
        decreases s.frames@.len() - fi,
    {
        proof {
            assert(s@.frames[fi as int].wf(s@.header.channels as nat));
        }
        serialize_frame(&mut out, &s.frames[fi]);
        proof {
            lemma_ser_frames_snoc(s@.frames.take(fi as int), s@.frames[fi as int]);
            assert(s@.frames.take(fi as int + 1) =~= s@.frames.take(fi as int).push(
                s@.frames[fi as int],
            ));
        }
        fi += 1;
    }
    proof {
        assert(s@.frames.take(s.frames@.len() as int) =~= s@.frames);
    }
    out
}

// The executable parser.
fn read_u8(b: &Vec<u8>, i: usize) -> (r: Option<(u8, usize)>)
    ensures
        match r {
            Some((x, j)) => parse_u8(b@, i as int) == Some((x, j as int)) && j <= b@.len(),
            None => parse_u8(b@, i as int) is None,
        },
{
    if i < b.len() {
        Some((b[i], i + 1))
    } else {
        None
    }
}

fn read_u16(b: &Vec<u8>, i: usize) -> (r: Option<(u16, usize)>)
    ensures
        match r {
            Some((x, j)) => parse_u16(b@, i as int) == Some((x, j as int)) && j <= b@.len(),
            None => parse_u16(b@, i as int) is None,
        },
{
    if i < b.len() && b.len() - i >= 2 {
        let s = vstd::slice::slice_subrange(b.as_slice(), i, i + 2);
        Some((u16_from_le_bytes(s), i + 2))
    } else {
        None
    }
}

fn read_u32(b: &Vec<u8>, i: usize) -> (r: Option<(u32, usize)>)
    ensures
        match r {
            Some((x, j)) => parse_u32(b@, i as int) == Some((x, j as int)) && j <= b@.len(),
            None => parse_u32(b@, i as int) is None,
        },
{
    if i < b.len() && b.len() - i >= 4 {
        let s = vstd::slice::slice_subrange(b.as_slice(), i, i + 4);
        Some((u32_from_le_bytes(s), i + 4))
    } else {
        None
    }
}

fn read_u64(b: &Vec<u8>, i: usize) -> (r: Option<(u64, usize)>)
    ensures
        match r {
            Some((x, j)) => parse_u64(b@, i as int) == Some((x, j as int)) && j <= b@.len(),
            None => parse_u64(b@, i as int) is None,
        },
{
    if i < b.len() && b.len() - i >= 8 {
        let s = vstd::slice::slice_subrange(b.as_slice(), i, i + 8);
        Some((u64_from_le_bytes(s), i + 8))
    } else {
        None
    }
}

spec fn glue_pairs(acc: Seq<(u16, i16)>, r: Option<(Seq<(u16, i16)>, int)>) -> Option<
    (Seq<(u16, i16)>, int),
> {
    match r {
        None => None,
        Some((rest, j)) => Some((acc + rest, j)),
    }
}

spec fn glue_i16s(acc: Seq<i16>, r: Option<(Seq<i16>, int)>) -> Option<(Seq<i16>, int)> {
    match r {
        None => None,
        Some((rest, j)) => Some((acc + rest, j)),
    }
}

spec fn glue_channels(
    acc_c: Seq<Seq<(u16, i16)>>,
    acc_s: Seq<u32>,
    r: Option<(Seq<Seq<(u16, i16)>>, Seq<u32>, int)>,
) -> Option<(Seq<Seq<(u16, i16)>>, Seq<u32>, int)> {
    match r {
        None => None,
        Some((cs, ss, j)) => Some((acc_c + cs, acc_s + ss, j)),
    }
}

spec fn glue_frames(acc: Seq<FrameView>, r: Option<(Seq<FrameView>, int)>) -> Option<
    (Seq<FrameView>, int),
> {
    match r {
        None => None,
        Some((fs, j)) => Some((acc + fs, j)),
    }
}

/// The views of a sequence of pair-list vectors.
spec fn deep_of_pairs(s: Seq<Vec<(u16, i16)>>) -> Seq<Seq<(u16, i16)>> {
    s.map_values(|v: Vec<(u16, i16)>| v@)
}

/// The views of a sequence of frames.
spec fn deep_of_frames(s: Seq<crate::stream::EncodedFrame>) -> Seq<FrameView> {
    s.map_values(|f: crate::stream::EncodedFrame| f@)
}

#[verifier::loop_isolation(false)]
fn read_pairs(b: &Vec<u8>, start: usize, count: u64) -> (r: Option<(Vec<(u16, i16)>, usize)>)
    requires
        start <= b@.len(),
    ensures
        match r {
            Some((ps, j)) => parse_pairs(b@, start as int, count as nat) == Some(
                (ps@, j as int),
            ) && j <= b@.len(),
            None => parse_pairs(b@, start as int, count as nat) is None,
        },
{
    let mut acc: Vec<(u16, i16)> = Vec::new();
    let mut cur: usize = start;
    let mut k: u64 = 0;
    while k < count
        invariant
            k <= count,
            cur <= b@.len(),
            parse_pairs(b@, start as int, count as nat) == glue_pairs(
                acc@,
                parse_pairs(b@, cur as int, (count - k) as nat),
            ),
        decreases count - k,
    {
        let (bin, i1) = match read_u16(b, cur) {
            Some(v) => v,
            None => {
                return None;
            },
        };
        let (qb, i2) = match read_u16(b, i1) {
            Some(v) => v,
            None => {
                return None;
            },
        };
        let q = val_of_u16(qb);
        proof {
            match parse_pairs(b@, i2 as int, (count - k - 1) as nat) {
                Some((rest, j)) => {
                    assert(acc@ + (seq![(bin, u16_val(qb))] + rest) =~= acc@.push((bin, q))
                        + rest);
                },
                None => {},
            }
        }
        acc.push((bin, q));
        cur = i2;
        k = k + 1;
    }
    proof {
        assert(acc@ + Seq::<(u16, i16)>::empty() =~= acc@);
    }
    Some((acc, cur))
}

#[verifier::loop_isolation(false)]
fn read_i16s(b: &Vec<u8>, start: usize, count: u64) -> (r: Option<(Vec<i16>, usize)>)
    requires
        start <= b@.len(),
    ensures
        match r {
            Some((pcm, j)) => parse_i16s(b@, start as int, count as nat) == Some(
                (pcm@, j as int),
            ) && j <= b@.len(),
            None => parse_i16s(b@, start as int, count as nat) is None,
        },
{
    let mut acc: Vec<i16> = Vec::new();
    let mut cur: usize = start;
    let mut k: u64 = 0;
    while k < count
        invariant
            k <= count,
            cur <= b@.len(),
            parse_i16s(b@, start as int, count as nat) == glue_i16s(
                acc@,
                parse_i16s(b@, cur as int, (count - k) as nat),
            ),
        decreases count - k,
    {
        let (qb, i1) = match read_u16(b, cur) {
            Some(v) => v,
            None => {
                return None;
            },
        };
        let q = val_of_u16(qb);
        proof {
            match parse_i16s(b@, i1 as int, (count - k - 1) as nat) {
                Some((rest, j)) => {
                    assert(acc@ + (seq![u16_val(qb)] + rest) =~= acc@.push(q) + rest);
                },
                None => {},
            }
        }
        acc.push(q);
        cur = i1;
        k = k + 1;
    }
    proof {
        assert(acc@ + Seq::<i16>::empty() =~= acc@);
    }
    Some((acc, cur))
}

#[verifier::loop_isolation(false)]
fn read_channels(b: &Vec<u8>, start: usize, channels: u16) -> (r: Option<
    (Vec<Vec<(u16, i16)>>, Vec<u32>, usize),
>)
    requires
        start <= b@.len(),
    ensures
        match r {
            Some((coeffs, scales, j)) => parse_channels(b@, start as int, channels as nat)
                == Some((coeffs.deep_view(), scales@, j as int)) && j <= b@.len(),
            None => parse_channels(b@, start as int, channels as nat) is None,
        },
{
    let mut acc_c: Vec<Vec<(u16, i16)>> = Vec::new();
    let mut acc_s: Vec<u32> = Vec::new();
    let mut cur: usize = start;
    let mut k: u16 = 0;
    while k < channels
        invariant
            k <= channels,
            cur <= b@.len(),
            parse_channels(b@, start as int, channels as nat) == glue_channels(
                deep_of_pairs(acc_c@),
                acc_s@,
                parse_channels(b@, cur as int, (channels - k) as nat),
            ),
        decreases channels - k,
    {
        let (scale, i1) = match read_u32(b, cur) {
            Some(v) => v,
            None => {
                return None;
            },
        };
        let (cnt, i2) = match read_u64(b, i1) {
            Some(v) => v,
            None => {
                return None;
            },
        };
        let (ps, i3) = match read_pairs(b, i2, cnt) {
            Some(v) => v,
            None => {
                return None;
            },
        };
        proof {
            match parse_channels(b@, i3 as int, (channels - k - 1) as nat) {
                Some((cs, ss, j)) => {
                    assert(deep_of_pairs(acc_c@) + (seq![ps@] + cs) =~= deep_of_pairs(
                        acc_c@.push(ps),
                    ) + cs);
                    assert(acc_s@ + (seq![scale] + ss) =~= acc_s@.push(scale) + ss);
                },
                None => {},
            }
        }
        acc_c.push(ps);
        acc_s.push(scale);
        cur = i3;
        k = k + 1;
    }
    proof {
        assert(deep_of_pairs(acc_c@) + Seq::<Seq<(u16, i16)>>::empty() =~= deep_of_pairs(acc_c@));
        assert(acc_s@ + Seq::<u32>::empty() =~= acc_s@);
        assert(acc_c.deep_view() =~= deep_of_pairs(acc_c@)) by {
            assert forall|t: int| 0 <= t < acc_c@.len() implies acc_c.deep_view()[t]
                == deep_of_pairs(acc_c@)[t] by {
                crate::stream::lemma_deep_view_pairs(&acc_c, t);
            }
        }
    }
    Some((acc_c, acc_s, cur))
}

fn read_frame(b: &Vec<u8>, i: usize, channels: u16) -> (r: Option<
    (crate::stream::EncodedFrame, usize),
>)
    requires
        i <= b@.len(),
    ensures
        match r {
            Some((f, j)) => parse_frame(b@, i as int, channels as nat) == Some((f@, j as int))
                && j <= b@.len(),
            None => parse_frame(b@, i as int, channels as nat) is None,
        },
{
    let (tag, i1) = match read_u8(b, i) {
        Some(v) => v,
        None => {
            return None;
        },
    };
    if tag == 0 {
        match read_channels(b, i1, channels) {
            Some((coeffs, scales, j)) => Some(
                (
                    crate::stream::EncodedFrame::Spectral {
                        sparse_coeffs_per_channel: coeffs,
                        scale_factors: scales,
                    },
                    j,
                ),
            ),
            None => None,
        }
    } else if tag == 1 {
        let (cnt, i2) = match read_u64(b, i1) {
            Some(v) => v,
            None => {
                return None;
            },
        };
        match read_i16s(b, i2, cnt) {
            Some((pcm, j)) => Some((crate::stream::EncodedFrame::Raw { raw_pcm: pcm }, j)),
            None => None,
        }
    } else {
        None
    }
}

#[verifier::loop_isolation(false)]
fn read_frames(b: &Vec<u8>, start: usize, count: u64, channels: u16) -> (r: Option<
    (Vec<crate::stream::EncodedFrame>, usize),
>)
    requires
        start <= b@.len(),
    ensures
        match r {
            Some((fs, j)) => parse_frames(b@, start as int, count as nat, channels as nat)
                == Some((fs.deep_view(), j as int)) && j <= b@.len(),
            None => parse_frames(b@, start as int, count as nat, channels as nat) is None,
        },
{
    let mut acc: Vec<crate::stream::EncodedFrame> = Vec::new();
    let mut cur: usize = start;
    let mut k: u64 = 0;
    while k < count
        invariant
            k <= count,
            cur <= b@.len(),
            parse_frames(b@, start as int, count as nat, channels as nat) == glue_frames(
                deep_of_frames(acc@),
                parse_frames(b@, cur as int, (count - k) as nat, channels as nat),
            ),
        decreases count - k,
    {
        let (f, i1) = match read_frame(b, cur, channels) {
            Some(v) => v,
            None => {
                return None;
            },
        };
        proof {
            match parse_frames(b@, i1 as int, (count - k - 1) as nat, channels as nat) {
                Some((fs, j)) => {
                    assert(deep_of_frames(acc@) + (seq![f@] + fs) =~= deep_of_frames(acc@.push(f))
                        + fs);
                },
                None => {},
            }
        }
        acc.push(f);
        cur = i1;
        k = k + 1;
    }
    proof {
        assert(deep_of_frames(acc@) + Seq::<FrameView>::empty() =~= deep_of_frames(acc@));
        assert(acc.deep_view() =~= deep_of_frames(acc@));
    }
    Some((acc, cur))
}

/// Deserialize container bytes, rejecting anything that the serializer
/// cannot have produced or whose stream violates a structural invariant.
pub fn deserialize_encoded(bytes: &Vec<u8>) -> (r: Result<EncodedAudio, CodecError>)
    ensures
        r matches Ok(s) ==> parse_stream(bytes@) == Some(s@) && s@.wf(),
        r matches Err(e) ==> e == CodecError::CorruptStream && parse_stream(bytes@) is None,
{
    if bytes.len() < 42 {
        return Err(CodecError::CorruptStream);
    }
    if bytes[0] != 0x47 || bytes[1] != 0x4C || bytes[2] != 0x43 || bytes[3] != 0x31 {
        proof {
            assert(bytes@.subrange(0, 4)[0] == bytes@[0]);
            assert(bytes@.subrange(0, 4)[1] == bytes@[1]);
            assert(bytes@.subrange(0, 4)[2] == bytes@[2]);
            assert(bytes@.subrange(0, 4)[3] == bytes@[3]);
            assert(bytes@.subrange(0, 4) != magic_bytes());
        }
        return Err(CodecError::CorruptStream);
    }
    proof {
        assert(bytes@.subrange(0, 4) =~= magic_bytes());
    }
    let (sample_rate, _o1) = match read_u32(bytes, 4) {
        Some(v) => v,
        None => {
            proof {
                assert(false);
            }
            return Err(CodecError::CorruptStream);
        },
    };
    let (channels, _o2) = match read_u16(bytes, 8) {
        Some(v) => v,
        None => {
            proof {
                assert(false);
            }
            return Err(CodecError::CorruptStream);
        },
    };
    let (total_samples, _o3) = match read_u64(bytes, 10) {
        Some(v) => v,
        None => {
            proof {
                assert(false);
            }
            return Err(CodecError::CorruptStream);
        },
    };
    let (encoder_delay, _o4) = match read_u32(bytes, 18) {
        Some(v) => v,
        None => {
            proof {
                assert(false);
            }
            return Err(CodecError::CorruptStream);
        },
    };
    let (padding, _o5) = match read_u32(bytes, 22) {
        Some(v) => v,
        None => {
            proof {
                assert(false);
            }
            return Err(CodecError::CorruptStream);
        },
    };
    let (original_length, _o6) = match read_u64(bytes, 26) {
        Some(v) => v,
        None => {
            proof {
                assert(false);
            }
            return Err(CodecError::CorruptStream);
        },
    };
    let (frame_count, _o7) = match read_u64(bytes, 34) {
        Some(v) => v,
        None => {
            proof {
                assert(false);
            }
            return Err(CodecError::CorruptStream);
        },
    };
    let (frames, end) = match read_frames(bytes, 42, frame_count, channels) {
        Some(v) => v,
        None => {
            return Err(CodecError::CorruptStream);
        },
    };
    if end != bytes.len() {
        return Err(CodecError::CorruptStream);
    }
    let s = EncodedAudio {
        header: crate::stream::AudioHeader { sample_rate, channels, total_samples },
        frames,
        gapless_info: crate::stream::GaplessInfo { encoder_delay, padding, original_length },
    };
    proof {
        match parse_frames(bytes@, 42, frame_count as nat, channels as nat) {
            Some((pfs, pend)) => {
                let v = StreamView {
                    header: crate::stream::AudioHeader { sample_rate, channels, total_samples },
                    frames: pfs,
                    gapless_info: crate::stream::GaplessInfo {
                        encoder_delay,
                        padding,
                        original_length,
                    },
                };
                assert(v =~= s@);
            },
            None => {
                assert(false);
            },
        }
    }
    if !crate::stream::stream_is_wf(&s) {
        return Err(CodecError::CorruptStream);
    }
    Ok(s)
}


} // verus!
