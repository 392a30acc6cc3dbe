// Gapless length preservation, end to end through the structural
// pipeline: deinterleave and pad, one frame per hop, the overlap-add
// output size, and the trim back to the original interleaved length.
use gapless_lossy_codec::frames::assemble_stream;
use gapless_lossy_codec::frames::make_frame;
use gapless_lossy_codec::layout::num_frames;
use gapless_lossy_codec::pcm::prepare_channels;
use gapless_lossy_codec::pcm::trim_decoded;
use gapless_lossy_codec::stream::EncodedAudio;

const ONE_F32_BITS: u32 = 0x3F800000;

/// Build a stream of the right shape for `total` interleaved samples:
/// the channels padded as the encoder pads them, one frame per hop.
fn structural_encode(total: usize, channels: u16, sample_rate: u32) -> EncodedAudio {
    let samples = vec![0u32; total];
    let padded = prepare_channels(&samples, channels).expect("prepare");
    let frame_total = num_frames(padded[0].len());
    let frames = (0..frame_total)
        .map(|_| {
            make_frame(
                vec![Vec::new(); channels as usize],
                vec![ONE_F32_BITS; channels as usize],
                vec![0i16; 2048 * channels as usize],
                channels,
            )
            .expect("make_frame")
        })
        .collect();
    assemble_stream(sample_rate, channels, total as u64, frames).expect("assemble")
}

/// The interleaved sample count that overlap-add emits, and the length
/// after the gapless trim.
fn decoded_len_after_trim(s: &EncodedAudio) -> usize {
    let ch = s.header.channels as usize;
    let emitted = (s.frames.len() * 1024 + 1024) * ch;
    let delay = s.gapless_info.encoder_delay as usize * ch;
    let orig = s.gapless_info.original_length as usize;
    trim_decoded(vec![0u32; emitted], delay, orig).len()
}

#[test]
fn length_preserved_two_seconds_44k_mono() {
    // 2 s at 44.1 kHz, mono.
    let s = structural_encode(88200, 1, 44100);
    assert_eq!(decoded_len_after_trim(&s), 88200);
}

#[test]
fn length_preserved_48k_mono() {
    // 1 s at 48 kHz, mono.
    let s = structural_encode(48000, 1, 48000);
    assert_eq!(decoded_len_after_trim(&s), 48000);
}

#[test]
fn length_preserved_stereo() {
    // 2 s at 44.1 kHz, stereo: 176400 interleaved samples.
    let s = structural_encode(176400, 2, 44100);
    assert_eq!(decoded_len_after_trim(&s), 176400);
}

#[test]
fn gapless_concatenation_of_three_tracks() {
    // Three tracks encoded and decoded independently concatenate to
    // exactly the sum of their lengths.
    let lens = [88200usize, 88200, 88200];
    let mut total = 0usize;
    for &l in &lens {
        let s = structural_encode(l, 1, 44100);
        total += decoded_len_after_trim(&s);
    }
    assert_eq!(total, 264600);
}

#[test]
fn length_preserved_edge_cases() {
    for (total, ch) in [(0usize, 1u16), (1, 1), (1024, 1), (1023, 1), (2, 2), (2048, 2)] {
        let s = structural_encode(total, ch, 44100);
        assert_eq!(decoded_len_after_trim(&s), total, "total {} ch {}", total, ch);
    }
}

#[test]
fn frame_counts_match_formula() {
    // F = max(1, (P - 2048) / 1024 + 1) on the padded length P.
    let s = structural_encode(88200, 1, 44100);
    assert_eq!(s.frames.len(), 87);
    let s = structural_encode(48000, 1, 48000);
    assert_eq!(s.frames.len(), (49152 - 2048) / 1024 + 1);
    let s = structural_encode(0, 1, 44100);
    assert_eq!(s.frames.len(), 1);
}
