// The per-frame compression decision and stream assembly.
use gapless_lossy_codec::frames::assemble_stream;
use gapless_lossy_codec::frames::estimate_spectral_size;
use gapless_lossy_codec::frames::make_frame;
use gapless_lossy_codec::stream::AudioHeader;
use gapless_lossy_codec::stream::CodecError;
use gapless_lossy_codec::stream::EncodedAudio;
use gapless_lossy_codec::stream::GaplessInfo;
use gapless_lossy_codec::stream::EncodedFrame;
use gapless_lossy_codec::stream::frame_is_wf;
use gapless_lossy_codec::stream::stream_is_wf;

const ONE_F32_BITS: u32 = 0x3F800000;

fn pairs(n: usize) -> Vec<(u16, i16)> {
    (0..n).map(|k| (k as u16, 1i16)).collect()
}

#[test]
fn estimate_formula() {
    // Per channel a length word plus four bytes per pair, plus a length
    // word, four bytes per scale, and 64 bytes of frame overhead.
    assert_eq!(estimate_spectral_size(&vec![pairs(0)]), 8 + 8 + 4 + 64);
    assert_eq!(estimate_spectral_size(&vec![pairs(10)]), 8 + 40 + 8 + 4 + 64);
    assert_eq!(
        estimate_spectral_size(&vec![pairs(3), pairs(5)]),
        (8 + 12) + (8 + 20) + 8 + 8 + 64
    );
}

#[test]
fn small_frame_stays_spectral() {
    // Mono raw size is 4096 bytes; 849 pairs estimate to 3480 bytes,
    // below 85% of raw.
    let f = make_frame(vec![pairs(849)], vec![ONE_F32_BITS], vec![0i16; 2048], 1)
        .expect("make_frame");
    assert!(matches!(f, EncodedFrame::Spectral { .. }));
}

#[test]
fn dense_frame_falls_back_to_raw() {
    // 850 pairs estimate to 3484 bytes, at least 85% of the 4096-byte
    // raw size, so the windowed PCM block is stored instead.
    let raw: Vec<i16> = (0..2048).map(|i| i as i16).collect();
    let f = make_frame(vec![pairs(850)], vec![ONE_F32_BITS], raw.clone(), 1)
        .expect("make_frame");
    match f {
        EncodedFrame::Raw { raw_pcm } => assert_eq!(raw_pcm, raw),
        EncodedFrame::Spectral { .. } => panic!("expected the raw fallback"),
    }
}

#[test]
fn make_frame_rejects_bad_inputs() {
    // Bin index out of range.
    assert_eq!(
        make_frame(vec![vec![(1024, 1)]], vec![ONE_F32_BITS], vec![0i16; 2048], 1),
        Err(CodecError::InvalidInput)
    );
    // Scale bits of zero (not a positive float).
    assert_eq!(
        make_frame(vec![pairs(1)], vec![0], vec![0i16; 2048], 1),
        Err(CodecError::InvalidInput)
    );
    // Channel count mismatch.
    assert_eq!(
        make_frame(vec![pairs(1)], vec![ONE_F32_BITS], vec![0i16; 4096], 2),
        Err(CodecError::InvalidInput)
    );
    // Raw payload of the wrong length.
    assert_eq!(
        make_frame(vec![pairs(1)], vec![ONE_F32_BITS], vec![0i16; 2047], 1),
        Err(CodecError::InvalidInput)
    );
}

#[test]
fn frame_is_wf_checks() {
    let good = EncodedFrame::Spectral {
        sparse_coeffs_per_channel: vec![pairs(4)],
        scale_factors: vec![ONE_F32_BITS],
    };
    assert!(frame_is_wf(&good, 1));
    assert!(!frame_is_wf(&good, 2));
    let dup = EncodedFrame::Spectral {
        sparse_coeffs_per_channel: vec![vec![(7, 1), (7, 2)]],
        scale_factors: vec![ONE_F32_BITS],
    };
    assert!(!frame_is_wf(&dup, 1));
    assert!(frame_is_wf(&EncodedFrame::Raw { raw_pcm: vec![0i16; 4096] }, 2));
    assert!(!frame_is_wf(&EncodedFrame::Raw { raw_pcm: vec![0i16; 4096] }, 1));
}

#[test]
fn assemble_stream_builds_gapless_metadata() {
    let frame = EncodedFrame::Spectral {
        sparse_coeffs_per_channel: vec![pairs(2)],
        scale_factors: vec![ONE_F32_BITS],
    };
    // 500 samples per channel round up to 1024, plus one hop: one frame.
    let s = assemble_stream(44100, 1, 500, vec![frame]).expect("assemble");
    assert_eq!(s.header.sample_rate, 44100);
    assert_eq!(s.header.channels, 1);
    assert_eq!(s.header.total_samples, 500);
    assert_eq!(s.gapless_info.encoder_delay, 512);
    assert_eq!(s.gapless_info.padding, (2048 - 500 - 512) as u32);
    assert_eq!(s.gapless_info.original_length, 500);
    assert!(stream_is_wf(&s));
}

#[test]
fn assemble_stream_rejects_bad_inputs() {
    let frame = || EncodedFrame::Spectral {
        sparse_coeffs_per_channel: vec![pairs(2)],
        scale_factors: vec![ONE_F32_BITS],
    };
    // Zero channels.
    assert_eq!(assemble_stream(44100, 0, 0, vec![frame()]), Err(CodecError::InvalidInput));
    // Zero sample rate.
    assert_eq!(assemble_stream(0, 1, 0, vec![frame()]), Err(CodecError::InvalidInput));
    // Total not a multiple of the channel count.
    assert_eq!(assemble_stream(44100, 2, 3, vec![frame()]), Err(CodecError::InvalidInput));
    // Wrong frame count: 500 samples need exactly one frame.
    assert_eq!(
        assemble_stream(44100, 1, 500, vec![frame(), frame()]),
        Err(CodecError::InvalidInput)
    );
    assert_eq!(assemble_stream(44100, 1, 500, Vec::new()), Err(CodecError::InvalidInput));
}

#[test]
fn stream_is_wf_rejects_inconsistent_streams() {
    // One frame would be needed to cover the padded input; none given.
    let s = EncodedAudio {
        header: AudioHeader { sample_rate: 44100, channels: 1, total_samples: 500 },
        frames: Vec::new(),
        gapless_info: GaplessInfo { encoder_delay: 512, padding: 1036, original_length: 500 },
    };
    assert!(!stream_is_wf(&s));
    // The same stream with its one frame is well formed.
    let frame = EncodedFrame::Spectral {
        sparse_coeffs_per_channel: vec![pairs(2)],
        scale_factors: vec![ONE_F32_BITS],
    };
    let s2 = EncodedAudio {
        header: AudioHeader { sample_rate: 44100, channels: 1, total_samples: 500 },
        frames: vec![frame],
        gapless_info: GaplessInfo { encoder_delay: 512, padding: 1036, original_length: 500 },
    };
    assert!(stream_is_wf(&s2));
    // Mismatched lengths in the metadata are rejected.
    let mut s3 = s2.clone();
    s3.gapless_info.original_length = 499;
    assert!(!stream_is_wf(&s3));
}
