// Container serialization: round trips and rejection of malformed bytes.
use gapless_lossy_codec::container::deserialize_encoded;
use gapless_lossy_codec::container::serialize_encoded;
use gapless_lossy_codec::frames::assemble_stream;
use gapless_lossy_codec::stream::CodecError;
use gapless_lossy_codec::stream::EncodedFrame;
use gapless_lossy_codec::stream::stream_is_wf;

const ONE_F32_BITS: u32 = 0x3F800000;

fn spectral_frame(pairs: Vec<(u16, i16)>) -> EncodedFrame {
    EncodedFrame::Spectral {
        sparse_coeffs_per_channel: vec![pairs],
        scale_factors: vec![ONE_F32_BITS],
    }
}

#[test]
fn round_trip_spectral_mono() {
    let frame = spectral_frame(vec![(3, 100), (10, -5), (1023, 32767)]);
    let stream = assemble_stream(44100, 1, 0, vec![frame]).expect("assemble");
    assert!(stream_is_wf(&stream));
    let bytes = serialize_encoded(&stream);
    let back = deserialize_encoded(&bytes).expect("deserialize");
    assert_eq!(back, stream);
}

#[test]
fn round_trip_raw_mono() {
    let mut pcm = vec![0i16; 2048];
    pcm[0] = -32768;
    pcm[1] = 32767;
    pcm[2047] = -1;
    let frame = EncodedFrame::Raw { raw_pcm: pcm };
    let stream = assemble_stream(48000, 1, 0, vec![frame]).expect("assemble");
    let bytes = serialize_encoded(&stream);
    let back = deserialize_encoded(&bytes).expect("deserialize");
    assert_eq!(back, stream);
}

#[test]
fn round_trip_stereo_mixed_frames() {
    // Two channels, 2048 samples per channel: padded length is 3072,
    // covered by two frames.
    let f0 = EncodedFrame::Spectral {
        sparse_coeffs_per_channel: vec![vec![(0, 1), (5, -2)], vec![]],
        scale_factors: vec![ONE_F32_BITS, 0x3A800000],
    };
    let f1 = EncodedFrame::Raw { raw_pcm: vec![7i16; 4096] };
    let stream = assemble_stream(44100, 2, 4096, vec![f0, f1]).expect("assemble");
    let bytes = serialize_encoded(&stream);
    let back = deserialize_encoded(&bytes).expect("deserialize");
    assert_eq!(back, stream);
    assert_eq!(back.header.channels, 2);
    assert_eq!(back.gapless_info.original_length, 4096);
}

#[test]
fn empty_input_rejected() {
    assert_eq!(deserialize_encoded(&Vec::new()), Err(CodecError::CorruptStream));
}

#[test]
fn bad_magic_rejected() {
    let frame = spectral_frame(vec![(3, 100)]);
    let stream = assemble_stream(44100, 1, 0, vec![frame]).expect("assemble");
    let mut bytes = serialize_encoded(&stream);
    bytes[0] = b'X';
    assert_eq!(deserialize_encoded(&bytes), Err(CodecError::CorruptStream));
}

#[test]
fn truncated_rejected() {
    let frame = spectral_frame(vec![(3, 100)]);
    let stream = assemble_stream(44100, 1, 0, vec![frame]).expect("assemble");
    let bytes = serialize_encoded(&stream);
    for cut in [1, 10, bytes.len() - 1] {
        let shorter = bytes[..cut].to_vec();
        assert_eq!(deserialize_encoded(&shorter), Err(CodecError::CorruptStream));
    }
}

#[test]
fn trailing_bytes_rejected() {
    let frame = spectral_frame(vec![(3, 100)]);
    let stream = assemble_stream(44100, 1, 0, vec![frame]).expect("assemble");
    let mut bytes = serialize_encoded(&stream);
    bytes.push(0);
    assert_eq!(deserialize_encoded(&bytes), Err(CodecError::CorruptStream));
}

#[test]
fn out_of_range_bin_rejected() {
    // One spectral frame over one channel: the first pair's bin index
    // sits right after the head (42), the tag (1), the scale (4) and the
    // pair count (8).
    let frame = spectral_frame(vec![(3, 100)]);
    let stream = assemble_stream(44100, 1, 0, vec![frame]).expect("assemble");
    let mut bytes = serialize_encoded(&stream);
    let bin_offset = 42 + 1 + 4 + 8;
    bytes[bin_offset] = 0x00;
    bytes[bin_offset + 1] = 0x04;  // bin 1024, one past the last valid index
    assert_eq!(deserialize_encoded(&bytes), Err(CodecError::CorruptStream));
}

#[test]
fn zero_scale_rejected() {
    let frame = spectral_frame(vec![(3, 100)]);
    let stream = assemble_stream(44100, 1, 0, vec![frame]).expect("assemble");
    let mut bytes = serialize_encoded(&stream);
    // The scale bits follow the frame tag.
    for k in 0..4 {
        bytes[42 + 1 + k] = 0;
    }
    assert_eq!(deserialize_encoded(&bytes), Err(CodecError::CorruptStream));
}

#[test]
fn duplicate_bin_rejected() {
    let frame = spectral_frame(vec![(3, 100), (3, 5)]);
    assert_eq!(
        assemble_stream(44100, 1, 0, vec![frame]),
        Err(CodecError::InvalidInput)
    );
}

#[test]
fn wrong_raw_length_rejected() {
    let frame = EncodedFrame::Raw { raw_pcm: vec![0i16; 2047] };
    assert_eq!(
        assemble_stream(44100, 1, 0, vec![frame]),
        Err(CodecError::InvalidInput)
    );
}

#[test]
fn serialized_size_small_for_sparse_stream() {
    // A sparse frame serializes far below the raw PCM size.
    let frame = spectral_frame(vec![(3, 100), (10, -5)]);
    let stream = assemble_stream(44100, 1, 0, vec![frame]).expect("assemble");
    let bytes = serialize_encoded(&stream);
    assert_eq!(bytes.len(), 42 + 1 + 4 + 8 + 2 * 4);
    assert!(bytes.len() < 2048 * 2);
}

#[test]
fn inconsistent_metadata_rejected() {
    // Bumping the stored padding breaks the frame-per-hop invariant.
    let frame = spectral_frame(vec![(3, 100)]);
    let stream = assemble_stream(44100, 1, 0, vec![frame]).expect("assemble");
    let mut bytes = serialize_encoded(&stream);
    bytes[22] = bytes[22].wrapping_add(1);
    assert_eq!(deserialize_encoded(&bytes), Err(CodecError::CorruptStream));
}
