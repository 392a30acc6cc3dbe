// Deinterleaving, padding, trimming and raw-frame packing.
use gapless_lossy_codec::pcm::pack_raw_payload;
use gapless_lossy_codec::pcm::prepare_channels;
use gapless_lossy_codec::pcm::spectral_to_dense;
use gapless_lossy_codec::pcm::trim_decoded;
use gapless_lossy_codec::pcm::unpack_raw_payload;
use gapless_lossy_codec::stream::CodecError;

#[test]
fn prepare_channels_zero_channels_rejected() {
    assert_eq!(prepare_channels(&vec![1u32, 2, 3], 0), Err(CodecError::InvalidInput));
}

#[test]
fn prepare_channels_length_not_multiple_rejected() {
    assert_eq!(prepare_channels(&vec![1u32, 2, 3], 2), Err(CodecError::InvalidInput));
}

#[test]
fn prepare_channels_stereo_layout() {
    // Interleaved stereo: channel 0 gets the even positions, channel 1
    // the odd ones, each between half a hop of leading zeros and the
    // trailing padding.
    let samples: Vec<u32> = vec![10, 20, 11, 21, 12, 22];
    let chans = prepare_channels(&samples, 2).expect("prepare");
    assert_eq!(chans.len(), 2);
    for c in 0..2 {
        // Three samples round up to one hop, plus the final half-hop pair.
        assert_eq!(chans[c].len(), 2048);
        for i in 0..512 {
            assert_eq!(chans[c][i], 0);
        }
        for i in 515..2048 {
            assert_eq!(chans[c][i], 0);
        }
    }
    assert_eq!(&chans[0][512..515], &[10, 11, 12]);
    assert_eq!(&chans[1][512..515], &[20, 21, 22]);
}

#[test]
fn prepare_channels_mono_long() {
    let samples: Vec<u32> = (0..1500u32).collect();
    let chans = prepare_channels(&samples, 1).expect("prepare");
    assert_eq!(chans.len(), 1);
    // 1500 rounds up to 2048, plus one hop.
    assert_eq!(chans[0].len(), 3072);
    assert_eq!(chans[0][512], 0);
    assert_eq!(chans[0][513], 1);
    assert_eq!(chans[0][512 + 1499], 1499);
    assert_eq!(chans[0][512 + 1500], 0);
}

#[test]
fn trim_drops_delay_and_truncates() {
    let samples: Vec<u32> = (0..10u32).collect();
    assert_eq!(trim_decoded(samples.clone(), 3, 4), vec![3, 4, 5, 6]);
    assert_eq!(trim_decoded(samples.clone(), 0, 100), samples);
    assert_eq!(trim_decoded(samples.clone(), 12, 4), Vec::<u32>::new());
    assert_eq!(trim_decoded(samples, 8, 5), vec![8, 9]);
}

#[test]
fn raw_payload_pack_unpack_round_trip() {
    let block0: Vec<i16> = (0..2048).map(|i| i as i16).collect();
    let block1: Vec<i16> = (0..2048).map(|i| -(i as i16)).collect();
    let payload = pack_raw_payload(&vec![block0.clone(), block1.clone()]);
    assert_eq!(payload.len(), 4096);
    assert_eq!(payload[0], block0[0]);
    assert_eq!(payload[1], block1[0]);
    assert_eq!(payload[2], block0[1]);
    let blocks = unpack_raw_payload(&payload, 2);
    assert_eq!(blocks, vec![block0, block1]);
}

#[test]
fn spectral_to_dense_scatters() {
    let dense = spectral_to_dense(&vec![(3, 100), (0, -7), (1023, 5)]);
    assert_eq!(dense.len(), 1024);
    assert_eq!(dense[0], -7);
    assert_eq!(dense[3], 100);
    assert_eq!(dense[1023], 5);
    assert_eq!(dense[1], 0);
    assert_eq!(dense[512], 0);
}

#[test]
fn spectral_to_dense_last_write_wins() {
    let dense = spectral_to_dense(&vec![(5, 1), (5, 2), (5, 3)]);
    assert_eq!(dense[5], 3);
}

#[test]
fn spectral_to_dense_empty() {
    let dense = spectral_to_dense(&Vec::new());
    assert_eq!(dense, vec![0i16; 1024]);
}

#[test]
fn frame_block_extraction() {
    let chan: Vec<u32> = (0..3072u32).collect();
    let b0 = gapless_lossy_codec::pcm::frame_block(&chan, 0);
    assert_eq!(b0.len(), 2048);
    assert_eq!(b0[0], 0);
    assert_eq!(b0[2047], 2047);
    let b1 = gapless_lossy_codec::pcm::frame_block(&chan, 1);
    assert_eq!(b1[0], 1024);
    assert_eq!(b1[2047], 3071);
}

#[test]
fn frame_block_zero_extends_short_channel() {
    // An empty input pads to a single hop: the one analysis block reads
    // zeros past the channel's end.
    let chan: Vec<u32> = vec![5; 1024];
    let b = gapless_lossy_codec::pcm::frame_block(&chan, 0);
    assert_eq!(b.len(), 2048);
    assert_eq!(b[1023], 5);
    assert_eq!(b[1024], 0);
    assert_eq!(b[2047], 0);
}
