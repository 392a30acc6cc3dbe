// Padding, frame-count and trim arithmetic on concrete values.
use gapless_lossy_codec::layout::ENCODER_DELAY;
use gapless_lossy_codec::layout::num_frames;
use gapless_lossy_codec::layout::padded_channel_len;
use gapless_lossy_codec::layout::padding_amount;

#[test]
fn padded_len_empty_channel() {
    assert_eq!(padded_channel_len(0), 1024);
    assert_eq!(num_frames(1024), 1);
    assert_eq!(padding_amount(0), 1024 - 0 - 512);
}

#[test]
fn padded_len_exact_hop_multiple() {
    assert_eq!(padded_channel_len(1024), 2048);
    assert_eq!(num_frames(2048), 1);
    assert_eq!(padding_amount(1024), 512);
}

#[test]
fn padded_len_two_seconds_mono() {
    // 2 s at 44.1 kHz: 88200 samples round up to 89088, plus one hop.
    assert_eq!(padded_channel_len(88200), 90112);
    assert_eq!(num_frames(90112), 87);
    assert_eq!(padding_amount(88200), 90112 - 88200 - 512);
}

#[test]
fn padded_len_always_hop_aligned() {
    for l in [0usize, 1, 511, 512, 1023, 1024, 1025, 48000, 88200, 176400] {
        let p = padded_channel_len(l);
        assert_eq!(p % 1024, 0);
        assert!(p >= l + 1024);
    }
}

#[test]
fn encoder_delay_is_half_a_hop() {
    assert_eq!(ENCODER_DELAY, 512);
}

#[test]
fn decoded_output_covers_delay_and_length() {
    // The decoder emits one hop per frame plus a final hop; that always
    // covers the encoder delay plus the original channel length.
    for l in [0usize, 1, 512, 1024, 1025, 44100, 48000, 88200] {
        let p = padded_channel_len(l);
        let f = num_frames(p);
        let decoded = f * 1024 + 1024;
        assert!(decoded >= 512 + l);
    }
}
