// The critical-band partition.
use gapless_lossy_codec::bands::compute_critical_bands;

#[test]
fn bands_structure_44100() {
    let bands = compute_critical_bands(1024, 44100);
    assert_eq!(bands[0], 0);
    assert_eq!(*bands.last().unwrap(), 1024);
    assert!(bands.len() >= 2);
    assert!(bands.len() <= 51);
    for w in bands.windows(2) {
        assert!(w[0] < w[1]);
    }
}

#[test]
fn bands_first_edges_44100() {
    // Edge frequencies advance by 50 Hz; each maps to bin f * 2048 / 44100.
    let bands = compute_critical_bands(1024, 44100);
    assert_eq!(bands[1], 50 * 2048 / 44100);
    assert_eq!(bands[2], 100 * 2048 / 44100);
    assert_eq!(bands[3], 150 * 2048 / 44100);
    assert_eq!(bands[1], 2);
    assert_eq!(bands[2], 4);
    assert_eq!(bands[3], 6);
}

#[test]
fn bands_structure_48000() {
    let bands = compute_critical_bands(1024, 48000);
    assert_eq!(bands[0], 0);
    assert_eq!(*bands.last().unwrap(), 1024);
    assert_eq!(bands[1], 50 * 2048 / 48000);
    for w in bands.windows(2) {
        assert!(w[0] < w[1]);
    }
}

#[test]
fn bands_cap_small_rate() {
    // A low sample rate stops the scan at the Nyquist frequency.
    let bands = compute_critical_bands(1024, 100);
    assert_eq!(bands[0], 0);
    assert_eq!(*bands.last().unwrap(), 1024);
}

#[test]
fn bands_capped_at_fifty() {
    let bands = compute_critical_bands(1024, 192000);
    assert!(bands.len() <= 51);
    assert_eq!(*bands.last().unwrap(), 1024);
}
