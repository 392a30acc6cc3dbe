// File-kind checks on path strings.
use gapless_lossy_codec::files::is_glc_file;
use gapless_lossy_codec::files::is_lossless_audio_file;

#[test]
fn wav_and_flac_accepted() {
    assert!(is_lossless_audio_file("song.wav"));
    assert!(is_lossless_audio_file("song.flac"));
    assert!(is_lossless_audio_file("/music/album/track01.wav"));
    assert!(is_lossless_audio_file("a.b.flac"));
}

#[test]
fn case_insensitive_extensions() {
    assert!(is_lossless_audio_file("SONG.WAV"));
    assert!(is_lossless_audio_file("Song.Flac"));
    assert!(is_glc_file("track.GLC"));
}

#[test]
fn other_files_rejected() {
    assert!(!is_lossless_audio_file("song.mp3"));
    assert!(!is_lossless_audio_file("song.glc"));
    assert!(!is_lossless_audio_file("noextension"));
    assert!(!is_lossless_audio_file(""));
    assert!(!is_lossless_audio_file("wav"));
    assert!(!is_lossless_audio_file("song.wavx"));
}

#[test]
fn hidden_files_have_no_extension() {
    assert!(!is_lossless_audio_file(".wav"));
    assert!(!is_glc_file("/dir/.glc"));
}

#[test]
fn separator_bounds_the_file_name() {
    assert!(!is_lossless_audio_file("dir.wav/file"));
    assert!(is_lossless_audio_file("dir.mp3/file.wav"));
}

#[test]
fn glc_checks() {
    assert!(is_glc_file("out.glc"));
    assert!(!is_glc_file("out.wav"));
    assert!(!is_glc_file("glc"));
    assert!(!is_glc_file("out.glc.bak"));
}
