use dj_tool::backend::audio::encoder::{
    build_lame_encoder, encode_lame, encode_mp3, lame_settings, mp3_stream, Mp3Error,
};

#[test]
fn settings_narrow_channels_and_ignore_bitrate() {
    let s = lame_settings(44100, 258, 128);
    assert_eq!(s.num_channels, 2);
    assert_eq!(s.sample_rate, 44100);
    let s = lame_settings(22050, 1, 0);
    assert_eq!(s.num_channels, 1);
    assert_eq!(s.sample_rate, 22050);
}

#[test]
fn encodes_stereo_silence() {
    let pcm = vec![0i16; 1152 * 2 * 4];
    let out = encode_mp3(&pcm, &lame_settings(44100, 2, 320)).ok().unwrap();
    assert!(!out.is_empty());
    // every MPEG audio frame starts with the 11-bit frame sync
    assert_eq!(out[0], 0xFF);
    assert_eq!(out[1] & 0xE0, 0xE0);
}

#[test]
fn encodes_after_channel_count_wraps() {
    // 258 channels narrow to 2
    let pcm = vec![100i16; 2048];
    assert!(encode_mp3(&pcm, &lame_settings(48000, 258, 320)).is_ok());
}

#[test]
fn refuses_three_channels() {
    let pcm = vec![0i16; 64];
    match encode_mp3(&pcm, &lame_settings(44100, 3, 320)) {
        Err(Mp3Error::SetNumChannels(text)) => assert_eq!(text, "Generic"),
        _ => panic!("expected a channel count error"),
    }
}

#[test]
fn refuses_zero_channels() {
    let pcm = vec![0i16; 64];
    assert!(matches!(
        encode_mp3(&pcm, &lame_settings(44100, 0, 320)),
        Err(Mp3Error::SetNumChannels(_))
    ));
}

#[test]
fn refuses_zero_sample_rate() {
    let pcm = vec![0i16; 64];
    match encode_mp3(&pcm, &lame_settings(0, 2, 320)) {
        Err(Mp3Error::SetSampleRate(text)) => assert_eq!(text, "Generic"),
        _ => panic!("expected a sample rate error"),
    }
}

fn tone(n: usize) -> Vec<i16> {
    (0..n).map(|i| ((i * 37 % 2000) as i16 - 1000) * 8).collect()
}

#[test]
fn stream_is_encoded_then_flushed() {
    assert_eq!(mp3_stream(vec![1, 2, 3], vec![4, 5]), vec![1, 2, 3, 4, 5]);
    assert_eq!(mp3_stream(Vec::new(), vec![9]), vec![9]);
    assert_eq!(mp3_stream(vec![7], Vec::new()), vec![7]);
}

#[test]
fn requested_bitrate_does_not_change_the_stream() {
    let pcm = tone(1152 * 2 * 3);
    let a = encode_mp3(&pcm, &lame_settings(44100, 2, 128)).ok().unwrap();
    let b = encode_mp3(&pcm, &lame_settings(44100, 2, 320)).ok().unwrap();
    let c = encode_mp3(&pcm, &lame_settings(44100, 2, 0)).ok().unwrap();
    assert_eq!(a, b);
    assert_eq!(a, c);
}

#[test]
fn encode_lame_matches_encode_mp3() {
    let pcm = tone(4096);
    let settings = lame_settings(48000, 2, 320);
    let mut encoder = build_lame_encoder(&settings).ok().unwrap();
    let direct = encode_lame(&mut encoder, &pcm).ok().unwrap();
    let whole = encode_mp3(&pcm, &settings).ok().unwrap();
    assert_eq!(direct, whole);
    assert!(!direct.is_empty());
}
