use dj_tool::backend::audio::encoder::{
    aiff_header, aiff_sample_format, aiff_sizes, aiff_sound_data, AiffError, AiffSampleFormat,
};

fn ext_bytes(rate: u32) -> Vec<u8> {
    // the 80-bit float sits at bytes 28..38 of the header
    let h = aiff_header(2, rate, 1, 16);
    h[28..38].to_vec()
}

#[test]
fn extended_rate_44100() {
    assert_eq!(ext_bytes(44100), vec![0x40, 0x0E, 0xAC, 0x44, 0, 0, 0, 0, 0, 0]);
}

#[test]
fn extended_rate_48000() {
    assert_eq!(ext_bytes(48000), vec![0x40, 0x0E, 0xBB, 0x80, 0, 0, 0, 0, 0, 0]);
}

#[test]
fn extended_rate_one_and_zero() {
    assert_eq!(ext_bytes(1), vec![0x3F, 0xFF, 0x80, 0, 0, 0, 0, 0, 0, 0]);
    assert_eq!(ext_bytes(0), vec![0; 10]);
}

#[test]
fn extended_rate_max() {
    assert_eq!(
        ext_bytes(u32::MAX),
        vec![0x40, 0x1E, 0xFF, 0xFF, 0xFF, 0xFF, 0, 0, 0, 0]
    );
}

#[test]
fn extended_rate_denotes_rate() {
    for rate in [1u32, 2, 3, 1000, 8000, 22050, 44100, 96000, 192000, 1 << 31, u32::MAX] {
        let b = ext_bytes(rate);
        let exp = ((b[0] as i32) << 8) | b[1] as i32;
        let mut mant: u64 = 0;
        for &x in &b[2..10] {
            mant = (mant << 8) | x as u64;
        }
        assert!(mant >= 1 << 63);
        let shift = 63 - (exp - 16383);
        assert_eq!(mant >> shift, rate as u64);
        assert_eq!(mant & ((1u64 << shift) - 1), 0);
    }
}

#[test]
fn header_layout() {
    let h = aiff_header(4, 44100, 2, 16);
    let mut expected: Vec<u8> = Vec::new();
    expected.extend_from_slice(b"FORM");
    expected.extend_from_slice(&54u32.to_be_bytes());
    expected.extend_from_slice(b"AIFF");
    expected.extend_from_slice(b"COMM");
    expected.extend_from_slice(&18u32.to_be_bytes());
    expected.extend_from_slice(&2u16.to_be_bytes());
    expected.extend_from_slice(&2u32.to_be_bytes());
    expected.extend_from_slice(&16u16.to_be_bytes());
    expected.extend_from_slice(&[0x40, 0x0E, 0xAC, 0x44, 0, 0, 0, 0, 0, 0]);
    expected.extend_from_slice(b"SSND");
    expected.extend_from_slice(&16u32.to_be_bytes());
    expected.extend_from_slice(&0u32.to_be_bytes());
    expected.extend_from_slice(&0u32.to_be_bytes());
    assert_eq!(h, expected);
    assert_eq!(h.len(), 54);
}

#[test]
fn sizes_round_frames_down() {
    let s = aiff_sizes(7, 2, 24).unwrap();
    assert_eq!(s.num_sample_frames, 3);
    assert_eq!(s.sound_data_size, 18);
    assert_eq!(s.ssnd_chunk_size, 26);
    assert_eq!(s.form_size, 64);
}

#[test]
fn sizes_refuse_zero_channels_and_overflow() {
    assert!(aiff_sizes(10, 0, 16).is_none());
    assert!(aiff_sizes(1 << 31, 1, 32).is_none());
    assert!(aiff_sizes(u32::MAX as usize - 40, 1, 8).is_none());
    assert!(aiff_sizes(u32::MAX as usize - 46, 1, 8).is_some());
}

#[test]
fn sizes_take_sample_count_modulo_2_pow_32() {
    if usize::BITS == 64 {
        let s = aiff_sizes((1usize << 32) + 6, 2, 16).unwrap();
        assert_eq!(s.num_sample_frames, 3);
        assert_eq!(s.sound_data_size, 12);
    }
}

#[test]
fn sample_formats() {
    assert_eq!(aiff_sample_format(16), Ok(AiffSampleFormat::Pcm16));
    assert_eq!(aiff_sample_format(24), Ok(AiffSampleFormat::Pcm24));
    assert_eq!(aiff_sample_format(32), Ok(AiffSampleFormat::Pcm32));
    assert_eq!(aiff_sample_format(8), Err(AiffError::UnsupportedBitDepth(8)));
    assert_eq!(aiff_sample_format(0), Err(AiffError::UnsupportedBitDepth(0)));
}

#[test]
fn sound_data_16_bit() {
    let d = aiff_sound_data(&[1, -1, 32767, -32768], AiffSampleFormat::Pcm16);
    assert_eq!(d, vec![0x00, 0x01, 0xFF, 0xFF, 0x7F, 0xFF, 0x80, 0x00]);
}

#[test]
fn sound_data_24_bit() {
    let d = aiff_sound_data(&[-1, 8_388_607, -8_388_607], AiffSampleFormat::Pcm24);
    let mut expected = Vec::new();
    for v in [-1i32, 8_388_607, -8_388_607] {
        expected.extend_from_slice(&v.to_be_bytes()[1..4]);
    }
    assert_eq!(d, expected);
}

#[test]
fn sound_data_32_bit() {
    let d = aiff_sound_data(&[-2, i32::MAX, i32::MIN], AiffSampleFormat::Pcm32);
    let mut expected = Vec::new();
    for v in [-2i32, i32::MAX, i32::MIN] {
        expected.extend_from_slice(&v.to_be_bytes());
    }
    assert_eq!(d, expected);
}

#[test]
fn form_size_counts_whole_file() {
    let quantized: Vec<i32> = (0..12).map(|i| i * 1000 - 6000).collect();
    for bits in [16u16, 24, 32] {
        let format = aiff_sample_format(bits).unwrap();
        let sizes = aiff_sizes(quantized.len(), 3, bits).unwrap();
        let header = aiff_header(quantized.len(), 44100, 3, bits);
        let data = aiff_sound_data(&quantized, format);
        assert_eq!(header.len() + data.len(), sizes.form_size as usize + 8);
        assert_eq!(data.len() + 8, sizes.ssnd_chunk_size as usize);
        assert_eq!(data.len(), sizes.sound_data_size as usize);
    }
}

#[test]
fn header_reads_back() {
    for (len, rate, ch, bits) in [(10usize, 22050u32, 1u16, 24u16), (600, 96000, 6, 32), (0, 8000, 2, 8)] {
        let h = aiff_header(len, rate, ch, bits);
        let s = aiff_sizes(len, ch, bits).unwrap();
        let be32 = |i: usize| u32::from_be_bytes([h[i], h[i + 1], h[i + 2], h[i + 3]]);
        let be16 = |i: usize| u16::from_be_bytes([h[i], h[i + 1]]);
        assert_eq!(&h[0..4], b"FORM");
        assert_eq!(be32(4), s.form_size);
        assert_eq!(&h[8..12], b"AIFF");
        assert_eq!(&h[12..16], b"COMM");
        assert_eq!(be32(16), 18);
        assert_eq!(be16(20), ch);
        assert_eq!(be32(22), s.num_sample_frames);
        assert_eq!(be16(26), bits);
        assert_eq!(&h[38..42], b"SSND");
        assert_eq!(be32(42), s.ssnd_chunk_size);
        assert_eq!(be32(46), 0);
        assert_eq!(be32(50), 0);
    }
}

#[test]
fn sizes_match_file_only_for_whole_frames() {
    let quantized: Vec<i32> = vec![0; 7];
    let format = aiff_sample_format(16).unwrap();
    let sizes = aiff_sizes(quantized.len(), 2, 16).unwrap();
    let header = aiff_header(quantized.len(), 44100, 2, 16);
    let data = aiff_sound_data(&quantized, format);
    assert_ne!(header.len() + data.len(), sizes.form_size as usize + 8);
    assert_ne!(data.len(), sizes.sound_data_size as usize);
}
