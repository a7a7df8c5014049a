use dj_tool::backend::audio::{chunk_ranges, mono_mixdown_ranges};
use dj_tool::backend::encoder::waveform_layout;
use dj_tool::backend::spectrogram::fft::frame_layout;

#[test]
fn chunks_like_slice_chunks() {
    for len in 0..20usize {
        for size in 1..7usize {
            let data: Vec<usize> = (0..len).collect();
            let expected: Vec<(usize, usize)> = data
                .chunks(size)
                .map(|c| (c[0], c[c.len() - 1] + 1))
                .collect();
            assert_eq!(chunk_ranges(len, size), expected);
        }
    }
}

#[test]
fn chunks_partition_the_range() {
    let r = chunk_ranges(11, 4);
    assert_eq!(r, vec![(0, 4), (4, 8), (8, 11)]);
    assert_eq!(chunk_ranges(0, 3), vec![]);
}

#[test]
fn mono_mixdown_groups_frames() {
    assert_eq!(mono_mixdown_ranges(5, 2), Some(vec![(0, 2), (2, 4), (4, 5)]));
    assert_eq!(mono_mixdown_ranges(6, 3), Some(vec![(0, 3), (3, 6)]));
    assert_eq!(mono_mixdown_ranges(4, 1), None);
    assert_eq!(mono_mixdown_ranges(4, 0), None);
}

#[test]
fn waveform_peaks() {
    let w = waveform_layout(10, 4);
    assert_eq!(w.samples_per_peak, 2);
    assert_eq!(w.peak_ranges, vec![(0, 2), (2, 4), (4, 6), (6, 8), (8, 10)]);
    let w = waveform_layout(3, 5);
    assert_eq!(w.samples_per_peak, 0);
    assert_eq!(w.peak_ranges, vec![(0, 1), (1, 2), (2, 3)]);
    let w = waveform_layout(0, 500);
    assert!(w.peak_ranges.is_empty());
}

#[test]
fn spectrogram_frames() {
    let f = frame_layout(10, 4, 3);
    assert_eq!(f.num_bins, 3);
    assert_eq!(f.frame_starts, vec![0, 3, 6]);
    let f = frame_layout(3, 4, 0);
    assert!(f.frame_starts.is_empty());
    let f = frame_layout(2048, 2048, 1024);
    assert_eq!(f.frame_starts, vec![0]);
    assert_eq!(f.num_bins, 1025);
}

#[test]
fn spectrogram_frames_are_maximal() {
    for n in 0..40usize {
        for fft in 1..9usize {
            for hop in 1..6usize {
                let f = frame_layout(n, fft, hop);
                for &s in &f.frame_starts {
                    assert!(s + fft <= n);
                }
                assert!(f.frame_starts.len() * hop + fft > n);
            }
        }
    }
}
