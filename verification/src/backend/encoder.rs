//! Waveform overviews: how a decoded track is divided into the sample ranges
//! whose peaks make up its waveform.
use vstd::prelude::*;
use crate::backend::audio::chunk_ranges;

verus! {

/// The division of a track into peak ranges.
pub struct WaveformLayout {
    /// Samples per peak as the waveform records it (may be 0 for tracks
    /// shorter than the target width).
    pub samples_per_peak: usize,
    /// The sample ranges whose absolute maxima are the peaks, in order.
    pub peak_ranges: Vec<(usize, usize)>,
}

/// The chunk size actually used for `samples_per_peak`: at least 1.
pub open spec fn peak_chunk_size(samples_per_peak: int) -> int {
    if samples_per_peak >= 1 {
        samples_per_peak
    } else {
        1
    }
}

/// The peaks of a waveform `target_width` wide over `num_samples` samples
/// are consecutive ranges covering all samples from the first to the last,
/// each (but the last) exactly `max(num_samples / target_width, 1)` samples
/// long; so when there are at least `target_width` samples, there are
/// between `target_width` and `2 * target_width` peaks.
pub proof fn lemma_waveform_peaks(num_samples: usize, target_width: usize)
    requires
        target_width > 0,
    ensures
        ({
            let per_peak = if num_samples / target_width >= 1 {
                num_samples / target_width
            } else {
                1
            };
            let size = peak_chunk_size((num_samples / target_width) as int);
            let count = crate::backend::audio::chunk_count(num_samples as int, size);
            &&& size == per_peak
            &&& count > 0 ==> crate::backend::audio::chunk_range(num_samples as int, size, 0).0 == 0
            &&& count > 0 ==> crate::backend::audio::chunk_range(num_samples as int, size, count - 1).1
                == num_samples
            &&& forall|k: int|
                0 <= k < count ==> {
                    let r = #[trigger] crate::backend::audio::chunk_range(
                        num_samples as int,
                        size,
                        k,
                    );
                    &&& r.0 < r.1
                    &&& k + 1 < count ==> r.1 - r.0 == per_peak
                    &&& k + 1 < count ==> r.1 == crate::backend::audio::chunk_range(
                        num_samples as int,
                        size,
                        k + 1,
                    ).0
                }
            &&& num_samples >= target_width ==> target_width <= count <= 2 * target_width
        }),
{
    let n = num_samples as int;
    let tw = target_width as int;
    let q = n / tw;
    let size = peak_chunk_size(q);
    crate::backend::audio::lemma_chunk_ranges_partition(num_samples, size as usize);
    let count = crate::backend::audio::chunk_count(n, size);
    if n >= tw {
        assert(q >= 1 && q * tw <= n && n < (q + 1) * tw) by (nonlinear_arith)
            requires
                q == n / tw,
                tw > 0,
                n >= tw,
        ;
        assert(count == (n - 1) / q + 1);
        assert(tw <= count && count <= 2 * tw) by (nonlinear_arith)
            requires
                count == (n - 1) / q + 1,
                q >= 1,
                q * tw <= n,
                n < (q + 1) * tw,
                tw > 0,
        ;
    }
}

/// Divides `num_samples` samples for a waveform `target_width` peaks wide:
/// `num_samples / target_width` samples per peak, and the consecutive chunks
/// of that many samples (of one sample when that is 0), the last possibly
/// shorter.
pub fn waveform_layout(num_samples: usize, target_width: usize) -> (res: WaveformLayout)
    requires
        target_width > 0,
    ensures
        res.samples_per_peak == num_samples / target_width,
        res.peak_ranges@.len() == crate::backend::audio::chunk_count(
            num_samples as int,
            peak_chunk_size(res.samples_per_peak as int),
        ),
        forall|k: int|
            0 <= k < res.peak_ranges@.len() ==> #[trigger] res.peak_ranges@[k] == crate::backend::audio::chunk_range(
                num_samples as int,
                peak_chunk_size(res.samples_per_peak as int),
                k,
            ),
        res.peak_ranges@.len() > 0 ==> res.peak_ranges@[0].0 == 0,
        res.peak_ranges@.len() > 0 ==> res.peak_ranges@[res.peak_ranges@.len() - 1].1
            == num_samples,
        forall|k: int|
            0 <= k < res.peak_ranges@.len() - 1 ==> #[trigger] res.peak_ranges@[k].1
                - res.peak_ranges@[k].0 == (if num_samples / target_width >= 1 {
                num_samples / target_width
            } else {
                1
            }) && res.peak_ranges@[k].1 == res.peak_ranges@[k + 1].0,
        num_samples >= target_width ==> target_width <= res.peak_ranges@.len() <= 2
            * target_width,
{
    proof {
        lemma_waveform_peaks(num_samples, target_width);
    }
    let samples_per_peak = num_samples / target_width;
    let size = if samples_per_peak >= 1 {
        samples_per_peak
    } else {
        1
    };
    WaveformLayout { samples_per_peak, peak_ranges: chunk_ranges(num_samples, size) }
}

} // verus!
