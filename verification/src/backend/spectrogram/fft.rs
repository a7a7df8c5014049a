//! Short-time Fourier transform framing.
use vstd::prelude::*;

verus! {

/// Number of full windows of `fft_size` samples, `hop_size` apart, that fit
/// in `num_samples` samples.
pub open spec fn num_frames(num_samples: int, fft_size: int, hop_size: int) -> int {
    if num_samples >= fft_size {
        (num_samples - fft_size) / hop_size + 1
    } else {
        0
    }
}

/// Where the spectrogram's windows lie.
pub struct FrameLayout {
    /// Frequency bins kept per frame: `fft_size / 2 + 1`.
    pub num_bins: usize,
    /// First sample of each window, in order.
    pub frame_starts: Vec<usize>,
}

/// The windows of a spectrogram over `num_samples` samples: window `i`
/// starts at `i * hop_size`, and there are as many as fit entirely within
/// the samples; each frame keeps `fft_size / 2 + 1` bins.
pub fn frame_layout(num_samples: usize, fft_size: usize, hop_size: usize) -> (res: FrameLayout)
    requires
        fft_size > 0,
        num_samples >= fft_size ==> hop_size > 0,
    ensures
        res.num_bins == fft_size / 2 + 1,
        res.num_bins <= fft_size,
        res.frame_starts@.len() == num_frames(num_samples as int, fft_size as int, hop_size as int),
        forall|i: int|
            0 <= i < res.frame_starts@.len() ==> #[trigger] res.frame_starts@[i] == i * hop_size,
        forall|i: int|
            0 <= i < res.frame_starts@.len() ==> #[trigger] res.frame_starts@[i] + fft_size
                <= num_samples,
{
    let num_bins = fft_size / 2 + 1;
    let mut frame_starts: Vec<usize> = Vec::new();
    if num_samples < fft_size {
        return FrameLayout { num_bins, frame_starts };
    }
    let last_start = num_samples - fft_size;
    let count = last_start / hop_size + 1;
    let mut i: usize = 0;
    while i < count
        invariant
            hop_size > 0,
            count == last_start / hop_size + 1,
            last_start == num_samples - fft_size,
            i <= count,
            frame_starts@.len() == i,
            forall|k: int| 0 <= k < i ==> #[trigger] frame_starts@[k] == k * hop_size,
            forall|k: int| 0 <= k < i ==> #[trigger] frame_starts@[k] + fft_size <= num_samples,
        decreases count - i,
    {
        assert(i * hop_size <= last_start) by (nonlinear_arith)
            requires
                i < count,
                count == last_start / hop_size + 1,
                hop_size > 0,
        ;
        let start = i * hop_size;
        frame_starts.push(start);
        i = i + 1;
    }
    FrameLayout { num_bins, frame_starts }
}


/// The framing keeps every window that fits and only those: each of the
/// `num_frames` windows ends within the samples, and the window after the
/// last one would not.
pub proof fn lemma_frames_maximal(num_samples: int, fft_size: int, hop_size: int)
    requires
        num_samples >= 0,
        fft_size > 0,
        hop_size > 0,
    ensures
        forall|i: int|
            0 <= i < num_frames(num_samples, fft_size, hop_size) ==> #[trigger] (i * hop_size)
                + fft_size <= num_samples,
        num_frames(num_samples, fft_size, hop_size) * hop_size + fft_size > num_samples,
{
    let c = num_frames(num_samples, fft_size, hop_size);
    if num_samples >= fft_size {
        let last = num_samples - fft_size;
        assert(c * hop_size > last) by (nonlinear_arith)
            requires
                c == last / hop_size + 1,
                hop_size > 0,
                last >= 0,
        ;
        assert forall|i: int| 0 <= i < c implies #[trigger] (i * hop_size) + fft_size
            <= num_samples by {
            assert(i * hop_size <= last) by (nonlinear_arith)
                requires
                    0 <= i < c,
                    c == last / hop_size + 1,
                    hop_size > 0,
            ;
        }
    }
}

} // verus!
