//! Audio streams: output format selection and the layout of a channel mixdown.
pub mod encoder;
pub mod lame;

use vstd::prelude::*;
use crate::text::{path_extension, to_lowercase, chars_equal};

verus! {

/// The number of chunks of `size` items that `len` items split into (the
/// last one may be shorter).
pub open spec fn chunk_count(len: int, size: int) -> int {
    if len <= 0 {
        0
    } else {
        (len - 1) / size + 1
    }
}

/// The half-open range of chunk `k` when `len` items are split into chunks
/// of `size`: from `k * size` up to `(k + 1) * size`, cut off at `len`.
pub open spec fn chunk_range(len: int, size: int, k: int) -> (usize, usize) {
    (
        (k * size) as usize,
        (if (k + 1) * size <= len {
            (k + 1) * size
        } else {
            len
        }) as usize,
    )
}

/// The index ranges of the chunks that `slice::chunks(size)` yields over
/// `len` items, in order.
pub fn chunk_ranges(len: usize, size: usize) -> (res: Vec<(usize, usize)>)
    requires
        size > 0,
    ensures
        res@.len() == chunk_count(len as int, size as int),
        forall|k: int| 0 <= k < res@.len() ==> #[trigger] res@[k] == chunk_range(len as int, size as int, k),
{
    let mut res: Vec<(usize, usize)> = Vec::new();
    let mut start: usize = 0;
    assert(res@.len() * size == 0);
    while start < len
        invariant
            size > 0,
            start <= len,
            start == if res@.len() * size <= len { res@.len() * size } else { len as int },
            res@.len() > 0 ==> (res@.len() - 1) * size < len,
            forall|k: int| 0 <= k < res@.len() ==> #[trigger] res@[k] == chunk_range(len as int, size as int, k),
        decreases len - start,
    {
        let ghost i = res@.len();
        let end = if len - start > size {
            start + size
        } else {
            len
        };
        assert((i + 1) * size == i * size + size) by (nonlinear_arith);
        res.push((start, end));
        start = end;
        assert(res@.len() * size == (i + 1) * size);
    }
    proof {
        let c = res@.len() as int;
        let n = len as int;
        let sz = size as int;
        if n > 0 {
            assert(c > 0);
            assert((c - 1) * sz <= n - 1 && n - 1 < c * sz);
            assert((n - 1) / sz == c - 1) by (nonlinear_arith)
                requires
                    (c - 1) * sz <= n - 1,
                    n - 1 < c * sz,
                    sz > 0,
            ;
        } else {
            assert(c == 0);
        }
    }
    res
}

/// How a stream with `channels` interleaved channels is mixed down to mono:
/// `None` when it has at most one channel (it stays as it is), otherwise the
/// ranges of its consecutive groups of `channels` samples, each of which
/// becomes one mono sample (the last group may be shorter).
pub fn mono_mixdown_ranges(samples_len: usize, channels: u16) -> (res: Option<Vec<(usize, usize)>>)
    ensures
        channels <= 1 ==> res is None,
        channels > 1 ==> (res matches Some(r) && r@.len() == chunk_count(
            samples_len as int,
            channels as int,
        ) && forall|k: int|
            0 <= k < r@.len() ==> #[trigger] r@[k] == chunk_range(
                samples_len as int,
                channels as int,
                k,
            )),
{
    if channels <= 1 {
        return None;
    }
    Some(chunk_ranges(samples_len, channels as usize))
}

/// The container that an audio stream is written in.
#[derive(PartialEq, Eq, Structural, Clone, Copy, Debug)]
pub enum OutputFormat {
    /// MP3 at the given bit rate in kbit/s.
    Mp3 { bitrate_kbps: u32 },
    /// AIFF with the given bits per sample.
    Aiff { bits_per_sample: u16 },
}

/// An output path whose extension names no supported container.
pub struct UnsupportedFormat {
    /// The lowercased extension of the path (empty when it has none).
    pub extension: String,
}

/// The container for a lowercased extension: `mp3` gives MP3 at
/// `bitrate_kbps` (320 when not given), `aiff` and `aif` give AIFF with
/// `bits_per_sample` (16 when not given); any other extension is refused.
pub open spec fn format_for_extension(
    ext: Seq<char>,
    bitrate_kbps: Option<u32>,
    bits_per_sample: Option<u16>,
) -> Option<OutputFormat> {
    if ext == seq!['m', 'p', '3'] {
        Some(
            OutputFormat::Mp3 {
                bitrate_kbps: match bitrate_kbps {
                    Some(b) => b,
                    None => 320,
                },
            },
        )
    } else if ext == seq!['a', 'i', 'f', 'f'] || ext == seq!['a', 'i', 'f'] {
        Some(
            OutputFormat::Aiff {
                bits_per_sample: match bits_per_sample {
                    Some(b) => b,
                    None => 16,
                },
            },
        )
    } else {
        None
    }
}

/// The container choice: `mp3` gives MP3 at the requested bit rate (320 when
/// none is requested), `aiff` and `aif` alike give AIFF with the requested
/// bits per sample (16 when none is requested), and every other extension is
/// refused; the bit depth plays no part for MP3, nor the bit rate for AIFF.
pub proof fn lemma_format_for_extension(
    ext: Seq<char>,
    bitrate_kbps: Option<u32>,
    bits_per_sample: Option<u16>,
)
    ensures
        ext == seq!['m', 'p', '3'] ==> format_for_extension(ext, bitrate_kbps, bits_per_sample)
            == Some(
            OutputFormat::Mp3 {
                bitrate_kbps: if bitrate_kbps is Some {
                    bitrate_kbps->0
                } else {
                    320
                },
            },
        ),
        (ext == seq!['a', 'i', 'f', 'f'] || ext == seq!['a', 'i', 'f']) ==> format_for_extension(
            ext,
            bitrate_kbps,
            bits_per_sample,
        ) == Some(
            OutputFormat::Aiff {
                bits_per_sample: if bits_per_sample is Some {
                    bits_per_sample->0
                } else {
                    16
                },
            },
        ),
        format_for_extension(ext, bitrate_kbps, bits_per_sample) is Some <==> (ext == seq![
            'm',
            'p',
            '3',
        ] || ext == seq!['a', 'i', 'f', 'f'] || ext == seq!['a', 'i', 'f']),
        format_for_extension(seq!['a', 'i', 'f'], bitrate_kbps, bits_per_sample)
            == format_for_extension(seq!['a', 'i', 'f', 'f'], None, bits_per_sample),
        format_for_extension(seq!['m', 'p', '3'], bitrate_kbps, bits_per_sample)
            == format_for_extension(seq!['m', 'p', '3'], bitrate_kbps, None),
{
    assert(seq!['a', 'i', 'f'] != seq!['m', 'p', '3']) by {
        assert(seq!['a', 'i', 'f'][0] != seq!['m', 'p', '3'][0]);
    }
    assert(seq!['a', 'i', 'f', 'f'] != seq!['m', 'p', '3']) by {
        assert(seq!['a', 'i', 'f', 'f'].len() != seq!['m', 'p', '3'].len());
    }
}

/// Chooses the container for an already lowercased extension.
pub fn output_format_for_extension(
    ext: &str,
    bitrate_kbps: Option<u32>,
    bits_per_sample: Option<u16>,
) -> (res: Result<OutputFormat, UnsupportedFormat>)
    ensures
        match format_for_extension(ext@, bitrate_kbps, bits_per_sample) {
            Some(f) => res == Ok::<OutputFormat, UnsupportedFormat>(f),
            None => res matches Err(u) && u.extension@ == ext@,
        },
        (ext@ == seq!['a', 'i', 'f', 'f'] || ext@ == seq!['a', 'i', 'f']) ==> res == Ok::<
            OutputFormat,
            UnsupportedFormat,
        >(
            OutputFormat::Aiff {
                bits_per_sample: if bits_per_sample is Some {
                    bits_per_sample->0
                } else {
                    16
                },
            },
        ),
        ext@ == seq!['m', 'p', '3'] ==> res == Ok::<OutputFormat, UnsupportedFormat>(
            OutputFormat::Mp3 {
                bitrate_kbps: if bitrate_kbps is Some {
                    bitrate_kbps->0
                } else {
                    320
                },
            },
        ),
{
    proof {
        lemma_format_for_extension(ext@, bitrate_kbps, bits_per_sample);
        reveal_strlit("mp3");
        reveal_strlit("aiff");
        reveal_strlit("aif");
        assert("mp3"@ =~= seq!['m', 'p', '3']);
        assert("aiff"@ =~= seq!['a', 'i', 'f', 'f']);
        assert("aif"@ =~= seq!['a', 'i', 'f']);
    }
    if chars_equal(ext, "mp3") {
        let b = match bitrate_kbps {
            Some(b) => b,
            None => 320,
        };
        Ok(OutputFormat::Mp3 { bitrate_kbps: b })
    } else if chars_equal(ext, "aiff") || chars_equal(ext, "aif") {
        let b = match bits_per_sample {
            Some(b) => b,
            None => 16,
        };
        Ok(OutputFormat::Aiff { bits_per_sample: b })
    } else {
        Err(UnsupportedFormat { extension: String::from_str(ext) })
    }
}

/// The extension of `path` that decides its container: the path's extension,
/// or the empty text when it has none.
pub open spec fn extension_or_empty(path: Seq<char>) -> Seq<char> {
    match crate::text::path_extension_spec(path) {
        Some(e) => e,
        None => Seq::empty(),
    }
}

/// Chooses the container that `output_path` is written in, from its
/// extension compared case-insensitively (the extension is lowercased first).
pub fn output_format(
    output_path: &str,
    bitrate_kbps: Option<u32>,
    bits_per_sample: Option<u16>,
) -> (res: Result<OutputFormat, UnsupportedFormat>)
    ensures
        match format_for_extension(
            crate::text::lowercase(extension_or_empty(output_path@)),
            bitrate_kbps,
            bits_per_sample,
        ) {
            Some(f) => res == Ok::<OutputFormat, UnsupportedFormat>(f),
            None => res matches Err(u) && u.extension@ == crate::text::lowercase(
                extension_or_empty(output_path@),
            ),
        },
{
    let ext = match path_extension(output_path) {
        Some(e) => e,
        None => String::new(),
    };
    let lower = to_lowercase(ext.as_str());
    output_format_for_extension(lower.as_str(), bitrate_kbps, bits_per_sample)
}


/// The chunks that `chunk_ranges` describes partition `0..len`: the first
/// starts at 0, each ends where the next starts, the last ends at `len`, and
/// each is non-empty and holds `size` items except possibly the last.
pub proof fn lemma_chunk_ranges_partition(len: usize, size: usize)
    requires
        size > 0,
    ensures
        chunk_count(len as int, size as int) > 0 ==> chunk_range(len as int, size as int, 0).0 == 0,
        chunk_count(len as int, size as int) > 0 ==> chunk_range(len as int, size as int, chunk_count(len as int, size as int) - 1).1 == len,
        forall|k: int|
            0 <= k < chunk_count(len as int, size as int) ==> {
                let r = #[trigger] chunk_range(len as int, size as int, k);
                &&& r.0 < r.1
                &&& r.1 - r.0 <= size
                &&& k + 1 < chunk_count(len as int, size as int) ==> r.1 - r.0 == size
            },
        forall|k: int|
            0 <= k < chunk_count(len as int, size as int) - 1 ==> #[trigger] chunk_range(len as int, size as int, k).1
                == chunk_range(len as int, size as int, k + 1).0,
{
    let c = chunk_count(len as int, size as int);
    if len > 0 {
        assert((c - 1) * size <= len - 1 && len - 1 < c * size) by (nonlinear_arith)
            requires
                c == (len - 1) / (size as int) + 1,
                size > 0,
                len > 0,
        ;
    }
    assert forall|k: int| 0 <= k < c implies {
        let r = #[trigger] chunk_range(len as int, size as int, k);
        &&& r.0 < r.1
        &&& r.1 - r.0 <= size
        &&& k + 1 < c ==> r.1 - r.0 == size
    } by {
        assert(k * size <= (c - 1) * size) by (nonlinear_arith)
            requires
                k <= c - 1,
                size > 0,
        ;
        assert((k + 1) * size == k * size + size) by (nonlinear_arith);
        if k + 1 < c {
            assert((k + 1) * size <= (c - 1) * size) by (nonlinear_arith)
                requires
                    k + 1 <= c - 1,
                    size > 0,
            ;
        }
    }
    assert forall|k: int| 0 <= k < c - 1 implies #[trigger] chunk_range(len as int, size as int, k).1
        == chunk_range(len as int, size as int, k + 1).0 by {
        assert((k + 1) * size <= (c - 1) * size) by (nonlinear_arith)
            requires
                k + 1 <= c - 1,
                size > 0,
        ;
    }
    if c > 0 {
        assert((c - 1 + 1) * size == c * size);
    }
}

} // verus!
