//! Audio file encoders: the AIFF container layout, and MP3 encoding through LAME.
use vstd::prelude::*;
use super::lame;

verus! {

/// `256^n`.
pub open spec fn pow256(n: nat) -> nat
    decreases n,
{
    if n == 0 {
        1
    } else {
        256 * pow256((n - 1) as nat)
    }
}

/// The big-endian encoding of `v` in `n` bytes: the last byte is `v mod 256`,
/// the bytes before it encode `v / 256`. For a negative `v` this is its
/// two's-complement form, as `to_be_bytes` lays it out.
pub open spec fn be_bytes(v: int, n: nat) -> Seq<u8>
    decreases n,
{
    if n == 0 {
        Seq::empty()
    } else {
        be_bytes(v / 256, (n - 1) as nat).push((v % 256) as u8)
    }
}

/// The number that the big-endian bytes `b` encode.
pub open spec fn be_value(b: Seq<u8>) -> int
    decreases b.len(),
{
    if b.len() == 0 {
        0
    } else {
        be_value(b.drop_last()) * 256 + b.last()
    }
}

pub proof fn lemma_be_bytes_len(v: int, n: nat)
    ensures
        be_bytes(v, n).len() == n,
    decreases n,
{
    if n > 0 {
        lemma_be_bytes_len(v / 256, (n - 1) as nat);
    }
}

/// Adding a multiple of `256^n` leaves the last `n` bytes unchanged.
pub proof fn lemma_be_bytes_shift(v: int, n: nat, m: int)
    ensures
        be_bytes(v + m * pow256(n), n) == be_bytes(v, n),
    decreases n,
{
    if n > 0 {
        let x = m * pow256((n - 1) as nat);
        assert(m * pow256(n) == 256 * x) by (nonlinear_arith)
            requires
                pow256(n) == 256 * pow256((n - 1) as nat),
                x == m * pow256((n - 1) as nat),
        ;
        assert((v + 256 * x) / 256 == v / 256 + x);
        assert((v + 256 * x) % 256 == v % 256);
        lemma_be_bytes_shift(v / 256, (n - 1) as nat, m);
    }
}

/// Decoding the big-endian bytes of `v` gives `v` back, for `0 <= v < 256^n`.
pub proof fn lemma_be_bytes_value(v: int, n: nat)
    requires
        0 <= v < pow256(n),
    ensures
        be_value(be_bytes(v, n)) == v,
    decreases n,
{
    if n > 0 {
        assert(v / 256 < pow256((n - 1) as nat));
        lemma_be_bytes_value(v / 256, (n - 1) as nat);
        let b = be_bytes(v, n);
        assert(b.drop_last() =~= be_bytes(v / 256, (n - 1) as nat));
    }
}

/// Appends the `n` low bytes of `v` to `out`, most significant first.
fn push_be(out: &mut Vec<u8>, v: u64, n: usize)
    requires
        n <= 8,
    ensures
        final(out)@ == old(out)@ + be_bytes(v as int, n as nat),
{
    let mut bytes: Vec<u8> = Vec::new();
    let mut w: u64 = v;
    let mut i: usize = 0;
    while i < n
        invariant
            i <= n <= 8,
            be_bytes(v as int, n as nat) == be_bytes(w as int, (n - i) as nat) + bytes@,
        decreases n - i,
    {
        let ghost rest = be_bytes(w as int / 256, (n - i - 1) as nat);
        assert(be_bytes(w as int, (n - i) as nat) == rest.push((w % 256) as u8));
        let ghost prev = bytes@;
        bytes.insert(0, (w % 256) as u8);
        assert(rest.push((w % 256) as u8) + prev =~= rest + bytes@);
        w = w / 256;
        i = i + 1;
    }
    assert(be_bytes(w as int, 0) + bytes@ =~= bytes@);
    out.append(&mut bytes);
}

/// `floor(log2(n))` for `n >= 1` (and 0 for `n == 0`).
pub open spec fn floor_log2(n: nat) -> nat
    decreases n,
{
    if n < 2 {
        0
    } else {
        1 + floor_log2(n / 2)
    }
}

/// The 80-bit IEEE 754 extended-precision encoding of the whole number `rate`,
/// big-endian, as the AIFF `COMM` chunk stores the sample rate: all zeros for
/// 0; otherwise the biased exponent `16383 + e` in 2 bytes, where
/// `e = floor(log2(rate))`, followed by the 64-bit mantissa `rate * 2^(63 - e)`,
/// whose top bit is the explicit integer bit.
pub open spec fn extended_bytes(rate: nat) -> Seq<u8> {
    if rate == 0 {
        Seq::new(10, |i: int| 0u8)
    } else {
        let e = floor_log2(rate);
        be_bytes((16383 + e) as int, 2) + be_bytes(
            (rate * vstd::arithmetic::power2::pow2((63 - e) as nat)) as int,
            8,
        )
    }
}

pub proof fn lemma_floor_log2_bounds(n: nat)
    requires
        n >= 1,
    ensures
        vstd::arithmetic::power2::pow2(floor_log2(n)) <= n,
        n < vstd::arithmetic::power2::pow2(floor_log2(n) + 1),
    decreases n,
{
    vstd::arithmetic::power2::lemma2_to64();
    if n >= 2 {
        lemma_floor_log2_bounds(n / 2);
        vstd::arithmetic::power2::lemma_pow2_unfold(floor_log2(n));
        vstd::arithmetic::power2::lemma_pow2_unfold(floor_log2(n) + 1);
    }
}

proof fn lemma_be_bytes_zero(n: nat)
    ensures
        be_bytes(0, n) =~= Seq::new(n, |i: int| 0u8),
    decreases n,
{
    if n > 0 {
        lemma_be_bytes_zero((n - 1) as nat);
    }
}

/// The extended-precision encoding of a sample rate has exponent and
/// mantissa fields that denote exactly that rate: the sign bit is clear, the
/// mantissa is normalized (`2^63 <= m < 2^64`), and
/// `m * 2^(exponent - 16383 - 63) == rate`.
pub proof fn lemma_extended_denotes_rate(rate: nat)
    requires
        0 < rate <= u32::MAX,
    ensures
        ({
            let b = extended_bytes(rate);
            let exp = be_value(b.subrange(0, 2));
            let mant = be_value(b.subrange(2, 10));
            &&& b.len() == 10
            &&& 16383 <= exp < 32768
            &&& vstd::arithmetic::power2::pow2(63) <= mant < vstd::arithmetic::power2::pow2(64)
            &&& mant == rate * vstd::arithmetic::power2::pow2((63 - (exp - 16383)) as nat)
        }),
{
    let e = floor_log2(rate);
    lemma_floor_log2_bounds(rate);
    vstd::arithmetic::power2::lemma2_to64();
    vstd::arithmetic::power2::lemma2_to64_rest();
    if e > 32 {
        vstd::arithmetic::power2::lemma_pow2_strictly_increases(32, e);
    }
    assert(e <= 31);
    let k = (63 - e) as nat;
    let mant = rate * vstd::arithmetic::power2::pow2(k);
    vstd::arithmetic::power2::lemma_pow2_adds(e, k);
    vstd::arithmetic::power2::lemma_pow2_adds(e + 1, k);
    assert(vstd::arithmetic::power2::pow2(e) * vstd::arithmetic::power2::pow2(k) <= mant) by (
    nonlinear_arith)
        requires
            vstd::arithmetic::power2::pow2(e) <= rate,
            mant == rate * vstd::arithmetic::power2::pow2(k),
    ;
    assert(mant < vstd::arithmetic::power2::pow2(e + 1) * vstd::arithmetic::power2::pow2(k))
        by (nonlinear_arith)
        requires
            rate < vstd::arithmetic::power2::pow2(e + 1),
            mant == rate * vstd::arithmetic::power2::pow2(k),
            vstd::arithmetic::power2::pow2(k) > 0,
    ;
    reveal_with_fuel(pow256, 9);
    lemma_be_bytes_len((16383 + e) as int, 2);
    lemma_be_bytes_len(mant as int, 8);
    lemma_be_bytes_value((16383 + e) as int, 2);
    lemma_be_bytes_value(mant as int, 8);
    let b = extended_bytes(rate);
    assert(b.subrange(0, 2) =~= be_bytes((16383 + e) as int, 2));
    assert(b.subrange(2, 10) =~= be_bytes(mant as int, 8));
}

/// Appends the 80-bit extended-precision encoding of `rate` to `out`.
fn push_extended(out: &mut Vec<u8>, rate: u32)
    ensures
        final(out)@ == old(out)@ + extended_bytes(rate as nat),
{
    if rate == 0 {
        push_be(out, 0, 2);
        push_be(out, 0, 8);
        proof {
            lemma_be_bytes_zero(2);
            lemma_be_bytes_zero(8);
            assert(be_bytes(0, 2) + be_bytes(0, 8) =~= extended_bytes(0));
        }
        return;
    }
    let ghost e_spec = floor_log2(rate as nat);
    proof {
        lemma_floor_log2_bounds(rate as nat);
        vstd::arithmetic::power2::lemma2_to64();
        vstd::arithmetic::power2::lemma2_to64_rest();
        if e_spec > 32 {
            vstd::arithmetic::power2::lemma_pow2_strictly_increases(32, e_spec);
        }
        assert(e_spec <= 31);
    }
    let mut t: u32 = rate;
    let mut e: u64 = 0;
    while t >= 2
        invariant
            t >= 1,
            e + floor_log2(t as nat) == e_spec,
            e_spec <= 31,
        decreases t,
    {
        t = t / 2;
        e = e + 1;
    }
    assert(floor_log2(t as nat) == 0);
    let mut m: u64 = rate as u64;
    let mut k: u64 = e;
    assert(vstd::arithmetic::power2::pow2(0) == 1);
    assert((k - e) as nat == 0nat);
    assert(m == rate * vstd::arithmetic::power2::pow2((k - e) as nat));
    while k < 63
        invariant
            e == e_spec,
            e_spec <= 31,
            e <= k <= 63,
            m == rate * vstd::arithmetic::power2::pow2((k - e) as nat),
            m < vstd::arithmetic::power2::pow2((k + 1) as nat),
            vstd::arithmetic::power2::pow2(63) == 0x8000_0000_0000_0000,
            rate < vstd::arithmetic::power2::pow2(e_spec + 1),
        decreases 63 - k,
    {
        proof {
            if k + 1 < 63 {
                vstd::arithmetic::power2::lemma_pow2_strictly_increases((k + 1) as nat, 63);
            }
            vstd::arithmetic::power2::lemma_pow2_unfold((k + 1 - e) as nat);
            vstd::arithmetic::power2::lemma_pow2_unfold((k + 2) as nat);
            assert(rate * vstd::arithmetic::power2::pow2((k + 1 - e) as nat) == 2 * (rate
                * vstd::arithmetic::power2::pow2((k - e) as nat))) by (nonlinear_arith)
                requires
                    vstd::arithmetic::power2::pow2((k + 1 - e) as nat) == 2
                        * vstd::arithmetic::power2::pow2((k - e) as nat),
            ;
        }
        m = m * 2;
        k = k + 1;
    }
    push_be(out, 16383 + e, 2);
    push_be(out, m, 8);
    proof {
        assert(old(out)@ + be_bytes((16383 + e) as int, 2) + be_bytes(m as int, 8) =~= old(out)@ + (
        be_bytes((16383 + e) as int, 2) + be_bytes(m as int, 8)));
    }
}

/// The sizes that an AIFF file's header records.
pub struct AiffSizes {
    /// Number of sample frames (one sample per channel each).
    pub num_sample_frames: u32,
    /// Bytes of sample data in the `SSND` chunk.
    pub sound_data_size: u32,
    /// Size of the `SSND` chunk after its 8-byte chunk header.
    pub ssnd_chunk_size: u32,
    /// Size of the `FORM` chunk after its 8-byte chunk header.
    pub form_size: u32,
}

/// The sizes of an AIFF file holding `samples_len` interleaved samples of
/// `channels` channels at `bits_per_sample` bits, or `None` where they cannot
/// be computed: with no channel, or where a size overflows 32 bits. The
/// sample count is taken modulo 2^32 and the frame count is rounded down.
pub open spec fn aiff_sizes_spec(samples_len: int, channels: int, bits_per_sample: int) -> Option<
    AiffSizes,
> {
    if channels == 0 {
        None
    } else {
        let frames = (samples_len % 0x1_0000_0000) / channels;
        let sound = frames * channels * (bits_per_sample / 8);
        if sound + 46 > u32::MAX {
            None
        } else {
            Some(
                AiffSizes {
                    num_sample_frames: frames as u32,
                    sound_data_size: sound as u32,
                    ssnd_chunk_size: (sound + 8) as u32,
                    form_size: (sound + 46) as u32,
                },
            )
        }
    }
}

/// The sizes an AIFF header records describe its samples: the frame count
/// is the sample count (modulo 2^32) divided by the channel count, rounded
/// down; the sound data is those frames' samples at `bits_per_sample / 8`
/// bytes each; the `SSND` chunk adds 8 bytes of offset and block size, and
/// the `FORM` chunk adds its 4-byte type, the 26-byte `COMM` chunk and the
/// 8-byte `SSND` chunk header. Sizes exist exactly when there is a channel
/// and they fit in 32 bits.
pub proof fn lemma_aiff_sizes_describe_samples(
    samples_len: int,
    channels: int,
    bits_per_sample: int,
)
    requires
        samples_len >= 0,
        channels >= 0,
        bits_per_sample >= 0,
    ensures
        aiff_sizes_spec(samples_len, channels, bits_per_sample) matches Some(s) ==> {
            &&& channels > 0
            &&& s.num_sample_frames * channels <= samples_len % 0x1_0000_0000
            &&& samples_len % 0x1_0000_0000 < (s.num_sample_frames + 1) * channels
            &&& s.sound_data_size == s.num_sample_frames * channels * (bits_per_sample / 8)
            &&& s.ssnd_chunk_size == s.sound_data_size + 8
            &&& s.form_size == s.sound_data_size + 46
        },
        aiff_sizes_spec(samples_len, channels, bits_per_sample) is None <==> (channels == 0 || (
        samples_len % 0x1_0000_0000) / channels * channels * (bits_per_sample / 8) + 46
            > u32::MAX),
{
    if channels > 0 {
        let t = samples_len % 0x1_0000_0000;
        let f = t / channels;
        assert(f * channels <= t && t < (f + 1) * channels) by (nonlinear_arith)
            requires
                f == t / channels,
                channels > 0,
                t >= 0,
        ;
        assert(0 <= f <= t);
        assert(f * channels * (bits_per_sample / 8) >= 0) by (nonlinear_arith)
            requires
                f >= 0,
                channels > 0,
                bits_per_sample / 8 >= 0,
        ;
    }
}

/// Computes the sizes that the AIFF header records.
pub fn aiff_sizes(samples_len: usize, channels: u16, bits_per_sample: u16) -> (res: Option<
    AiffSizes,
>)
    ensures
        res == aiff_sizes_spec(samples_len as int, channels as int, bits_per_sample as int),
        res matches Some(s) ==> {
            &&& channels > 0
            &&& s.num_sample_frames * channels <= (samples_len as int) % 0x1_0000_0000
            &&& (samples_len as int) % 0x1_0000_0000 < (s.num_sample_frames + 1) * channels
            &&& s.sound_data_size == s.num_sample_frames * channels * (bits_per_sample / 8)
            &&& s.ssnd_chunk_size == s.sound_data_size + 8
            &&& s.form_size == s.sound_data_size + 46
        },
{
    proof {
        lemma_aiff_sizes_describe_samples(
            samples_len as int,
            channels as int,
            bits_per_sample as int,
        );
    }
    if channels == 0 {
        return None;
    }
    let truncated: u32 = (samples_len as u64 % 0x1_0000_0000) as u32;
    let ch: u32 = channels as u32;
    let frames: u32 = truncated / ch;
    let bytes_per_sample: u32 = (bits_per_sample / 8) as u32;
    assert(frames * ch <= truncated) by (nonlinear_arith)
        requires
            frames == truncated / ch,
            ch > 0,
    ;
    let samples_in_frames: u32 = frames * ch;
    let sound = match samples_in_frames.checked_mul(bytes_per_sample) {
        Some(v) => v,
        None => return None,
    };
    if sound > u32::MAX - 46 {
        return None;
    }
    Some(
        AiffSizes {
            num_sample_frames: frames,
            sound_data_size: sound,
            ssnd_chunk_size: 8 + sound,
            form_size: 4 + (8 + 18) + (8 + (8 + sound)),
        },
    )
}

/// The four ASCII bytes of a chunk identifier.
pub open spec fn chunk_id(a: char, b: char, c: char, d: char) -> Seq<u8> {
    seq![a as u8, b as u8, c as u8, d as u8]
}

/// The AIFF header: the `FORM` chunk header with form type `AIFF`, the
/// 18-byte `COMM` chunk (channels, sample frames, sample size, sample rate as
/// an 80-bit extended float) and the `SSND` chunk header with zero offset and
/// zero block size, all numbers big-endian.
pub open spec fn aiff_header_spec(
    sizes: AiffSizes,
    sample_rate: u32,
    channels: u16,
    bits_per_sample: u16,
) -> Seq<u8> {
    chunk_id('F', 'O', 'R', 'M') + be_bytes(sizes.form_size as int, 4) + chunk_id(
        'A',
        'I',
        'F',
        'F',
    ) + chunk_id('C', 'O', 'M', 'M') + be_bytes(18, 4) + be_bytes(channels as int, 2) + be_bytes(
        sizes.num_sample_frames as int,
        4,
    ) + be_bytes(bits_per_sample as int, 2) + extended_bytes(sample_rate as nat) + chunk_id(
        'S',
        'S',
        'N',
        'D',
    ) + be_bytes(sizes.ssnd_chunk_size as int, 4) + be_bytes(0, 4) + be_bytes(0, 4)
}

fn push_chunk_id(out: &mut Vec<u8>, a: char, b: char, c: char, d: char)
    requires
        a <= '\u{7f}',
        b <= '\u{7f}',
        c <= '\u{7f}',
        d <= '\u{7f}',
    ensures
        final(out)@ == old(out)@ + chunk_id(a, b, c, d),
{
    out.push(a as u8);
    out.push(b as u8);
    out.push(c as u8);
    out.push(d as u8);
    assert(out@ =~= old(out)@ + chunk_id(a, b, c, d));
}

/// The AIFF header for `samples_len` interleaved samples of `channels`
/// channels. There must be at least one channel and the sizes must fit in 32
/// bits (`aiff_sizes` tells whether they do).
pub fn aiff_header(samples_len: usize, sample_rate: u32, channels: u16, bits_per_sample: u16) -> (res:
    Vec<u8>)
    requires
        channels >= 1,
        aiff_sizes_spec(samples_len as int, channels as int, bits_per_sample as int) is Some,
    ensures
        res@ == aiff_header_spec(
            aiff_sizes_spec(samples_len as int, channels as int, bits_per_sample as int).unwrap(),
            sample_rate,
            channels,
            bits_per_sample,
        ),
{
    let sizes = match aiff_sizes(samples_len, channels, bits_per_sample) {
        Some(s) => s,
        None => {
            proof {
                assert(false);
            }
            return Vec::new();
        },
    };
    let mut out: Vec<u8> = Vec::new();
    push_chunk_id(&mut out, 'F', 'O', 'R', 'M');
    push_be(&mut out, sizes.form_size as u64, 4);
    push_chunk_id(&mut out, 'A', 'I', 'F', 'F');
    push_chunk_id(&mut out, 'C', 'O', 'M', 'M');
    push_be(&mut out, 18, 4);
    push_be(&mut out, channels as u64, 2);
    push_be(&mut out, sizes.num_sample_frames as u64, 4);
    push_be(&mut out, bits_per_sample as u64, 2);
    push_extended(&mut out, sample_rate);
    push_chunk_id(&mut out, 'S', 'S', 'N', 'D');
    push_be(&mut out, sizes.ssnd_chunk_size as u64, 4);
    push_be(&mut out, 0, 4);
    push_be(&mut out, 0, 4);
    assert(out@ =~= aiff_header_spec(sizes, sample_rate, channels, bits_per_sample));
    out
}

/// Reading the header back gives what was written: the `FORM`, `AIFF`,
/// `COMM` and `SSND` identifiers at their places, and at theirs the `FORM`
/// size, the `COMM` size 18, the channel count, the frame count, the bits
/// per sample, the sample rate's extended encoding and the `SSND` size.
pub proof fn lemma_aiff_header_fields(
    sizes: AiffSizes,
    sample_rate: u32,
    channels: u16,
    bits_per_sample: u16,
)
    ensures
        ({
            let h = aiff_header_spec(sizes, sample_rate, channels, bits_per_sample);
            &&& h.subrange(0, 4) == chunk_id('F', 'O', 'R', 'M')
            &&& be_value(h.subrange(4, 8)) == sizes.form_size
            &&& h.subrange(8, 12) == chunk_id('A', 'I', 'F', 'F')
            &&& h.subrange(12, 16) == chunk_id('C', 'O', 'M', 'M')
            &&& be_value(h.subrange(16, 20)) == 18
            &&& be_value(h.subrange(20, 22)) == channels
            &&& be_value(h.subrange(22, 26)) == sizes.num_sample_frames
            &&& be_value(h.subrange(26, 28)) == bits_per_sample
            &&& h.subrange(28, 38) == extended_bytes(sample_rate as nat)
            &&& h.subrange(38, 42) == chunk_id('S', 'S', 'N', 'D')
            &&& be_value(h.subrange(42, 46)) == sizes.ssnd_chunk_size
            &&& be_value(h.subrange(46, 50)) == 0
            &&& be_value(h.subrange(50, 54)) == 0
        }),
{
    lemma_aiff_header_len(sizes, sample_rate, channels, bits_per_sample);
    reveal_with_fuel(pow256, 5);
    lemma_be_bytes_len(sizes.form_size as int, 4);
    lemma_be_bytes_len(18, 4);
    lemma_be_bytes_len(channels as int, 2);
    lemma_be_bytes_len(sizes.num_sample_frames as int, 4);
    lemma_be_bytes_len(bits_per_sample as int, 2);
    lemma_be_bytes_len(sizes.ssnd_chunk_size as int, 4);
    lemma_be_bytes_len(0, 4);
    lemma_be_bytes_value(sizes.form_size as int, 4);
    lemma_be_bytes_value(18, 4);
    lemma_be_bytes_value(channels as int, 2);
    lemma_be_bytes_value(sizes.num_sample_frames as int, 4);
    lemma_be_bytes_value(bits_per_sample as int, 2);
    lemma_be_bytes_value(sizes.ssnd_chunk_size as int, 4);
    lemma_be_bytes_value(0, 4);
    let ext = extended_bytes(sample_rate as nat);
    assert(ext.len() == 10) by {
        if sample_rate > 0 {
            let e = floor_log2(sample_rate as nat);
            lemma_be_bytes_len((16383 + e) as int, 2);
            lemma_be_bytes_len(
                (sample_rate * vstd::arithmetic::power2::pow2((63 - e) as nat)) as int,
                8,
            );
        }
    }
    let h = aiff_header_spec(sizes, sample_rate, channels, bits_per_sample);
    assert(h.subrange(0, 4) =~= chunk_id('F', 'O', 'R', 'M'));
    assert(h.subrange(4, 8) =~= be_bytes(sizes.form_size as int, 4));
    assert(h.subrange(8, 12) =~= chunk_id('A', 'I', 'F', 'F'));
    assert(h.subrange(12, 16) =~= chunk_id('C', 'O', 'M', 'M'));
    assert(h.subrange(16, 20) =~= be_bytes(18, 4));
    assert(h.subrange(20, 22) =~= be_bytes(channels as int, 2));
    assert(h.subrange(22, 26) =~= be_bytes(sizes.num_sample_frames as int, 4));
    assert(h.subrange(26, 28) =~= be_bytes(bits_per_sample as int, 2));
    assert(h.subrange(28, 38) =~= ext);
    assert(h.subrange(38, 42) =~= chunk_id('S', 'S', 'N', 'D'));
    assert(h.subrange(42, 46) =~= be_bytes(sizes.ssnd_chunk_size as int, 4));
    assert(h.subrange(46, 50) =~= be_bytes(0, 4));
    assert(h.subrange(50, 54) =~= be_bytes(0, 4));
}

/// The sample encodings that the AIFF writer supports.
#[derive(PartialEq, Eq, Structural, Clone, Copy, Debug)]
pub enum AiffSampleFormat {
    /// 16-bit big-endian samples.
    Pcm16,
    /// 24-bit big-endian samples.
    Pcm24,
    /// 32-bit big-endian samples.
    Pcm32,
}

/// Why AIFF sample data could not be written.
#[derive(PartialEq, Eq, Structural, Clone, Copy, Debug)]
pub enum AiffError {
    /// The requested bits per sample is not 16, 24 or 32.
    UnsupportedBitDepth(u16),
}

/// Bytes that one sample takes in the format.
pub open spec fn bytes_per_sample(format: AiffSampleFormat) -> nat {
    match format {
        AiffSampleFormat::Pcm16 => 2,
        AiffSampleFormat::Pcm24 => 3,
        AiffSampleFormat::Pcm32 => 4,
    }
}

/// The sample format for a bit depth.
pub open spec fn aiff_sample_format_spec(bits_per_sample: u16) -> Result<
    AiffSampleFormat,
    AiffError,
> {
    if bits_per_sample == 16 {
        Ok(AiffSampleFormat::Pcm16)
    } else if bits_per_sample == 24 {
        Ok(AiffSampleFormat::Pcm24)
    } else if bits_per_sample == 32 {
        Ok(AiffSampleFormat::Pcm32)
    } else {
        Err(AiffError::UnsupportedBitDepth(bits_per_sample))
    }
}

/// Chooses the sample encoding for `bits_per_sample`: 16, 24 and 32 bits are
/// supported, any other depth is refused.
pub fn aiff_sample_format(bits_per_sample: u16) -> (res: Result<AiffSampleFormat, AiffError>)
    ensures
        res == aiff_sample_format_spec(bits_per_sample),
{
    if bits_per_sample == 16 {
        Ok(AiffSampleFormat::Pcm16)
    } else if bits_per_sample == 24 {
        Ok(AiffSampleFormat::Pcm24)
    } else if bits_per_sample == 32 {
        Ok(AiffSampleFormat::Pcm32)
    } else {
        Err(AiffError::UnsupportedBitDepth(bits_per_sample))
    }
}

/// The bytes of one quantized sample: the big-endian two's-complement form
/// of its low 16 bits, of the last three bytes of its 32-bit form, or of its
/// 32-bit form.
pub open spec fn sample_bytes(format: AiffSampleFormat, q: i32) -> Seq<u8> {
    match format {
        AiffSampleFormat::Pcm16 => be_bytes(q as int, 2),
        AiffSampleFormat::Pcm24 => be_bytes(q as int, 4).subrange(1, 4),
        AiffSampleFormat::Pcm32 => be_bytes(q as int, 4),
    }
}

/// The `SSND` sample data: the bytes of each quantized sample, in order.
pub open spec fn sound_data_spec(format: AiffSampleFormat, qs: Seq<i32>) -> Seq<u8>
    decreases qs.len(),
{
    if qs.len() == 0 {
        Seq::empty()
    } else {
        sound_data_spec(format, qs.drop_last()) + sample_bytes(format, qs.last())
    }
}

pub proof fn lemma_sound_data_len(format: AiffSampleFormat, qs: Seq<i32>)
    ensures
        sound_data_spec(format, qs).len() == qs.len() * bytes_per_sample(format),
    decreases qs.len(),
{
    if qs.len() > 0 {
        lemma_sound_data_len(format, qs.drop_last());
        lemma_be_bytes_len(qs.last() as int, 2);
        lemma_be_bytes_len(qs.last() as int, 4);
        assert((qs.len() - 1) * bytes_per_sample(format) + bytes_per_sample(format) == qs.len()
            * bytes_per_sample(format)) by (nonlinear_arith);
    }
}

fn push_sample(out: &mut Vec<u8>, format: AiffSampleFormat, q: i32)
    ensures
        final(out)@ == old(out)@ + sample_bytes(format, q),
{
    let u: u64 = if q < 0 {
        (q as i64 + 0x1_0000_0000) as u64
    } else {
        q as u64
    };
    proof {
        reveal_with_fuel(pow256, 5);
        if q < 0 {
            lemma_be_bytes_shift(q as int, 4, 1);
            lemma_be_bytes_shift(q as int, 2, 65536);
        }
    }
    match format {
        AiffSampleFormat::Pcm16 => {
            push_be(out, u, 2);
        },
        AiffSampleFormat::Pcm24 => {
            let mut four: Vec<u8> = Vec::new();
            push_be(&mut four, u, 4);
            proof {
                lemma_be_bytes_len(u as int, 4);
            }
            out.push(four[1]);
            out.push(four[2]);
            out.push(four[3]);
            assert(out@ =~= old(out)@ + be_bytes(u as int, 4).subrange(1, 4));
        },
        AiffSampleFormat::Pcm32 => {
            push_be(out, u, 4);
        },
    }
}

/// The `SSND` sample data for samples already quantized to the format's range.
pub fn aiff_sound_data(quantized: &[i32], format: AiffSampleFormat) -> (res: Vec<u8>)
    ensures
        res@ == sound_data_spec(format, quantized@),
        res@.len() == quantized@.len() * bytes_per_sample(format),
{
    let mut out: Vec<u8> = Vec::new();
    let n = quantized.len();
    let mut i: usize = 0;
    while i < n
        invariant
            i <= n == quantized@.len(),
            out@ == sound_data_spec(format, quantized@.subrange(0, i as int)),
        decreases n - i,
    {
        proof {
            let next = quantized@.subrange(0, i + 1);
            assert(next.drop_last() =~= quantized@.subrange(0, i as int));
            assert(next.last() == quantized@[i as int]);
        }
        push_sample(&mut out, format, quantized[i]);
        i = i + 1;
    }
    proof {
        assert(quantized@.subrange(0, n as int) =~= quantized@);
        lemma_sound_data_len(format, quantized@);
    }
    out
}

pub proof fn lemma_aiff_header_len(
    sizes: AiffSizes,
    sample_rate: u32,
    channels: u16,
    bits_per_sample: u16,
)
    ensures
        aiff_header_spec(sizes, sample_rate, channels, bits_per_sample).len() == 54,
{
    lemma_be_bytes_len(sizes.form_size as int, 4);
    lemma_be_bytes_len(18, 4);
    lemma_be_bytes_len(channels as int, 2);
    lemma_be_bytes_len(sizes.num_sample_frames as int, 4);
    lemma_be_bytes_len(bits_per_sample as int, 2);
    lemma_be_bytes_len(sizes.ssnd_chunk_size as int, 4);
    lemma_be_bytes_len(0, 4);
    if sample_rate > 0 {
        let e = floor_log2(sample_rate as nat);
        lemma_be_bytes_len((16383 + e) as int, 2);
        lemma_be_bytes_len(
            (sample_rate * vstd::arithmetic::power2::pow2((63 - e) as nat)) as int,
            8,
        );
    }
}

/// The sizes that the header records match the file exactly when the sample
/// count is a whole number of frames below 2^32 (for a supported bit depth):
/// then, and only then, the `FORM` size is the length of the whole file
/// minus its 8-byte chunk header, the `SSND` size is the sample data plus its
/// 8 bytes of offset and block size, and the sound data size is the length
/// of the sample data.
pub proof fn lemma_aiff_sizes_match_file(
    quantized: Seq<i32>,
    sample_rate: u32,
    channels: u16,
    bits_per_sample: u16,
)
    requires
        channels > 0,
        aiff_sample_format_spec(bits_per_sample) is Ok,
        aiff_sizes_spec(quantized.len() as int, channels as int, bits_per_sample as int) is Some,
    ensures
        ({
            let sizes = aiff_sizes_spec(
                quantized.len() as int,
                channels as int,
                bits_per_sample as int,
            ).unwrap();
            let format = aiff_sample_format_spec(bits_per_sample)->Ok_0;
            let header = aiff_header_spec(sizes, sample_rate, channels, bits_per_sample);
            let data = sound_data_spec(format, quantized);
            let whole_frames = quantized.len() < 0x1_0000_0000 && (quantized.len() as int) % (
            channels as int) == 0;
            &&& (header.len() + data.len() == sizes.form_size + 8) <==> whole_frames
            &&& (data.len() + 8 == sizes.ssnd_chunk_size) <==> whole_frames
            &&& (data.len() == sizes.sound_data_size) <==> whole_frames
        }),
{
    let n = quantized.len() as int;
    let ch = channels as int;
    let sizes = aiff_sizes_spec(n, ch, bits_per_sample as int).unwrap();
    let format = aiff_sample_format_spec(bits_per_sample)->Ok_0;
    lemma_aiff_header_len(sizes, sample_rate, channels, bits_per_sample);
    lemma_sound_data_len(format, quantized);
    let bps = bytes_per_sample(format) as int;
    assert(bits_per_sample / 8 == bps);
    let t = n % 0x1_0000_0000;
    let kept = (t / ch) * ch;
    assert(kept == t - t % ch && 0 <= t % ch < ch) by (nonlinear_arith)
        requires
            ch > 0,
            kept == (t / ch) * ch,
    ;
    assert(0 <= t <= n);
    assert(t == n <==> n < 0x1_0000_0000);
    assert(sizes.sound_data_size == kept * bps) by (nonlinear_arith)
        requires
            sizes.sound_data_size == (t / ch) * ch * bps,
            kept == (t / ch) * ch,
    ;
    assert((n * bps == kept * bps) <==> n == kept) by (nonlinear_arith)
        requires
            bps > 0,
    ;
    assert(n == kept <==> (t == n && t % ch == 0));
    if t == n {
        assert(n % ch == t % ch);
    }
}

/// The parameters that the MP3 writer hands to LAME.
pub struct LameSettings {
    /// Number of channels, as LAME takes it (one byte).
    pub num_channels: u8,
    /// Input sample rate in Hz.
    pub sample_rate: u32,
}

/// The LAME parameters for a stream: the channel count narrowed to a byte
/// (its value modulo 256) and the sample rate. The requested bit rate plays
/// no part: the encoder always runs at 320 kbit/s.
pub open spec fn lame_settings_spec(sample_rate: u32, channels: u16, bitrate_kbps: u32) -> LameSettings {
    LameSettings { num_channels: (channels % 256) as u8, sample_rate }
}

/// The LAME parameters for a stream (see `lame_settings_spec`).
pub fn lame_settings(sample_rate: u32, channels: u16, bitrate_kbps: u32) -> (res: LameSettings)
    ensures
        res == lame_settings_spec(sample_rate, channels, bitrate_kbps),
        res.num_channels == channels % 256,
        res.sample_rate == sample_rate,
{
    LameSettings { num_channels: (channels % 256) as u8, sample_rate }
}

/// What the MP3 writer hands to LAME for `settings`: their channel count and
/// sample rate, best quality and a constant 320 kbit/s.
pub open spec fn mp3_config(settings: LameSettings) -> lame::LameConfig {
    lame::LameConfig {
        num_channels: Some(settings.num_channels),
        sample_rate: Some(settings.sample_rate),
        quality: Some(lame::LameQuality::Best),
        bitrate: Some(lame::LameBitrate::Kbps320),
    }
}

/// The output buffer that the MP3 writer hands LAME for encoding `n`
/// samples: LAME's maximal required size, `n` plus a quarter of `n` rounded
/// up plus 7200 bytes (`mp3lame_encoder::max_required_buffer_size`).
pub open spec fn mp3_encode_capacity(n: nat) -> nat {
    n + n / 4 + (if n % 4 > 0 {
        1nat
    } else {
        0nat
    }) + 7200
}

/// The output buffer that the MP3 writer hands LAME for the final flush.
pub open spec fn mp3_flush_capacity() -> nat {
    7200
}

/// The encoder is handed exactly the caller's channel count and sample rate,
/// with best quality and 320 kbit/s.
pub proof fn lemma_mp3_config_hands_settings(settings: LameSettings)
    ensures
        mp3_config(settings).num_channels == Some(settings.num_channels),
        mp3_config(settings).sample_rate == Some(settings.sample_rate),
        mp3_config(settings).quality == Some(lame::LameQuality::Best),
        mp3_config(settings).bitrate == Some(lame::LameBitrate::Kbps320),
{
}

/// The MP3 stream that a fresh LAME encoder built with `settings` produces
/// for the interleaved samples `pcm`: the bytes of encoding `pcm` followed
/// by the bytes of the flush that ends the stream.
pub open spec fn mp3_bytes(settings: LameSettings, pcm: Seq<i16>) -> Seq<u8> {
    lame::lame_encode_output(mp3_config(settings), Seq::empty(), pcm) + lame::lame_flush_output(
        mp3_config(settings),
        seq![(Some(pcm), mp3_encode_capacity(pcm.len()), true)],
    )
}

/// Why MP3 encoding failed; each variant but the first carries LAME's
/// description of its error.
pub enum Mp3Error {
    /// LAME could not allocate its state.
    InitFailed,
    /// LAME refused the channel count.
    SetNumChannels(String),
    /// LAME refused the sample rate.
    SetSampleRate(String),
    /// LAME refused the quality level.
    SetQuality(String),
    /// LAME refused the bit rate.
    SetBitrate(String),
    /// LAME refused the combination of parameters.
    Build(String),
    /// Encoding the samples failed.
    Encode(String),
    /// Flushing the last frames failed.
    Flush(String),
}

/// Sets LAME up for `settings`: allocates its state, hands it the channel
/// count and sample rate, best quality and 320 kbit/s, and lets it check the
/// parameters. Each step that fails ends with the matching error. LAME
/// accepts only 1 or 2 channels and a sample rate of at least 1, and never
/// refuses the quality or the bit rate; whether it can allocate its state and
/// accepts the combination of parameters is LAME's to decide. The encoder
/// returned was built with exactly these parameters and has not been used.
pub fn build_lame_encoder(settings: &LameSettings) -> (res: Result<lame::LameEncoder, Mp3Error>)
    ensures
        !(1 <= settings.num_channels <= 2) ==> (res matches Err(e) && (e is InitFailed
            || e is SetNumChannels)),
        (1 <= settings.num_channels <= 2 && settings.sample_rate == 0) ==> (res matches Err(e) && (
        e is InitFailed || e is SetSampleRate)),
        res matches Err(Mp3Error::SetNumChannels(_)) ==> !(1 <= settings.num_channels <= 2),
        res matches Err(Mp3Error::SetSampleRate(_)) ==> 1 <= settings.num_channels <= 2
            && settings.sample_rate == 0,
        res matches Err(e) ==> !(e is SetQuality || e is SetBitrate || e is Encode || e is Flush),
        res is Ok ==> 1 <= settings.num_channels <= 2 && settings.sample_rate >= 1,
        res matches Ok(enc) ==> enc.config() == mp3_config(*settings) && enc.history() == Seq::<
            lame::LameEvent,
        >::empty(),
        res matches Ok(enc) ==> {
            &&& enc.config().num_channels == Some(settings.num_channels)
            &&& enc.config().sample_rate == Some(settings.sample_rate)
            &&& enc.config().quality == Some(lame::LameQuality::Best)
            &&& enc.config().bitrate == Some(lame::LameBitrate::Kbps320)
        },
{
    proof {
        lemma_mp3_config_hands_settings(*settings);
    }
    let mut builder = match lame::new_builder() {
        Some(b) => b,
        None => return Err(Mp3Error::InitFailed),
    };
    if let Err(e) = lame::builder_set_num_channels(&mut builder, settings.num_channels) {
        return Err(Mp3Error::SetNumChannels(lame::build_error_text(e)));
    }
    if let Err(e) = lame::builder_set_sample_rate(&mut builder, settings.sample_rate) {
        return Err(Mp3Error::SetSampleRate(lame::build_error_text(e)));
    }
    if let Err(e) = lame::builder_set_quality(&mut builder, lame::LameQuality::Best) {
        return Err(Mp3Error::SetQuality(lame::build_error_text(e)));
    }
    if let Err(e) = lame::builder_set_brate(&mut builder, lame::LameBitrate::Kbps320) {
        return Err(Mp3Error::SetBitrate(lame::build_error_text(e)));
    }
    assert(builder.config() == mp3_config(*settings));
    match lame::build_encoder(builder) {
        Ok(enc) => Ok(enc),
        Err(e) => Err(Mp3Error::Build(lame::build_error_text(e))),
    }
}

/// The MP3 stream: the encoded bytes followed by the flushed bytes.
pub fn mp3_stream(encoded: Vec<u8>, flushed: Vec<u8>) -> (res: Vec<u8>)
    ensures
        res@ == encoded@ + flushed@,
{
    let mut out = encoded;
    let mut rest = flushed;
    out.append(&mut rest);
    out
}

/// Encodes interleaved 16-bit samples with a LAME encoder: all samples into
/// a buffer of LAME's maximal required size (`mp3_encode_capacity`), then
/// the last frames flushed into a buffer of 7200 bytes. Both calls, with
/// those buffer sizes, are made unless the encode fails; a failed encode
/// gives `Encode`, a failed flush `Flush`. On success after only successful
/// calls, the result is the bytes LAME wrote for the samples followed by the
/// bytes of the flush. Whether the calls succeed is LAME's to decide.
pub fn encode_lame(encoder: &mut lame::LameEncoder, pcm: &[i16]) -> (res: Result<
    Vec<u8>,
    Mp3Error,
>)
    requires
        pcm@.len() % 2 == 0,
        pcm@.len() <= usize::MAX / 2,
    ensures
        final(encoder).config() == old(encoder).config(),
        res matches Err(e) ==> (e is Encode || e is Flush),
        res matches Err(Mp3Error::Encode(_)) ==> final(encoder).history() == old(
            encoder,
        ).history().push((Some(pcm@), mp3_encode_capacity(pcm@.len()), false)),
        res matches Err(Mp3Error::Flush(_)) ==> final(encoder).history() == old(
            encoder,
        ).history().push((Some(pcm@), mp3_encode_capacity(pcm@.len()), true)).push(
            (None, mp3_flush_capacity(), false),
        ),
        res is Ok ==> final(encoder).history() == old(encoder).history().push(
            (Some(pcm@), mp3_encode_capacity(pcm@.len()), true),
        ).push((None, mp3_flush_capacity(), true)),
        lame::all_succeeded(old(encoder).history()) ==> (res matches Ok(out) ==> out@
            == lame::lame_encode_output(old(encoder).config(), old(encoder).history(), pcm@)
            + lame::lame_flush_output(
            old(encoder).config(),
            old(encoder).history().push((Some(pcm@), mp3_encode_capacity(pcm@.len()), true)),
        )),
{
    let buf_size = lame::max_required_buffer_size(pcm.len());
    proof {
        let n = pcm@.len() as int;
        let total = n + n / 4 + (if n % 4 > 0 {
            1int
        } else {
            0int
        }) + 7200;
        assert(usize::MAX >= 0xffff_ffff);
        assert(0 <= total <= usize::MAX);
        vstd::arithmetic::div_mod::lemma_small_mod(total as nat, (usize::MAX as int + 1) as nat);
    }
    assert(buf_size == mp3_encode_capacity(pcm@.len()));
    let ghost before = encoder.history();
    let encoded = match lame::encode_interleaved(encoder, pcm, buf_size) {
        Ok(bytes) => bytes,
        Err(e) => return Err(Mp3Error::Encode(lame::encode_error_text(e))),
    };
    proof {
        if lame::all_succeeded(before) {
            let h = encoder.history();
            assert forall|i: int| 0 <= i < h.len() implies #[trigger] h[i].2 by {
                if i < before.len() {
                    assert(h[i] == before[i]);
                }
            }
        }
    }
    let flushed = match lame::flush_no_gap(encoder, 7200) {
        Ok(bytes) => bytes,
        Err(e) => return Err(Mp3Error::Flush(lame::encode_error_text(e))),
    };
    Ok(mp3_stream(encoded, flushed))
}

/// Encodes interleaved 16-bit samples as MP3 with LAME: `build_lame_encoder`
/// followed by `encode_lame`. On success the result is `mp3_bytes`: what a
/// fresh encoder set to the channels and sample rate of `settings`, best
/// quality and 320 kbit/s, writes for the samples and for the final flush.
pub fn encode_mp3(pcm: &[i16], settings: &LameSettings) -> (res: Result<Vec<u8>, Mp3Error>)
    requires
        pcm@.len() % 2 == 0,
        pcm@.len() <= usize::MAX / 2,
    ensures
        !(1 <= settings.num_channels <= 2) ==> (res matches Err(e) && (e is InitFailed
            || e is SetNumChannels)),
        (1 <= settings.num_channels <= 2 && settings.sample_rate == 0) ==> (res matches Err(e) && (
        e is InitFailed || e is SetSampleRate)),
        res matches Err(Mp3Error::SetNumChannels(_)) ==> !(1 <= settings.num_channels <= 2),
        res matches Err(Mp3Error::SetSampleRate(_)) ==> 1 <= settings.num_channels <= 2
            && settings.sample_rate == 0,
        res matches Err(e) ==> !(e is SetQuality || e is SetBitrate),
        res is Ok ==> 1 <= settings.num_channels <= 2 && settings.sample_rate >= 1,
        res matches Ok(out) ==> out@ == mp3_bytes(*settings, pcm@),
{
    let mut encoder = match build_lame_encoder(settings) {
        Ok(enc) => enc,
        Err(e) => return Err(e),
    };
    let res = encode_lame(&mut encoder, pcm);
    proof {
        assert(Seq::<lame::LameEvent>::empty().push(
            (Some(pcm@), mp3_encode_capacity(pcm@.len()), true),
        ) =~= seq![(Some(pcm@), mp3_encode_capacity(pcm@.len()), true)]);
    }
    res
}

/// The requested bit rate does not change the MP3 stream: the settings for
/// two bit rates are the same, and so are the streams for the same samples.
pub proof fn lemma_mp3_ignores_bitrate(
    pcm: Seq<i16>,
    sample_rate: u32,
    channels: u16,
    bitrate_a: u32,
    bitrate_b: u32,
)
    ensures
        lame_settings_spec(sample_rate, channels, bitrate_a) == lame_settings_spec(
            sample_rate,
            channels,
            bitrate_b,
        ),
        mp3_bytes(lame_settings_spec(sample_rate, channels, bitrate_a), pcm) == mp3_bytes(
            lame_settings_spec(sample_rate, channels, bitrate_b),
            pcm,
        ),
{
}

} // verus!
