//! The LAME MP3 encoder (`mp3lame_encoder`) as the MP3 writer uses it.
//!
//! The builder and the encoder are held together with a model of what was
//! handed to LAME: the parameters set so far, and for the encoder the
//! sequence of encode and flush calls made on it. The model changes only
//! through the trusted calls below, each of which states what the crate's
//! source shows of its call; nothing in those calls is proved.
use vstd::prelude::*;

verus! {

/// The LAME encoder builder, `mp3lame_encoder::Builder` (opaque).
#[verifier::external_type_specification]
#[verifier::external_body]
pub struct ExLameBuilder(mp3lame_encoder::Builder);

/// A configured LAME encoder, `mp3lame_encoder::Encoder` (opaque).
#[verifier::external_type_specification]
#[verifier::external_body]
pub struct ExLameEncoder(mp3lame_encoder::Encoder);

/// A configuration error of `mp3lame_encoder` (opaque).
#[verifier::external_type_specification]
#[verifier::external_body]
pub struct ExLameBuildError(mp3lame_encoder::BuildError);

/// An encoding error of `mp3lame_encoder` (opaque).
#[verifier::external_type_specification]
#[verifier::external_body]
pub struct ExLameEncodeError(mp3lame_encoder::EncodeError);

/// The LAME quality levels that the library sets.
#[derive(PartialEq, Eq, Structural, Clone, Copy, Debug)]
pub enum LameQuality {
    /// LAME's quality 0, its best.
    Best,
}

/// The constant bit rates that the library sets.
#[derive(PartialEq, Eq, Structural, Clone, Copy, Debug)]
pub enum LameBitrate {
    /// 320 kbit/s.
    Kbps320,
}

/// The parameters handed to LAME; `None` where LAME's default stands.
pub struct LameConfig {
    pub num_channels: Option<u8>,
    pub sample_rate: Option<u32>,
    pub quality: Option<LameQuality>,
    pub bitrate: Option<LameBitrate>,
}

/// The parameters of a fresh builder: none set, LAME's defaults stand.
pub open spec fn lame_defaults() -> LameConfig {
    LameConfig { num_channels: None, sample_rate: None, quality: None, bitrate: None }
}

/// One call made on an encoder: what it was asked to do (`Some(pcm)`:
/// encode the interleaved samples `pcm`; `None`: flush), the size of the
/// output buffer handed to LAME, and whether LAME reported success.
pub type LameEvent = (Option<Seq<i16>>, nat, bool);

/// Whether every call in `history` succeeded.
pub open spec fn all_succeeded(history: Seq<LameEvent>) -> bool {
    forall|i: int| 0 <= i < history.len() ==> #[trigger] history[i].2
}

/// A LAME builder with the parameters handed to it so far.
pub struct LameBuilder {
    inner: mp3lame_encoder::Builder,
    config: Ghost<LameConfig>,
}

impl LameBuilder {
    /// The parameters handed to this builder.
    pub closed spec fn config(self) -> LameConfig {
        self.config@
    }
}

/// A LAME encoder with the parameters it was built with and the calls made
/// on it since.
pub struct LameEncoder {
    inner: mp3lame_encoder::Encoder,
    config: Ghost<LameConfig>,
    history: Ghost<Seq<LameEvent>>,
}

impl LameEncoder {
    /// The parameters this encoder was built with.
    pub closed spec fn config(self) -> LameConfig {
        self.config@
    }

    /// The encode and flush calls made on this encoder, in order.
    pub closed spec fn history(self) -> Seq<LameEvent> {
        self.history@
    }
}

/// The bytes that LAME writes when an encoder built with `config`, after the
/// successful calls `history`, encodes the interleaved samples `pcm` (LAME's
/// `lame_encode_buffer_interleaved`). LAME has no randomness: these bytes are
/// a function of what was handed to it.
pub uninterp spec fn lame_encode_output(
    config: LameConfig,
    history: Seq<LameEvent>,
    pcm: Seq<i16>,
) -> Seq<u8>;

/// The bytes that LAME writes when an encoder built with `config`, after the
/// successful calls `history`, is flushed without gap (LAME's
/// `lame_encode_flush_nogap`); a function of what was handed to it.
pub uninterp spec fn lame_flush_output(config: LameConfig, history: Seq<LameEvent>) -> Seq<u8>;

/// `mp3lame_encoder::Builder::new`: allocates LAME's state; `None` when the
/// allocation fails. Nothing is claimed of the result.
#[verifier::external_body]
fn builder_new() -> (res: Option<mp3lame_encoder::Builder>) {
    mp3lame_encoder::Builder::new()
}

/// A new builder with no parameter set, or `None` when LAME cannot allocate
/// its state.
pub fn new_builder() -> (res: Option<LameBuilder>)
    ensures
        res matches Some(b) ==> b.config() == lame_defaults(),
{
    match builder_new() {
        Some(inner) => Some(LameBuilder { inner, config: Ghost(lame_defaults()) }),
        None => None,
    }
}

/// `Builder::set_num_channels`: hands `num` to LAME, whose
/// `lame_set_num_channels` (libmp3lame/set_get.c) accepts 1 or 2 channels,
/// records the count, and refuses any other count without changing anything.
#[verifier::external_body]
pub(crate) fn builder_set_num_channels(builder: &mut LameBuilder, num: u8) -> (res: Result<
    (),
    mp3lame_encoder::BuildError,
>)
    ensures
        res is Ok <==> (1 <= num <= 2),
        res is Ok ==> final(builder).config() == (LameConfig {
            num_channels: Some(num),
            ..old(builder).config()
        }),
        res is Err ==> final(builder).config() == old(builder).config(),
{
    builder.inner.set_num_channels(num)
}

/// `Builder::set_sample_rate`: hands `rate` to LAME as the input sample rate
/// (rates above `i32::MAX` become `i32::MAX`); `lame_set_in_samplerate`
/// refuses a rate below 1 without changing anything, and records any other.
#[verifier::external_body]
pub(crate) fn builder_set_sample_rate(builder: &mut LameBuilder, rate: u32) -> (res: Result<
    (),
    mp3lame_encoder::BuildError,
>)
    ensures
        res is Ok <==> rate >= 1,
        res is Ok ==> final(builder).config() == (LameConfig {
            sample_rate: Some(rate),
            ..old(builder).config()
        }),
        res is Err ==> final(builder).config() == old(builder).config(),
{
    builder.inner.set_sample_rate(rate)
}

/// `Builder::set_quality` with the matching `mp3lame_encoder::Quality`;
/// `lame_set_quality` always records it on a builder that `Builder::new` made.
#[verifier::external_body]
pub(crate) fn builder_set_quality(builder: &mut LameBuilder, quality: LameQuality) -> (res: Result<
    (),
    mp3lame_encoder::BuildError,
>)
    ensures
        res is Ok,
        final(builder).config() == (LameConfig {
            quality: Some(quality),
            ..old(builder).config()
        }),
{
    let quality = match quality {
        LameQuality::Best => mp3lame_encoder::Quality::Best,
    };
    builder.inner.set_quality(quality)
}

/// `Builder::set_brate` with the matching `mp3lame_encoder::Bitrate`;
/// `lame_set_brate` always records it on a builder that `Builder::new` made.
#[verifier::external_body]
pub(crate) fn builder_set_brate(builder: &mut LameBuilder, bitrate: LameBitrate) -> (res: Result<
    (),
    mp3lame_encoder::BuildError,
>)
    ensures
        res is Ok,
        final(builder).config() == (LameConfig {
            bitrate: Some(bitrate),
            ..old(builder).config()
        }),
{
    let bitrate = match bitrate {
        LameBitrate::Kbps320 => mp3lame_encoder::Bitrate::Kbps320,
    };
    builder.inner.set_brate(bitrate)
}

/// `Builder::build`: LAME checks the parameters and initializes the encoder.
/// Nothing is claimed of the result: `lame_init_params` decides.
#[verifier::external_body]
fn builder_build(builder: mp3lame_encoder::Builder) -> (res: Result<
    mp3lame_encoder::Encoder,
    mp3lame_encoder::BuildError,
>) {
    builder.build()
}

/// Builds the encoder from the builder's parameters; whether LAME accepts
/// them is LAME's to decide. The encoder starts with no call made on it.
pub fn build_encoder(builder: LameBuilder) -> (res: Result<LameEncoder, mp3lame_encoder::BuildError>)
    ensures
        res matches Ok(e) ==> e.config() == builder.config() && e.history() == Seq::<
            LameEvent,
        >::empty(),
{
    let LameBuilder { inner, config } = builder;
    match builder_build(inner) {
        Ok(enc) => Ok(LameEncoder { inner: enc, config, history: Ghost(Seq::empty()) }),
        Err(e) => Err(e),
    }
}

/// `mp3lame_encoder::max_required_buffer_size`: the sample count plus a
/// quarter of it rounded up plus 7200, with wrapping additions (as the
/// crate's source computes it).
#[verifier::external_body]
pub(crate) fn max_required_buffer_size(sample_number: usize) -> (res: usize)
    ensures
        res as int == (sample_number + sample_number / 4 + (if sample_number % 4 > 0 {
            1int
        } else {
            0int
        }) + 7200) % (usize::MAX as int + 1),
{
    mp3lame_encoder::max_required_buffer_size(sample_number)
}

/// `Encoder::encode_to_vec` with `InterleavedPcm` into a new vector of
/// (at least) `capacity` bytes: LAME encodes the interleaved 16-bit samples
/// into that spare capacity. The call, with the buffer size and its outcome,
/// is added to the encoder's history. When LAME succeeds after only
/// successful calls, the vector returned holds the bytes it wrote. The
/// buffer must not be empty: LAME takes a size of 0 as "no limit". The
/// crate's source asserts (in debug builds) that the sample count is even.
#[verifier::external_body]
pub(crate) fn encode_interleaved(encoder: &mut LameEncoder, pcm: &[i16], capacity: usize) -> (res:
    Result<Vec<u8>, mp3lame_encoder::EncodeError>)
    requires
        pcm@.len() % 2 == 0,
        capacity > 0,
    ensures
        final(encoder).config() == old(encoder).config(),
        final(encoder).history() == old(encoder).history().push(
            (Some(pcm@), capacity as nat, res is Ok),
        ),
        all_succeeded(old(encoder).history()) ==> (res matches Ok(out) ==> out@ == lame_encode_output(
            old(encoder).config(),
            old(encoder).history(),
            pcm@,
        )),
{
    let mut output: Vec<u8> = Vec::with_capacity(capacity);
    match encoder.inner.encode_to_vec(mp3lame_encoder::InterleavedPcm(pcm), &mut output) {
        Ok(_) => Ok(output),
        Err(e) => Err(e),
    }
}

/// `Encoder::flush_to_vec::<FlushNoGap>` into a new vector of (at least)
/// `capacity` bytes: LAME writes the remaining frames, padded with ancillary
/// data, into that spare capacity. The flush, with the buffer size and its
/// outcome, is added to the encoder's history. When LAME succeeds after only
/// successful calls, the vector returned holds the bytes it wrote. The
/// buffer must not be empty: LAME takes a size of 0 as "no limit".
#[verifier::external_body]
pub(crate) fn flush_no_gap(encoder: &mut LameEncoder, capacity: usize) -> (res: Result<
    Vec<u8>,
    mp3lame_encoder::EncodeError,
>)
    requires
        capacity > 0,
    ensures
        final(encoder).config() == old(encoder).config(),
        final(encoder).history() == old(encoder).history().push((None, capacity as nat, res is Ok)),
        all_succeeded(old(encoder).history()) ==> (res matches Ok(out) ==> out@ == lame_flush_output(
            old(encoder).config(),
            old(encoder).history(),
        )),
{
    let mut output: Vec<u8> = Vec::with_capacity(capacity);
    match encoder.inner.flush_to_vec::<mp3lame_encoder::FlushNoGap>(&mut output) {
        Ok(_) => Ok(output),
        Err(e) => Err(e),
    }
}

/// The `Debug` rendering of a `BuildError`. Nothing is claimed of the text.
#[verifier::external_body]
pub(crate) fn build_error_text(error: mp3lame_encoder::BuildError) -> (res: String) {
    format!("{:?}", error)
}

/// The `Debug` rendering of an `EncodeError`. Nothing is claimed of the text.
#[verifier::external_body]
pub(crate) fn encode_error_text(error: mp3lame_encoder::EncodeError) -> (res: String) {
    format!("{:?}", error)
}

} // verus!
