//! Request bodies: WAV files, or bare samples in 16 bits, little end first.
use candle_core::scalar::Scalar;
use std::io::Cursor;
use vstd::arithmetic::power2::pow2;
use vstd::prelude::*;

use crate::text::{around_number, decimal};

verus! {

/// The number of samples per second that the model takes.
pub const TARGET_SAMPLE_RATE: u32 = 16_000;

/// Whether the samples of a WAV file are floats or whole numbers.
#[derive(Clone, Copy, Debug, PartialEq, Eq, Structural)]
pub enum SampleFormat {
    Float,
    Int,
}

/// What the header of a WAV file says of its samples.
#[derive(Clone, Copy, Debug, PartialEq, Eq, Structural)]
pub struct WavSpec {
    pub channels: u16,
    pub sample_rate: u32,
    pub bits_per_sample: u16,
    pub sample_format: SampleFormat,
}

/// What the header of a WAV file says, if the bytes are one.
pub uninterp spec fn wav_header(data: Seq<u8>) -> Option<WavSpec>;

/// The samples of a WAV file in 8 bits, or what hound says is wrong with them.
pub uninterp spec fn wav_i8(data: Seq<u8>) -> Result<Seq<i8>, Seq<char>>;

/// The samples of a WAV file in up to 16 bits, or what hound says is wrong with them.
pub uninterp spec fn wav_i16(data: Seq<u8>) -> Result<Seq<i16>, Seq<char>>;

/// The samples of a WAV file in up to 32 bits, or what hound says is wrong with them.
pub uninterp spec fn wav_i32(data: Seq<u8>) -> Result<Seq<i32>, Seq<char>>;

/// The samples of a WAV file in floats, or what hound says is wrong with them.
pub uninterp spec fn wav_floats(data: Seq<u8>) -> Result<Seq<Scalar>, Seq<char>>;

/// The plainest header of a WAV file with whole numbers in 16 bits, one channel and 16000 samples
/// per second, from behind the size of the file to before the size of the samples.
pub open spec fn plain_header() -> Seq<u8> {
    seq![
        // "WAVE", "fmt " and the size of what follows up to "data".
        0x57, 0x41, 0x56, 0x45, 0x66, 0x6d, 0x74, 0x20, 0x10, 0, 0, 0,
        // Whole numbers, one channel, 16000 samples and 32000 bytes per second.
        1, 0, 1, 0, 0x80, 0x3e, 0, 0, 0, 0x7d, 0, 0,
        // Two bytes and 16 bits for a sample, and "data".
        2, 0, 0x10, 0, 0x64, 0x61, 0x74, 0x61,
    ]
}

/// The size of the samples behind a plain header.
pub open spec fn plain_size(data: Seq<u8>) -> int {
    data[40] + 0x100 * data[41] + 0x1_0000 * data[42] + 0x100_0000 * data[43]
}

/// The bytes of the samples of a WAV file with a plain header, if the bytes are one and hold
/// whole samples, all that the header tells of. Anything may follow them.
pub open spec fn plain_wav(data: Seq<u8>) -> Option<Seq<u8>> {
    if data.len() >= 44 && is_riff(data) && data.subrange(8, 40) == plain_header() && plain_size(
        data,
    ) % 2 == 0 && 44 + plain_size(data) <= data.len() {
        Some(data.subrange(44, 44 + plain_size(data)))
    } else {
        None
    }
}

/// What a call that reads the samples behind a plain header gives.
pub open spec fn plain_shorts(bare: Seq<u8>) -> Result<Seq<i16>, Seq<char>> {
    Ok(pcm_values(bare).map_values(|v: i32| v as i16))
}

/// `WavReader::new` and `WavReader::spec` on bytes in memory: what the header says. It fails
/// where the bytes do not start with the header of a WAV file that hound can read. A plain header
/// is read field by field.
#[verifier::external_body]
fn read_header(data: &[u8]) -> (r: Option<WavSpec>)
    ensures
        r == wav_header(data@),
        plain_wav(data@) is Some ==> r == Some(
            (WavSpec {
                channels: 1,
                sample_rate: 16_000,
                bits_per_sample: 16,
                sample_format: SampleFormat::Int,
            }),
        ),
{
    let spec = hound::WavReader::new(Cursor::new(data)).ok()?.spec();
    let sample_format = match spec.sample_format {
        hound::SampleFormat::Float => SampleFormat::Float,
        hound::SampleFormat::Int => SampleFormat::Int,
    };
    let hound::WavSpec { channels, sample_rate, bits_per_sample, .. } = spec;
    Some(WavSpec { channels, sample_rate, bits_per_sample, sample_format })
}

/// What a call that reads samples gives: the samples, or the text of an error.
pub open spec fn texted<A>(r: Result<Vec<A>, String>) -> Result<Seq<A>, Seq<char>> {
    match r {
        Ok(samples) => Ok(samples@),
        Err(text) => Err(text@),
    }
}

/// `WavReader::samples` in 8 bits, on bytes in memory, all samples or the first error.
#[verifier::external_body]
fn read_i8(data: &[u8]) -> (r: Result<Vec<i8>, String>)
    ensures
        texted(r) == wav_i8(data@),
{
    let mut reader = hound::WavReader::new(Cursor::new(data)).map_err(|e| e.to_string())?;
    reader.samples::<i8>().collect::<Result<Vec<_>, _>>().map_err(|e| e.to_string())
}

/// `WavReader::samples` in 16 bits, on bytes in memory, all samples or the first error. Behind a
/// plain header each two bytes are a sample, little end first.
#[verifier::external_body]
fn read_i16(data: &[u8]) -> (r: Result<Vec<i16>, String>)
    ensures
        texted(r) == wav_i16(data@),
        plain_wav(data@) is Some ==> texted(r) == plain_shorts(plain_wav(data@)->0),
{
    let mut reader = hound::WavReader::new(Cursor::new(data)).map_err(|e| e.to_string())?;
    reader.samples::<i16>().collect::<Result<Vec<_>, _>>().map_err(|e| e.to_string())
}

/// `WavReader::samples` in 32 bits, on bytes in memory, all samples or the first error.
#[verifier::external_body]
fn read_i32(data: &[u8]) -> (r: Result<Vec<i32>, String>)
    ensures
        texted(r) == wav_i32(data@),
{
    let mut reader = hound::WavReader::new(Cursor::new(data)).map_err(|e| e.to_string())?;
    reader.samples::<i32>().collect::<Result<Vec<_>, _>>().map_err(|e| e.to_string())
}

/// `WavReader::samples` in 32-bit floats, on bytes in memory, all samples or the first error.
#[verifier::external_body]
fn read_floats(data: &[u8]) -> (r: Result<Vec<Scalar>, String>)
    ensures
        texted(r) == wav_floats(data@),
{
    let mut reader = hound::WavReader::new(Cursor::new(data)).map_err(|e| e.to_string())?;
    let samples = reader.samples().map(|s| s.map(Scalar::F32));
    samples.collect::<Result<Vec<_>, _>>().map_err(|e: hound::Error| e.to_string())
}

/// Why a request body cannot be used.
pub enum AudioError {
    EmptyBody,
    NotWav,
    NotMono { channels: u16 },
    WrongRate { sample_rate: u32 },
    UnsupportedDepth { bits: u16 },
    BadSamples { text: String },
    NoWavSamples,
    OddPcm,
    NoPcmSamples,
}

/// What an `AudioError` holds.
#[verifier::ext_equal]
pub enum AudioFault {
    EmptyBody,
    NotWav,
    NotMono { channels: u16 },
    WrongRate { sample_rate: u32 },
    UnsupportedDepth { bits: u16 },
    BadSamples { text: Seq<char> },
    NoWavSamples,
    OddPcm,
    NoPcmSamples,
}

impl View for AudioError {
    type V = AudioFault;

    open spec fn view(&self) -> AudioFault {
        match *self {
            AudioError::EmptyBody => AudioFault::EmptyBody,
            AudioError::NotWav => AudioFault::NotWav,
            AudioError::NotMono { channels } => AudioFault::NotMono { channels },
            AudioError::WrongRate { sample_rate } => AudioFault::WrongRate { sample_rate },
            AudioError::UnsupportedDepth { bits } => AudioFault::UnsupportedDepth { bits },
            AudioError::BadSamples { text } => AudioFault::BadSamples { text: text@ },
            AudioError::NoWavSamples => AudioFault::NoWavSamples,
            AudioError::OddPcm => AudioFault::OddPcm,
            AudioError::NoPcmSamples => AudioFault::NoPcmSamples,
        }
    }
}

impl AudioFault {
    /// What a client is told.
    pub open spec fn text(self) -> Seq<char> {
        match self {
            AudioFault::EmptyBody => "request body is empty"@,
            AudioFault::NotWav => "request body is not a valid WAV file"@,
            AudioFault::NotMono { channels } => "expected mono WAV audio, got "@ + decimal(
                channels as nat,
            ) + " channels"@,
            AudioFault::WrongRate { sample_rate } => "expected 16000 Hz WAV audio, got "@
                + decimal(sample_rate as nat) + " Hz"@,
            AudioFault::UnsupportedDepth { bits } => "unsupported integer WAV bit depth: "@
                + decimal(bits as nat),
            AudioFault::BadSamples { text } => text,
            AudioFault::NoWavSamples => "WAV file contains no samples"@,
            AudioFault::OddPcm => "raw PCM body must contain an even number of bytes"@,
            AudioFault::NoPcmSamples => "raw PCM body contains no samples"@,
        }
    }
}

impl AudioError {
    /// What a client is told.
    pub fn message(&self) -> (text: String)
        ensures
            text@ == self@.text(),
    {
        match self {
            AudioError::EmptyBody => "request body is empty".to_owned(),
            AudioError::NotWav => "request body is not a valid WAV file".to_owned(),
            AudioError::NotMono { channels } => around_number(
                "expected mono WAV audio, got ",
                *channels as usize,
                " channels",
            ),
            AudioError::WrongRate { sample_rate } => around_number(
                "expected 16000 Hz WAV audio, got ",
                *sample_rate as usize,
                " Hz",
            ),
            AudioError::UnsupportedDepth { bits } => {
                let text = around_number("unsupported integer WAV bit depth: ", *bits as usize, "");
                proof {
                    reveal_strlit("");
                    assert(text@ =~= self@.text());
                }
                text
            },
            AudioError::BadSamples { text } => text.clone(),
            AudioError::NoWavSamples => "WAV file contains no samples".to_owned(),
            AudioError::OddPcm => "raw PCM body must contain an even number of bytes".to_owned(),
            AudioError::NoPcmSamples => "raw PCM body contains no samples".to_owned(),
        }
    }
}

/// The samples of a request.
pub enum Decoded {
    /// Whole numbers, each to be divided by the greatest number that its format can hold.
    Scaled { values: Vec<i32>, full_scale: i32 },
    /// Floats, to be taken as they are.
    Floats { floats: Vec<Scalar> },
}

/// What a `Decoded` holds.
#[verifier::ext_equal]
pub enum Samples {
    Scaled { values: Seq<i32>, full_scale: i32 },
    Floats { floats: Seq<Scalar> },
}

impl View for Decoded {
    type V = Samples;

    open spec fn view(&self) -> Samples {
        match *self {
            Decoded::Scaled { values, full_scale } => Samples::Scaled {
                values: values@,
                full_scale,
            },
            Decoded::Floats { floats } => Samples::Floats { floats: floats@ },
        }
    }
}

/// What a decoder gives: the samples, or what is wrong with the body.
pub open spec fn viewed(r: Result<Decoded, AudioError>) -> Result<Samples, AudioFault> {
    match r {
        Ok(decoded) => Ok(decoded@),
        Err(err) => Err(err@),
    }
}

/// How the samples of a WAV file are to be read.
#[derive(Clone, Copy, Debug, PartialEq, Eq, Structural)]
pub enum Reading {
    /// Whole numbers in 8 bits.
    Bytes,
    /// Whole numbers in 16 bits.
    Shorts,
    /// Whole numbers in up to 32 bits, of which the greatest is this.
    Longs { full_scale: i32 },
    /// Floats.
    Floats,
}

/// How the samples of a WAV file with this header are to be read: one channel, 16000 samples
/// per second, and floats or whole numbers in 8, 16, 24 or 32 bits are taken.
pub open spec fn reading(header: Option<WavSpec>) -> Result<Reading, AudioFault> {
    match header {
        None => Err(AudioFault::NotWav),
        Some(spec) => if spec.channels != 1 {
            Err(AudioFault::NotMono { channels: spec.channels })
        } else if spec.sample_rate != TARGET_SAMPLE_RATE {
            Err(AudioFault::WrongRate { sample_rate: spec.sample_rate })
        } else if spec.sample_format == SampleFormat::Float {
            Ok(Reading::Floats)
        } else if spec.bits_per_sample == 8 {
            Ok(Reading::Bytes)
        } else if spec.bits_per_sample == 16 {
            Ok(Reading::Shorts)
        } else if spec.bits_per_sample == 24 {
            Ok(Reading::Longs { full_scale: 0x7f_ffff })
        } else if spec.bits_per_sample == 32 {
            Ok(Reading::Longs { full_scale: 0x7fff_ffff })
        } else {
            Err(AudioFault::UnsupportedDepth { bits: spec.bits_per_sample })
        },
    }
}

/// How the samples of a WAV file with this header are to be read.
pub fn choose_reading(header: Option<WavSpec>) -> (r: Result<Reading, AudioError>)
    ensures
        match r {
            Ok(chosen) => reading(header) == Ok::<Reading, AudioFault>(chosen),
            Err(err) => reading(header) == Err::<Reading, AudioFault>(err@),
        },
{
    let spec = match header {
        Some(spec) => spec,
        None => {
            return Err(AudioError::NotWav);
        },
    };
    if spec.channels != 1 {
        return Err(AudioError::NotMono { channels: spec.channels });
    }
    if spec.sample_rate != TARGET_SAMPLE_RATE {
        return Err(AudioError::WrongRate { sample_rate: spec.sample_rate });
    }
    match spec.sample_format {
        SampleFormat::Float => Ok(Reading::Floats),
        SampleFormat::Int => match spec.bits_per_sample {
            8 => Ok(Reading::Bytes),
            16 => Ok(Reading::Shorts),
            24 => Ok(Reading::Longs { full_scale: 0x7f_ffff }),
            32 => Ok(Reading::Longs { full_scale: 0x7fff_ffff }),
            bits => Err(AudioError::UnsupportedDepth { bits }),
        },
    }
}

/// What becomes of whole numbers that have been read, or of the error in their place.
pub open spec fn scaled(r: Result<Seq<i32>, Seq<char>>, full_scale: i32) -> Result<
    Samples,
    AudioFault,
> {
    match r {
        Err(text) => Err(AudioFault::BadSamples { text }),
        Ok(values) => if values.len() == 0 {
            Err(AudioFault::NoWavSamples)
        } else {
            Ok(Samples::Scaled { values, full_scale })
        },
    }
}

/// What becomes of floats that have been read, or of the error in their place.
pub open spec fn floated(r: Result<Seq<Scalar>, Seq<char>>) -> Result<Samples, AudioFault> {
    match r {
        Err(text) => Err(AudioFault::BadSamples { text }),
        Ok(values) => if values.len() == 0 {
            Err(AudioFault::NoWavSamples)
        } else {
            Ok(Samples::Floats { floats: values })
        },
    }
}

/// What becomes of whole numbers that have been read, or of the error in their place.
pub fn accept_scaled(r: Result<Vec<i32>, String>, full_scale: i32) -> (out: Result<
    Decoded,
    AudioError,
>)
    ensures
        viewed(out) == scaled(texted(r), full_scale),
{
    match r {
        Err(text) => Err(AudioError::BadSamples { text }),
        Ok(values) => if values.len() == 0 {
            Err(AudioError::NoWavSamples)
        } else {
            Ok(Decoded::Scaled { values, full_scale })
        },
    }
}

/// What becomes of floats that have been read, or of the error in their place.
pub fn accept_floats(r: Result<Vec<Scalar>, String>) -> (out: Result<Decoded, AudioError>)
    ensures
        viewed(out) == floated(texted(r)),
{
    match r {
        Err(text) => Err(AudioError::BadSamples { text }),
        Ok(values) => if values.len() == 0 {
            Err(AudioError::NoWavSamples)
        } else {
            Ok(Decoded::Floats { floats: values })
        },
    }
}

/// The same numbers in more bits, or the same error.
pub open spec fn widened_i8(r: Result<Seq<i8>, Seq<char>>) -> Result<Seq<i32>, Seq<char>> {
    match r {
        Ok(values) => Ok(values.map_values(|v: i8| v as i32)),
        Err(text) => Err(text),
    }
}

/// The same numbers in more bits, or the same error.
pub open spec fn widened_i16(r: Result<Seq<i16>, Seq<char>>) -> Result<Seq<i32>, Seq<char>> {
    match r {
        Ok(values) => Ok(values.map_values(|v: i16| v as i32)),
        Err(text) => Err(text),
    }
}

/// The same numbers in more bits, or the same error.
pub fn widen_i8(r: Result<Vec<i8>, String>) -> (out: Result<Vec<i32>, String>)
    ensures
        texted(out) == widened_i8(texted(r)),
{
    let values = match r {
        Ok(values) => values,
        Err(text) => {
            return Err(text);
        },
    };
    let mut wide: Vec<i32> = Vec::new();
    let mut i: usize = 0;
    while i < values.len()
        invariant
            i <= values.len(),
            wide@.len() == i,
            forall|j: int| 0 <= j < i ==> wide@[j] == #[trigger] values@[j],
        decreases values.len() - i,
    {
        wide.push(values[i] as i32);
        i = i + 1;
    }
    assert(wide@ =~= values@.map_values(|v: i8| v as i32));
    Ok(wide)
}

/// The same numbers in more bits, or the same error.
pub fn widen_i16(r: Result<Vec<i16>, String>) -> (out: Result<Vec<i32>, String>)
    ensures
        texted(out) == widened_i16(texted(r)),
{
    let values = match r {
        Ok(values) => values,
        Err(text) => {
            return Err(text);
        },
    };
    let mut wide: Vec<i32> = Vec::new();
    let mut i: usize = 0;
    while i < values.len()
        invariant
            i <= values.len(),
            wide@.len() == i,
            forall|j: int| 0 <= j < i ==> wide@[j] == #[trigger] values@[j],
        decreases values.len() - i,
    {
        wide.push(values[i] as i32);
        i = i + 1;
    }
    assert(wide@ =~= values@.map_values(|v: i16| v as i32));
    Ok(wide)
}

/// What becomes of a body that is read as a WAV file.
pub open spec fn wav_samples(data: Seq<u8>) -> Result<Samples, AudioFault> {
    match reading(wav_header(data)) {
        Err(fault) => Err(fault),
        Ok(Reading::Bytes) => scaled(widened_i8(wav_i8(data)), 0x7f),
        Ok(Reading::Shorts) => scaled(widened_i16(wav_i16(data)), 0x7fff),
        Ok(Reading::Longs { full_scale }) => scaled(wav_i32(data), full_scale),
        Ok(Reading::Floats) => floated(wav_floats(data)),
    }
}

/// What becomes of the samples behind a plain header: as bare samples they would become the same,
/// if there is one.
pub open spec fn plain_samples(bare: Seq<u8>) -> Result<Samples, AudioFault> {
    if bare.len() == 0 {
        Err(AudioFault::NoWavSamples)
    } else {
        pcm_samples(bare)
    }
}

/// Samples in 16 bits are the same numbers in more bits.
proof fn widening_keeps_samples(bare: Seq<u8>)
    ensures
        widened_i16(plain_shorts(bare)) == Ok::<Seq<i32>, Seq<char>>(pcm_values(bare)),
{
    pcm_values_are_16_bit(bare);
    assert(widened_i16(plain_shorts(bare))->Ok_0 =~= pcm_values(bare));
}

/// The samples of a WAV file of one channel with 16000 samples per second. Behind a plain header
/// they are read as bare samples are.
pub fn decode_16k_mono_wav(bytes: &[u8]) -> (r: Result<Decoded, AudioError>)
    ensures
        viewed(r) == wav_samples(bytes@),
        plain_wav(bytes@) matches Some(bare) ==> viewed(r) == plain_samples(bare),
{
    proof {
        if plain_wav(bytes@) is Some {
            widening_keeps_samples(plain_wav(bytes@)->0);
        }
    }
    match choose_reading(read_header(bytes)) {
        Err(err) => Err(err),
        Ok(Reading::Bytes) => accept_scaled(widen_i8(read_i8(bytes)), 0x7f),
        Ok(Reading::Shorts) => accept_scaled(widen_i16(read_i16(bytes)), 0x7fff),
        Ok(Reading::Longs { full_scale }) => accept_scaled(read_i32(bytes), full_scale),
        Ok(Reading::Floats) => accept_floats(read_floats(bytes)),
    }
}

/// The whole number in 16 bits whose lower byte is `low` and whose upper byte is `high`.
pub open spec fn from_bytes(low: u8, high: u8) -> i32 {
    if high < 0x80 {
        (low + 0x100 * high) as i32
    } else {
        (low + 0x100 * high - 0x1_0000) as i32
    }
}

/// The samples in bytes that hold bare samples in 16 bits, little end first.
pub open spec fn pcm_values(data: Seq<u8>) -> Seq<i32> {
    Seq::new((data.len() / 2) as nat, |i: int| from_bytes(data[2 * i], data[2 * i + 1]))
}

/// What becomes of a body that is read as bare samples.
pub open spec fn pcm_samples(data: Seq<u8>) -> Result<Samples, AudioFault> {
    if data.len() % 2 != 0 {
        Err(AudioFault::OddPcm)
    } else if data.len() == 0 {
        Err(AudioFault::NoPcmSamples)
    } else {
        Ok(Samples::Scaled { values: pcm_values(data), full_scale: 0x7fff })
    }
}

/// The samples of a body that holds bare samples in 16 bits, little end first.
pub fn decode_16k_mono_pcm_s16le(bytes: &[u8]) -> (r: Result<Decoded, AudioError>)
    ensures
        viewed(r) == pcm_samples(bytes@),
        r is Ok <==> bytes@.len() > 0 && bytes@.len() % 2 == 0,
        r matches Ok(decoded) ==> {
            &&& decoded matches Decoded::Scaled { values, full_scale }
            &&& full_scale == 32_767
            &&& values@.len() * 2 == bytes@.len()
            &&& forall|i: int|
                0 <= i < values@.len() ==> -32_768 <= #[trigger] values@[i] <= 32_767 && (values@[i]
                    - bytes@[2 * i] - 256 * bytes@[2 * i + 1]) % 65_536 == 0
        },
{
    if bytes.len() % 2 != 0 {
        return Err(AudioError::OddPcm);
    }
    let mut values: Vec<i32> = Vec::new();
    let mut i: usize = 0;
    while i < bytes.len()
        invariant
            i <= bytes@.len(),
            i % 2 == 0,
            bytes@.len() % 2 == 0,
            values@.len() == i / 2,
            forall|j: int| 0 <= j < values@.len() ==> values@[j] == pcm_values(bytes@)[j],
        decreases bytes@.len() - i,
    {
        let low = bytes[i] as i32;
        let high = bytes[i + 1] as i32;
        values.push(
            if high < 0x80 {
                low + 0x100 * high
            } else {
                low + 0x100 * high - 0x1_0000
            },
        );
        i = i + 2;
    }
    assert(values@ =~= pcm_values(bytes@));
    proof {
        assert forall|i: int| 0 <= i < values@.len() implies -32_768 <= #[trigger] values@[i]
            <= 32_767 && (values@[i] - bytes@[2 * i] - 256 * bytes@[2 * i + 1]) % 65_536 == 0 by {
            assert(values@[i] == from_bytes(bytes@[2 * i], bytes@[2 * i + 1]));
        }
    }
    if values.len() == 0 {
        return Err(AudioError::NoPcmSamples);
    }
    Ok(Decoded::Scaled { values, full_scale: 0x7fff })
}

/// Whether bytes start as every WAV file does, with the letters RIFF.
pub open spec fn is_riff(data: Seq<u8>) -> bool {
    &&& data.len() >= 4
    &&& data[0] == 0x52
    &&& data[1] == 0x49
    &&& data[2] == 0x46
    &&& data[3] == 0x46
}

/// Whether bytes start as every WAV file does.
fn starts_as_wav(bytes: &[u8]) -> (b: bool)
    ensures
        b == is_riff(bytes@),
{
    bytes.len() >= 4 && bytes[0] == 0x52 && bytes[1] == 0x49 && bytes[2] == 0x46 && bytes[3]
        == 0x46
}

/// What becomes of a body.
pub open spec fn body_samples(data: Seq<u8>) -> Result<Samples, AudioFault> {
    if data.len() == 0 {
        Err(AudioFault::EmptyBody)
    } else if is_riff(data) {
        wav_samples(data)
    } else {
        pcm_samples(data)
    }
}

/// The samples of a request body. A WAV file with a plain header and its bare samples give the
/// same.
pub fn decode_16k_mono_audio(bytes: &[u8]) -> (r: Result<Decoded, AudioError>)
    ensures
        viewed(r) == body_samples(bytes@),
        plain_wav(bytes@) matches Some(bare) ==> viewed(r) == plain_samples(bare),
        bytes@.len() < 4 || bytes@[0] != 0x52 || bytes@[1] != 0x49 || bytes@[2] != 0x46 || bytes@[3]
            != 0x46 ==> (r is Ok <==> bytes@.len() > 0 && bytes@.len() % 2 == 0),
        bytes@.len() < 4 || bytes@[0] != 0x52 || bytes@[1] != 0x49 || bytes@[2] != 0x46 || bytes@[3]
            != 0x46 ==> (r matches Ok(decoded) ==> {
            &&& decoded matches Decoded::Scaled { values, full_scale }
            &&& full_scale == 32_767
            &&& values@.len() * 2 == bytes@.len()
            &&& forall|i: int|
                0 <= i < values@.len() ==> -32_768 <= #[trigger] values@[i] <= 32_767 && (values@[i]
                    - bytes@[2 * i] - 256 * bytes@[2 * i + 1]) % 65_536 == 0
        }),
{
    if bytes.len() == 0 {
        return Err(AudioError::EmptyBody);
    }
    if starts_as_wav(bytes) {
        decode_16k_mono_wav(bytes)
    } else {
        decode_16k_mono_pcm_s16le(bytes)
    }
}

/// A body that starts with the letters RIFF is read as a WAV file.
pub proof fn riff_bodies_are_wav(data: Seq<u8>)
    requires
        is_riff(data),
    ensures
        body_samples(data) == wav_samples(data),
{
}

/// Any other body that is not empty is read as bare samples, and taken if and only if its
/// length is even.
pub proof fn other_bodies_are_pcm(data: Seq<u8>)
    requires
        data.len() > 0,
        !is_riff(data),
    ensures
        body_samples(data) == pcm_samples(data),
        body_samples(data) is Ok <==> data.len() % 2 == 0,
{
}

/// A WAV file that is taken has one channel and 16000 samples per second.
pub proof fn taken_wav_is_mono_16k(data: Seq<u8>)
    requires
        wav_samples(data) is Ok,
    ensures
        wav_header(data) is Some,
        wav_header(data)->0.channels == 1,
        wav_header(data)->0.sample_rate == 16_000,
{
}

/// A body that is taken has at least one sample.
pub proof fn taken_bodies_have_samples(data: Seq<u8>)
    requires
        body_samples(data) is Ok,
    ensures
        match body_samples(data)->Ok_0 {
            Samples::Scaled { values, full_scale: _ } => values.len() >= 1,
            Samples::Floats { floats } => floats.len() >= 1,
        },
{
}

/// Whole numbers are divided by the greatest that their format can hold: one less than half of
/// two to the number of bits.
pub proof fn full_scale_is_greatest(spec: WavSpec)
    requires
        reading(Some(spec)) is Ok,
        spec.sample_format == SampleFormat::Int,
    ensures
        match reading(Some(spec))->Ok_0 {
            Reading::Bytes => pow2(spec.bits_per_sample as nat) == 2 * (0x7f + 1),
            Reading::Shorts => pow2(spec.bits_per_sample as nat) == 2 * (0x7fff + 1),
            Reading::Longs { full_scale } => pow2(spec.bits_per_sample as nat) == 2 * (full_scale
                + 1),
            Reading::Floats => false,
        },
{
    vstd::arithmetic::power2::lemma2_to64();
}

/// Bare samples lie between -32768 and 32767, one for every two bytes.
pub proof fn pcm_values_are_16_bit(data: Seq<u8>)
    ensures
        pcm_values(data).len() == data.len() / 2,
        forall|i: int|
            0 <= i < pcm_values(data).len() ==> -0x8000 <= #[trigger] pcm_values(data)[i] <= 0x7fff,
{
}

/// A number in four bytes, little end first.
pub open spec fn size_bytes(size: int) -> Seq<u8> {
    seq![
        (size % 0x100) as u8,
        (size / 0x100 % 0x100) as u8,
        (size / 0x1_0000 % 0x100) as u8,
        (size / 0x100_0000 % 0x100) as u8,
    ]
}

/// A WAV file with a plain header: the letters RIFF, the size of the file, whatever is put there,
/// and then the samples.
pub open spec fn wav_file(file_size: Seq<u8>, bare: Seq<u8>) -> Seq<u8> {
    seq![0x52u8, 0x49, 0x46, 0x46] + file_size + plain_header() + size_bytes(bare.len() as int)
        + bare
}

/// The bytes of bare samples, put behind a plain header, are the samples of a WAV file: the file
/// and the bytes are decoded to the same samples.
pub proof fn wav_files_hold_bare_samples(file_size: Seq<u8>, bare: Seq<u8>)
    requires
        file_size.len() == 4,
        bare.len() % 2 == 0,
        bare.len() <= u32::MAX,
    ensures
        plain_wav(wav_file(file_size, bare)) == Some(bare),
        bare.len() > 0 ==> plain_samples(bare) == pcm_samples(bare),
{
    let data = wav_file(file_size, bare);
    let size = bare.len() as int;
    assert(plain_header().len() == 32);
    assert(data.subrange(8, 40) =~= plain_header());
    assert(data[40] == size_bytes(size)[0]);
    assert(data[41] == size_bytes(size)[1]);
    assert(data[42] == size_bytes(size)[2]);
    assert(data[43] == size_bytes(size)[3]);
    assert(size == size % 0x100 + 0x100 * (size / 0x100));
    assert(size / 0x100 == size / 0x100 % 0x100 + 0x100 * (size / 0x1_0000));
    assert(size / 0x1_0000 == size / 0x1_0000 % 0x100 + 0x100 * (size / 0x100_0000));
    assert(size / 0x100_0000 % 0x100 == size / 0x100_0000);
    assert(plain_size(data) == size);
    assert(data.subrange(44, 44 + size) =~= bare);
}

/// The lower byte of a whole number in 16 bits.
pub open spec fn low_byte(value: i16) -> u8 {
    (value as int % 0x100) as u8
}

/// The upper byte of a whole number in 16 bits.
pub open spec fn high_byte(value: i16) -> u8 {
    ((value as int % 0x1_0000) / 0x100) as u8
}

/// Bare samples in 16 bits, little end first.
pub open spec fn pcm_bytes(values: Seq<i16>) -> Seq<u8> {
    Seq::new(
        2 * values.len(),
        |p: int|
            if p % 2 == 0 {
                low_byte(values[p / 2])
            } else {
                high_byte(values[p / 2])
            },
    )
}

/// The two bytes of a whole number in 16 bits make the number again.
pub proof fn bytes_make_the_number(value: i16)
    ensures
        from_bytes(low_byte(value), high_byte(value)) == value,
{
    let u = value as int % 0x1_0000;
    assert(u == if value >= 0 {
        value as int
    } else {
        value + 0x1_0000
    });
    assert(value as int % 0x100 == u % 0x100);
    assert(0 <= u / 0x100 < 0x100);
    assert(u == u % 0x100 + 0x100 * (u / 0x100));
}

/// Reading bare samples gives back what was written: every row of 16-bit numbers is read from
/// its bytes as it was.
pub proof fn pcm_reads_back_what_was_written(values: Seq<i16>)
    ensures
        pcm_values(pcm_bytes(values)) == values.map_values(|v: i16| v as i32),
{
    let data = pcm_bytes(values);
    assert forall|i: int| 0 <= i < values.len() implies pcm_values(data)[i] == values[i] by {
        assert(data[2 * i] == low_byte(values[i]));
        assert(data[2 * i + 1] == high_byte(values[i]));
        bytes_make_the_number(values[i]);
    }
    assert(pcm_values(data) =~= values.map_values(|v: i16| v as i32));
}

/// Different bodies of one even length hold different bare samples.
pub proof fn pcm_tells_bodies_apart(a: Seq<u8>, b: Seq<u8>)
    requires
        a.len() == b.len(),
        a.len() % 2 == 0,
        pcm_values(a) == pcm_values(b),
    ensures
        a == b,
{
    assert forall|p: int| 0 <= p < a.len() implies a[p] == b[p] by {
        let i = p / 2;
        assert(pcm_values(a)[i] == from_bytes(a[2 * i], a[2 * i + 1]));
        assert(pcm_values(b)[i] == from_bytes(b[2 * i], b[2 * i + 1]));
        assert(a[2 * i] == b[2 * i] && a[2 * i + 1] == b[2 * i + 1]);
    }
    assert(a =~= b);
}

/// The bare samples of two bodies, one behind the other, are those of the first and then those
/// of the second.
pub proof fn pcm_goes_piece_by_piece(a: Seq<u8>, b: Seq<u8>)
    requires
        a.len() % 2 == 0,
    ensures
        pcm_values(a + b) == pcm_values(a) + pcm_values(b),
{
    let whole = a + b;
    let half = a.len() as int / 2;
    assert forall|i: int| 0 <= i < pcm_values(whole).len() implies pcm_values(whole)[i] == (
    pcm_values(a) + pcm_values(b))[i] by {
        if i >= half {
            assert(whole[2 * i] == b[2 * (i - half)]);
            assert(whole[2 * i + 1] == b[2 * (i - half) + 1]);
        }
    }
    assert(pcm_values(whole) =~= pcm_values(a) + pcm_values(b));
}

/// A body without samples is refused as empty.
pub proof fn empty_bodies_are_refused(data: Seq<u8>)
    ensures
        body_samples(data) == Err::<Samples, AudioFault>(AudioFault::EmptyBody) <==> data.len()
            == 0,
{
}

/// A body that does not start with the letters RIFF and has an even length is decoded to one value
/// for every two bytes, the number in 16 bits whose lower byte comes first; one of odd length is
/// refused.
pub proof fn every_two_bytes_are_a_value(data: Seq<u8>)
    requires
        data.len() > 0,
        data.len() < 4 || data[0] != 0x52 || data[1] != 0x49 || data[2] != 0x46 || data[3] != 0x46,
    ensures
        data.len() % 2 == 1 ==> body_samples(data) == Err::<Samples, AudioFault>(
            AudioFault::OddPcm,
        ),
        data.len() % 2 == 0 ==> {
            &&& body_samples(data) matches Ok(Samples::Scaled { values, full_scale })
            &&& full_scale == 32_767
            &&& values.len() * 2 == data.len()
            &&& forall|i: int|
                0 <= i < values.len() ==> -32_768 <= #[trigger] values[i] <= 32_767 && (values[i]
                    - data[2 * i] - 256 * data[2 * i + 1]) % 65_536 == 0
        },
{
    if data.len() % 2 == 0 {
        let values = body_samples(data)->Ok_0->values;
        assert forall|i: int| 0 <= i < values.len() implies -32_768 <= #[trigger] values[i]
            <= 32_767 && (values[i] - data[2 * i] - 256 * data[2 * i + 1]) % 65_536 == 0 by {
            assert(values[i] == from_bytes(data[2 * i], data[2 * i + 1]));
        }
    }
}

/// A body that starts with the letters RIFF is taken only as a WAV file of one channel with 16000
/// samples per second, and the first thing that is wrong with it is told.
pub proof fn wav_headers_are_held_to_the_model(data: Seq<u8>)
    requires
        data.len() >= 4,
        data[0] == 0x52,
        data[1] == 0x49,
        data[2] == 0x46,
        data[3] == 0x46,
    ensures
        wav_header(data) is None ==> body_samples(data) == Err::<Samples, AudioFault>(
            AudioFault::NotWav,
        ),
        wav_header(data) matches Some(spec) ==> {
            let depth = spec.bits_per_sample;
            &&& spec.channels != 1 ==> body_samples(data) == Err::<Samples, AudioFault>(
                AudioFault::NotMono { channels: spec.channels },
            )
            &&& spec.channels == 1 && spec.sample_rate != 16_000 ==> body_samples(data) == Err::<
                Samples,
                AudioFault,
            >(AudioFault::WrongRate { sample_rate: spec.sample_rate })
            &&& spec.channels == 1 && spec.sample_rate == 16_000 && spec.sample_format
                == SampleFormat::Int && depth != 8 && depth != 16 && depth != 24 && depth != 32
                ==> body_samples(data) == Err::<Samples, AudioFault>(
                AudioFault::UnsupportedDepth { bits: depth },
            )
        },
{
}

/// A WAV file in floats is decoded to all floats that were read from it, each as it was read.
pub proof fn floats_are_kept_as_read(data: Seq<u8>)
    requires
        wav_header(data) matches Some(spec) && spec.channels == 1 && spec.sample_rate == 16_000
            && spec.sample_format == SampleFormat::Float,
    ensures
        match wav_floats(data) {
            Err(text) => wav_samples(data) == Err::<Samples, AudioFault>(
                AudioFault::BadSamples { text },
            ),
            Ok(read) => if read.len() == 0 {
                wav_samples(data) == Err::<Samples, AudioFault>(AudioFault::NoWavSamples)
            } else {
                &&& wav_samples(data) matches Ok(Samples::Floats { floats })
                &&& floats.len() == read.len()
                &&& forall|i: int| 0 <= i < read.len() ==> (#[trigger] floats[i]) == read[i]
            },
        },
{
}

/// A WAV file in whole numbers is decoded to all numbers that were read from it, each as it was
/// read, with the greatest number that fits into their bits as full scale.
pub proof fn numbers_are_kept_as_read(data: Seq<u8>)
    requires
        wav_header(data) matches Some(spec) && spec.channels == 1 && spec.sample_rate == 16_000
            && spec.sample_format == SampleFormat::Int,
    ensures
        wav_header(data)->0.bits_per_sample == 8 ==> match wav_i8(data) {
            Err(text) => wav_samples(data) == Err::<Samples, AudioFault>(
                AudioFault::BadSamples { text },
            ),
            Ok(read) => if read.len() == 0 {
                wav_samples(data) == Err::<Samples, AudioFault>(AudioFault::NoWavSamples)
            } else {
                &&& wav_samples(data) matches Ok(Samples::Scaled { values, full_scale })
                &&& full_scale == 127
                &&& values.len() == read.len()
                &&& forall|i: int| 0 <= i < read.len() ==> (#[trigger] values[i]) == read[i]
            },
        },
        wav_header(data)->0.bits_per_sample == 16 ==> match wav_i16(data) {
            Err(text) => wav_samples(data) == Err::<Samples, AudioFault>(
                AudioFault::BadSamples { text },
            ),
            Ok(read) => if read.len() == 0 {
                wav_samples(data) == Err::<Samples, AudioFault>(AudioFault::NoWavSamples)
            } else {
                &&& wav_samples(data) matches Ok(Samples::Scaled { values, full_scale })
                &&& full_scale == 32_767
                &&& values.len() == read.len()
                &&& forall|i: int| 0 <= i < read.len() ==> (#[trigger] values[i]) == read[i]
            },
        },
        wav_header(data)->0.bits_per_sample == 24 || wav_header(data)->0.bits_per_sample == 32
            ==> match wav_i32(data) {
            Err(text) => wav_samples(data) == Err::<Samples, AudioFault>(
                AudioFault::BadSamples { text },
            ),
            Ok(read) => if read.len() == 0 {
                wav_samples(data) == Err::<Samples, AudioFault>(AudioFault::NoWavSamples)
            } else {
                &&& wav_samples(data) matches Ok(Samples::Scaled { values, full_scale })
                &&& full_scale == if wav_header(data)->0.bits_per_sample == 24 {
                    8_388_607
                } else {
                    2_147_483_647i32
                }
                &&& values.len() == read.len()
                &&& forall|i: int| 0 <= i < read.len() ==> (#[trigger] values[i]) == read[i]
            },
        },
{
}

/// What is wrong with a body is told in words, and a number that is at fault is told with it.
pub proof fn faults_are_told_in_words(channels: u16, sample_rate: u32, bits: u16, text: Seq<char>)
    ensures
        AudioFault::EmptyBody.text() == "request body is empty"@,
        AudioFault::NotWav.text() == "request body is not a valid WAV file"@,
        AudioFault::NoWavSamples.text() == "WAV file contains no samples"@,
        AudioFault::OddPcm.text() == "raw PCM body must contain an even number of bytes"@,
        AudioFault::NoPcmSamples.text() == "raw PCM body contains no samples"@,
        (AudioFault::BadSamples { text }).text() == text,
        (AudioFault::NotMono { channels }).text() == "expected mono WAV audio, got "@ + decimal(
            channels as nat,
        ) + " channels"@,
        (AudioFault::WrongRate { sample_rate }).text() == "expected 16000 Hz WAV audio, got "@
            + decimal(sample_rate as nat) + " Hz"@,
        (AudioFault::UnsupportedDepth { bits }).text() == "unsupported integer WAV bit depth: "@
            + decimal(bits as nat),
{
}

/// What is decoded is seen whole: all values or floats, in their order, and the full scale.
pub proof fn decoded_values_are_seen_whole(
    values: Vec<i32>,
    full_scale: i32,
    floats: Vec<Scalar>,
)
    ensures
        (Decoded::Scaled { values, full_scale })@ == (Samples::Scaled {
            values: values@,
            full_scale,
        }),
        (Decoded::Floats { floats })@ == (Samples::Floats { floats: floats@ }),
{
}

/// An error is seen with all that it tells.
pub proof fn errors_are_seen_whole(channels: u16, sample_rate: u32, bits: u16, text: String)
    ensures
        AudioError::EmptyBody@ == AudioFault::EmptyBody,
        AudioError::NotWav@ == AudioFault::NotWav,
        (AudioError::NotMono { channels })@ == (AudioFault::NotMono { channels }),
        (AudioError::WrongRate { sample_rate })@ == (AudioFault::WrongRate { sample_rate }),
        (AudioError::UnsupportedDepth { bits })@ == (AudioFault::UnsupportedDepth { bits }),
        (AudioError::BadSamples { text })@ == (AudioFault::BadSamples { text: text@ }),
        AudioError::NoWavSamples@ == AudioFault::NoWavSamples,
        AudioError::OddPcm@ == AudioFault::OddPcm,
        AudioError::NoPcmSamples@ == AudioFault::NoPcmSamples,
{
}

/// A result is seen as what it is, an error as an error.
pub proof fn results_are_seen_as_they_are(decoded: Decoded, err: AudioError)
    ensures
        viewed(Ok(decoded)) == Ok::<Samples, AudioFault>(decoded@),
        viewed(Err(err)) == Err::<Samples, AudioFault>(err@),
{
}

/// Numbers that have been read are taken as they are, unless there is none; an error is told.
pub proof fn what_is_read_is_taken(
    values: Seq<i32>,
    floats: Seq<Scalar>,
    text: Seq<char>,
    full_scale: i32,
)
    ensures
        values.len() > 0 ==> scaled(Ok(values), full_scale) == Ok::<Samples, AudioFault>(
            Samples::Scaled { values, full_scale },
        ),
        values.len() == 0 ==> scaled(Ok(values), full_scale) == Err::<Samples, AudioFault>(
            AudioFault::NoWavSamples,
        ),
        scaled(Err(text), full_scale) == Err::<Samples, AudioFault>(
            AudioFault::BadSamples { text },
        ),
        floats.len() > 0 ==> floated(Ok(floats)) == Ok::<Samples, AudioFault>(
            Samples::Floats { floats },
        ),
        floats.len() == 0 ==> floated(Ok(floats)) == Err::<Samples, AudioFault>(
            AudioFault::NoWavSamples,
        ),
        floated(Err(text)) == Err::<Samples, AudioFault>(AudioFault::BadSamples { text }),
{
}

/// Numbers keep their values and their order in more bits.
pub proof fn widening_keeps_numbers(small: Seq<i8>, short: Seq<i16>, text: Seq<char>)
    ensures
        widened_i8(Err(text)) == Err::<Seq<i32>, Seq<char>>(text),
        widened_i16(Err(text)) == Err::<Seq<i32>, Seq<char>>(text),
        widened_i8(Ok(small)) matches Ok(wide) && wide.len() == small.len() && forall|i: int|
            0 <= i < small.len() ==> (#[trigger] wide[i]) == small[i],
        widened_i16(Ok(short)) matches Ok(wide) && wide.len() == short.len() && forall|i: int|
            0 <= i < short.len() ==> (#[trigger] wide[i]) == short[i],
{
}

/// A header is taken if and only if it tells of one channel, 16000 samples per second, and floats
/// or whole numbers in 8, 16, 24 or 32 bits.
pub proof fn only_these_headers_are_taken(spec: WavSpec)
    ensures
        reading(None) == Err::<Reading, AudioFault>(AudioFault::NotWav),
        reading(Some(spec)) is Ok <==> spec.channels == 1 && spec.sample_rate == 16_000 && (
        spec.sample_format == SampleFormat::Float || spec.bits_per_sample == 8
            || spec.bits_per_sample == 16 || spec.bits_per_sample == 24 || spec.bits_per_sample
            == 32),
        reading(Some(spec)) == Ok::<Reading, AudioFault>(Reading::Floats) <==> spec.channels == 1
            && spec.sample_rate == 16_000 && spec.sample_format == SampleFormat::Float,
{
}

/// Behind the letters RIFF and any size, the plainest header of one channel, 16000 samples per
/// second and 16 bits, and a size that is even and does not reach behind the end, the samples are
/// the bytes that the size counts: as a WAV file they are decoded as they are without the header,
/// if there is one.
pub proof fn plain_headers_are_followed_by_samples(data: Seq<u8>, size: int)
    requires
        data.len() >= 44,
        data[0] == 0x52,
        data[1] == 0x49,
        data[2] == 0x46,
        data[3] == 0x46,
        data.subrange(8, 40) == seq![
            0x57u8, 0x41, 0x56, 0x45, 0x66, 0x6d, 0x74, 0x20, 0x10, 0, 0, 0, 1, 0, 1, 0, 0x80, 0x3e,
            0, 0, 0, 0x7d, 0, 0, 2, 0, 0x10, 0, 0x64, 0x61, 0x74, 0x61,
        ],
        size == data[40] + 256 * data[41] + 65_536 * data[42] + 16_777_216 * data[43],
        size % 2 == 0,
        44 + size <= data.len(),
    ensures
        plain_wav(data) == Some(data.subrange(44, 44 + size)),
        size == 0 ==> plain_samples(data.subrange(44, 44 + size)) == Err::<Samples, AudioFault>(
            AudioFault::NoWavSamples,
        ),
        size > 0 ==> {
            &&& plain_samples(data.subrange(44, 44 + size)) matches Ok(
                Samples::Scaled { values, full_scale },
            )
            &&& full_scale == 32_767
            &&& values.len() * 2 == size
            &&& forall|i: int|
                0 <= i < values.len() ==> -32_768 <= #[trigger] values[i] <= 32_767 && (values[i]
                    - data[44 + 2 * i] - 256 * data[44 + 2 * i + 1]) % 65_536 == 0
        },
{
    let bare = data.subrange(44, 44 + size);
    assert(data.subrange(8, 40) =~= plain_header());
    if size > 0 {
        let values = plain_samples(bare)->Ok_0->values;
        assert forall|i: int| 0 <= i < values.len() implies -32_768 <= #[trigger] values[i]
            <= 32_767 && (values[i] - data[44 + 2 * i] - 256 * data[44 + 2 * i + 1]) % 65_536
            == 0 by {
            assert(values[i] == from_bytes(bare[2 * i], bare[2 * i + 1]));
            assert(bare[2 * i] == data[44 + 2 * i] && bare[2 * i + 1] == data[44 + 2 * i + 1]);
        }
    }
}

/// What has been read is seen whole, and an error as its text.
pub proof fn what_is_read_is_seen_whole<A>(values: Vec<A>, text: String)
    ensures
        texted(Ok::<Vec<A>, String>(values)) == Ok::<Seq<A>, Seq<char>>(values@),
        texted(Err::<Vec<A>, String>(text)) == Err::<Seq<A>, Seq<char>>(text@),
{
}

/// Bare samples are refused where their bytes do not come in twos, and where there is none.
pub proof fn odd_and_missing_bytes_are_refused(data: Seq<u8>)
    ensures
        data.len() % 2 == 1 ==> pcm_samples(data) == Err::<Samples, AudioFault>(
            AudioFault::OddPcm,
        ),
        data.len() == 0 ==> pcm_samples(data) == Err::<Samples, AudioFault>(
            AudioFault::NoPcmSamples,
        ),
{
}

/// How the samples of a WAV file are read follows from its header, and what is wrong with a header
/// is told in this order: its channels, its rate, its bits.
pub proof fn headers_tell_how_to_read(data: Seq<u8>, spec: WavSpec)
    ensures
        spec.channels != 1 ==> reading(Some(spec)) == Err::<Reading, AudioFault>(
            AudioFault::NotMono { channels: spec.channels },
        ),
        spec.channels == 1 && spec.sample_rate != 16_000 ==> reading(Some(spec)) == Err::<
            Reading,
            AudioFault,
        >(AudioFault::WrongRate { sample_rate: spec.sample_rate }),
        spec.channels == 1 && spec.sample_rate == 16_000 && spec.sample_format == SampleFormat::Int
            ==> reading(Some(spec)) == (if spec.bits_per_sample == 8 {
            Ok::<Reading, AudioFault>(Reading::Bytes)
        } else if spec.bits_per_sample == 16 {
            Ok(Reading::Shorts)
        } else if spec.bits_per_sample == 24 {
            Ok(Reading::Longs { full_scale: 8_388_607 })
        } else if spec.bits_per_sample == 32 {
            Ok(Reading::Longs { full_scale: 2_147_483_647 })
        } else {
            Err(AudioFault::UnsupportedDepth { bits: spec.bits_per_sample })
        }),
        reading(wav_header(data)) matches Err(fault) ==> wav_samples(data) == Err::<
            Samples,
            AudioFault,
        >(fault),
{
}

} // verus!
