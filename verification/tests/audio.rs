use candle_core::scalar::Scalar;
use std::io::Cursor;
use voice_gender::audio::{
    accept_floats, accept_scaled, choose_reading, decode_16k_mono_audio,
    decode_16k_mono_pcm_s16le, decode_16k_mono_wav, widen_i16, widen_i8, AudioError, Decoded,
    Reading, SampleFormat, WavSpec,
};

fn spec(channels: u16, sample_rate: u32, bits: u16, float: bool) -> hound::WavSpec {
    hound::WavSpec {
        channels,
        sample_rate,
        bits_per_sample: bits,
        sample_format: if float { hound::SampleFormat::Float } else { hound::SampleFormat::Int },
    }
}

fn wav(spec: hound::WavSpec, values: &[i32]) -> Vec<u8> {
    let mut cursor = Cursor::new(Vec::new());
    let mut writer = hound::WavWriter::new(&mut cursor, spec).unwrap();
    for value in values {
        writer.write_sample(*value).unwrap();
    }
    writer.finalize().unwrap();
    cursor.into_inner()
}

fn float_wav(values: &[f32]) -> Vec<u8> {
    let mut cursor = Cursor::new(Vec::new());
    let mut writer = hound::WavWriter::new(&mut cursor, spec(1, 16_000, 32, true)).unwrap();
    for value in values {
        writer.write_sample(*value).unwrap();
    }
    writer.finalize().unwrap();
    cursor.into_inner()
}

fn numbers(r: Result<Decoded, AudioError>) -> (Vec<i32>, i32) {
    match r {
        Ok(Decoded::Scaled { values, full_scale }) => (values, full_scale),
        Ok(Decoded::Floats { .. }) => panic!("floats"),
        Err(err) => panic!("{}", err.message()),
    }
}

fn refusal(r: Result<Decoded, AudioError>) -> String {
    match r {
        Ok(_) => panic!("taken"),
        Err(err) => err.message(),
    }
}

fn header(channels: u16, sample_rate: u32, bits_per_sample: u16, float: bool) -> WavSpec {
    let sample_format = if float { SampleFormat::Float } else { SampleFormat::Int };
    WavSpec { channels, sample_rate, bits_per_sample, sample_format }
}

#[test]
fn pcm_bodies_are_read_little_end_first() {
    let body = [0x01, 0x00, 0xff, 0xff, 0xff, 0x7f, 0x00, 0x80, 0x34, 0x12];
    let expected = (vec![1, -1, 32_767, -32_768, 0x1234], 32_767);
    assert_eq!(numbers(decode_16k_mono_audio(&body)), expected);
    assert_eq!(numbers(decode_16k_mono_pcm_s16le(&body)), expected);
}

#[test]
fn pcm_samples_are_read_back_as_written() {
    let mut body = Vec::new();
    let mut expected = Vec::new();
    for value in i16::MIN..=i16::MAX {
        body.extend_from_slice(&value.to_le_bytes());
        expected.push(value as i32);
    }
    assert_eq!(numbers(decode_16k_mono_audio(&body)), (expected, 32_767));
}

#[test]
fn pcm_goes_on_behind_a_piece() {
    let (a, b) = ([1u8, 2, 3, 4], [5u8, 6]);
    let mut whole = numbers(decode_16k_mono_pcm_s16le(&a)).0;
    whole.extend(numbers(decode_16k_mono_pcm_s16le(&b)).0);
    assert_eq!(numbers(decode_16k_mono_pcm_s16le(&[1, 2, 3, 4, 5, 6])).0, whole);
}

#[test]
fn empty_body_is_refused() {
    assert_eq!(refusal(decode_16k_mono_audio(&[])), "request body is empty");
}

#[test]
fn odd_pcm_body_is_refused() {
    let text = "raw PCM body must contain an even number of bytes";
    assert_eq!(refusal(decode_16k_mono_audio(&[1, 2, 3])), text);
    assert_eq!(refusal(decode_16k_mono_audio(&[1])), text);
    assert_eq!(refusal(decode_16k_mono_audio(b"RIF")), text);
}

#[test]
fn pcm_without_samples_is_refused() {
    assert_eq!(refusal(decode_16k_mono_pcm_s16le(&[])), "raw PCM body contains no samples");
}

#[test]
fn riff_bodies_are_never_pcm() {
    let text = "request body is not a valid WAV file";
    assert_eq!(refusal(decode_16k_mono_audio(b"RIFF")), text);
    assert_eq!(refusal(decode_16k_mono_audio(b"RIFFab")), text);
    assert_eq!(refusal(decode_16k_mono_audio(b"RIFF\x04\0\0\0WAVE")), text);
    assert_eq!(refusal(decode_16k_mono_wav(&[])), text);
    assert_eq!(numbers(decode_16k_mono_audio(b"RIFE")).0, vec![0x4952, 0x4546]);
}

#[test]
fn wav_in_8_bits_is_read() {
    let body = wav(spec(1, 16_000, 8, false), &[0, 127, -128, 1]);
    assert_eq!(numbers(decode_16k_mono_audio(&body)), (vec![0, 127, -128, 1], 127));
}

#[test]
fn wav_in_16_bits_is_read() {
    let body = wav(spec(1, 16_000, 16, false), &[0, 32_767, -32_768, 5]);
    assert_eq!(numbers(decode_16k_mono_audio(&body)), (vec![0, 32_767, -32_768, 5], 32_767));
    assert_eq!(numbers(decode_16k_mono_wav(&body)), (vec![0, 32_767, -32_768, 5], 32_767));
}

#[test]
fn wav_in_24_bits_is_read() {
    let body = wav(spec(1, 16_000, 24, false), &[7, 8_388_607, -8_388_608]);
    assert_eq!(
        numbers(decode_16k_mono_audio(&body)),
        (vec![7, 8_388_607, -8_388_608], 8_388_607)
    );
}

#[test]
fn wav_in_32_bits_is_read() {
    let body = wav(spec(1, 16_000, 32, false), &[i32::MAX, i32::MIN, 9]);
    assert_eq!(numbers(decode_16k_mono_audio(&body)), (vec![i32::MAX, i32::MIN, 9], i32::MAX));
}

#[test]
fn wav_in_floats_is_read() {
    match decode_16k_mono_audio(&float_wav(&[0.25, -1.0, 3.5])) {
        Ok(Decoded::Floats { floats }) => {
            assert_eq!(floats, vec![Scalar::F32(0.25), Scalar::F32(-1.0), Scalar::F32(3.5)]);
        }
        Ok(Decoded::Scaled { .. }) => panic!("whole numbers"),
        Err(err) => panic!("{}", err.message()),
    }
}

#[test]
fn stereo_wav_is_refused() {
    let body = wav(spec(2, 16_000, 16, false), &[1, 2]);
    assert_eq!(refusal(decode_16k_mono_audio(&body)), "expected mono WAV audio, got 2 channels");
}

#[test]
fn wav_of_another_rate_is_refused() {
    let body = wav(spec(1, 44_100, 16, false), &[1, 2]);
    assert_eq!(
        refusal(decode_16k_mono_audio(&body)),
        "expected 16000 Hz WAV audio, got 44100 Hz"
    );
}

#[test]
fn channels_are_looked_at_before_the_rate() {
    let body = wav(spec(3, 8_000, 16, false), &[1, 2, 3]);
    assert_eq!(refusal(decode_16k_mono_audio(&body)), "expected mono WAV audio, got 3 channels");
}

#[test]
fn wav_without_samples_is_refused() {
    let text = "WAV file contains no samples";
    assert_eq!(refusal(decode_16k_mono_audio(&wav(spec(1, 16_000, 16, false), &[]))), text);
    assert_eq!(refusal(decode_16k_mono_audio(&wav(spec(1, 16_000, 8, false), &[]))), text);
    assert_eq!(refusal(decode_16k_mono_audio(&wav(spec(1, 16_000, 32, false), &[]))), text);
    assert_eq!(refusal(decode_16k_mono_audio(&float_wav(&[]))), text);
}

#[test]
fn wav_that_ends_early_is_refused() {
    let mut body = wav(spec(1, 16_000, 16, false), &[1, 2, 3]);
    body.pop();
    assert_eq!(refusal(decode_16k_mono_audio(&body)), "Failed to read enough bytes.");
    let mut body = float_wav(&[1.0]);
    body.pop();
    assert_eq!(refusal(decode_16k_mono_audio(&body)), "Failed to read enough bytes.");
}

#[test]
fn headers_decide_how_samples_are_read() {
    let reading = |header| match choose_reading(header) {
        Ok(reading) => reading,
        Err(err) => panic!("{}", err.message()),
    };
    assert_eq!(reading(Some(header(1, 16_000, 8, false))), Reading::Bytes);
    assert_eq!(reading(Some(header(1, 16_000, 16, false))), Reading::Shorts);
    let full_scale = 8_388_607;
    assert_eq!(reading(Some(header(1, 16_000, 24, false))), Reading::Longs { full_scale });
    let full_scale = 2_147_483_647;
    assert_eq!(reading(Some(header(1, 16_000, 32, false))), Reading::Longs { full_scale });
    assert_eq!(reading(Some(header(1, 16_000, 32, true))), Reading::Floats);
    assert_eq!(reading(Some(header(1, 16_000, 8, true))), Reading::Floats);
}

#[test]
fn headers_may_be_refused() {
    let text = |header| match choose_reading(header) {
        Ok(_) => panic!("taken"),
        Err(err) => err.message(),
    };
    assert_eq!(text(None), "request body is not a valid WAV file");
    let odd_depth = Some(header(1, 16_000, 12, false));
    assert_eq!(text(odd_depth), "unsupported integer WAV bit depth: 12");
    let silent = Some(header(0, 16_000, 16, false));
    assert_eq!(text(silent), "expected mono WAV audio, got 0 channels");
    let slow = Some(header(1, 0, 16, true));
    assert_eq!(text(slow), "expected 16000 Hz WAV audio, got 0 Hz");
}

#[test]
fn samples_that_were_read_are_taken() {
    assert_eq!(numbers(accept_scaled(Ok(vec![3, -4]), 127)), (vec![3, -4], 127));
    assert_eq!(refusal(accept_scaled(Ok(vec![]), 127)), "WAV file contains no samples");
    assert_eq!(refusal(accept_scaled(Err("broken".to_string()), 127)), "broken");
    assert_eq!(refusal(accept_floats(Ok(vec![]))), "WAV file contains no samples");
    assert_eq!(refusal(accept_floats(Err("broken".to_string()))), "broken");
    assert_eq!(widen_i8(Ok(vec![-128, 127])), Ok(vec![-128, 127]));
    assert_eq!(widen_i16(Ok(vec![-32_768, 32_767])), Ok(vec![-32_768, 32_767]));
    assert_eq!(widen_i8(Err("broken".to_string())), Err("broken".to_string()));
    assert_eq!(widen_i16(Err("broken".to_string())), Err("broken".to_string()));
}

/// A WAV file whose header says no more than it must.
fn plain_wav(file_size: u32, bare: &[u8], rest: &[u8]) -> Vec<u8> {
    let mut body = b"RIFF".to_vec();
    body.extend_from_slice(&file_size.to_le_bytes());
    body.extend_from_slice(b"WAVEfmt ");
    body.extend_from_slice(&16u32.to_le_bytes());
    body.extend_from_slice(&[1, 0, 1, 0]);
    body.extend_from_slice(&16_000u32.to_le_bytes());
    body.extend_from_slice(&32_000u32.to_le_bytes());
    body.extend_from_slice(&[2, 0, 16, 0]);
    body.extend_from_slice(b"data");
    body.extend_from_slice(&(bare.len() as u32).to_le_bytes());
    body.extend_from_slice(bare);
    body.extend_from_slice(rest);
    body
}

#[test]
fn plain_wav_is_decoded_as_its_bare_samples() {
    let bare: Vec<u8> = (0..=255u8).chain([0x34, 0x12, 0xff, 0x7f, 0x00, 0x80]).collect();
    let expected = numbers(decode_16k_mono_pcm_s16le(&bare));
    let body = plain_wav(36 + bare.len() as u32, &bare, &[]);
    assert_eq!(&body[8..40], &[
        0x57, 0x41, 0x56, 0x45, 0x66, 0x6d, 0x74, 0x20, 0x10, 0, 0, 0, 1, 0, 1, 0, 0x80, 0x3e, 0,
        0, 0, 0x7d, 0, 0, 2, 0, 0x10, 0, 0x64, 0x61, 0x74, 0x61,
    ]);
    assert_eq!(numbers(decode_16k_mono_wav(&body)), expected);
    assert_eq!(numbers(decode_16k_mono_audio(&body)), expected);
    assert_eq!(numbers(decode_16k_mono_audio(&plain_wav(0, &bare, &[]))), expected);
    assert_eq!(numbers(decode_16k_mono_audio(&plain_wav(7, &bare, &[1, 2, 3]))), expected);
}

#[test]
fn plain_wav_without_samples_is_refused() {
    let text = "WAV file contains no samples";
    assert_eq!(refusal(decode_16k_mono_audio(&plain_wav(36, &[], &[]))), text);
    assert_eq!(refusal(decode_16k_mono_audio(&plain_wav(36, &[], &[1, 2]))), text);
}
