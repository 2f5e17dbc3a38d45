use ga_sim::wav::{encode_mono_f32_wav, parse_wav_4ch_f32, read_u16_le, read_u32_le, WavError};

fn chunk(id: &[u8; 4], payload: &[u8]) -> Vec<u8> {
    let mut out = id.to_vec();
    out.extend_from_slice(&(payload.len() as u32).to_le_bytes());
    out.extend_from_slice(payload);
    if payload.len() % 2 == 1 {
        out.push(0);
    }
    out
}

fn fmt_payload(tag: u16, channels: u16, rate: u32, block_align: u16, bits: u16) -> Vec<u8> {
    let mut f = Vec::new();
    f.extend_from_slice(&tag.to_le_bytes());
    f.extend_from_slice(&channels.to_le_bytes());
    f.extend_from_slice(&rate.to_le_bytes());
    f.extend_from_slice(&(rate * 16).to_le_bytes());
    f.extend_from_slice(&block_align.to_le_bytes());
    f.extend_from_slice(&bits.to_le_bytes());
    f
}

fn riff(chunks: &[Vec<u8>]) -> Vec<u8> {
    let body: Vec<u8> = chunks.concat();
    let mut out = b"RIFF".to_vec();
    out.extend_from_slice(&((body.len() + 4) as u32).to_le_bytes());
    out.extend_from_slice(b"WAVE");
    out.extend_from_slice(&body);
    out
}

fn frames_bytes(frames: &[[f32; 4]]) -> Vec<u8> {
    let mut d = Vec::new();
    for f in frames {
        for s in f {
            d.extend_from_slice(&s.to_le_bytes());
        }
    }
    d
}

fn float_wav(frames: &[[f32; 4]]) -> Vec<u8> {
    riff(&[chunk(b"fmt ", &fmt_payload(3, 4, 44100, 16, 32)), chunk(b"data", &frames_bytes(frames))])
}

fn err_of(bytes: &[u8]) -> WavError {
    match parse_wav_4ch_f32(bytes) {
        Ok(_) => panic!("expected an error"),
        Err(e) => e,
    }
}

#[test]
fn read_u16_le_reads_little_endian() {
    assert_eq!(read_u16_le(&[0x34, 0x12], 0), Ok(0x1234));
    assert_eq!(read_u16_le(&[0, 0xff, 0x01], 1), Ok(0x01ff));
    assert_eq!(read_u16_le(&[0x34], 0), Err(WavError::UnexpectedEof));
    assert_eq!(read_u16_le(&[0x34, 0x12], 1), Err(WavError::UnexpectedEof));
    assert_eq!(read_u16_le(&[0x34, 0x12], usize::MAX), Err(WavError::UnexpectedEof));
}

#[test]
fn read_u32_le_reads_little_endian() {
    assert_eq!(read_u32_le(&[0x78, 0x56, 0x34, 0x12], 0), Ok(0x1234_5678));
    assert_eq!(read_u32_le(&[9, 0xff, 0xff, 0xff, 0xff], 1), Ok(u32::MAX));
    assert_eq!(read_u32_le(&[1, 2, 3], 0), Err(WavError::UnexpectedEof));
    assert_eq!(read_u32_le(&[1, 2, 3, 4], 1), Err(WavError::UnexpectedEof));
}

#[test]
fn parse_float_wav_gives_rate_and_frames() {
    let frames = [[0.5f32, -1.0, 0.25, 2.0], [1.5, 0.0, -0.125, 3.0]];
    let w = parse_wav_4ch_f32(&float_wav(&frames)).unwrap();
    assert_eq!(w.sample_rate, 44100);
    assert_eq!(w.frames.len(), 2);
    for (got, want) in w.frames.iter().zip(frames.iter()) {
        for c in 0..4 {
            assert_eq!(f32::from_bits(got[c]), want[c]);
        }
    }
}

#[test]
fn parse_empty_data_chunk_gives_no_frames() {
    let w = parse_wav_4ch_f32(&float_wav(&[])).unwrap();
    assert_eq!(w.frames.len(), 0);
}

#[test]
fn parse_extensible_float_wav() {
    let mut fmt = fmt_payload(0xFFFE, 4, 48000, 16, 32);
    fmt.extend_from_slice(&22u16.to_le_bytes());
    fmt.extend_from_slice(&32u16.to_le_bytes());
    fmt.extend_from_slice(&0u32.to_le_bytes());
    fmt.extend_from_slice(&3u32.to_le_bytes());
    fmt.extend_from_slice(&[0u8; 12]);
    assert_eq!(fmt.len(), 40);
    let bytes = riff(&[chunk(b"fmt ", &fmt), chunk(b"data", &frames_bytes(&[[1.0, 2.0, 3.0, 4.0]]))]);
    let w = parse_wav_4ch_f32(&bytes).unwrap();
    assert_eq!(w.sample_rate, 48000);
    assert_eq!(f32::from_bits(w.frames[0][3]), 4.0);

    let mut pcm = fmt.clone();
    pcm[24] = 1;
    let bytes = riff(&[chunk(b"fmt ", &pcm), chunk(b"data", &[])]);
    assert_eq!(err_of(&bytes), WavError::NotIeeeFloat(0xFFFE));

    let short = fmt[..20].to_vec();
    let bytes = riff(&[chunk(b"fmt ", &short), chunk(b"data", &[])]);
    assert_eq!(err_of(&bytes), WavError::ExtensibleFmtTooShort);
}

#[test]
fn parse_skips_padding_and_unknown_chunks_and_keeps_last() {
    let first = frames_bytes(&[[9.0, 9.0, 9.0, 9.0]]);
    let second = frames_bytes(&[[1.0, 2.0, 3.0, 4.0], [5.0, 6.0, 7.0, 8.0]]);
    let bytes = riff(&[
        chunk(b"LIST", &[1, 2, 3]),
        chunk(b"data", &first),
        chunk(b"fmt ", &fmt_payload(3, 4, 8000, 16, 32)),
        chunk(b"junk", &[7]),
        chunk(b"data", &second),
    ]);
    let w = parse_wav_4ch_f32(&bytes).unwrap();
    assert_eq!(w.sample_rate, 8000);
    assert_eq!(w.frames.len(), 2);
    assert_eq!(f32::from_bits(w.frames[1][0]), 5.0);
}

#[test]
fn parse_errors() {
    assert_eq!(err_of(b"RIFF\0\0\0\0WAV"), WavError::NotRiffWave);
    assert_eq!(err_of(b"RIFX\0\0\0\0WAVE"), WavError::NotRiffWave);
    assert_eq!(err_of(b"RIFF\0\0\0\0WAVX"), WavError::NotRiffWave);
    assert_eq!(err_of(&riff(&[])), WavError::MissingFmtChunk);
    assert_eq!(err_of(&riff(&[chunk(b"fmt ", &fmt_payload(3, 4, 1, 16, 32))])), WavError::MissingDataChunk);
    assert_eq!(err_of(&riff(&[chunk(b"data", &[])])), WavError::MissingFmtChunk);

    let mut truncated = float_wav(&[[0.0; 4]]);
    truncated.pop();
    assert_eq!(err_of(&truncated), WavError::TruncatedChunk);

    let mut huge = riff(&[]);
    huge.extend_from_slice(b"data");
    huge.extend_from_slice(&u32::MAX.to_le_bytes());
    assert_eq!(err_of(&huge), WavError::TruncatedChunk);

    let short = riff(&[chunk(b"fmt ", &[3, 0, 4, 0]), chunk(b"data", &[])]);
    assert_eq!(err_of(&short), WavError::FmtChunkTooShort);

    let two = riff(&[chunk(b"fmt ", &fmt_payload(3, 2, 1, 16, 32)), chunk(b"data", &[])]);
    assert_eq!(err_of(&two), WavError::ChannelCount(2));
    let bits = riff(&[chunk(b"fmt ", &fmt_payload(3, 4, 1, 16, 16)), chunk(b"data", &[])]);
    assert_eq!(err_of(&bits), WavError::BitsPerSample(16));
    let align = riff(&[chunk(b"fmt ", &fmt_payload(3, 4, 1, 8, 32)), chunk(b"data", &[])]);
    assert_eq!(err_of(&align), WavError::BlockAlign(8));
    let pcm = riff(&[chunk(b"fmt ", &fmt_payload(1, 4, 1, 16, 32)), chunk(b"data", &[])]);
    assert_eq!(err_of(&pcm), WavError::NotIeeeFloat(1));
    let partial = riff(&[chunk(b"fmt ", &fmt_payload(3, 4, 1, 16, 32)), chunk(b"data", &[0u8; 20])]);
    assert_eq!(err_of(&partial), WavError::PartialFrame);
}

#[test]
fn parse_channel_check_comes_before_format_tag() {
    let bytes = riff(&[chunk(b"fmt ", &fmt_payload(1, 2, 1, 8, 16)), chunk(b"data", &[1])]);
    assert_eq!(err_of(&bytes), WavError::ChannelCount(2));
}

#[test]
fn encode_writes_header_and_samples() {
    let samples = [1.0f32.to_bits(), (-0.5f32).to_bits()];
    let bytes = encode_mono_f32_wav(44100, &samples).unwrap();
    let mut want = b"RIFF".to_vec();
    want.extend_from_slice(&44u32.to_le_bytes());
    want.extend_from_slice(b"WAVEfmt ");
    want.extend_from_slice(&16u32.to_le_bytes());
    want.extend_from_slice(&3u16.to_le_bytes());
    want.extend_from_slice(&1u16.to_le_bytes());
    want.extend_from_slice(&44100u32.to_le_bytes());
    want.extend_from_slice(&176400u32.to_le_bytes());
    want.extend_from_slice(&4u16.to_le_bytes());
    want.extend_from_slice(&32u16.to_le_bytes());
    want.extend_from_slice(b"data");
    want.extend_from_slice(&8u32.to_le_bytes());
    want.extend_from_slice(&1.0f32.to_le_bytes());
    want.extend_from_slice(&(-0.5f32).to_le_bytes());
    assert_eq!(bytes, want);
    assert_eq!(encode_mono_f32_wav(8000, &[]).unwrap().len(), 44);
}

#[test]
fn encode_rejects_too_high_sample_rate() {
    assert_eq!(encode_mono_f32_wav(u32::MAX / 4 + 1, &[0]), Err(WavError::SampleRateTooLarge));
    assert!(encode_mono_f32_wav(u32::MAX / 4, &[0]).is_ok());
}

#[test]
fn encoded_file_reads_back() {
    let samples: Vec<u32> = vec![0x3f80_0000, 7, u32::MAX];
    let bytes = encode_mono_f32_wav(22050, &samples).unwrap();
    assert_eq!(read_u32_le(&bytes, 16), Ok(16));
    assert_eq!(read_u16_le(&bytes, 20), Ok(3));
    assert_eq!(read_u16_le(&bytes, 22), Ok(1));
    assert_eq!(read_u32_le(&bytes, 24), Ok(22050));
    assert_eq!(read_u32_le(&bytes, 40), Ok(12));
    for (i, s) in samples.iter().enumerate() {
        assert_eq!(read_u32_le(&bytes, 44 + 4 * i), Ok(*s));
    }
    assert_eq!(parse_wav_4ch_f32(&bytes).err(), Some(WavError::ChannelCount(1)));
}
