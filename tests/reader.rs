use pcm_reader::{
    parse_chunk, parse_fmt, parse_riff_header, scan_chunks, AudioFormat, ChunkId, PcmReader,
    RiffIdentifier, Sample, WavError,
};

fn le16(v: u16) -> [u8; 2] {
    v.to_le_bytes()
}

fn le32(v: u32) -> [u8; 4] {
    v.to_le_bytes()
}

fn fmt_payload(tag: u16, channels: u16, rate: u32, bits: u16) -> Vec<u8> {
    let block = channels * (bits / 8);
    let mut p = Vec::new();
    p.extend_from_slice(&le16(tag));
    p.extend_from_slice(&le16(channels));
    p.extend_from_slice(&le32(rate));
    p.extend_from_slice(&le32(rate * block as u32));
    p.extend_from_slice(&le16(block));
    p.extend_from_slice(&le16(bits));
    p
}

fn chunk(id: &[u8; 4], payload: &[u8]) -> Vec<u8> {
    let mut c = id.to_vec();
    c.extend_from_slice(&le32(payload.len() as u32));
    c.extend_from_slice(payload);
    c
}

fn riff(form: &[u8; 4], chunks: &[Vec<u8>]) -> Vec<u8> {
    let body: Vec<u8> = chunks.concat();
    let mut b = b"RIFF".to_vec();
    b.extend_from_slice(&le32((body.len() + 4) as u32));
    b.extend_from_slice(form);
    b.extend_from_slice(&body);
    b
}

fn wave(tag: u16, channels: u16, bits: u16, data: &[u8]) -> Vec<u8> {
    riff(b"WAVE", &[chunk(b"fmt ", &fmt_payload(tag, channels, 44100, bits)), chunk(b"data", data)])
}

fn to_f32(s: Sample) -> f32 {
    match s {
        Sample::Pcm { value, bits } => {
            let v = value as f64 / (1u64 << (bits - 1)) as f64;
            v.clamp(-1.0, 1.0) as f32
        }
        Sample::Float32(b) => f32::from_bits(b),
        Sample::Float64(b) => f64::from_bits(b) as f32,
    }
}

fn scenario_bytes(size: u32) -> Vec<u8> {
    let mut b = b"RIFF".to_vec();
    b.extend_from_slice(&le32(size));
    b.extend_from_slice(b"WAVE");
    b.extend_from_slice(b"fmt ");
    b.extend_from_slice(&le32(16));
    b.extend_from_slice(&[1, 0, 1, 0]);
    b.extend_from_slice(&le32(48000));
    b.extend_from_slice(&le32(96000));
    b.extend_from_slice(&[2, 0, 16, 0]);
    b.extend_from_slice(b"data");
    b.extend_from_slice(&le32(4));
    b.extend_from_slice(&[0x00, 0x40, 0x00, 0xC0]);
    b
}

#[test]
fn mono_16bit_scenario() {
    let buf = scenario_bytes(40);
    let reader = PcmReader::read_bytes(&buf).unwrap();
    assert_eq!(reader.channel_count(), 1);
    assert_eq!(reader.sample_rate(), 48000);
    assert_eq!(reader.bit_depth(), 16);
    assert_eq!(reader.frame_count(), 2);
    assert_eq!(reader.read_sample(0, 0), Ok(Sample::Pcm { value: 16384, bits: 16 }));
    assert_eq!(reader.read_sample(0, 1), Ok(Sample::Pcm { value: -16384, bits: 16 }));
    assert!((to_f32(reader.read_sample(0, 0).unwrap()) - 0.5).abs() < 1e-6);
    assert!((to_f32(reader.read_sample(0, 1).unwrap()) + 0.5).abs() < 1e-6);
}

#[test]
fn riff_size_other_than_length_less_eight_is_rejected() {
    let buf = scenario_bytes(36);
    assert_eq!(buf.len(), 48);
    assert_eq!(PcmReader::read_bytes(&buf).err(), Some(WavError::MalformedHeader));
}

#[test]
fn missing_riff_tag_is_malformed_header() {
    let mut buf = wave(1, 1, 16, &[0, 0]);
    buf[0] = b'X';
    assert_eq!(PcmReader::read_bytes(&buf).err(), Some(WavError::MalformedHeader));
    assert_eq!(parse_riff_header(&buf).err(), Some(WavError::MalformedHeader));
}

#[test]
fn short_buffer_is_malformed_header() {
    assert_eq!(PcmReader::read_bytes(b"RIFF\x04\x00\x00\x00WAV").err(), Some(WavError::MalformedHeader));
    assert_eq!(PcmReader::read_bytes(&[]).err(), Some(WavError::MalformedHeader));
}

#[test]
fn non_wave_form_is_malformed_header() {
    let buf = riff(b"AVI ", &[chunk(b"fmt ", &fmt_payload(1, 1, 44100, 16)), chunk(b"data", &[0, 0])]);
    assert_eq!(parse_riff_header(&buf).unwrap().1.id, RiffIdentifier::Avi);
    assert_eq!(PcmReader::read_bytes(&buf).err(), Some(WavError::MalformedHeader));
}

#[test]
fn riff_header_fields() {
    let buf = wave(1, 1, 16, &[0, 0]);
    let (rest, header) = parse_riff_header(&buf).unwrap();
    assert_eq!(header.size as usize, buf.len() - 8);
    assert_eq!(header.id, RiffIdentifier::Wave);
    assert_eq!(rest, &buf[12..]);
}

#[test]
fn oversized_chunk_is_truncated() {
    let mut buf = riff(b"WAVE", &[chunk(b"fmt ", &fmt_payload(1, 1, 44100, 16)), chunk(b"data", &[0, 0, 0, 0])]);
    let n = buf.len();
    buf[n - 8..n - 4].copy_from_slice(&le32(5));
    assert_eq!(PcmReader::read_bytes(&buf).err(), Some(WavError::TruncatedChunk));
}

#[test]
fn parse_chunk_reads_one_chunk() {
    let mut bytes = chunk(b"LIST", &[1, 2, 3]);
    bytes.extend_from_slice(&[9, 9]);
    let (c, rest) = parse_chunk(&bytes).unwrap().unwrap();
    assert_eq!(c.id, ChunkId::List);
    assert_eq!(c.size, 3);
    assert_eq!(c.data, &[1, 2, 3]);
    assert_eq!(rest, &[9, 9]);
    assert!(parse_chunk(&bytes[..7]).unwrap().is_none());
    assert_eq!(parse_chunk(&bytes[..10]).err(), Some(WavError::TruncatedChunk));
}

#[test]
fn scan_recognises_chunk_kinds() {
    let bytes = [
        chunk(b"fmt ", &[0; 16]),
        chunk(b"fact", &[0; 4]),
        chunk(b"PEAK", &[]),
        chunk(b"data", &[1, 2]),
        chunk(b"JUNK", &[3]),
        chunk(b"LIST", &[]),
        chunk(b"IDv3", &[]),
        chunk(b"abcd", &[7, 7]),
    ]
    .concat();
    let chunks = scan_chunks(&bytes).unwrap();
    let ids: Vec<ChunkId> = chunks.iter().map(|c| c.id).collect();
    assert_eq!(
        ids,
        vec![
            ChunkId::Fmt,
            ChunkId::Fact,
            ChunkId::Peak,
            ChunkId::Data,
            ChunkId::Junk,
            ChunkId::List,
            ChunkId::Id3,
            ChunkId::Unknown
        ]
    );
    assert_eq!(chunks[3].data, &[1, 2]);
    assert_eq!(chunks[7].data, &[7, 7]);
}

#[test]
fn scan_ignores_trailing_partial_header() {
    let mut bytes = chunk(b"data", &[1]);
    bytes.extend_from_slice(&[0, 0, 0]);
    assert_eq!(scan_chunks(&bytes).unwrap().len(), 1);
    assert_eq!(scan_chunks(&[]).unwrap().len(), 0);
}

#[test]
fn ima_adpcm_parses_but_does_not_decode() {
    let buf = wave(0x11, 2, 8, &[0; 8]);
    let reader = PcmReader::read_bytes(&buf).unwrap();
    assert_eq!(reader.audio_format(), AudioFormat::ImaAdpcm);
    assert_eq!(reader.channel_count(), 2);
    assert_eq!(reader.frame_count(), 4);
    for f in 0..4 {
        for c in 0..2 {
            assert_eq!(reader.read_sample(c, f), Err(WavError::UnsupportedFormat));
        }
    }
}

#[test]
fn alaw_and_mulaw_do_not_decode() {
    for tag in [6u16, 7u16] {
        let reader_buf = wave(tag, 1, 8, &[0x55]);
        let reader = PcmReader::read_bytes(&reader_buf).unwrap();
        assert_eq!(reader.read_sample(0, 0), Err(WavError::UnsupportedFormat));
    }
}

#[test]
fn data_without_fmt_is_missing_chunk() {
    let buf = riff(b"WAVE", &[chunk(b"data", &[0, 0])]);
    assert_eq!(PcmReader::read_bytes(&buf).err(), Some(WavError::MissingRequiredChunk));
}

#[test]
fn fmt_without_data_is_missing_chunk() {
    let buf = riff(b"WAVE", &[chunk(b"fmt ", &fmt_payload(1, 1, 44100, 16)), chunk(b"JUNK", &[0])]);
    assert_eq!(PcmReader::read_bytes(&buf).err(), Some(WavError::MissingRequiredChunk));
}

#[test]
fn data_may_precede_fmt() {
    let buf = riff(b"WAVE", &[chunk(b"data", &[0xff, 0x7f]), chunk(b"fmt ", &fmt_payload(1, 1, 8000, 16))]);
    let reader = PcmReader::read_bytes(&buf).unwrap();
    assert_eq!(reader.read_sample(0, 0), Ok(Sample::Pcm { value: 32767, bits: 16 }));
}

#[test]
fn short_fmt_is_malformed_chunk() {
    assert_eq!(parse_fmt(&[1, 0, 1, 0]), Err(WavError::MalformedChunk));
    let buf = riff(b"WAVE", &[chunk(b"fmt ", &fmt_payload(1, 1, 44100, 16)[..15]), chunk(b"data", &[0, 0])]);
    assert_eq!(PcmReader::read_bytes(&buf).err(), Some(WavError::MalformedChunk));
}

#[test]
fn unknown_format_tag_is_unsupported() {
    assert_eq!(parse_fmt(&fmt_payload(2, 1, 44100, 16)), Err(WavError::UnsupportedFormat));
    assert_eq!(parse_fmt(&fmt_payload(0x1234, 1, 44100, 16)), Err(WavError::UnsupportedFormat));
    let buf = wave(0xF1AC, 1, 16, &[0, 0]);
    assert_eq!(PcmReader::read_bytes(&buf).err(), Some(WavError::UnsupportedFormat));
}

#[test]
fn impossible_layout_is_malformed_chunk() {
    assert_eq!(parse_fmt(&fmt_payload(1, 0, 44100, 16)), Err(WavError::MalformedChunk));
    assert_eq!(parse_fmt(&fmt_payload(1, 1, 44100, 12)), Err(WavError::MalformedChunk));
    assert_eq!(parse_fmt(&fmt_payload(1, 1, 44100, 0)), Err(WavError::MalformedChunk));
}

#[test]
fn extended_fmt_payload_is_accepted() {
    let mut p = fmt_payload(3, 2, 96000, 32);
    p.extend_from_slice(&[0, 0]);
    let specs = parse_fmt(&p).unwrap();
    assert_eq!(specs.audio_format, AudioFormat::IeeeFloat);
    assert_eq!(specs.num_channels, 2);
    assert_eq!(specs.sample_rate, 96000);
    assert_eq!(specs.bit_depth, 32);
}

#[test]
fn indices_are_bounded_by_channels_and_frames() {
    let n_ch: usize = 2;
    let m: usize = 3;
    let data: Vec<u8> = (0..(n_ch * m * 3) as u8).collect();
    let buf = wave(1, n_ch as u16, 24, &data);
    let reader = PcmReader::read_bytes(&buf).unwrap();
    assert_eq!(reader.frame_count(), m);
    for f in 0..m {
        for c in 0..n_ch {
            assert!(reader.read_sample(c, f).is_ok());
        }
    }
    assert_eq!(reader.read_sample(0, m), Err(WavError::IndexOutOfRange));
    assert_eq!(reader.read_sample(n_ch, 0), Err(WavError::IndexOutOfRange));
    let o = 3 * n_ch + 3;
    let expect = data[o] as i32 | (data[o + 1] as i32) << 8 | (data[o + 2] as i32) << 16;
    assert_eq!(reader.read_sample(1, 1), Ok(Sample::Pcm { value: expect, bits: 24 }));
}

#[test]
fn trailing_partial_frame_is_ignored() {
    let buf = wave(1, 2, 16, &[0; 9]);
    let reader = PcmReader::read_bytes(&buf).unwrap();
    assert_eq!(reader.frame_size(), 4);
    assert_eq!(reader.frame_count(), 2);
    assert_eq!(reader.read_sample(0, 2), Err(WavError::IndexOutOfRange));
}

#[test]
fn eight_bit_is_offset_binary() {
    let buf = wave(1, 1, 8, &[0, 128, 255, 64]);
    let reader = PcmReader::read_bytes(&buf).unwrap();
    let got: Vec<f32> = (0..4).map(|f| to_f32(reader.read_sample(0, f).unwrap())).collect();
    assert_eq!(got, vec![-1.0, 0.0, 127.0 / 128.0, -0.5]);
    assert_eq!(reader.read_sample(0, 2), Ok(Sample::Pcm { value: 127, bits: 8 }));
}

#[test]
fn integer_round_trip_within_one_step() {
    let values = [0.0f64, 0.5, -0.5, 0.25, -1.0, 0.999, -0.123];
    for bits in [16u16, 24, 32] {
        let scale = (1u64 << (bits - 1)) as f64;
        let mut data = Vec::new();
        for v in values {
            let q = (v * scale).round().clamp(-scale, scale - 1.0) as i64;
            let bytes = q.to_le_bytes();
            data.extend_from_slice(&bytes[..(bits / 8) as usize]);
        }
        let buf = wave(1, 1, bits, &data);
        let reader = PcmReader::read_bytes(&buf).unwrap();
        assert_eq!(reader.frame_count(), values.len());
        for (f, v) in values.iter().enumerate() {
            let got = match reader.read_sample(0, f).unwrap() {
                Sample::Pcm { value, bits: b } => {
                    assert_eq!(b, bits);
                    value as f64 / scale
                }
                other => panic!("not an integer sample: {:?}", other),
            };
            assert!((got - v).abs() <= 1.0 / scale, "bits {} frame {}", bits, f);
        }
    }
}

#[test]
fn extreme_integer_values() {
    let buf = wave(1, 1, 32, &[0, 0, 0, 0x80, 0xff, 0xff, 0xff, 0x7f]);
    let reader = PcmReader::read_bytes(&buf).unwrap();
    assert_eq!(reader.read_sample(0, 0), Ok(Sample::Pcm { value: i32::MIN, bits: 32 }));
    assert_eq!(reader.read_sample(0, 1), Ok(Sample::Pcm { value: i32::MAX, bits: 32 }));
    assert_eq!(to_f32(reader.read_sample(0, 0).unwrap()), -1.0);
    let buf = wave(1, 1, 24, &[0, 0, 0x80]);
    let reader = PcmReader::read_bytes(&buf).unwrap();
    assert_eq!(reader.read_sample(0, 0), Ok(Sample::Pcm { value: -8388608, bits: 24 }));
}

#[test]
fn float_round_trip_is_exact() {
    let values = [0.0f32, 0.5, -0.75, 1.0e-3, 0.3];
    let data: Vec<u8> = values.iter().flat_map(|v| v.to_le_bytes()).collect();
    let reader_buf = wave(3, 1, 32, &data);
    let reader = PcmReader::read_bytes(&reader_buf).unwrap();
    for (f, v) in values.iter().enumerate() {
        assert_eq!(to_f32(reader.read_sample(0, f).unwrap()), *v);
    }
    let data64: Vec<u8> = values.iter().flat_map(|v| (*v as f64).to_le_bytes()).collect();
    let buf64 = wave(3, 1, 64, &data64);
    let reader64 = PcmReader::read_bytes(&buf64).unwrap();
    for (f, v) in values.iter().enumerate() {
        assert_eq!(to_f32(reader64.read_sample(0, f).unwrap()), *v);
    }
}

#[test]
fn unsupported_depths_do_not_decode() {
    let buf = wave(3, 1, 16, &[0, 0]);
    let reader = PcmReader::read_bytes(&buf).unwrap();
    assert_eq!(reader.read_sample(0, 0), Err(WavError::UnsupportedFormat));
    let buf = wave(1, 1, 40, &[0; 5]);
    let reader = PcmReader::read_bytes(&buf).unwrap();
    assert_eq!(reader.read_sample(0, 0), Err(WavError::UnsupportedFormat));
}

#[test]
fn last_fmt_and_data_chunks_win() {
    let buf = riff(
        b"WAVE",
        &[
            chunk(b"fmt ", &fmt_payload(1, 1, 8000, 8)),
            chunk(b"data", &[1]),
            chunk(b"fmt ", &fmt_payload(1, 1, 22050, 16)),
            chunk(b"data", &[0, 0x80, 1, 0]),
        ],
    );
    let reader = PcmReader::read_bytes(&buf).unwrap();
    assert_eq!(reader.sample_rate(), 22050);
    assert_eq!(reader.frame_count(), 2);
    assert_eq!(reader.read_sample(0, 0), Ok(Sample::Pcm { value: -32768, bits: 16 }));
    assert_eq!(reader.read_sample(0, 1), Ok(Sample::Pcm { value: 1, bits: 16 }));
}
