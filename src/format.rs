use vstd::prelude::*;

use crate::bytes::{le_u16_at, le_u32_at, read_le_u16, read_le_u32};
use crate::error::WavError;

verus! {

/// Length of the canonical `fmt ` payload; longer ones carry extra bytes that are ignored.
pub const FMT_PAYLOAD_LEN: usize = 16;

/// The format tag that opens a `fmt ` payload.
#[derive(Debug, Clone, Copy, PartialEq, Eq, Structural)]
pub enum WaveFormatTag {
    Unknown,
    LinearPcm,
    MicrosoftAdpcm,
    IeeeFloat,
    ALaw,
    MuLaw,
    OkiAdpcm,
    ImaAdpcm,
    YamahaAdpcm,
    Flac,
}

/// How the samples of the `data` chunk are encoded.
#[derive(Debug, Clone, Copy, PartialEq, Eq, Structural)]
pub enum AudioFormat {
    Unknown,
    LinearPcmLe,
    LinearPcmBe,
    IeeeFloat,
    ALaw,
    MuLaw,
    ImaAdpcm,
}

/// What a `fmt ` chunk says of the samples.
#[derive(Debug, Clone, Copy, PartialEq, Eq, Structural)]
pub struct PcmSpecs {
    pub audio_format: AudioFormat,
    pub num_channels: u16,
    pub sample_rate: u32,
    pub bit_depth: u16,
}

impl PcmSpecs {
    /// At least one channel, and whole bytes per sample.
    pub open spec fn wf(&self) -> bool {
        &&& self.num_channels >= 1
        &&& self.bit_depth >= 8
        &&& self.bit_depth % 8 == 0
    }

    /// Bytes that one sample of one channel takes.
    pub open spec fn sample_bytes(&self) -> int {
        self.bit_depth as int / 8
    }

    /// Bytes that one frame, a sample of each channel, takes.
    pub open spec fn frame_bytes(&self) -> int {
        self.num_channels as int * self.sample_bytes()
    }
}

pub open spec fn wave_format_tag_of(v: u16) -> WaveFormatTag {
    if v == 1 {
        WaveFormatTag::LinearPcm
    } else if v == 2 {
        WaveFormatTag::MicrosoftAdpcm
    } else if v == 3 {
        WaveFormatTag::IeeeFloat
    } else if v == 6 {
        WaveFormatTag::ALaw
    } else if v == 7 {
        WaveFormatTag::MuLaw
    } else if v == 0x10 {
        WaveFormatTag::OkiAdpcm
    } else if v == 0x11 {
        WaveFormatTag::ImaAdpcm
    } else if v == 0x20 {
        WaveFormatTag::YamahaAdpcm
    } else if v == 0xF1AC {
        WaveFormatTag::Flac
    } else {
        WaveFormatTag::Unknown
    }
}

pub open spec fn audio_format_of(t: WaveFormatTag) -> AudioFormat {
    match t {
        WaveFormatTag::LinearPcm => AudioFormat::LinearPcmLe,
        WaveFormatTag::IeeeFloat => AudioFormat::IeeeFloat,
        WaveFormatTag::ALaw => AudioFormat::ALaw,
        WaveFormatTag::MuLaw => AudioFormat::MuLaw,
        WaveFormatTag::ImaAdpcm => AudioFormat::ImaAdpcm,
        _ => AudioFormat::Unknown,
    }
}

/// The descriptor that the `fmt ` payload `s` gives, or why it gives none.
pub open spec fn fmt_of(s: Seq<u8>) -> Result<PcmSpecs, WavError> {
    if s.len() < 16 {
        Err(WavError::MalformedChunk)
    } else {
        let format = audio_format_of(wave_format_tag_of(le_u16_at(s, 0) as u16));
        let specs = PcmSpecs {
            audio_format: format,
            num_channels: le_u16_at(s, 2) as u16,
            sample_rate: le_u32_at(s, 4) as u32,
            bit_depth: le_u16_at(s, 14) as u16,
        };
        if format == AudioFormat::Unknown {
            Err(WavError::UnsupportedFormat)
        } else if !specs.wf() {
            Err(WavError::MalformedChunk)
        } else {
            Ok(specs)
        }
    }
}

impl WaveFormatTag {
    /// The tag that a format code names; codes not listed are `Unknown`.
    pub fn from_u16(v: u16) -> (r: WaveFormatTag)
        ensures
            r == wave_format_tag_of(v),
    {
        match v {
            1 => WaveFormatTag::LinearPcm,
            2 => WaveFormatTag::MicrosoftAdpcm,
            3 => WaveFormatTag::IeeeFloat,
            6 => WaveFormatTag::ALaw,
            7 => WaveFormatTag::MuLaw,
            0x10 => WaveFormatTag::OkiAdpcm,
            0x11 => WaveFormatTag::ImaAdpcm,
            0x20 => WaveFormatTag::YamahaAdpcm,
            0xF1AC => WaveFormatTag::Flac,
            _ => WaveFormatTag::Unknown,
        }
    }

    /// The encoding that this tag stands for; RIFF integers are little-endian.
    pub fn audio_format(self) -> (r: AudioFormat)
        ensures
            r == audio_format_of(self),
    {
        match self {
            WaveFormatTag::LinearPcm => AudioFormat::LinearPcmLe,
            WaveFormatTag::IeeeFloat => AudioFormat::IeeeFloat,
            WaveFormatTag::ALaw => AudioFormat::ALaw,
            WaveFormatTag::MuLaw => AudioFormat::MuLaw,
            WaveFormatTag::ImaAdpcm => AudioFormat::ImaAdpcm,
            _ => AudioFormat::Unknown,
        }
    }
}

/// Decodes the payload of a `fmt ` chunk. Byte rate and block alignment are
/// read past and not kept: both follow from the other fields.
pub fn parse_fmt(input: &[u8]) -> (r: Result<PcmSpecs, WavError>)
    ensures
        r == fmt_of(input@),
        r is Ok ==> r->Ok_0.wf(),
{
    if input.len() < FMT_PAYLOAD_LEN {
        return Err(WavError::MalformedChunk);
    }
    let tag = WaveFormatTag::from_u16(read_le_u16(input, 0));
    let audio_format = tag.audio_format();
    let num_channels = read_le_u16(input, 2);
    let sample_rate = read_le_u32(input, 4);
    let _bytes_per_second = read_le_u32(input, 8);
    let _block_size = read_le_u16(input, 12);
    let bit_depth = read_le_u16(input, 14);
    let specs = PcmSpecs { audio_format, num_channels, sample_rate, bit_depth };
    if audio_format == AudioFormat::Unknown {
        Err(WavError::UnsupportedFormat)
    } else if num_channels == 0 || bit_depth < 8 || bit_depth % 8 != 0 {
        Err(WavError::MalformedChunk)
    } else {
        Ok(specs)
    }
}

} // verus!
