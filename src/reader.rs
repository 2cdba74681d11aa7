use vstd::prelude::*;
use vstd::slice::slice_subrange;

use crate::bytes::{le_u16_at, le_u24_at, le_u32_at, le_u64_at, read_le_u16, read_le_u24, read_le_u32, read_le_u64};
use crate::error::WavError;
use crate::format::{parse_fmt, fmt_of, AudioFormat, PcmSpecs};
use crate::riff::{
    chunks_of, has_riff_header, parse_riff_header, riff_header_of, scan_chunks, Chunk, ChunkId,
    RiffIdentifier,
};

verus! {

/// One decoded sample. An integer sample `Pcm { value, bits }` stands for the
/// amplitude `value / 2^(bits - 1)`, which lies in `[-1, 1)`; a float sample
/// holds the IEEE-754 bit pattern as stored.
#[derive(Debug, Clone, Copy, PartialEq, Eq, Structural)]
pub enum Sample {
    Pcm { value: i32, bits: u16 },
    Float32(u32),
    Float64(u64),
}

/// Reads `u` as a two's-complement integer of `2^bits` values, `half = 2^(bits - 1)`.
pub open spec fn signed_of(u: int, half: int) -> int {
    if u >= half {
        u - 2 * half
    } else {
        u
    }
}

/// The sample stored at byte `off` of `s` in the given encoding and depth.
pub open spec fn sample_at(format: AudioFormat, bit_depth: u16, s: Seq<u8>, off: int) -> Result<Sample, WavError> {
    match format {
        AudioFormat::LinearPcmLe => {
            if bit_depth == 8 {
                Ok(Sample::Pcm { value: (s[off] - 128) as i32, bits: 8 })
            } else if bit_depth == 16 {
                Ok(Sample::Pcm { value: signed_of(le_u16_at(s, off), 0x8000) as i32, bits: 16 })
            } else if bit_depth == 24 {
                Ok(Sample::Pcm { value: signed_of(le_u24_at(s, off), 0x80_0000) as i32, bits: 24 })
            } else if bit_depth == 32 {
                Ok(Sample::Pcm { value: signed_of(le_u32_at(s, off), 0x8000_0000) as i32, bits: 32 })
            } else {
                Err(WavError::UnsupportedFormat)
            }
        },
        AudioFormat::IeeeFloat => {
            if bit_depth == 32 {
                Ok(Sample::Float32(le_u32_at(s, off) as u32))
            } else if bit_depth == 64 {
                Ok(Sample::Float64(le_u64_at(s, off) as u64))
            } else {
                Err(WavError::UnsupportedFormat)
            }
        },
        _ => Err(WavError::UnsupportedFormat),
    }
}

/// Whole frames in `len` bytes of sample data; a trailing partial frame is dropped.
pub open spec fn frame_count_of(specs: PcmSpecs, len: int) -> int {
    len / specs.frame_bytes()
}

/// The sample of `channel` in frame `frame`, or why there is none.
pub open spec fn sample_of(specs: PcmSpecs, data: Seq<u8>, channel: int, frame: int) -> Result<Sample, WavError> {
    if channel >= specs.num_channels || frame >= frame_count_of(specs, data.len() as int) {
        Err(WavError::IndexOutOfRange)
    } else {
        sample_at(
            specs.audio_format,
            specs.bit_depth,
            data,
            frame * specs.frame_bytes() + channel * specs.sample_bytes(),
        )
    }
}

/// Folds the chunks, in order, into the last format descriptor and the last
/// sample payload seen; a `fmt ` payload that does not decode is an error.
pub open spec fn collect_chunks(cs: Seq<(ChunkId, Seq<u8>)>) -> Result<(Option<PcmSpecs>, Option<Seq<u8>>), WavError>
    decreases cs.len(),
{
    if cs.len() == 0 {
        Ok((None, None))
    } else {
        match collect_chunks(cs.drop_last()) {
            Err(e) => Err(e),
            Ok((specs, data)) => {
                let c = cs.last();
                if c.0 == ChunkId::Fmt {
                    match fmt_of(c.1) {
                        Ok(p) => Ok((Some(p), data)),
                        Err(e) => Err(e),
                    }
                } else if c.0 == ChunkId::Data {
                    Ok((specs, Some(c.1)))
                } else {
                    Ok((specs, data))
                }
            },
        }
    }
}

/// Once a prefix of the chunks fails to fold, the whole sequence fails alike.
proof fn lemma_collect_error_persists(cs: Seq<(ChunkId, Seq<u8>)>, k: int)
    requires
        0 <= k <= cs.len(),
        collect_chunks(cs.take(k)) is Err,
    ensures
        collect_chunks(cs) == collect_chunks(cs.take(k)),
    decreases cs.len() - k,
{
    if k == cs.len() {
        assert(cs.take(k) =~= cs);
    } else {
        assert(cs.take(k + 1).drop_last() =~= cs.take(k));
        lemma_collect_error_persists(cs, k + 1);
    }
}

/// What a wave buffer holds: its format descriptor and its sample payload,
/// or why it cannot be read.
pub open spec fn wave_of(s: Seq<u8>) -> Result<(PcmSpecs, Seq<u8>), WavError> {
    if !has_riff_header(s) {
        Err(WavError::MalformedHeader)
    } else if riff_header_of(s).id != RiffIdentifier::Wave || riff_header_of(s).size as int != s.len() - 8 {
        Err(WavError::MalformedHeader)
    } else {
        match chunks_of(s.subrange(12, s.len() as int)) {
            Err(e) => Err(e),
            Ok(cs) => match collect_chunks(cs) {
                Err(e) => Err(e),
                Ok((Some(p), Some(d))) => Ok((p, d)),
                Ok(_) => Err(WavError::MissingRequiredChunk),
            },
        }
    }
}

/// A parsed wave buffer: its format and its sample payload, borrowed from the
/// buffer. It does not change once built.
pub struct PcmReader<'a> {
    specs: PcmSpecs,
    data: &'a [u8],
}

impl<'a> PcmReader<'a> {
    #[verifier::type_invariant]
    spec fn inv(&self) -> bool {
        self.specs.wf()
    }
}

impl<'a> View for PcmReader<'a> {
    type V = (PcmSpecs, Seq<u8>);

    closed spec fn view(&self) -> (PcmSpecs, Seq<u8>) {
        (self.specs, self.data@)
    }
}

impl<'a> PcmReader<'a> {
    /// The format descriptor read from the buffer.
    pub open spec fn spec_specs(&self) -> PcmSpecs {
        self@.0
    }

    /// The payload of the `data` chunk.
    pub open spec fn spec_data(&self) -> Seq<u8> {
        self@.1
    }

    pub open spec fn spec_frame_count(&self) -> int {
        frame_count_of(self@.0, self@.1.len() as int)
    }

    /// Parses a wave buffer and prepares it for sample reads.
    pub fn read_bytes(input: &'a [u8]) -> (r: Result<PcmReader<'a>, WavError>)
        ensures
            match r {
                Ok(reader) => wave_of(input@) == Ok::<(PcmSpecs, Seq<u8>), WavError>(reader@)
                    && reader.spec_specs().wf(),
                Err(e) => wave_of(input@) == Err::<(PcmSpecs, Seq<u8>), WavError>(e),
            },
    {
        let (body, header) = match parse_riff_header(input) {
            Ok(v) => v,
            Err(e) => {
                return Err(e);
            },
        };
        if header.id != RiffIdentifier::Wave || input.len() - 8 != header.size as usize {
            return Err(WavError::MalformedHeader);
        }
        let chunks = match scan_chunks(body) {
            Ok(v) => v,
            Err(e) => {
                return Err(e);
            },
        };
        let ghost cs = chunks@.map_values(|c: Chunk<'a>| c@);
        let mut specs: Option<PcmSpecs> = None;
        let mut data: Option<&'a [u8]> = None;
        let mut i: usize = 0;
        while i < chunks.len()
            invariant
                i <= chunks@.len(),
                cs == chunks@.map_values(|c: Chunk<'a>| c@),
                wave_of(input@) == match collect_chunks(cs) {
                    Err(e) => Err(e),
                    Ok((Some(p), Some(d))) => Ok((p, d)),
                    Ok(_) => Err(WavError::MissingRequiredChunk),
                },
                collect_chunks(cs.take(i as int)) == Ok::<(Option<PcmSpecs>, Option<Seq<u8>>), WavError>(
                    (specs, match data { Some(d) => Some(d@), None => None })),
                specs is Some ==> specs->Some_0.wf(),
            decreases chunks@.len() - i,
        {
            assert(cs.take(i + 1).drop_last() =~= cs.take(i as int));
            let chunk = &chunks[i];
            match chunk.id {
                ChunkId::Fmt => {
                    match parse_fmt(chunk.data) {
                        Ok(p) => {
                            specs = Some(p);
                        },
                        Err(e) => {
                            proof {
                                lemma_collect_error_persists(cs, i + 1);
                            }
                            return Err(e);
                        },
                    }
                },
                ChunkId::Data => {
                    data = Some(chunk.data);
                },
                _ => {},
            }
            i = i + 1;
        }
        assert(cs.take(i as int) =~= cs);
        match (specs, data) {
            (Some(specs), Some(data)) => Ok(PcmReader { specs, data }),
            _ => Err(WavError::MissingRequiredChunk),
        }
    }

    /// The format descriptor.
    pub fn specs(&self) -> (r: PcmSpecs)
        ensures
            r == self.spec_specs(),
    {
        self.specs
    }

    /// Channels per frame.
    pub fn channel_count(&self) -> (r: u16)
        ensures
            r == self.spec_specs().num_channels,
            r >= 1,
    {
        proof {
            use_type_invariant(self);
        }
        self.specs.num_channels
    }

    /// Frames per second.
    pub fn sample_rate(&self) -> (r: u32)
        ensures
            r == self.spec_specs().sample_rate,
    {
        self.specs.sample_rate
    }

    /// Bits per sample.
    pub fn bit_depth(&self) -> (r: u16)
        ensures
            r == self.spec_specs().bit_depth,
    {
        self.specs.bit_depth
    }

    /// How the samples are encoded.
    pub fn audio_format(&self) -> (r: AudioFormat)
        ensures
            r == self.spec_specs().audio_format,
    {
        self.specs.audio_format
    }

    /// Bytes that one frame takes: a sample of each channel.
    pub fn frame_size(&self) -> (r: usize)
        ensures
            r as int == self.spec_specs().frame_bytes(),
            r >= 1,
    {
        proof {
            use_type_invariant(self);
        }
        let nc = self.specs.num_channels as usize;
        let sb = (self.specs.bit_depth / 8) as usize;
        assert(1 <= nc * sb <= 65535 * 8191) by (nonlinear_arith)
            requires
                1 <= nc <= 65535,
                1 <= sb <= 8191,
        ;
        nc * sb
    }

    /// Whole frames of sample data; a trailing partial frame is not counted.
    pub fn frame_count(&self) -> (r: usize)
        ensures
            r as int == self.spec_frame_count(),
    {
        self.data.len() / self.frame_size()
    }

    /// The sample of `channel` in frame `frame`.
    pub fn read_sample(&self, channel: usize, frame: usize) -> (r: Result<Sample, WavError>)
        ensures
            r == sample_of(self.spec_specs(), self.spec_data(), channel as int, frame as int),
    {
        proof {
            use_type_invariant(self);
        }
        let fs = self.frame_size();
        let sb = (self.specs.bit_depth / 8) as usize;
        let len = self.data.len();
        let frames = len / fs;
        if channel >= self.specs.num_channels as usize || frame >= frames {
            return Err(WavError::IndexOutOfRange);
        }
        let nc = self.specs.num_channels as usize;
        proof {
            vstd::arithmetic::div_mod::lemma_fundamental_div_mod(len as int, fs as int);
            vstd::arithmetic::div_mod::lemma_mod_bound(len as int, fs as int);
            let q = frames as int;
            assert(frame * fs + fs <= len) by (nonlinear_arith)
                requires
                    frame + 1 <= q,
                    fs * q <= len,
                    fs > 0,
            ;
            assert(channel * sb + sb <= fs) by (nonlinear_arith)
                requires
                    channel + 1 <= nc,
                    fs == nc * sb,
                    sb >= 1,
            ;
        }
        let off = frame * fs + channel * sb;
        match self.specs.audio_format {
            AudioFormat::LinearPcmLe => {
                if self.specs.bit_depth == 8 {
                    Ok(Sample::Pcm { value: self.data[off] as i32 - 128, bits: 8 })
                } else if self.specs.bit_depth == 16 {
                    let u = read_le_u16(self.data, off) as i32;
                    let value = if u >= 0x8000 { u - 0x1_0000 } else { u };
                    Ok(Sample::Pcm { value, bits: 16 })
                } else if self.specs.bit_depth == 24 {
                    let u = read_le_u24(self.data, off) as i32;
                    let value = if u >= 0x80_0000 { u - 0x100_0000 } else { u };
                    Ok(Sample::Pcm { value, bits: 24 })
                } else if self.specs.bit_depth == 32 {
                    let u = read_le_u32(self.data, off) as i64;
                    let value = if u >= 0x8000_0000 { u - 0x1_0000_0000 } else { u };
                    Ok(Sample::Pcm { value: value as i32, bits: 32 })
                } else {
                    Err(WavError::UnsupportedFormat)
                }
            },
            AudioFormat::IeeeFloat => {
                if self.specs.bit_depth == 32 {
                    Ok(Sample::Float32(read_le_u32(self.data, off)))
                } else if self.specs.bit_depth == 64 {
                    Ok(Sample::Float64(read_le_u64(self.data, off)))
                } else {
                    Err(WavError::UnsupportedFormat)
                }
            },
            _ => Err(WavError::UnsupportedFormat),
        }
    }
}

} // verus!
