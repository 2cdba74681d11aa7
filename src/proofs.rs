use vstd::prelude::*;

use crate::bytes::{
    byte_range, le_bytes, le_u16_at, le_u32_at, lemma_le_bytes_value, lemma_le_u16_at,
    lemma_le_u24_at, lemma_le_u32_at, lemma_le_u64_at, tag_at,
};
use crate::error::WavError;
use crate::format::{fmt_of, AudioFormat, PcmSpecs};
use crate::reader::{collect_chunks, frame_count_of, sample_of, wave_of, Sample};
use crate::riff::{
    chunk_id_at, chunks_of, declared_size, has_riff_header, riff_header_of, riff_id_at, riff_tag, ChunkId,
    RiffIdentifier,
};

verus! {

/// The envelope is present, names the WAVE form and declares the buffer's length less eight.
pub open spec fn valid_envelope(s: Seq<u8>) -> bool {
    &&& has_riff_header(s)
    &&& riff_header_of(s).id == RiffIdentifier::Wave
    &&& riff_header_of(s).size as int == s.len() - 8
}

/// A buffer that does not open with the `RIFF` tag is a malformed header.
pub proof fn lemma_missing_riff_tag(s: Seq<u8>)
    requires
        !tag_at(s, 0, riff_tag()),
    ensures
        wave_of(s) == Err::<(PcmSpecs, Seq<u8>), WavError>(WavError::MalformedHeader),
{
}

/// Scanning fails only on a chunk that declares more payload than remains.
pub proof fn lemma_scan_fails_only_truncated(s: Seq<u8>)
    ensures
        chunks_of(s) is Err ==> chunks_of(s) == Err::<Seq<(ChunkId, Seq<u8>)>, WavError>(
            WavError::TruncatedChunk,
        ),
    decreases s.len(),
{
    if s.len() >= 8 && declared_size(s) <= s.len() - 8 {
        lemma_scan_fails_only_truncated(s.subrange(8 + declared_size(s), s.len() as int));
    }
}

/// Behind a sound envelope, a chunk that declares more payload than the bytes
/// left after its header fails the whole buffer with `TruncatedChunk`; where the
/// oversized chunk is the first one, so does the scan of the body.
pub proof fn lemma_oversized_chunk(s: Seq<u8>)
    requires
        valid_envelope(s),
        chunks_of(s.subrange(12, s.len() as int)) is Err,
    ensures
        wave_of(s) == Err::<(PcmSpecs, Seq<u8>), WavError>(WavError::TruncatedChunk),
{
    lemma_scan_fails_only_truncated(s.subrange(12, s.len() as int));
}

/// A chunk whose declared size exceeds the bytes after its header ends the scan
/// with `TruncatedChunk`.
pub proof fn lemma_oversized_first_chunk(s: Seq<u8>)
    requires
        s.len() >= 8,
        declared_size(s) > s.len() - 8,
    ensures
        chunks_of(s) == Err::<Seq<(ChunkId, Seq<u8>)>, WavError>(WavError::TruncatedChunk),
{
}

/// A descriptor whose encoding is not linear PCM or IEEE float decodes no
/// sample: every in-range read fails with `UnsupportedFormat`.
pub proof fn lemma_undecodable_encoding(specs: PcmSpecs, data: Seq<u8>, channel: int, frame: int)
    requires
        specs.wf(),
        specs.audio_format != AudioFormat::LinearPcmLe,
        specs.audio_format != AudioFormat::IeeeFloat,
        0 <= channel < specs.num_channels,
        0 <= frame < frame_count_of(specs, data.len() as int),
    ensures
        sample_of(specs, data, channel, frame) == Err::<Sample, WavError>(
            WavError::UnsupportedFormat,
        ),
{
}

/// A `fmt ` payload with format tag `0x11` and a sound layout decodes to IMA ADPCM.
pub proof fn lemma_ima_adpcm_metadata(s: Seq<u8>)
    requires
        s.len() >= 16,
        le_u16_at(s, 0) == 0x11,
        le_u16_at(s, 2) >= 1,
        le_u16_at(s, 14) >= 8,
        le_u16_at(s, 14) % 8 == 0,
    ensures
        fmt_of(s) is Ok,
        fmt_of(s)->Ok_0.audio_format == AudioFormat::ImaAdpcm,
{
}

/// Folding chunks of which none is a `fmt ` chunk finds no descriptor.
pub proof fn lemma_collect_without_fmt(cs: Seq<(ChunkId, Seq<u8>)>)
    requires
        forall|i: int| 0 <= i < cs.len() ==> (#[trigger] cs[i]).0 != ChunkId::Fmt,
    ensures
        collect_chunks(cs) is Ok,
        collect_chunks(cs)->Ok_0.0 is None,
    decreases cs.len(),
{
    if cs.len() > 0 {
        lemma_collect_without_fmt(cs.drop_last());
    }
}

/// Folding chunks of which none is a `data` chunk, and whose `fmt ` payloads
/// all decode, finds no sample payload.
pub proof fn lemma_collect_without_data(cs: Seq<(ChunkId, Seq<u8>)>)
    requires
        forall|i: int| 0 <= i < cs.len() ==> (#[trigger] cs[i]).0 != ChunkId::Data,
        forall|i: int| 0 <= i < cs.len() && (#[trigger] cs[i]).0 == ChunkId::Fmt ==> fmt_of(cs[i].1) is Ok,
    ensures
        collect_chunks(cs) is Ok,
        collect_chunks(cs)->Ok_0.1 is None,
    decreases cs.len(),
{
    if cs.len() > 0 {
        let p = cs.drop_last();
        assert forall|i: int| 0 <= i < p.len() implies (#[trigger] p[i]).0 != ChunkId::Data by {
            assert(p[i] == cs[i]);
        }
        assert forall|i: int| 0 <= i < p.len() && (#[trigger] p[i]).0 == ChunkId::Fmt implies fmt_of(
            p[i].1,
        ) is Ok by {
            assert(p[i] == cs[i]);
        }
        lemma_collect_without_data(p);
        assert(cs.last() == cs[cs.len() - 1]);
    }
}

/// A sound buffer whose chunks hold no `fmt ` chunk fails with `MissingRequiredChunk`.
pub proof fn lemma_no_fmt_chunk(s: Seq<u8>)
    requires
        valid_envelope(s),
        chunks_of(s.subrange(12, s.len() as int)) is Ok,
        forall|i: int|
            0 <= i < chunks_of(s.subrange(12, s.len() as int))->Ok_0.len() ==> (#[trigger] chunks_of(
                s.subrange(12, s.len() as int),
            )->Ok_0[i]).0 != ChunkId::Fmt,
    ensures
        wave_of(s) == Err::<(PcmSpecs, Seq<u8>), WavError>(WavError::MissingRequiredChunk),
{
    lemma_collect_without_fmt(chunks_of(s.subrange(12, s.len() as int))->Ok_0);
}

/// A sound buffer whose chunks hold no `data` chunk, and whose `fmt ` payloads
/// all decode, fails with `MissingRequiredChunk`.
pub proof fn lemma_no_data_chunk(s: Seq<u8>)
    requires
        valid_envelope(s),
        chunks_of(s.subrange(12, s.len() as int)) is Ok,
        forall|i: int|
            0 <= i < chunks_of(s.subrange(12, s.len() as int))->Ok_0.len() ==> (#[trigger] chunks_of(
                s.subrange(12, s.len() as int),
            )->Ok_0[i]).0 != ChunkId::Data,
        forall|i: int|
            0 <= i < chunks_of(s.subrange(12, s.len() as int))->Ok_0.len() && (#[trigger] chunks_of(
                s.subrange(12, s.len() as int),
            )->Ok_0[i]).0 == ChunkId::Fmt ==> fmt_of(
                chunks_of(s.subrange(12, s.len() as int))->Ok_0[i].1,
            ) is Ok,
    ensures
        wave_of(s) == Err::<(PcmSpecs, Seq<u8>), WavError>(WavError::MissingRequiredChunk),
{
    lemma_collect_without_data(chunks_of(s.subrange(12, s.len() as int))->Ok_0);
}

/// The encodings and depths whose samples `read_sample` decodes.
pub open spec fn decodable(specs: PcmSpecs) -> bool {
    ||| specs.audio_format == AudioFormat::LinearPcmLe && (specs.bit_depth == 8 || specs.bit_depth == 16
        || specs.bit_depth == 24 || specs.bit_depth == 32)
    ||| specs.audio_format == AudioFormat::IeeeFloat && (specs.bit_depth == 32 || specs.bit_depth == 64)
}

/// With `frames` whole frames of data, there are exactly `frames` frames; every
/// sample of every channel in them reads, where the encoding is decodable; the
/// frame after the last and the channel after the last are out of range.
pub proof fn lemma_frame_bounds(specs: PcmSpecs, data: Seq<u8>, frames: nat, channel: int, frame: int)
    requires
        specs.wf(),
        data.len() == frames * specs.frame_bytes(),
    ensures
        frame_count_of(specs, data.len() as int) == frames,
        decodable(specs) && 0 <= channel < specs.num_channels && 0 <= frame < frames ==> sample_of(
            specs,
            data,
            channel,
            frame,
        ) is Ok,
        0 <= channel < specs.num_channels ==> sample_of(specs, data, channel, frames as int) == Err::<
            Sample,
            WavError,
        >(WavError::IndexOutOfRange),
        0 <= frame < frames ==> sample_of(specs, data, specs.num_channels as int, frame) == Err::<
            Sample,
            WavError,
        >(WavError::IndexOutOfRange),
{
    let fb = specs.frame_bytes();
    assert(fb >= 1) by (nonlinear_arith)
        requires
            fb == specs.num_channels as int * (specs.bit_depth as int / 8),
            specs.num_channels >= 1,
            specs.bit_depth >= 8,
    ;
    vstd::arithmetic::div_mod::lemma_div_by_multiple(frames as int, fb);
}

/// The code that stores sample `v` at the given depth: offset binary at eight
/// bits, two's complement above.
pub open spec fn pcm_code(v: int, bits: u16) -> nat {
    if bits == 8 {
        (v + 128) as nat
    } else if v < 0 {
        (v + byte_range((bits / 8) as nat)) as nat
    } else {
        v as nat
    }
}

/// `v` is a sample value at the given depth: `-2^(bits-1) <= v < 2^(bits-1)`.
pub open spec fn pcm_fits(v: int, bits: u16) -> bool {
    -(byte_range((bits / 8) as nat) / 2) <= v < byte_range((bits / 8) as nat) / 2
}

/// Codes stored one after another, `n` bytes each.
pub open spec fn pack(codes: Seq<nat>, n: nat) -> Seq<u8>
    decreases codes.len(),
{
    if codes.len() == 0 {
        Seq::empty()
    } else {
        pack(codes.drop_last(), n) + le_bytes(codes.last(), n)
    }
}

/// `k` codes take `k * n` bytes, and the `i`-th of them is stored at `i * n`.
pub proof fn lemma_pack(codes: Seq<nat>, n: nat, i: int)
    requires
        forall|j: int| 0 <= j < codes.len() ==> #[trigger] codes[j] < byte_range(n),
        0 <= i < codes.len(),
    ensures
        pack(codes, n).len() == codes.len() * n,
        pack(codes, n).subrange(i * n, i * n + n) == le_bytes(codes[i], n),
    decreases codes.len(),
{
    let k = codes.len() - 1;
    let p = codes.drop_last();
    lemma_le_bytes_value(codes[k], n);
    assert(codes.last() == codes[k]);
    if k == 0 {
        assert(pack(p, n) =~= Seq::<u8>::empty());
        assert(pack(codes, n) =~= le_bytes(codes[0], n));
        assert(i == 0);
        assert(codes.len() * n == n) by (nonlinear_arith)
            requires
                codes.len() == 1,
        ;
        assert(pack(codes, n).subrange(0, n as int) =~= pack(codes, n));
    } else {
        assert forall|j: int| 0 <= j < p.len() implies #[trigger] p[j] < byte_range(n) by {
            assert(p[j] == codes[j]);
        }
        let i2 = if i < k { i } else { 0 };
        lemma_pack(p, n, i2);
        assert(pack(codes, n).len() == codes.len() * n) by (nonlinear_arith)
            requires
                pack(codes, n).len() == k * n + n,
                codes.len() == k + 1,
        ;
        if i < k {
            assert(i * n + n <= k * n) by (nonlinear_arith)
                requires
                    i + 1 <= k,
                    n >= 0,
            ;
            assert(pack(codes, n).subrange(i * n, i * n + n) =~= pack(p, n).subrange(i * n, i * n + n));
            assert(p[i] == codes[i]);
        } else {
            assert(pack(codes, n).subrange(i * n, i * n + n) =~= le_bytes(codes[k], n));
        }
    }
}

/// Samples that fit the depth, coded and packed frame by frame, channel by
/// channel, read back as the same integers.
pub proof fn lemma_pcm_round_trip(specs: PcmSpecs, vals: Seq<int>, frames: nat, channel: int, frame: int)
    requires
        specs.wf(),
        specs.audio_format == AudioFormat::LinearPcmLe,
        specs.bit_depth == 8 || specs.bit_depth == 16 || specs.bit_depth == 24 || specs.bit_depth == 32,
        vals.len() == frames * specs.num_channels,
        forall|i: int| 0 <= i < vals.len() ==> pcm_fits(#[trigger] vals[i], specs.bit_depth),
        0 <= channel < specs.num_channels,
        0 <= frame < frames,
    ensures
        frame_count_of(
            specs,
            pack(vals.map_values(|v: int| pcm_code(v, specs.bit_depth)), specs.sample_bytes() as nat).len() as int,
        ) == frames,
        sample_of(
            specs,
            pack(vals.map_values(|v: int| pcm_code(v, specs.bit_depth)), specs.sample_bytes() as nat),
            channel,
            frame,
        ) == Ok::<Sample, WavError>(
            Sample::Pcm { value: vals[frame * specs.num_channels + channel] as i32, bits: specs.bit_depth },
        ),
{
    let bits = specs.bit_depth;
    let n = specs.sample_bytes() as nat;
    let nc = specs.num_channels as int;
    let codes = vals.map_values(|v: int| pcm_code(v, bits));
    let data = pack(codes, n);
    let idx = frame * nc + channel;
    assert(byte_range(1) == 256 && byte_range(2) == 65536 && byte_range(3) == 0x100_0000 && byte_range(4)
        == 0x1_0000_0000) by {
        reveal_with_fuel(byte_range, 5);
    }
    assert forall|j: int| 0 <= j < codes.len() implies #[trigger] codes[j] < byte_range(n) by {
        assert(pcm_fits(vals[j], bits));
    }
    assert(0 <= idx < vals.len()) by (nonlinear_arith)
        requires
            idx == frame * nc + channel,
            0 <= channel < nc,
            0 <= frame < frames,
            vals.len() == frames * nc,
    ;
    lemma_pack(codes, n, idx);
    assert(data.len() == frames * specs.frame_bytes()) by (nonlinear_arith)
        requires
            data.len() == vals.len() * n,
            vals.len() == frames * nc,
            specs.frame_bytes() == nc * n,
    ;
    lemma_frame_bounds(specs, data, frames, channel, frame);
    let off = frame * specs.frame_bytes() + channel * n;
    assert(off == idx * n) by (nonlinear_arith)
        requires
            off == frame * (nc * n) + channel * n,
            idx == frame * nc + channel,
    ;
    assert(idx * n + n <= data.len()) by (nonlinear_arith)
        requires
            idx + 1 <= vals.len(),
            data.len() == vals.len() * n,
    ;
    let code = codes[idx];
    let v = vals[idx];
    lemma_le_bytes_value(code, n);
    assert(pcm_fits(v, bits));
    if bits == 8 {
        assert(data[off] == le_bytes(code, 1)[0]);
        assert(le_bytes(code, 1)[0] == (code % 256) as u8);
    } else if bits == 16 {
        lemma_le_u16_at(data, off);
    } else if bits == 24 {
        lemma_le_u24_at(data, off);
    } else {
        lemma_le_u32_at(data, off);
    }
}

/// IEEE-754 bit patterns packed frame by frame, channel by channel, read back
/// unchanged: float samples come back exactly.
pub proof fn lemma_float_round_trip(specs: PcmSpecs, pats: Seq<nat>, frames: nat, channel: int, frame: int)
    requires
        specs.wf(),
        specs.audio_format == AudioFormat::IeeeFloat,
        specs.bit_depth == 32 || specs.bit_depth == 64,
        pats.len() == frames * specs.num_channels,
        forall|i: int| 0 <= i < pats.len() ==> #[trigger] pats[i] < byte_range(specs.sample_bytes() as nat),
        0 <= channel < specs.num_channels,
        0 <= frame < frames,
    ensures
        frame_count_of(specs, pack(pats, specs.sample_bytes() as nat).len() as int) == frames,
        sample_of(specs, pack(pats, specs.sample_bytes() as nat), channel, frame) == Ok::<Sample, WavError>(
            if specs.bit_depth == 32 {
                Sample::Float32(pats[frame * specs.num_channels + channel] as u32)
            } else {
                Sample::Float64(pats[frame * specs.num_channels + channel] as u64)
            },
        ),
{
    let n = specs.sample_bytes() as nat;
    let nc = specs.num_channels as int;
    let data = pack(pats, n);
    let idx = frame * nc + channel;
    assert(byte_range(4) == 0x1_0000_0000 && byte_range(8) == 0x1_0000_0000_0000_0000) by {
        reveal_with_fuel(byte_range, 9);
    }
    assert(0 <= idx < pats.len()) by (nonlinear_arith)
        requires
            idx == frame * nc + channel,
            0 <= channel < nc,
            0 <= frame < frames,
            pats.len() == frames * nc,
    ;
    lemma_pack(pats, n, idx);
    assert(data.len() == frames * specs.frame_bytes()) by (nonlinear_arith)
        requires
            data.len() == pats.len() * n,
            pats.len() == frames * nc,
            specs.frame_bytes() == nc * n,
    ;
    lemma_frame_bounds(specs, data, frames, channel, frame);
    let off = frame * specs.frame_bytes() + channel * n;
    assert(off == idx * n) by (nonlinear_arith)
        requires
            off == frame * (nc * n) + channel * n,
            idx == frame * nc + channel,
    ;
    assert(idx * n + n <= data.len()) by (nonlinear_arith)
        requires
            idx + 1 <= pats.len(),
            data.len() == pats.len() * n,
    ;
    lemma_le_bytes_value(pats[idx], n);
    if specs.bit_depth == 32 {
        lemma_le_u32_at(data, off);
    } else {
        lemma_le_u64_at(data, off);
    }
}

pub open spec fn fmt_tag() -> Seq<u8> {
    seq![0x66u8, 0x6du8, 0x74u8, 0x20u8]
}

pub open spec fn data_tag() -> Seq<u8> {
    seq![0x64u8, 0x61u8, 0x74u8, 0x61u8]
}

pub open spec fn wave_tag() -> Seq<u8> {
    seq![0x57u8, 0x41u8, 0x56u8, 0x45u8]
}

/// A chunk: its tag, its payload's length and its payload.
pub open spec fn chunk_bytes(tag: Seq<u8>, payload: Seq<u8>) -> Seq<u8> {
    tag + le_bytes(payload.len(), 4) + payload
}

/// The wave buffer made of a `fmt ` chunk with payload `fmt` and a `data`
/// chunk with payload `data`, with its envelope.
#[verifier::opaque]
pub open spec fn wave_bytes(fmt: Seq<u8>, data: Seq<u8>) -> Seq<u8> {
    let body = chunk_bytes(fmt_tag(), fmt) + chunk_bytes(data_tag(), data);
    riff_tag() + le_bytes((body.len() + 4) as nat, 4) + wave_tag() + body
}

proof fn lemma_four_byte_field(s: Seq<u8>, i: int, v: nat)
    requires
        0 <= i,
        i + 4 <= s.len(),
        s.subrange(i, i + 4) == le_bytes(v, 4),
        v < byte_range(4),
    ensures
        le_u32_at(s, i) == v,
{
    lemma_le_u32_at(s, i);
    lemma_le_bytes_value(v, 4);
}

/// The scan of a chunk followed by further bytes: the chunk, then the scan of the rest.
proof fn lemma_scan_chunk(tag: Seq<u8>, payload: Seq<u8>, rest: Seq<u8>)
    requires
        tag.len() == 4,
        payload.len() < byte_range(4),
    ensures
        chunks_of(chunk_bytes(tag, payload) + rest) == match chunks_of(rest) {
            Ok(t) => Ok(seq![(chunk_id_at(chunk_bytes(tag, payload) + rest, 0), payload)] + t),
            Err(e) => Err(e),
        },
        (chunk_bytes(tag, payload) + rest).subrange(0, 4) == tag,
{
    let s = chunk_bytes(tag, payload) + rest;
    lemma_le_bytes_value(payload.len(), 4);
    assert(s.subrange(4, 8) =~= le_bytes(payload.len(), 4));
    lemma_four_byte_field(s, 4, payload.len());
    let end = 8 + payload.len() as int;
    assert(s.subrange(8, end) =~= payload);
    assert(s.subrange(end, s.len() as int) =~= rest);
    assert(s.subrange(0, 4) =~= tag);
}

proof fn lemma_data_chunk_id(s: Seq<u8>)
    requires
        s.len() >= 4,
        s.subrange(0, 4) == data_tag(),
    ensures
        chunk_id_at(s, 0) == ChunkId::Data,
{
    assert(s.subrange(0, 4)[0] == 0x64u8);
    assert(s.subrange(0, 4)[1] == 0x61u8);
    assert(s.subrange(0, 4)[3] == 0x61u8);
}

proof fn lemma_fmt_chunk_id(s: Seq<u8>)
    requires
        s.len() >= 4,
        s.subrange(0, 4) == fmt_tag(),
    ensures
        chunk_id_at(s, 0) == ChunkId::Fmt,
{
}

/// The body of a built buffer scans as its two chunks.
proof fn lemma_wave_body(fmt: Seq<u8>, data: Seq<u8>)
    requires
        fmt.len() < byte_range(4),
        data.len() < byte_range(4),
    ensures
        chunks_of(chunk_bytes(fmt_tag(), fmt) + chunk_bytes(data_tag(), data)) == Ok::<
            Seq<(ChunkId, Seq<u8>)>,
            WavError,
        >(seq![(ChunkId::Fmt, fmt), (ChunkId::Data, data)]),
{
    let c2 = chunk_bytes(data_tag(), data);
    let body = chunk_bytes(fmt_tag(), fmt) + c2;
    lemma_scan_chunk(data_tag(), data, Seq::empty());
    assert(c2 + Seq::<u8>::empty() =~= c2);
    lemma_scan_chunk(fmt_tag(), fmt, c2);
    lemma_fmt_chunk_id(body);
    lemma_data_chunk_id(c2);
    assert(chunks_of(Seq::<u8>::empty()) == Ok::<Seq<(ChunkId, Seq<u8>)>, WavError>(Seq::empty()));
    assert(seq![(ChunkId::Data, data)] + Seq::<(ChunkId, Seq<u8>)>::empty() =~= seq![(ChunkId::Data, data)]);
    assert(seq![(ChunkId::Fmt, fmt)] + seq![(ChunkId::Data, data)] =~= seq![
        (ChunkId::Fmt, fmt),
        (ChunkId::Data, data),
    ]);
}

/// The envelope of a built buffer is sound, and its body follows it.
proof fn lemma_wave_envelope(fmt: Seq<u8>, data: Seq<u8>)
    requires
        fmt.len() + data.len() + 20 < byte_range(4),
    ensures
        valid_envelope(wave_bytes(fmt, data)),
        wave_bytes(fmt, data).subrange(12, wave_bytes(fmt, data).len() as int) == chunk_bytes(
            fmt_tag(),
            fmt,
        ) + chunk_bytes(data_tag(), data),
{
    reveal(wave_bytes);
    assert(byte_range(4) == 0x1_0000_0000) by {
        reveal_with_fuel(byte_range, 5);
    }
    lemma_le_bytes_value(fmt.len(), 4);
    lemma_le_bytes_value(data.len(), 4);
    let body = chunk_bytes(fmt_tag(), fmt) + chunk_bytes(data_tag(), data);
    let size = (body.len() + 4) as nat;
    lemma_le_bytes_value(size, 4);
    let a = riff_tag();
    let b = le_bytes(size, 4);
    let c = wave_tag();
    let s = wave_bytes(fmt, data);
    assert(s == a + b + c + body);
    lemma_envelope_parts(a, b, c, body);
    lemma_four_byte_field(s, 4, size);
    assert(riff_id_at(s, 8) == RiffIdentifier::Wave);
}

proof fn lemma_envelope_parts(a: Seq<u8>, b: Seq<u8>, c: Seq<u8>, body: Seq<u8>)
    requires
        a.len() == 4,
        b.len() == 4,
        c.len() == 4,
    ensures
        (a + b + c + body).subrange(0, 4) == a,
        (a + b + c + body).subrange(4, 8) == b,
        (a + b + c + body).subrange(8, 12) == c,
        (a + b + c + body).subrange(12, 12 + body.len() as int) == body,
        (a + b + c + body).len() == 12 + body.len(),
{
    assert((a + b + c + body).subrange(0, 4) =~= a);
    assert((a + b + c + body).subrange(4, 8) =~= b);
    assert((a + b + c + body).subrange(8, 12) =~= c);
    assert((a + b + c + body).subrange(12, 12 + body.len() as int) =~= body);
}

/// A buffer built from a `fmt ` payload that decodes and any sample payload
/// reads back as that descriptor and that payload.
pub proof fn lemma_wave_bytes(fmt: Seq<u8>, data: Seq<u8>)
    requires
        fmt_of(fmt) is Ok,
        fmt.len() + data.len() + 20 < byte_range(4),
    ensures
        wave_of(wave_bytes(fmt, data)) == Ok::<(PcmSpecs, Seq<u8>), WavError>((fmt_of(fmt)->Ok_0, data)),
{
    assert(byte_range(4) == 0x1_0000_0000) by {
        reveal_with_fuel(byte_range, 5);
    }
    lemma_wave_envelope(fmt, data);
    lemma_wave_body(fmt, data);
    lemma_collect_fmt_then_data(fmt, data);
}

proof fn lemma_collect_fmt_then_data(fmt: Seq<u8>, data: Seq<u8>)
    requires
        fmt_of(fmt) is Ok,
    ensures
        collect_chunks(seq![(ChunkId::Fmt, fmt), (ChunkId::Data, data)]) == Ok::<
            (Option<PcmSpecs>, Option<Seq<u8>>),
            WavError,
        >((Some(fmt_of(fmt)->Ok_0), Some(data))),
{
    let cs = seq![(ChunkId::Fmt, fmt), (ChunkId::Data, data)];
    let c1 = cs.drop_last();
    assert(c1 =~= seq![(ChunkId::Fmt, fmt)]);
    assert(c1.drop_last() =~= Seq::<(ChunkId, Seq<u8>)>::empty());
    assert(collect_chunks(c1.drop_last()) == Ok::<(Option<PcmSpecs>, Option<Seq<u8>>), WavError>(
        (None, None),
    ));
    assert(c1.last() == (ChunkId::Fmt, fmt));
    assert(collect_chunks(c1) == Ok::<(Option<PcmSpecs>, Option<Seq<u8>>), WavError>(
        (Some(fmt_of(fmt)->Ok_0), None),
    ));
    assert(cs.last() == (ChunkId::Data, data));
}

/// Every sound buffer with `frames` whole frames of data reads with `frames`
/// frames; each channel of each of them reads where the encoding is decodable;
/// the frame after the last and the channel after the last are out of range.
pub proof fn lemma_synthesized_buffer(fmt: Seq<u8>, data: Seq<u8>, frames: nat, channel: int, frame: int)
    requires
        fmt_of(fmt) is Ok,
        fmt.len() + data.len() + 20 < byte_range(4),
        data.len() == frames * fmt_of(fmt)->Ok_0.frame_bytes(),
    ensures
        wave_of(wave_bytes(fmt, data)) is Ok,
        ({
            let (specs, d) = wave_of(wave_bytes(fmt, data))->Ok_0;
            &&& frame_count_of(specs, d.len() as int) == frames
            &&& decodable(specs) && 0 <= channel < specs.num_channels && 0 <= frame < frames ==> sample_of(
                specs,
                d,
                channel,
                frame,
            ) is Ok
            &&& 0 <= channel < specs.num_channels ==> sample_of(specs, d, channel, frames as int) == Err::<
                Sample,
                WavError,
            >(WavError::IndexOutOfRange)
            &&& 0 <= frame < frames ==> sample_of(specs, d, specs.num_channels as int, frame) == Err::<
                Sample,
                WavError,
            >(WavError::IndexOutOfRange)
        }),
{
    lemma_wave_bytes(fmt, data);
    lemma_frame_bounds(fmt_of(fmt)->Ok_0, data, frames, channel, frame);
}

} // verus!
