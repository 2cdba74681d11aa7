use vstd::prelude::*;
use vstd::slice::slice_subrange;

use crate::bytes::{has_tag_at, le_u32_at, read_le_u32, tag_at};
use crate::error::WavError;

verus! {

/// Length of the envelope that opens a RIFF buffer: tag, size and form.
pub const RIFF_HEADER_LEN: usize = 12;

/// Length of a chunk header: tag and declared size.
pub const CHUNK_HEADER_LEN: usize = 8;

/// The form that a RIFF envelope declares.
#[derive(Debug, Clone, Copy, PartialEq, Eq, Structural)]
pub enum RiffIdentifier {
    Wave,
    Avi,
    Unknown,
}

/// The twelve-byte envelope of a RIFF buffer.
#[derive(Debug, Clone, Copy, PartialEq, Eq, Structural)]
pub struct RiffHeader {
    /// Declared payload length: the buffer's length less eight.
    pub size: u32,
    pub id: RiffIdentifier,
}

/// The kinds of chunk that a wave file may carry.
#[derive(Debug, Clone, Copy, PartialEq, Eq, Structural)]
pub enum ChunkId {
    Fmt,
    Fact,
    Peak,
    Data,
    Junk,
    List,
    Id3,
    Unknown,
}

/// One chunk: its kind and its payload, borrowed from the scanned buffer.
#[derive(Debug)]
pub struct Chunk<'a> {
    pub id: ChunkId,
    pub size: u32,
    pub data: &'a [u8],
}

pub open spec fn riff_tag() -> Seq<u8> {
    seq![0x52u8, 0x49u8, 0x46u8, 0x46u8]
}

/// The form named by the four bytes at `s[i]`.
pub open spec fn riff_id_at(s: Seq<u8>, i: int) -> RiffIdentifier {
    if tag_at(s, i, seq![0x57u8, 0x41u8, 0x56u8, 0x45u8]) {
        RiffIdentifier::Wave
    } else if tag_at(s, i, seq![0x41u8, 0x56u8, 0x49u8, 0x20u8]) {
        RiffIdentifier::Avi
    } else {
        RiffIdentifier::Unknown
    }
}

/// The kind of chunk named by the four bytes at `s[i]`.
pub open spec fn chunk_id_at(s: Seq<u8>, i: int) -> ChunkId {
    if tag_at(s, i, seq![0x66u8, 0x6du8, 0x74u8, 0x20u8]) {
        ChunkId::Fmt
    } else if tag_at(s, i, seq![0x66u8, 0x61u8, 0x63u8, 0x74u8]) {
        ChunkId::Fact
    } else if tag_at(s, i, seq![0x50u8, 0x45u8, 0x41u8, 0x4bu8]) {
        ChunkId::Peak
    } else if tag_at(s, i, seq![0x64u8, 0x61u8, 0x74u8, 0x61u8]) {
        ChunkId::Data
    } else if tag_at(s, i, seq![0x4au8, 0x55u8, 0x4eu8, 0x4bu8]) {
        ChunkId::Junk
    } else if tag_at(s, i, seq![0x4cu8, 0x49u8, 0x53u8, 0x54u8]) {
        ChunkId::List
    } else if tag_at(s, i, seq![0x49u8, 0x44u8, 0x76u8, 0x33u8]) {
        ChunkId::Id3
    } else {
        ChunkId::Unknown
    }
}

/// The envelope is present: twelve bytes that open with `RIFF`.
pub open spec fn has_riff_header(s: Seq<u8>) -> bool {
    s.len() >= 12 && tag_at(s, 0, riff_tag())
}

/// The envelope read from a buffer that has one.
pub open spec fn riff_header_of(s: Seq<u8>) -> RiffHeader {
    RiffHeader { size: le_u32_at(s, 4) as u32, id: riff_id_at(s, 8) }
}

/// Reads the RIFF envelope and hands back the bytes that follow it.
pub fn parse_riff_header<'a>(input: &'a [u8]) -> (r: Result<(&'a [u8], RiffHeader), WavError>)
    ensures
        match r {
            Ok((rest, header)) => {
                &&& has_riff_header(input@)
                &&& header == riff_header_of(input@)
                &&& rest@ == input@.subrange(12, input@.len() as int)
            },
            Err(e) => !has_riff_header(input@) && e == WavError::MalformedHeader,
        },
{
    if input.len() < RIFF_HEADER_LEN || !has_tag_at(input, 0, [0x52u8, 0x49u8, 0x46u8, 0x46u8]) {
        proof {
            assert([0x52u8, 0x49u8, 0x46u8, 0x46u8]@ =~= riff_tag());
        }
        return Err(WavError::MalformedHeader);
    }
    proof {
        assert([0x52u8, 0x49u8, 0x46u8, 0x46u8]@ =~= riff_tag());
    }
    let size = read_le_u32(input, 4);
    let id = if has_tag_at(input, 8, [0x57u8, 0x41u8, 0x56u8, 0x45u8]) {
        RiffIdentifier::Wave
    } else if has_tag_at(input, 8, [0x41u8, 0x56u8, 0x49u8, 0x20u8]) {
        RiffIdentifier::Avi
    } else {
        RiffIdentifier::Unknown
    };
    proof {
        assert([0x57u8, 0x41u8, 0x56u8, 0x45u8]@ =~= seq![0x57u8, 0x41u8, 0x56u8, 0x45u8]);
        assert([0x41u8, 0x56u8, 0x49u8, 0x20u8]@ =~= seq![0x41u8, 0x56u8, 0x49u8, 0x20u8]);
    }
    let rest = slice_subrange(input, RIFF_HEADER_LEN, input.len());
    Ok((rest, RiffHeader { size, id }))
}

impl<'a> View for Chunk<'a> {
    type V = (ChunkId, Seq<u8>);

    open spec fn view(&self) -> (ChunkId, Seq<u8>) {
        (self.id, self.data@)
    }
}

impl<'a> Chunk<'a> {
    /// The declared size is the payload's length.
    pub open spec fn wf(&self) -> bool {
        self.size as int == self.data@.len()
    }
}

/// The declared payload size of the chunk that opens `s`.
pub open spec fn declared_size(s: Seq<u8>) -> int {
    le_u32_at(s, 4)
}

/// The chunks that `s` holds, in order, each as its kind and payload.
/// The sequence ends where fewer bytes remain than a chunk header; a chunk
/// that declares more payload than remains is an error.
pub open spec fn chunks_of(s: Seq<u8>) -> Result<Seq<(ChunkId, Seq<u8>)>, WavError>
    decreases s.len(),
{
    if s.len() < 8 {
        Ok(Seq::empty())
    } else if declared_size(s) > s.len() - 8 {
        Err(WavError::TruncatedChunk)
    } else {
        let end = 8 + declared_size(s);
        match chunks_of(s.subrange(end, s.len() as int)) {
            Ok(rest) => Ok(seq![(chunk_id_at(s, 0), s.subrange(8, end))] + rest),
            Err(e) => Err(e),
        }
    }
}

fn chunk_id_from_tag(input: &[u8]) -> (r: ChunkId)
    requires
        input@.len() >= 4,
    ensures
        r == chunk_id_at(input@, 0),
{
    proof {
        assert([0x66u8, 0x6du8, 0x74u8, 0x20u8]@ =~= seq![0x66u8, 0x6du8, 0x74u8, 0x20u8]);
        assert([0x66u8, 0x61u8, 0x63u8, 0x74u8]@ =~= seq![0x66u8, 0x61u8, 0x63u8, 0x74u8]);
        assert([0x50u8, 0x45u8, 0x41u8, 0x4bu8]@ =~= seq![0x50u8, 0x45u8, 0x41u8, 0x4bu8]);
        assert([0x64u8, 0x61u8, 0x74u8, 0x61u8]@ =~= seq![0x64u8, 0x61u8, 0x74u8, 0x61u8]);
        assert([0x4au8, 0x55u8, 0x4eu8, 0x4bu8]@ =~= seq![0x4au8, 0x55u8, 0x4eu8, 0x4bu8]);
        assert([0x4cu8, 0x49u8, 0x53u8, 0x54u8]@ =~= seq![0x4cu8, 0x49u8, 0x53u8, 0x54u8]);
        assert([0x49u8, 0x44u8, 0x76u8, 0x33u8]@ =~= seq![0x49u8, 0x44u8, 0x76u8, 0x33u8]);
    }
    if has_tag_at(input, 0, [0x66u8, 0x6du8, 0x74u8, 0x20u8]) {
        ChunkId::Fmt
    } else if has_tag_at(input, 0, [0x66u8, 0x61u8, 0x63u8, 0x74u8]) {
        ChunkId::Fact
    } else if has_tag_at(input, 0, [0x50u8, 0x45u8, 0x41u8, 0x4bu8]) {
        ChunkId::Peak
    } else if has_tag_at(input, 0, [0x64u8, 0x61u8, 0x74u8, 0x61u8]) {
        ChunkId::Data
    } else if has_tag_at(input, 0, [0x4au8, 0x55u8, 0x4eu8, 0x4bu8]) {
        ChunkId::Junk
    } else if has_tag_at(input, 0, [0x4cu8, 0x49u8, 0x53u8, 0x54u8]) {
        ChunkId::List
    } else if has_tag_at(input, 0, [0x49u8, 0x44u8, 0x76u8, 0x33u8]) {
        ChunkId::Id3
    } else {
        ChunkId::Unknown
    }
}

/// Reads the chunk that opens `input` and hands back the bytes after it.
/// `None` where fewer bytes remain than a chunk header.
pub fn parse_chunk<'a>(input: &'a [u8]) -> (r: Result<Option<(Chunk<'a>, &'a [u8])>, WavError>)
    ensures
        input@.len() < 8 ==> r == Ok::<Option<(Chunk<'a>, &'a [u8])>, WavError>(None),
        input@.len() >= 8 && declared_size(input@) > input@.len() - 8 ==> r == Err::<
            Option<(Chunk<'a>, &'a [u8])>,
            WavError,
        >(WavError::TruncatedChunk),
        input@.len() >= 8 && declared_size(input@) <= input@.len() - 8 ==> match r {
            Ok(Some((chunk, rest))) => {
                let end = 8 + declared_size(input@);
                &&& chunk.wf()
                &&& chunk@ == (chunk_id_at(input@, 0), input@.subrange(8, end))
                &&& rest@ == input@.subrange(end, input@.len() as int)
            },
            _ => false,
        },
{
    if input.len() < CHUNK_HEADER_LEN {
        return Ok(None);
    }
    let id = chunk_id_from_tag(input);
    let size = read_le_u32(input, 4);
    if size as usize > input.len() - CHUNK_HEADER_LEN {
        return Err(WavError::TruncatedChunk);
    }
    let end = CHUNK_HEADER_LEN + size as usize;
    let data = slice_subrange(input, CHUNK_HEADER_LEN, end);
    let rest = slice_subrange(input, end, input.len());
    Ok(Some((Chunk { id, size, data }, rest)))
}

/// Splits `input` into its chunks, in order.
pub fn scan_chunks<'a>(input: &'a [u8]) -> (r: Result<Vec<Chunk<'a>>, WavError>)
    ensures
        match r {
            Ok(v) => {
                &&& chunks_of(input@) == Ok::<Seq<(ChunkId, Seq<u8>)>, WavError>(
                    v@.map_values(|c: Chunk<'a>| c@),
                )
                &&& forall|i: int| 0 <= i < v@.len() ==> (#[trigger] v@[i]).wf()
            },
            Err(e) => chunks_of(input@) == Err::<Seq<(ChunkId, Seq<u8>)>, WavError>(e),
        },
{
    let mut chunks: Vec<Chunk<'a>> = Vec::new();
    let mut rest = input;
    loop
        invariant
            forall|i: int| 0 <= i < chunks@.len() ==> (#[trigger] chunks@[i]).wf(),
            chunks_of(input@) == match chunks_of(rest@) {
                Ok(t) => Ok(chunks@.map_values(|c: Chunk<'a>| c@) + t),
                Err(e) => Err(e),
            },
        decreases rest@.len(),
    {
        match parse_chunk(rest) {
            Err(e) => {
                return Err(e);
            },
            Ok(None) => {
                proof {
                    assert(chunks@.map_values(|c: Chunk<'a>| c@) + Seq::empty() =~= chunks@.map_values(
                        |c: Chunk<'a>| c@,
                    ));
                }
                return Ok(chunks);
            },
            Ok(Some((chunk, next))) => {
                let ghost old_chunks = chunks@;
                chunks.push(chunk);
                proof {
                    let f = |c: Chunk<'a>| c@;
                    match chunks_of(next@) {
                        Ok(t) => {
                            assert(chunks@.map_values(f) =~= old_chunks.map_values(f).push(chunk@));
                            assert(chunks@.map_values(f) + t =~= old_chunks.map_values(f) + (
                            seq![chunk@] + t));
                        },
                        Err(_) => {},
                    }
                }
                rest = next;
            },
        }
    }
}

} // verus!
