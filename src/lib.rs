//! Reads RIFF/WAVE buffers held in memory and decodes their PCM samples.

use vstd::prelude::*;

pub mod bytes;
pub mod error;
pub mod format;
pub mod proofs;
pub mod reader;
pub mod riff;

pub use error::WavError;
pub use format::{parse_fmt, AudioFormat, PcmSpecs, WaveFormatTag};
pub use reader::{PcmReader, Sample};
pub use riff::{parse_chunk, parse_riff_header, scan_chunks, Chunk, ChunkId, RiffHeader, RiffIdentifier};

verus! {

} // verus!
