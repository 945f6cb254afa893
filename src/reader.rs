use vstd::prelude::*;

use crate::records::FileChunk;

verus! {

/// The most bytes that one read of the reader takes from a file.
pub const CHUNK_SIZE: usize = 1024;

/// How far the reading of one open file has come.
pub struct ReadProgress {
    pub name: String,
    pub offset: u64,
    pub chunk_index: u64,
    pub total_chunks: u64,
}

/// What one read of the reader produces: the record for the hasher, and the
/// progress to resubmit, unless the file has ended.
pub struct ReadStep {
    pub chunk: FileChunk,
    pub next: Option<ReadProgress>,
}

/// The number of chunks that a file of `size` bytes is read in.
pub open spec fn chunks_for(size: nat) -> nat {
    if size % (CHUNK_SIZE as nat) == 0 {
        size / (CHUNK_SIZE as nat)
    } else {
        size / (CHUNK_SIZE as nat) + 1
    }
}

impl ReadProgress {
    /// The progress of a file of `size` bytes that has not been read yet.
    pub fn start(name: String, size: u64) -> (r: ReadProgress)
        ensures
            r.name@ == name@,
            r.offset == 0,
            r.chunk_index == 0,
            r.total_chunks == chunks_for(size as nat),
    {
        let whole = size / (CHUNK_SIZE as u64);
        let total = if size % (CHUNK_SIZE as u64) == 0 {
            whole
        } else {
            whole + 1
        };
        ReadProgress { name, offset: 0, chunk_index: 0, total_chunks: total }
    }
}

/// Turns the bytes of one read at the current offset into the reader's output.
/// Bytes go on as a chunk, and the file is resubmitted just past them; no bytes
/// mean the end of the file, which goes on as the end-of-file record and ends
/// the file's reading.
pub fn read_step(progress: ReadProgress, bytes: Vec<u8>) -> (r: ReadStep)
    requires
        progress.offset + bytes@.len() <= u64::MAX,
        progress.chunk_index < u64::MAX,
    ensures
        r.chunk.file_name@ == progress.name@,
        bytes@.len() == 0 ==> r.chunk.chunk is None && r.next is None,
        bytes@.len() > 0 ==> r.chunk.chunk == Some(bytes) && r.next is Some,
        r.next matches Some(n) ==> n.name@ == progress.name@ && n.offset == progress.offset
            + bytes@.len() && n.chunk_index == progress.chunk_index + 1 && n.total_chunks
            == progress.total_chunks,
{
    if bytes.len() == 0 {
        ReadStep { chunk: FileChunk { file_name: progress.name, chunk: None }, next: None }
    } else {
        let name = progress.name.clone();
        let next = ReadProgress {
            name: progress.name,
            offset: progress.offset + bytes.len() as u64,
            chunk_index: progress.chunk_index + 1,
            total_chunks: progress.total_chunks,
        };
        ReadStep { chunk: FileChunk { file_name: name, chunk: Some(bytes) }, next: Some(next) }
    }
}

} // verus!
