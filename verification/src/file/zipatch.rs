//! The incremental patch file format: a magic header followed by a stream
//! of chunks.
//!
//! Each chunk is a big-endian size, a four-byte kind tag, that many bytes
//! of payload, and a four-byte checksum. Chunks are read lazily, strictly
//! back to back, from one forward-only stream; the iterator owns that
//! stream and performs each seek-then-read as one step. The chunk kinds'
//! own structure is an external collaborator of the archive layer: chunks
//! are handed out raw, except the end-of-file kind, which ends iteration.

use vstd::prelude::*;

use crate::error::{Error, ErrorValue, ResourceCause};
use crate::record::spec_u32_be;
use crate::stream::{FileStream, SeekFrom, read_exact};

verus! {

/// The twelve bytes every patch file starts with.
pub open spec fn spec_zipatch_magic() -> Seq<u8> {
    seq![0x91u8, 0x5Au8, 0x49u8, 0x50u8, 0x41u8, 0x54u8, 0x43u8, 0x48u8, 0x0Du8, 0x0Au8, 0x1Au8, 0x0Au8]
}

/// The four-byte kind tag ending a patch: `EOF_`.
pub open spec fn spec_eof_kind() -> Seq<u8> {
    seq![69u8, 79u8, 70u8, 95u8]
}

/// The declared payload size of the chunk at `o`.
pub open spec fn spec_chunk_size(b: Seq<u8>, o: int) -> int {
    spec_u32_be(b.subrange(o, o + 4))
}

/// The kind tag of the chunk at `o`.
pub open spec fn spec_chunk_kind(b: Seq<u8>, o: int) -> Seq<u8> {
    b.subrange(o + 4, o + 8)
}

/// The payload of the chunk at `o`.
pub open spec fn spec_chunk_payload(b: Seq<u8>, o: int) -> Seq<u8> {
    b.subrange(o + 8, o + 8 + spec_chunk_size(b, o))
}

/// Whether a whole chunk (size, kind, payload and checksum) lies at `o`.
pub open spec fn spec_chunk_ok(b: Seq<u8>, o: int) -> bool {
    &&& 0 <= o
    &&& o + 8 <= b.len()
    &&& o + 12 + spec_chunk_size(b, o) <= b.len()
}

/// One chunk of a patch file.
#[derive(Debug)]
pub enum Chunk {
    /// The chunk ending the patch.
    EndOfFile,
    /// Any other chunk, handed out raw: its kind tag and payload.
    Other { kind: Vec<u8>, payload: Vec<u8> },
}

/// ZiPatch incremental patch file format.
///
/// The format holds a significant number of small headers interspersed
/// between payloads; the wrapped stream is read strictly forward.
#[derive(Debug)]
pub struct ZiPatch<R> {
    stream: R,
}

impl<R: FileStream> ZiPatch<R> {
    /// The patch file's bytes.
    pub closed spec fn spec_data(&self) -> Seq<u8> {
        self.stream.stream_data()
    }

    /// The wrapped stream.
    pub closed spec fn spec_stream(&self) -> R {
        self.stream
    }

    /// Check the magic in the header and take ownership of the stream;
    /// the rest of the file is chunks, read lazily.
    pub fn read(stream: R) -> (r: Result<ZiPatch<R>, Error>)
        requires
            stream.inv(),
            stream.stream_pos() == 0,
        ensures
            match r {
                Ok(z) => {
                    &&& stream.stream_data().len() >= 12
                    &&& stream.stream_data().subrange(0, 12) == spec_zipatch_magic()
                    &&& z.spec_data() == stream.stream_data()
                    &&& z.spec_stream().inv()
                    &&& z.spec_stream().reliable() == stream.reliable()
                    &&& (forall|p: u64|
                        #[trigger] z.spec_stream().seek_ok(SeekFrom::Start(p))
                            == stream.seek_ok(SeekFrom::Start(p)))
                },
                Err(e) => {
                    &&& !(stream.reliable() && stream.stream_data().len() >= 12
                        && stream.stream_data().subrange(0, 12) == spec_zipatch_magic())
                    &&& (stream.reliable() && stream.stream_data().len() >= 12
                        && stream.stream_data().subrange(0, 12) != spec_zipatch_magic()) ==> (
                    e matches Error::Invalid(ErrorValue::File(m)) && m@
                        == stream.stream_data().subrange(0, 12))
                },
            },
    {
        let mut s = stream;
        let magic = match read_exact(&mut s, 12) {
            Ok(m) => m,
            Err(e) => {
                return Err(e);
            },
        };
        proof {
            broadcast use vstd::std_specs::vec::axiom_spec_len;

            assert(vstd::std_specs::vec::spec_vec_len(&magic) == magic@.len());
        }
        if !(magic[0] == 0x91 && magic[1] == 0x5A && magic[2] == 0x49 && magic[3] == 0x50
            && magic[4] == 0x41 && magic[5] == 0x54 && magic[6] == 0x43 && magic[7] == 0x48
            && magic[8] == 0x0D && magic[9] == 0x0A && magic[10] == 0x1A && magic[11]
            == 0x0A) {
            proof {
                assert(magic@ != spec_zipatch_magic());
            }
            return Err(Error::Invalid(ErrorValue::File(magic)));
        }
        proof {
            assert(magic@ =~= spec_zipatch_magic());
        }
        Ok(ZiPatch { stream: s })
    }

    /// Get an iterator over the chunks within this patch file, starting
    /// right after the magic. The stream moves into the iterator: chunks
    /// must be read back to back from a single forward-only stream.
    pub fn chunks(self) -> (r: ChunkIterator<R>)
        ensures
            r.spec_data() == self.spec_data(),
            r.spec_offset() == 12,
            !r.spec_complete(),
            r.spec_stream().inv() == self.spec_stream().inv(),
            r.spec_stream() == self.spec_stream(),
    {
        ChunkIterator::new(self.stream)
    }
}

/// Iterator over the chunks within a patch file.
///
/// Chunks are read lazily from the source stream over the course of
/// iteration; the iterator remembers where the next chunk starts and
/// whether the end-of-file chunk has been seen.
#[derive(Debug)]
pub struct ChunkIterator<R> {
    stream: R,
    offset: u64,
    complete: bool,
}

impl<R: FileStream> ChunkIterator<R> {
    /// The patch file's bytes.
    pub closed spec fn spec_data(&self) -> Seq<u8> {
        self.stream.stream_data()
    }

    /// The wrapped stream.
    pub closed spec fn spec_stream(&self) -> R {
        self.stream
    }

    /// Where the next chunk starts.
    pub closed spec fn spec_offset(&self) -> int {
        self.offset as int
    }

    /// Whether the end-of-file chunk has been seen.
    pub closed spec fn spec_complete(&self) -> bool {
        self.complete
    }

    /// Start iterating the chunks of `stream`, which begin right after
    /// the twelve magic bytes.
    pub fn new(stream: R) -> (r: Self)
        ensures
            r.spec_stream() == stream,
            r.spec_data() == stream.stream_data(),
            r.spec_offset() == 12,
            !r.spec_complete(),
    {
        ChunkIterator { stream, offset: 12, complete: false }
    }

    /// Read the chunk at the remembered offset: seek there, then read its
    /// size, kind, payload and checksum as one unit, and move the offset
    /// past them.
    fn read_chunk(&mut self) -> (r: Result<Chunk, Error>)
        requires
            old(self).spec_stream().inv(),
        ensures
            final(self).spec_stream().inv(),
            final(self).spec_data() == old(self).spec_data(),
            final(self).spec_complete() == old(self).spec_complete(),
            final(self).spec_stream().reliable() == old(self).spec_stream().reliable(),
            forall|p: u64|
                #[trigger] final(self).spec_stream().seek_ok(SeekFrom::Start(p)) == old(
                    self,
                ).spec_stream().seek_ok(SeekFrom::Start(p)),
            match r {
                Ok(c) => {
                    let b = old(self).spec_data();
                    let o = old(self).spec_offset();
                    &&& spec_chunk_ok(b, o)
                    &&& final(self).spec_offset() == o + 12 + spec_chunk_size(b, o)
                    &&& (c is EndOfFile <==> spec_chunk_kind(b, o) == spec_eof_kind())
                    &&& (c matches Chunk::Other { kind, payload } ==> kind@ == spec_chunk_kind(
                        b,
                        o,
                    ) && payload@ == spec_chunk_payload(b, o))
                },
                Err(_) => {
                    &&& final(self).spec_offset() == old(self).spec_offset()
                    &&& !(old(self).spec_stream().reliable() && old(self).spec_stream().seek_ok(
                        SeekFrom::Start(old(self).offset),
                    ) && spec_chunk_ok(old(self).spec_data(), old(self).spec_offset()) && old(
                        self,
                    ).spec_offset() + 12 + spec_chunk_size(
                        old(self).spec_data(),
                        old(self).spec_offset(),
                    ) <= u64::MAX)
                },
            },
    {
        // Seek to the last known offset: in a tight loop this is
        // effectively a no-op, but the position must be pinned in case
        // anything else moved the stream.
        match self.stream.seek(SeekFrom::Start(self.offset)) {
            Ok(_) => (),
            Err(e) => {
                return Err(e);
            },
        }
        let size_bytes = match read_exact(&mut self.stream, 4) {
            Ok(v) => v,
            Err(e) => {
                return Err(e);
            },
        };
        let size = crate::record::u32_be(&size_bytes, 0);
        proof {
            assert(size_bytes@.subrange(0, 4) =~= size_bytes@);
        }
        let kind = match read_exact(&mut self.stream, 4) {
            Ok(v) => v,
            Err(e) => {
                return Err(e);
            },
        };
        let payload = match read_exact(&mut self.stream, size as usize) {
            Ok(v) => v,
            Err(e) => {
                return Err(e);
            },
        };
        // The checksum is read past and left unchecked here.
        match read_exact(&mut self.stream, 4) {
            Ok(_) => (),
            Err(e) => {
                return Err(e);
            },
        }
        // `size` covers the chunk data alone; the other three fields are
        // four bytes each.
        if self.offset > u64::MAX - 12 - size as u64 {
            return Err(Error::Resource(ResourceCause::Decode));
        }
        self.offset = self.offset + 12 + size as u64;
        proof {
            broadcast use vstd::std_specs::vec::axiom_spec_len;

            assert(vstd::std_specs::vec::spec_vec_len(&kind) == kind@.len());
        }
        let is_eof = kind.len() == 4 && kind[0] == 69 && kind[1] == 79 && kind[2] == 70
            && kind[3] == 95;
        if is_eof {
            proof {
                assert(kind@ =~= spec_eof_kind());
            }
            Ok(Chunk::EndOfFile)
        } else {
            proof {
                if kind@ == spec_eof_kind() {
                    assert(kind@[0] == 69 && kind@[1] == 79 && kind@[2] == 70 && kind@[3] == 95);
                }
            }
            Ok(Chunk::Other { kind, payload })
        }
    }

    /// The next chunk, or nothing once the end-of-file chunk has been
    /// yielded. A failed read is yielded to the caller and does not end
    /// the iteration by itself.
    pub fn next(&mut self) -> (r: Option<Result<Chunk, Error>>)
        requires
            old(self).spec_stream().inv(),
        ensures
            final(self).spec_stream().inv(),
            final(self).spec_data() == old(self).spec_data(),
            match r {
                None => {
                    &&& old(self).spec_complete()
                    &&& final(self).spec_complete()
                    &&& final(self).spec_offset() == old(self).spec_offset()
                },
                Some(res) => {
                    let b = old(self).spec_data();
                    let o = old(self).spec_offset();
                    &&& !old(self).spec_complete()
                    &&& final(self).spec_complete() == (res matches Ok(Chunk::EndOfFile))
                    &&& (res matches Ok(c) ==> {
                        &&& spec_chunk_ok(b, o)
                        &&& final(self).spec_offset() == o + 12 + spec_chunk_size(b, o)
                        &&& (c is EndOfFile <==> spec_chunk_kind(b, o) == spec_eof_kind())
                        &&& (c matches Chunk::Other { kind, payload } ==> kind@
                            == spec_chunk_kind(b, o) && payload@ == spec_chunk_payload(b, o))
                    })
                    &&& (res is Err ==> final(self).spec_offset() == o)
                },
            },
    {
        if self.complete {
            return None;
        }
        let chunk = self.read_chunk();
        match &chunk {
            Ok(Chunk::EndOfFile) => {
                self.complete = true;
            },
            _ => (),
        }
        Some(chunk)
    }
}

} // verus!
