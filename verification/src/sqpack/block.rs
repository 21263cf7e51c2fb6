//! Reconstruction of one contiguous logical byte stream from
//! possibly-compressed, possibly-discontiguous blocks of a container file.
//!
//! A block table maps each block's compressed payload (an input range of the
//! container) to its contribution to the logical output stream (an output
//! range). The table is ordered, non-overlapping and contiguous: each entry's
//! output range starts where the previous one ended. `BlockStream` decodes
//! blocks lazily, one per read, caching the most recently decoded block so
//! that a read beginning or ending mid-block costs one decode.

use vstd::prelude::*;

use crate::error::{Error, ErrorValue};
use crate::record::{SizedRead, spec_u32_le, u32_le};
use crate::stream::{
    FileStream, SeekFrom, concat_parts, parts_len, read_exact, reads_back_to_back, seek_target,
};

verus! {

/// The bytes a deflate stream decompresses to. Decompression is a function
/// of the compressed bytes alone; its pages-long definition is left
/// unspecified and everything downstream is stated through this name.
pub uninterp spec fn inflate_of(input: Seq<u8>) -> Seq<u8>;

/// Whether a byte sequence is a well-formed deflate stream, so that
/// decompressing it succeeds. A function of the bytes alone.
pub uninterp spec fn inflate_ok(input: Seq<u8>) -> bool;

/// Relies on miniz_oxide::inflate::decompress_to_vec: decompresses a raw
/// deflate stream held entirely in memory; the result, and whether decoding
/// succeeds, depend on the input bytes alone.
#[verifier::external_body]
fn inflate(input: &Vec<u8>) -> (r: Option<Vec<u8>>)
    ensures
        r is Some <==> inflate_ok(input@),
        r matches Some(v) ==> v@ == inflate_of(input@),
{
    miniz_oxide::inflate::decompress_to_vec(input.as_slice()).ok()
}

/// The block-header field value marking a block that is stored verbatim
/// rather than deflate-compressed.
pub const UNCOMPRESSED_MARKER: u32 = 32000;

/// The small record found at each block's offset in the container: the
/// header's own size, the payload (compressed) size, and the size the
/// payload inflates to. Little-endian, with the payload size at byte 8.
#[derive(Debug, Clone, Copy, PartialEq, Eq, Structural)]
pub struct BlockHeader {
    /// Size of the header itself; the payload follows at this offset.
    pub size: u32,
    /// Size of the stored payload. `UNCOMPRESSED_MARKER` means the payload
    /// is stored verbatim.
    pub compressed_size: u32,
    /// Size the payload decompresses to.
    pub decompressed_size: u32,
}

impl SizedRead for BlockHeader {
    open spec fn spec_size() -> int {
        16
    }

    open spec fn spec_parse(b: Seq<u8>) -> Self {
        BlockHeader {
            size: spec_u32_le(b.subrange(0, 4)) as u32,
            compressed_size: spec_u32_le(b.subrange(8, 12)) as u32,
            decompressed_size: spec_u32_le(b.subrange(12, 16)) as u32,
        }
    }

    fn size() -> usize {
        16
    }

    fn parse_at(bytes: &Vec<u8>, at: usize) -> (r: Self) {
        proof {
            broadcast use vstd::std_specs::vec::axiom_spec_len;

            assert(vstd::std_specs::vec::spec_vec_len(bytes) == bytes@.len());
        }
        let size = u32_le(bytes, at);
        let compressed_size = u32_le(bytes, at + 8);
        let decompressed_size = u32_le(bytes, at + 12);
        proof {
            let b = bytes@.subrange(at as int, at + 16);
            assert(b.subrange(0, 4) =~= bytes@.subrange(at as int, at + 4));
            assert(b.subrange(8, 12) =~= bytes@.subrange(at + 8, at + 12));
            assert(b.subrange(12, 16) =~= bytes@.subrange(at + 12, at + 16));
        }
        BlockHeader { size, compressed_size, decompressed_size }
    }
}

/// One block's place in the container and in the logical stream: where its
/// stored payload lives (`input_offset`, `input_size`), whether that payload
/// is deflate-compressed, and the range `[output_offset,
/// output_offset + output_size)` of the logical stream it decodes to.
#[derive(Debug, Clone, Copy, PartialEq, Eq, Structural)]
pub struct BlockMetadata {
    /// Absolute container offset of the stored payload.
    pub input_offset: u64,
    /// Length of the stored payload in the container.
    pub input_size: u32,
    /// Whether the payload is deflate-compressed (else stored verbatim).
    pub compressed: bool,
    /// Offset of this block's bytes in the logical output stream.
    pub output_offset: u64,
    /// Number of logical bytes this block decodes to.
    pub output_size: u32,
}

/// The stored payload of one block: the input range the metadata names,
/// clamped to what the container actually holds.
pub open spec fn spec_block_payload(data: Seq<u8>, m: BlockMetadata) -> Seq<u8> {
    let lo = if m.input_offset <= data.len() {
        m.input_offset as int
    } else {
        data.len() as int
    };
    let hi = if m.input_offset + m.input_size <= data.len() {
        m.input_offset + m.input_size
    } else {
        data.len() as int
    };
    data.subrange(lo, hi)
}

/// The logical bytes one block decodes to.
pub open spec fn spec_block_output(data: Seq<u8>, m: BlockMetadata) -> Seq<u8> {
    if m.compressed {
        inflate_of(spec_block_payload(data, m))
    } else {
        spec_block_payload(data, m)
    }
}

/// Whether one block can actually be decoded from the container: its payload
/// lies within the container, decompresses cleanly if compressed, and
/// produces exactly the declared number of logical bytes.
pub open spec fn block_decodes(data: Seq<u8>, m: BlockMetadata) -> bool {
    &&& m.input_offset + m.input_size <= data.len()
    &&& (m.compressed ==> inflate_ok(spec_block_payload(data, m)))
    &&& spec_block_output(data, m).len() == m.output_size
}

/// One block's declared slot of the logical stream: its decoded bytes where
/// the block decodes to its declared size, unconstrained bytes otherwise.
pub open spec fn spec_block_slot(data: Seq<u8>, m: BlockMetadata) -> Seq<u8> {
    Seq::new(
        m.output_size as nat,
        |j: int|
            if j < spec_block_output(data, m).len() {
                spec_block_output(data, m)[j]
            } else {
                vstd::pervasive::arbitrary()
            },
    )
}

/// The block table's invariant: output ranges are ordered, non-overlapping
/// and contiguous — the first starts at zero and each one starts where the
/// one before it ends.
pub open spec fn metadata_contiguous(ms: Seq<BlockMetadata>) -> bool {
    &&& (ms.len() > 0 ==> ms[0].output_offset == 0)
    &&& (forall|i: int|
        1 <= i < ms.len() ==> #[trigger] ms[i].output_offset == ms[i - 1].output_offset + ms[i
            - 1].output_size)
}

/// The total number of logical bytes the block table describes.
pub open spec fn spec_total_output(ms: Seq<BlockMetadata>) -> int {
    if ms.len() == 0 {
        0
    } else {
        ms.last().output_offset + ms.last().output_size
    }
}

/// The whole logical stream a block table describes over a container.
#[verifier::opaque]
pub open spec fn spec_block_stream_data(data: Seq<u8>, ms: Seq<BlockMetadata>) -> Seq<u8>
    decreases ms.len(),
{
    if ms.len() == 0 {
        Seq::empty()
    } else {
        spec_block_stream_data(data, ms.drop_last()) + spec_block_slot(data, ms.last())
    }
}

/// A contiguous table shorn of its last entry is still contiguous.
proof fn lemma_contiguous_drop_last(ms: Seq<BlockMetadata>)
    requires
        metadata_contiguous(ms),
        ms.len() > 0,
    ensures
        metadata_contiguous(ms.drop_last()),
{
    assert forall|i: int| 1 <= i < ms.drop_last().len() implies #[trigger] ms.drop_last()[
        i
    ].output_offset == ms.drop_last()[i - 1].output_offset + ms.drop_last()[i
        - 1].output_size by {
        assert(ms[i].output_offset == ms[i - 1].output_offset + ms[i - 1].output_size);
    }
}

/// The logical stream is as long as the table declares.
pub proof fn lemma_stream_data_len(data: Seq<u8>, ms: Seq<BlockMetadata>)
    requires
        metadata_contiguous(ms),
    ensures
        spec_block_stream_data(data, ms).len() == spec_total_output(ms),
        spec_total_output(ms) >= 0,
    decreases ms.len(),
{
    reveal(spec_block_stream_data);
    if ms.len() > 0 {
        lemma_contiguous_drop_last(ms);
        lemma_stream_data_len(data, ms.drop_last());
        if ms.len() > 1 {
            assert(ms.last().output_offset == ms[ms.len() - 2].output_offset + ms[ms.len()
                - 2].output_size);
        }
    }
}

/// Each block's output range selects exactly that block's slot of the
/// logical stream.
pub proof fn lemma_stream_data_segment(data: Seq<u8>, ms: Seq<BlockMetadata>, i: int)
    requires
        metadata_contiguous(ms),
        0 <= i < ms.len(),
    ensures
        ms[i].output_offset + ms[i].output_size <= spec_total_output(ms),
        spec_block_stream_data(data, ms).subrange(
            ms[i].output_offset as int,
            ms[i].output_offset + ms[i].output_size,
        ) == spec_block_slot(data, ms[i]),
    decreases ms.len(),
{
    reveal(spec_block_stream_data);
    lemma_stream_data_len(data, ms);
    lemma_contiguous_drop_last(ms);
    lemma_stream_data_len(data, ms.drop_last());
    if i == ms.len() - 1 {
        if ms.len() > 1 {
            assert(ms.last().output_offset == ms[ms.len() - 2].output_offset + ms[ms.len()
                - 2].output_size);
        }
        assert(spec_block_stream_data(data, ms).subrange(
            ms[i].output_offset as int,
            ms[i].output_offset + ms[i].output_size,
        ) =~= spec_block_slot(data, ms[i]));
    } else {
        lemma_stream_data_segment(data, ms.drop_last(), i);
        assert(spec_block_stream_data(data, ms).subrange(
            ms[i].output_offset as int,
            ms[i].output_offset + ms[i].output_size,
        ) =~= spec_block_stream_data(data, ms.drop_last()).subrange(
            ms[i].output_offset as int,
            ms[i].output_offset + ms[i].output_size,
        ));
    }
}

/// A slice of one decoded block is the matching slice of the whole logical
/// stream.
proof fn lemma_block_slice_is_stream_slice(
    data: Seq<u8>,
    ms: Seq<BlockMetadata>,
    i: int,
    pos: int,
    b: Seq<u8>,
    out: Seq<u8>,
)
    requires
        metadata_contiguous(ms),
        0 <= i < ms.len(),
        ms[i].output_offset <= pos,
        b == spec_block_output(data, ms[i]),
        b.len() == ms[i].output_size,
        pos - ms[i].output_offset + out.len() <= ms[i].output_size,
        out == b.subrange(pos - ms[i].output_offset, pos - ms[i].output_offset + out.len()),
    ensures
        pos + out.len() <= spec_total_output(ms),
        spec_block_stream_data(data, ms).len() == spec_total_output(ms),
        out == spec_block_stream_data(data, ms).subrange(pos, pos + out.len()),
{
    lemma_stream_data_len(data, ms);
    lemma_stream_data_segment(data, ms, i);
    let slot = spec_block_slot(data, ms[i]);
    assert(slot =~= b);
    assert(out =~= spec_block_stream_data(data, ms).subrange(pos, pos + out.len()));
}

/// Every position short of the total lies in some block's output range.
pub proof fn lemma_position_has_block(ms: Seq<BlockMetadata>, pos: int)
    requires
        metadata_contiguous(ms),
        0 <= pos < spec_total_output(ms),
    ensures
        exists|i: int|
            0 <= i < ms.len() && (#[trigger] ms[i].output_offset) <= pos < ms[i].output_offset
                + ms[i].output_size,
    decreases ms.len(),
{
    if ms.len() > 0 {
        if pos >= ms.last().output_offset {
            assert(ms[ms.len() - 1].output_offset <= pos < ms[ms.len() - 1].output_offset
                + ms[ms.len() - 1].output_size);
        } else {
            lemma_contiguous_drop_last(ms);
            if ms.len() > 1 {
                assert(ms.last().output_offset == ms[ms.len() - 2].output_offset + ms[ms.len()
                    - 2].output_size);
            }
            lemma_position_has_block(ms.drop_last(), pos);
            let j = choose|j: int|
                0 <= j < ms.drop_last().len() && (#[trigger] ms.drop_last()[j].output_offset)
                    <= pos < ms.drop_last()[j].output_offset + ms.drop_last()[j].output_size;
            assert(ms[j].output_offset <= pos < ms[j].output_offset + ms[j].output_size);
        }
    }
}

/// Presents the same readable, seekable contract as any other byte source,
/// but assembles its logical bytes on demand by decoding blocks of the
/// wrapped container.
#[derive(Debug)]
pub struct BlockStream<R> {
    inner: R,
    position: u64,
    metadata: Vec<BlockMetadata>,
    cache: Option<(usize, Vec<u8>)>,
}

impl<R: FileStream> BlockStream<R> {
    /// The block table this stream decodes through.
    pub closed spec fn spec_metadata(&self) -> Seq<BlockMetadata> {
        self.metadata@
    }

    /// The wrapped container's content.
    pub closed spec fn spec_inner_data(&self) -> Seq<u8> {
        self.inner.stream_data()
    }

    /// Assemble a stream over `inner` from a block table satisfying the
    /// contiguity invariant, with the logical position at `position`.
    pub fn new(inner: R, position: u64, metadata: Vec<BlockMetadata>) -> (r: Self)
        requires
            inner.inv(),
            metadata_contiguous(metadata@),
            spec_total_output(metadata@) <= u64::MAX,
        ensures
            r.inv(),
            r.spec_metadata() == metadata@,
            r.spec_inner_data() == inner.stream_data(),
            r.stream_pos() == position,
            r.stream_data() == spec_block_stream_data(inner.stream_data(), metadata@),
            r.reliable() == (inner.reliable() && (forall|i: int|
                0 <= i < metadata@.len() ==> block_decodes(
                    inner.stream_data(),
                    #[trigger] metadata@[i],
                ) && inner.seek_ok(SeekFrom::Start(metadata@[i].input_offset)))),
    {
        BlockStream { inner, position, metadata, cache: None }
    }

    /// The total number of logical bytes this stream yields.
    pub fn total_output(&self) -> (r: u64)
        requires
            self.inv(),
        ensures
            r as int == spec_total_output(self.spec_metadata()),
    {
        proof {
            lemma_stream_data_len(self.inner.stream_data(), self.metadata@);
        }
        if self.metadata.len() == 0 {
            0
        } else {
            let m = self.metadata[self.metadata.len() - 1];
            m.output_offset + m.output_size as u64
        }
    }

    /// Locate the block whose output range contains `pos`; the table's
    /// order and contiguity make a single forward scan enough.
    fn find_block(&self, pos: u64) -> (i: usize)
        requires
            self.inv(),
            pos < spec_total_output(self.spec_metadata()),
        ensures
            i < self.spec_metadata().len(),
            self.spec_metadata()[i as int].output_offset <= pos < self.spec_metadata()[
                i as int
            ].output_offset + self.spec_metadata()[i as int].output_size,
    {
        let ghost ms = self.metadata@;
        proof {
            lemma_position_has_block(ms, pos as int);
        }
        let mut i: usize = 0;
        loop
            invariant
                ms == self.metadata@,
                0 <= i <= ms.len(),
                forall|j: int|
                    0 <= j < i ==> !((#[trigger] ms[j].output_offset) <= pos < ms[j].output_offset
                        + ms[j].output_size),
                exists|j: int|
                    0 <= j < ms.len() && (#[trigger] ms[j].output_offset) <= pos
                        < ms[j].output_offset + ms[j].output_size,
            ensures
                0 <= i < ms.len(),
                ms[i as int].output_offset <= pos < ms[i as int].output_offset + ms[
                    i as int
                ].output_size,
            decreases ms.len() - i,
        {
            if i >= self.metadata.len() {
                proof {
                    assert(false);
                }
            } else {
                let m = self.metadata[i];
                if m.output_offset <= pos && pos - m.output_offset < m.output_size as u64 {
                    break ;
                }
                i = i + 1;
            }
        }
        i
    }

    /// Make the decode cache hold block `i`: a cache hit costs nothing, and
    /// a miss seeks to the block's payload, reads it, and decodes it.
    fn load_block(&mut self, i: usize) -> (r: Result<(), Error>)
        requires
            old(self).inv(),
            i < old(self).metadata@.len(),
        ensures
            final(self).inv(),
            final(self).metadata@ == old(self).metadata@,
            final(self).inner.stream_data() == old(self).inner.stream_data(),
            final(self).position == old(self).position,
            final(self).reliable() == old(self).reliable(),
            final(self).inner.reliable() == old(self).inner.reliable(),
            forall|p: u64|
                #[trigger] final(self).inner.seek_ok(SeekFrom::Start(p)) == old(
                    self,
                ).inner.seek_ok(SeekFrom::Start(p)),
            match r {
                Ok(_) => final(self).cache matches Some(c) && c.0 == i && c.1@
                    == spec_block_output(
                    old(self).inner.stream_data(),
                    old(self).metadata@[i as int],
                ) && c.1@.len() == old(self).metadata@[i as int].output_size,
                Err(_) => !old(self).reliable(),
            },
    {
        let ghost inner_data = self.inner.stream_data();
        let ghost m_ghost = self.metadata@[i as int];
        let hit = match &self.cache {
            Some(c) => c.0 == i,
            None => false,
        };
        if hit {
            return Ok(());
        }
        let m = self.metadata[i];
        match self.inner.seek(SeekFrom::Start(m.input_offset)) {
            Ok(_) => (),
            Err(e) => {
                proof {
                    if old(self).reliable() {
                        assert(block_decodes(inner_data, old(self).metadata@[i as int]));
                        assert(false);
                    }
                }
                return Err(e);
            },
        }
        let payload = match read_exact(&mut self.inner, m.input_size as usize) {
            Ok(p) => p,
            Err(e) => {
                proof {
                    if old(self).reliable() {
                        assert(block_decodes(inner_data, old(self).metadata@[i as int]));
                        assert(false);
                    }
                }
                return Err(e);
            },
        };
        let ghost pv = payload@;
        proof {
            assert(m == old(self).metadata@[i as int]);
            assert(pv =~= spec_block_payload(inner_data, m));
        }
        let outbytes = if m.compressed {
            match inflate(&payload) {
                Some(v) => v,
                None => {
                    proof {
                        if old(self).reliable() {
                            assert(block_decodes(inner_data, old(self).metadata@[i as int]));
                            assert(false);
                        }
                    }
                    // A corrupt block is a hard stream error; the raw
                    // payload is the diagnostic.
                    return Err(Error::Invalid(ErrorValue::File(payload)));
                },
            }
        } else {
            payload
        };
        proof {
            assert(outbytes@ == spec_block_output(inner_data, m));
        }
        if outbytes.len() as u64 != m.output_size as u64 {
            proof {
                if old(self).reliable() {
                    assert(block_decodes(inner_data, old(self).metadata@[i as int]));
                    assert(false);
                }
            }
            return Err(Error::Invalid(ErrorValue::File(outbytes)));
        }
        self.cache = Some((i, outbytes));
        proof {
            assert forall|j: int| 0 <= j < self.metadata@.len() implies (self.inner.seek_ok(
                SeekFrom::Start((#[trigger] self.metadata@[j]).input_offset),
            ) == old(self).inner.seek_ok(
                SeekFrom::Start(self.metadata@[j].input_offset),
            )) by {}
        }
        Ok(())
    }

    /// Copy `k` bytes of the cached block's decoded output, starting at
    /// `start`.
    fn cached_slice(&self, start: usize, k: usize) -> (out: Vec<u8>)
        requires
            self.cache matches Some(c) && start + k <= c.1@.len(),
        ensures
            self.cache matches Some(c) && out@ == c.1@.subrange(start as int, start + k),
    {
        match &self.cache {
            Some(c) => {
                proof {
                    broadcast use vstd::std_specs::vec::axiom_spec_len;

                    assert(vstd::std_specs::vec::spec_vec_len(&c.1) == c.1@.len());
                }
                let piece = vstd::slice::slice_subrange(c.1.as_slice(), start, start + k);
                vstd::slice::slice_to_vec(piece)
            },
            None => {
                proof {
                    assert(false);
                }
                Vec::new()
            },
        }
    }

    /// For every block table satisfying the contiguity invariant, reading
    /// the entire logical stream in arbitrarily-sized chunks yields
    /// byte-for-byte the same result as reading it in one single
    /// full-length read: back-to-back reads from position zero totalling
    /// the stream's length concatenate to exactly the stream's content.
    pub proof fn lemma_chunked_reads_equal_full_read(&self, parts: Seq<Seq<u8>>)
        requires
            self.inv(),
            reads_back_to_back(self.stream_data(), 0, parts),
            parts_len(parts) == self.stream_data().len(),
        ensures
            concat_parts(parts) == self.stream_data(),
    {
        crate::stream::lemma_split_reads_equal_one_read(self.stream_data(), 0, parts);
        assert(self.stream_data().subrange(0, self.stream_data().len() as int)
            =~= self.stream_data());
    }
}

impl<R: FileStream> FileStream for BlockStream<R> {
    closed spec fn stream_data(&self) -> Seq<u8> {
        spec_block_stream_data(self.inner.stream_data(), self.metadata@)
    }

    closed spec fn stream_pos(&self) -> int {
        self.position as int
    }

    closed spec fn inv(&self) -> bool {
        &&& self.inner.inv()
        &&& metadata_contiguous(self.metadata@)
        &&& spec_total_output(self.metadata@) <= u64::MAX
        &&& match self.cache {
            Some((i, ref b)) => {
                &&& i < self.metadata@.len()
                &&& b@ == spec_block_output(self.inner.stream_data(), self.metadata@[i as int])
                &&& b@.len() == self.metadata@[i as int].output_size
            },
            None => true,
        }
    }

    closed spec fn reliable(&self) -> bool {
        &&& self.inner.reliable()
        &&& forall|i: int|
            0 <= i < self.metadata@.len() ==> block_decodes(
                self.inner.stream_data(),
                #[trigger] self.metadata@[i],
            ) && self.inner.seek_ok(SeekFrom::Start(self.metadata@[i].input_offset))
    }

    closed spec fn seek_ok(&self, from: SeekFrom) -> bool {
        let target = seek_target(
            from,
            self.position as int,
            spec_total_output(self.metadata@),
        );
        0 <= target <= u64::MAX
    }

    closed spec fn stream_end(&self) -> int {
        spec_total_output(self.metadata@)
    }

    proof fn lemma_inv_bounds(&self) {
        lemma_stream_data_len(self.inner.stream_data(), self.metadata@);
    }

    #[verifier::rlimit(100)]
    #[verifier::spinoff_prover]
    fn read(&mut self, n: usize) -> (r: Result<Vec<u8>, Error>) {
        proof {
            lemma_stream_data_len(self.inner.stream_data(), self.metadata@);
        }
        let ghost data = self.stream_data();
        let ghost inner_data = self.inner.stream_data();
        let ghost ms = self.metadata@;
        let total = self.total_output();
        if n == 0 || self.position >= total {
            proof {
                if (self.position as int) < data.len() {
                    assert(Seq::<u8>::empty() =~= data.subrange(
                        self.position as int,
                        self.position as int,
                    ));
                }
            }
            return Ok(Vec::new());
        }
        let pos = self.position;
        let i = self.find_block(pos);
        let m = self.metadata[i];
        match self.load_block(i) {
            Ok(_) => (),
            Err(e) => {
                return Err(e);
            },
        }
        let start = (pos - m.output_offset) as usize;
        let avail = m.output_size as usize - start;
        let k = if n <= avail {
            n
        } else {
            avail
        };
        let out = self.cached_slice(start, k);
        proof {
            lemma_block_slice_is_stream_slice(
                inner_data,
                ms,
                i as int,
                pos as int,
                spec_block_output(inner_data, ms[i as int]),
                out@,
            );
        }
        self.position = pos + out.len() as u64;
        proof {
            assert forall|p: u64| #[trigger] self.inner.seek_ok(SeekFrom::Start(p)) == old(
                self,
            ).inner.seek_ok(SeekFrom::Start(p)) by {}
            assert(self.reliable() == old(self).reliable()) by {
                if old(self).reliable() {
                    assert forall|j: int| 0 <= j < self.metadata@.len() implies (block_decodes(
                        self.inner.stream_data(),
                        #[trigger] self.metadata@[j],
                    ) && self.inner.seek_ok(
                        SeekFrom::Start(self.metadata@[j].input_offset),
                    )) by {
                        assert(block_decodes(
                            old(self).inner.stream_data(),
                            old(self).metadata@[j],
                        ) && old(self).inner.seek_ok(
                            SeekFrom::Start(old(self).metadata@[j].input_offset),
                        ));
                    }
                }
                if self.reliable() {
                    assert forall|j: int| 0 <= j < old(self).metadata@.len() implies (
                    block_decodes(
                        old(self).inner.stream_data(),
                        #[trigger] old(self).metadata@[j],
                    ) && old(self).inner.seek_ok(
                        SeekFrom::Start(old(self).metadata@[j].input_offset),
                    )) by {
                        assert(block_decodes(
                            self.inner.stream_data(),
                            self.metadata@[j],
                        ) && self.inner.seek_ok(
                            SeekFrom::Start(self.metadata@[j].input_offset),
                        ));
                    }
                }
            }
        }
        Ok(out)
    }

    fn seek(&mut self, from: SeekFrom) -> (r: Result<u64, Error>) {
        proof {
            lemma_stream_data_len(self.inner.stream_data(), self.metadata@);
        }
        let total = self.total_output();
        let (base, delta): (u64, i64) = match from {
            SeekFrom::Start(position) => {
                self.position = position;
                return Ok(position);
            },
            SeekFrom::Current(d) => (self.position, d),
            SeekFrom::End(d) => (total, d),
        };
        let target = base as i128 + delta as i128;
        if target < 0 || target > u64::MAX as i128 {
            return Err(Error::Invalid(ErrorValue::SeekPosition(target)));
        }
        self.position = target as u64;
        Ok(self.position)
    }
}

} // verus!
