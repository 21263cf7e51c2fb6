//! The builder for the standard, block-compressed storage kind.
//!
//! A standard file's container bytes start (at the reader's position) with
//! `header.block_count` fixed-size block-info records. All of them, and each
//! block's header, are read eagerly and in full before any payload byte is
//! touched: decoding any one block requires knowing exactly where it starts,
//! and block offsets are not derivable from output position alone without
//! the full table.

use vstd::prelude::*;

use crate::error::Error;
use crate::record::{SizedRead, read_record, spec_u16_le, spec_u32_le, u16_le, u32_le};
use crate::stream::{FileStream, SeekFrom};

use super::block::{
    BlockHeader, BlockMetadata, BlockStream, UNCOMPRESSED_MARKER, metadata_contiguous,
    spec_block_stream_data, spec_total_output,
};
use super::shared::Header;

verus! {

/// The per-block record of the eager table: where the block's header lies
/// relative to the container offset, and the sizes the block moves between.
/// Little-endian.
#[derive(Debug, Clone, Copy, PartialEq, Eq, Structural)]
pub struct BlockInfo {
    /// Offset of the block's header, relative to the container offset.
    pub offset: u32,
    /// Size of the block as stored, header included.
    pub input_size: u16,
    /// Size the block decodes to.
    pub output_size: u16,
}

impl SizedRead for BlockInfo {
    open spec fn spec_size() -> int {
        8
    }

    open spec fn spec_parse(b: Seq<u8>) -> Self {
        BlockInfo {
            offset: spec_u32_le(b.subrange(0, 4)) as u32,
            input_size: spec_u16_le(b.subrange(4, 6)) as u16,
            output_size: spec_u16_le(b.subrange(6, 8)) as u16,
        }
    }

    fn size() -> usize {
        8
    }

    fn parse_at(bytes: &Vec<u8>, at: usize) -> (r: Self) {
        proof {
            broadcast use vstd::std_specs::vec::axiom_spec_len;

            assert(vstd::std_specs::vec::spec_vec_len(bytes) == bytes@.len());
        }
        let offset = u32_le(bytes, at);
        let input_size = u16_le(bytes, at + 4);
        let output_size = u16_le(bytes, at + 6);
        proof {
            let b = bytes@.subrange(at as int, at + 8);
            assert(b.subrange(0, 4) =~= bytes@.subrange(at as int, at + 4));
            assert(b.subrange(4, 6) =~= bytes@.subrange(at + 4, at + 6));
            assert(b.subrange(6, 8) =~= bytes@.subrange(at + 6, at + 8));
        }
        BlockInfo { offset, input_size, output_size }
    }
}

/// The block-info table as laid out at position `base` of the container.
pub open spec fn spec_block_infos(data: Seq<u8>, base: int, n: int) -> Seq<BlockInfo> {
    Seq::new(
        n as nat,
        |i: int| BlockInfo::spec_parse(data.subrange(base + 8 * i, base + 8 * i + 8)),
    )
}

/// The number of logical bytes contributed by the blocks before `i`.
pub open spec fn spec_output_sum(infos: Seq<BlockInfo>, i: int) -> int
    decreases i,
{
    if i <= 0 {
        0
    } else {
        spec_output_sum(infos, i - 1) + infos[i - 1].output_size
    }
}

/// The sum of block output sizes is bounded by the count of blocks.
proof fn lemma_output_sum_bound(infos: Seq<BlockInfo>, i: int)
    requires
        0 <= i,
    ensures
        0 <= spec_output_sum(infos, i) <= i * 0x10000,
    decreases i,
{
    if i > 0 {
        lemma_output_sum_bound(infos, i - 1);
        assert((i - 1) * 0x10000 + 0x10000 == i * 0x10000) by (nonlinear_arith);
    }
}

/// The metadata one block-info record derives to, given the block header
/// found at its offset: the payload lives right after the block header, is
/// compressed unless the header carries the verbatim marker, and lands at
/// `out_off` in the logical stream.
pub open spec fn spec_standard_entry(
    data: Seq<u8>,
    offset: int,
    info: BlockInfo,
    out_off: int,
) -> BlockMetadata {
    let hoff = offset + info.offset;
    let bh = BlockHeader::spec_parse(data.subrange(hoff, hoff + 16));
    let compressed = bh.compressed_size != UNCOMPRESSED_MARKER;
    BlockMetadata {
        input_offset: (hoff + bh.size) as u64,
        input_size: if compressed {
            bh.compressed_size
        } else {
            info.output_size as u32
        },
        compressed,
        output_offset: out_off as u64,
        output_size: info.output_size as u32,
    }
}

/// The full metadata table a standard file's on-disk layout derives to.
pub open spec fn spec_standard_metadata(data: Seq<u8>, base: int, offset: int, n: int) -> Seq<
    BlockMetadata,
> {
    let infos = spec_block_infos(data, base, n);
    Seq::new(
        n as nat,
        |i: int| spec_standard_entry(data, offset, infos[i], spec_output_sum(infos, i)),
    )
}

/// Whether the eager phase can be read in full: the info table fits at
/// `base`, and each block header fits at its offset.
pub open spec fn standard_layout_ok(data: Seq<u8>, base: int, offset: int, n: int) -> bool {
    &&& base + 8 * n <= data.len()
    &&& forall|i: int|
        0 <= i < n ==> offset + (#[trigger] spec_block_infos(data, base, n)[i]).offset + 16
            <= data.len()
}

/// Read a standard file's eager metadata — the block-info table at the
/// reader's position, then each block's header at `offset` plus its
/// declared block offset — and return the stream that lazily decodes the
/// blocks, positioned at logical byte zero.
#[verifier::rlimit(100)]
#[verifier::loop_isolation(false)]
pub fn read<R: FileStream>(reader: R, offset: u32, header: &Header) -> (r: Result<
    BlockStream<R>,
    Error,
>)
    requires
        reader.inv(),
    ensures
        match r {
            Ok(bs) => {
                &&& bs.inv()
                &&& bs.spec_inner_data() == reader.stream_data()
                &&& bs.stream_pos() == 0
                &&& bs.spec_metadata() == spec_standard_metadata(
                    reader.stream_data(),
                    reader.stream_pos(),
                    offset as int,
                    header.block_count as int,
                )
                &&& bs.stream_data() == spec_block_stream_data(
                    reader.stream_data(),
                    bs.spec_metadata(),
                )
            },
            Err(_) => !reader.reliable() || !standard_layout_ok(
                reader.stream_data(),
                reader.stream_pos(),
                offset as int,
                header.block_count as int,
            ) || (exists|i: int|
                0 <= i < header.block_count && !reader.seek_ok(
                    SeekFrom::Start(
                        (offset + (#[trigger] spec_block_infos(
                            reader.stream_data(),
                            reader.stream_pos(),
                            header.block_count as int,
                        )[i]).offset) as u64,
                    ),
                )),
        },
{
    let ghost reader0 = reader;
    let ghost data = reader0.stream_data();
    let ghost base = reader0.stream_pos();
    let ghost n_g = header.block_count as int;
    let ghost infos_spec = spec_block_infos(data, base, n_g);
    let mut rd = reader;
    proof {
        rd.lemma_inv_bounds();
    }
    let n = header.block_count;
    // Eagerly read the block info table.
    let mut infos: Vec<BlockInfo> = Vec::new();
    let mut idx: u32 = 0;
    while idx < n
        invariant
            rd.inv(),
            rd.stream_data() == data,
            rd.stream_pos() == base + 8 * idx,
            rd.reliable() == reader0.reliable(),
            0 <= base,
            idx <= n,
            n_g == n as int,
            infos_spec == spec_block_infos(data, base, n_g),
            infos@.len() == idx as int,
            forall|j: int| 0 <= j < idx ==> infos@[j] == infos_spec[j],
            forall|p: u64|
                #[trigger] rd.seek_ok(SeekFrom::Start(p)) == reader0.seek_ok(
                    SeekFrom::Start(p),
                ),
        decreases n - idx,
    {
        let info: BlockInfo = match read_record(&mut rd) {
            Ok(v) => v,
            Err(e) => {
                proof {
                    if reader0.reliable() && standard_layout_ok(data, base, offset as int, n_g) {
                        assert(base + 8 * (idx + 1) <= base + 8 * n_g) by (nonlinear_arith)
                            requires idx + 1 <= n_g;
                        assert(false);
                    }
                    assert(!reader0.reliable() || !standard_layout_ok(
                        data,
                        base,
                        offset as int,
                        n_g,
                    ));
                }
                return Err(e);
            },
        };
        proof {
            assert(data.subrange(base + 8 * idx, base + 8 * idx + 8) == data.subrange(
                base + 8 * (idx as int),
                base + 8 * (idx as int) + 8,
            ));
        }
        infos.push(info);
        idx = idx + 1;
    }
    proof {
        assert(infos@ =~= infos_spec);
    }
    // Read each block's header to build the metadata the stream needs.
    let mut metadata: Vec<BlockMetadata> = Vec::new();
    let mut previous: u64 = 0;
    let mut i: usize = 0;
    while i < infos.len()
        invariant
            rd.inv(),
            rd.stream_data() == data,
            rd.reliable() == reader0.reliable(),
            infos@ == infos_spec,
            infos@.len() == n as int,
            n_g == n as int,
            infos_spec == spec_block_infos(data, base, n_g),
            0 <= i <= infos@.len(),
            previous as int == spec_output_sum(infos_spec, i as int),
            metadata@.len() == i as int,
            forall|j: int|
                0 <= j < i ==> metadata@[j] == spec_standard_entry(
                    data,
                    offset as int,
                    infos_spec[j],
                    spec_output_sum(infos_spec, j),
                ),
            metadata_contiguous(metadata@),
            spec_total_output(metadata@) == spec_output_sum(infos_spec, i as int),
            forall|p: u64|
                #[trigger] rd.seek_ok(SeekFrom::Start(p)) == reader0.seek_ok(
                    SeekFrom::Start(p),
                ),
        decreases infos@.len() - i,
    {
        proof {
            lemma_output_sum_bound(infos_spec, i as int);
            assert((i as int) * 0x10000 <= 0x100000000 * 0x10000) by (nonlinear_arith)
                requires 0 <= i as int <= 0x100000000;
        }
        let info = infos[i];
        let header_offset: u64 = offset as u64 + info.offset as u64;
        match rd.seek(SeekFrom::Start(header_offset)) {
            Ok(_) => (),
            Err(e) => {
                proof {
                    if reader0.reliable() {
                        assert(infos_spec[i as int].offset == infos@[i as int].offset);
                        assert(!reader0.seek_ok(
                            SeekFrom::Start(
                                (offset + infos_spec[i as int].offset) as u64,
                            ),
                        ));
                    }
                }
                return Err(e);
            },
        }
        let bh: BlockHeader = match read_record(&mut rd) {
            Ok(v) => v,
            Err(e) => {
                proof {
                    if reader0.reliable() && standard_layout_ok(data, base, offset as int, n_g) {
                        assert(offset + infos_spec[i as int].offset + 16 <= data.len());
                        assert(false);
                    }
                }
                return Err(e);
            },
        };
        let compressed = bh.compressed_size != UNCOMPRESSED_MARKER;
        let input_size: u32 = if compressed {
            bh.compressed_size
        } else {
            info.output_size as u32
        };
        let meta = BlockMetadata {
            input_offset: header_offset + bh.size as u64,
            input_size,
            compressed,
            output_offset: previous,
            output_size: info.output_size as u32,
        };
        let ghost metadata_prev = metadata@;
        metadata.push(meta);
        proof {
            assert(meta == spec_standard_entry(
                data,
                offset as int,
                infos_spec[i as int],
                spec_output_sum(infos_spec, i as int),
            ));
            assert forall|j: int| 1 <= j < metadata@.len() implies #[trigger] metadata@[
                j
            ].output_offset == metadata@[j - 1].output_offset + metadata@[j - 1].output_size by {
                if j < metadata@.len() - 1 {
                    assert(metadata_prev[j].output_offset == metadata_prev[j - 1].output_offset
                        + metadata_prev[j - 1].output_size);
                }
            }
        }
        previous = previous + info.output_size as u64;
        i = i + 1;
    }
    proof {
        lemma_output_sum_bound(infos_spec, n_g);
        assert(n_g * 0x10000 <= 0x100000000 * 0x10000) by (nonlinear_arith)
            requires 0 <= n_g <= 0x100000000;
        assert(metadata@ =~= spec_standard_metadata(data, base, offset as int, n_g));
    }
    Ok(BlockStream::new(rd, 0, metadata))
}

} // verus!
