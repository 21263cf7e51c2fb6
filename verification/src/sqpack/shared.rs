//! The fixed-layout header found at the start of every stored file.

use vstd::prelude::*;

use crate::record::{SizedRead, spec_u32_le, u32_le};

verus! {

/// The small record read once per file-open from the start of a container
/// file: the header's own size, the storage kind, the logical file size,
/// and (for block-compressed kinds) the number of blocks. Little-endian.
#[derive(Debug, Clone, Copy, PartialEq, Eq, Structural)]
pub struct Header {
    /// Size of the header itself.
    pub size: u32,
    /// The storage kind of the file's bytes.
    pub kind: u32,
    /// The size of the logical file the container bytes decode to.
    pub raw_file_size: u32,
    /// How many blocks the file's bytes are split into.
    pub block_count: u32,
}

impl SizedRead for Header {
    open spec fn spec_size() -> int {
        16
    }

    open spec fn spec_parse(b: Seq<u8>) -> Self {
        Header {
            size: spec_u32_le(b.subrange(0, 4)) as u32,
            kind: spec_u32_le(b.subrange(4, 8)) as u32,
            raw_file_size: spec_u32_le(b.subrange(8, 12)) as u32,
            block_count: spec_u32_le(b.subrange(12, 16)) as u32,
        }
    }

    fn size() -> usize {
        16
    }

    fn parse_at(bytes: &Vec<u8>, at: usize) -> (r: Self) {
        proof {
            broadcast use vstd::std_specs::vec::axiom_spec_len;

            assert(vstd::std_specs::vec::spec_vec_len(bytes) == bytes@.len());
        }
        let size = u32_le(bytes, at);
        let kind = u32_le(bytes, at + 4);
        let raw_file_size = u32_le(bytes, at + 8);
        let block_count = u32_le(bytes, at + 12);
        proof {
            let b = bytes@.subrange(at as int, at + 16);
            assert(b.subrange(0, 4) =~= bytes@.subrange(at as int, at + 4));
            assert(b.subrange(4, 8) =~= bytes@.subrange(at + 4, at + 8));
            assert(b.subrange(8, 12) =~= bytes@.subrange(at + 8, at + 12));
            assert(b.subrange(12, 16) =~= bytes@.subrange(at + 12, at + 16));
        }
        Header { size, kind, raw_file_size, block_count }
    }
}

} // verus!
