//! Fixed-layout binary records.
//!
//! Every structured record this crate reads (container headers, block
//! descriptors, row headers) is a fixed number of bytes with big- or
//! little-endian integer fields. A record type declares its encoded size and
//! how its value is determined by those bytes; `read_record` then decodes one
//! from any byte source.

use vstd::prelude::*;

use crate::error::Error;
use crate::stream::{FileStream, read_exact};

verus! {

/// The integer a big-endian 2-byte field holds.
pub open spec fn spec_u16_be(b: Seq<u8>) -> int
    recommends
        b.len() == 2,
{
    b[0] * 0x100 + b[1]
}

/// The integer a big-endian 4-byte field holds.
pub open spec fn spec_u32_be(b: Seq<u8>) -> int
    recommends
        b.len() == 4,
{
    b[0] * 0x1000000 + b[1] * 0x10000 + b[2] * 0x100 + b[3]
}

/// The integer a little-endian 2-byte field holds.
pub open spec fn spec_u16_le(b: Seq<u8>) -> int
    recommends
        b.len() == 2,
{
    b[1] * 0x100 + b[0]
}

/// The integer a little-endian 4-byte field holds.
pub open spec fn spec_u32_le(b: Seq<u8>) -> int
    recommends
        b.len() == 4,
{
    b[3] * 0x1000000 + b[2] * 0x10000 + b[1] * 0x100 + b[0]
}

/// Decode the big-endian 2-byte field at `at`.
pub fn u16_be(bytes: &Vec<u8>, at: usize) -> (r: u16)
    requires
        at + 2 <= bytes@.len(),
    ensures
        r as int == spec_u16_be(bytes@.subrange(at as int, at + 2)),
{
    proof {
        broadcast use vstd::std_specs::vec::axiom_spec_len;

        assert(vstd::std_specs::vec::spec_vec_len(bytes) == bytes@.len());
    }
    let r = (bytes[at] as u16) * 0x100 + (bytes[at + 1] as u16);
    proof {
        let b = bytes@.subrange(at as int, at + 2);
        assert(b[0] == bytes@[at as int] && b[1] == bytes@[at + 1]);
    }
    r
}

/// Decode the big-endian 4-byte field at `at`.
pub fn u32_be(bytes: &Vec<u8>, at: usize) -> (r: u32)
    requires
        at + 4 <= bytes@.len(),
    ensures
        r as int == spec_u32_be(bytes@.subrange(at as int, at + 4)),
{
    proof {
        broadcast use vstd::std_specs::vec::axiom_spec_len;

        assert(vstd::std_specs::vec::spec_vec_len(bytes) == bytes@.len());
    }
    let r = (bytes[at] as u32) * 0x1000000 + (bytes[at + 1] as u32) * 0x10000 + (bytes[at + 2]
        as u32) * 0x100 + (bytes[at + 3] as u32);
    proof {
        let b = bytes@.subrange(at as int, at + 4);
        assert(b[0] == bytes@[at as int] && b[1] == bytes@[at + 1] && b[2] == bytes@[at + 2]
            && b[3] == bytes@[at + 3]);
    }
    r
}

/// Decode the little-endian 2-byte field at `at`.
pub fn u16_le(bytes: &Vec<u8>, at: usize) -> (r: u16)
    requires
        at + 2 <= bytes@.len(),
    ensures
        r as int == spec_u16_le(bytes@.subrange(at as int, at + 2)),
{
    proof {
        broadcast use vstd::std_specs::vec::axiom_spec_len;

        assert(vstd::std_specs::vec::spec_vec_len(bytes) == bytes@.len());
    }
    let r = (bytes[at + 1] as u16) * 0x100 + (bytes[at] as u16);
    proof {
        let b = bytes@.subrange(at as int, at + 2);
        assert(b[0] == bytes@[at as int] && b[1] == bytes@[at + 1]);
    }
    r
}

/// Decode the little-endian 4-byte field at `at`.
pub fn u32_le(bytes: &Vec<u8>, at: usize) -> (r: u32)
    requires
        at + 4 <= bytes@.len(),
    ensures
        r as int == spec_u32_le(bytes@.subrange(at as int, at + 4)),
{
    proof {
        broadcast use vstd::std_specs::vec::axiom_spec_len;

        assert(vstd::std_specs::vec::spec_vec_len(bytes) == bytes@.len());
    }
    let r = (bytes[at + 3] as u32) * 0x1000000 + (bytes[at + 2] as u32) * 0x10000 + (bytes[at + 1]
        as u32) * 0x100 + (bytes[at] as u32);
    proof {
        let b = bytes@.subrange(at as int, at + 4);
        assert(b[0] == bytes@[at as int] && b[1] == bytes@[at + 1] && b[2] == bytes@[at + 2]
            && b[3] == bytes@[at + 3]);
    }
    r
}

/// A record with a fixed encoded size, decodable from exactly that many
/// bytes at a declared endianness.
pub trait SizedRead: Sized {
    /// The number of bytes the record occupies on disk.
    spec fn spec_size() -> int;

    /// The value the record's bytes determine.
    spec fn spec_parse(b: Seq<u8>) -> Self;

    /// The number of bytes the record occupies on disk.
    fn size() -> (r: usize)
        ensures
            r as int == Self::spec_size(),
            r > 0,
    ;

    /// Decode the record found at byte position `at`.
    fn parse_at(bytes: &Vec<u8>, at: usize) -> (r: Self)
        requires
            at + Self::spec_size() <= bytes@.len(),
        ensures
            r == Self::spec_parse(bytes@.subrange(at as int, at + Self::spec_size())),
    ;
}

/// Decode one record from the stream's current position, advancing past it.
pub fn read_record<T: SizedRead, S: FileStream>(stream: &mut S) -> (r: Result<T, Error>)
    requires
        old(stream).inv(),
    ensures
        final(stream).inv(),
        final(stream).stream_data() == old(stream).stream_data(),
        final(stream).reliable() == old(stream).reliable(),
        final(stream).stream_end() == old(stream).stream_end(),
        forall|p: u64|
            #[trigger] final(stream).seek_ok(crate::stream::SeekFrom::Start(p)) == old(
                stream,
            ).seek_ok(crate::stream::SeekFrom::Start(p)),
        match r {
            Ok(t) => {
                &&& old(stream).stream_pos() + T::spec_size() <= old(stream).stream_data().len()
                &&& t == T::spec_parse(
                    old(stream).stream_data().subrange(
                        old(stream).stream_pos(),
                        old(stream).stream_pos() + T::spec_size(),
                    ),
                )
                &&& final(stream).stream_pos() == old(stream).stream_pos() + T::spec_size()
            },
            Err(_) => !old(stream).reliable() || old(stream).stream_pos() + T::spec_size() > old(
                stream,
            ).stream_data().len(),
        },
{
    let n = T::size();
    let buf = match read_exact(stream, n) {
        Ok(b) => b,
        Err(e) => {
            return Err(e);
        },
    };
    let t = T::parse_at(&buf, 0);
    proof {
        assert(buf@.subrange(0, T::spec_size()) =~= buf@);
    }
    Ok(t)
}

} // verus!
