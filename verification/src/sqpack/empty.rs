//! The builder for the empty/invalid storage kind.

use vstd::prelude::*;

use crate::error::{Error, ErrorValue};
use crate::stream::{FileStream, read_exact};

use super::shared::Header;

verus! {

/// Consume exactly `header.raw_file_size` bytes from the reader and fail
/// with an invalid-file condition carrying the drained bytes as diagnostic
/// payload.
///
/// On-disk "empty" placeholders require format-specific reinterpretation
/// that is not the concern of this layer; the caller-supplied size contract
/// is still honoured by draining the bytes, and surfacing them lets a
/// caller attempt that reinterpretation itself.
pub fn read<R: FileStream>(reader: &mut R, header: &Header) -> (r: Result<
    crate::stream::MemoryStream,
    Error,
>)
    requires
        old(reader).inv(),
    ensures
        final(reader).inv(),
        final(reader).stream_data() == old(reader).stream_data(),
        final(reader).reliable() == old(reader).reliable(),
        r is Err,
        (old(reader).reliable() && old(reader).stream_pos() + header.raw_file_size <= old(
            reader,
        ).stream_data().len()) ==> {
            &&& r matches Err(Error::Invalid(ErrorValue::File(bytes))) && bytes@ == old(
                reader,
            ).stream_data().subrange(
                old(reader).stream_pos(),
                old(reader).stream_pos() + header.raw_file_size,
            )
            &&& final(reader).stream_pos() == old(reader).stream_pos() + header.raw_file_size
        },
{
    proof {
        old(reader).lemma_inv_bounds();
    }
    let buf = match read_exact(reader, header.raw_file_size as usize) {
        Ok(b) => b,
        Err(e) => {
            return Err(e);
        },
    };
    proof {
        if header.raw_file_size == 0 && old(reader).stream_pos() <= old(
            reader,
        ).stream_data().len() {
            assert(buf@ =~= old(reader).stream_data().subrange(
                old(reader).stream_pos(),
                old(reader).stream_pos(),
            ));
        }
    }
    Err(Error::Invalid(ErrorValue::File(buf)))
}

} // verus!
