//! The readable, seekable byte-source contract, and an in-memory source.
//!
//! Every byte source in this crate is modelled by two ghost quantities: the
//! full sequence of bytes the source can yield (`stream_data`) and the current
//! logical position (`stream_pos`). Reads hand back a prefix of the bytes at
//! the current position; seeks move the position with overflow-checked
//! arithmetic. Reading at or past the end yields zero bytes.

use vstd::prelude::*;

use crate::error::{Error, ErrorValue, ResourceCause};

verus! {

/// Where a seek is measured from: an absolute position, a signed delta from
/// the current position, or a signed delta from the end of the stream.
#[derive(Debug, Clone, Copy, PartialEq, Eq, Structural)]
pub enum SeekFrom {
    Start(u64),
    Current(i64),
    End(i64),
}

/// The position a seek asks for, measured against a stream of length `len`
/// whose position is `pos`. Computed in unbounded integers: whether the
/// result is representable is a separate question (`seek_ok`).
pub open spec fn seek_target(from: SeekFrom, pos: int, len: int) -> int {
    match from {
        SeekFrom::Start(p) => p as int,
        SeekFrom::Current(d) => pos + d as int,
        SeekFrom::End(d) => len + d as int,
    }
}

/// A readable, seekable source of bytes.
///
/// `stream_data` is the whole logical content, independent of the position;
/// neither reads nor seeks change it. A failed operation leaves the position
/// where it was. `reliable` holds for sources whose operations cannot fail
/// for external reasons (in-memory data, or a window over such a source);
/// on a reliable source a read never fails and a seek fails exactly when its
/// target is invalid (`seek_ok`).
pub trait FileStream: Sized {
    /// The whole logical content of this source.
    spec fn stream_data(&self) -> Seq<u8>;

    /// The current logical position. May lie past the end of the data.
    spec fn stream_pos(&self) -> int;

    /// Well-formedness of the source's internal state.
    spec fn inv(&self) -> bool;

    /// No operation on this source can fail for an external reason.
    spec fn reliable(&self) -> bool;

    /// The seek target is representable and acceptable to this source.
    spec fn seek_ok(&self, from: SeekFrom) -> bool;

    /// The place from-end seeks are measured from. For most sources this is
    /// the length of the data; a bounded window measures from its limit even
    /// when the wrapped source holds fewer bytes.
    spec fn stream_end(&self) -> int;

    /// A well-formed source's position is never negative, and its content
    /// has a representable length.
    proof fn lemma_inv_bounds(&self)
        requires
            self.inv(),
        ensures
            0 <= self.stream_pos(),
            self.stream_data().len() <= u64::MAX,
            0 <= self.stream_end() <= u64::MAX,
    ;

    /// Read at most `n` bytes at the current position and advance past them.
    ///
    /// At or past the end of the data this returns zero bytes; otherwise a
    /// successful read returns at least one byte (so repeated reads always
    /// make progress until the end is reached).
    fn read(&mut self, n: usize) -> (r: Result<Vec<u8>, Error>)
        requires
            old(self).inv(),
        ensures
            final(self).inv(),
            final(self).stream_data() == old(self).stream_data(),
            final(self).reliable() == old(self).reliable(),
            match r {
                Ok(v) => {
                    &&& v@.len() <= n
                    &&& final(self).stream_pos() == old(self).stream_pos() + v@.len()
                    &&& (old(self).stream_pos() < old(self).stream_data().len() ==> {
                        &&& old(self).stream_pos() + v@.len() <= old(self).stream_data().len()
                        &&& v@ == old(self).stream_data().subrange(
                            old(self).stream_pos(),
                            old(self).stream_pos() + v@.len(),
                        )
                        &&& n > 0 ==> v@.len() > 0
                    })
                    &&& (old(self).stream_pos() >= old(self).stream_data().len() ==> v@.len()
                        == 0)
                },
                Err(_) => {
                    &&& final(self).stream_pos() == old(self).stream_pos()
                    &&& !old(self).reliable()
                },
            },
            final(self).stream_end() == old(self).stream_end(),
            forall|p: u64|
                #[trigger] final(self).seek_ok(SeekFrom::Start(p)) == old(self).seek_ok(
                    SeekFrom::Start(p),
                ),
    ;

    /// Move the position to the place `from` designates and report it.
    ///
    /// Seeking past the end succeeds; the next read then reports end of
    /// stream. A target that is not representable fails and leaves the
    /// position unchanged.
    fn seek(&mut self, from: SeekFrom) -> (r: Result<u64, Error>)
        requires
            old(self).inv(),
        ensures
            final(self).inv(),
            final(self).stream_data() == old(self).stream_data(),
            final(self).reliable() == old(self).reliable(),
            match r {
                Ok(p) => {
                    &&& old(self).seek_ok(from)
                    &&& p as int == seek_target(
                        from,
                        old(self).stream_pos(),
                        old(self).stream_end(),
                    )
                    &&& final(self).stream_pos() == p as int
                },
                Err(_) => {
                    &&& final(self).stream_pos() == old(self).stream_pos()
                    &&& !(old(self).reliable() && old(self).seek_ok(from))
                },
            },
            !old(self).seek_ok(from) ==> r is Err,
            final(self).stream_end() == old(self).stream_end(),
            forall|p: u64|
                #[trigger] final(self).seek_ok(SeekFrom::Start(p)) == old(self).seek_ok(
                    SeekFrom::Start(p),
                ),
    ;
}

/// Read exactly `n` bytes, failing if the stream ends first.
pub fn read_exact<S: FileStream>(stream: &mut S, n: usize) -> (r: Result<Vec<u8>, Error>)
    requires
        old(stream).inv(),
    ensures
        final(stream).inv(),
        final(stream).stream_data() == old(stream).stream_data(),
        final(stream).reliable() == old(stream).reliable(),
        final(stream).stream_end() == old(stream).stream_end(),
        forall|p: u64|
            #[trigger] final(stream).seek_ok(SeekFrom::Start(p)) == old(stream).seek_ok(
                SeekFrom::Start(p),
            ),
        match r {
            Ok(v) => {
                &&& v@.len() == n
                &&& n > 0 ==> {
                    &&& old(stream).stream_pos() + n <= old(stream).stream_data().len()
                    &&& v@ == old(stream).stream_data().subrange(
                        old(stream).stream_pos(),
                        old(stream).stream_pos() + n,
                    )
                }
                &&& final(stream).stream_pos() == old(stream).stream_pos() + n
            },
            Err(_) => !old(stream).reliable() || old(stream).stream_pos() + n > old(
                stream,
            ).stream_data().len(),
        },
{
    proof {
        old(stream).lemma_inv_bounds();
    }
    let ghost start = stream.stream_pos();
    let ghost data = stream.stream_data();
    let mut out: Vec<u8> = Vec::new();
    while out.len() < n
        invariant
            stream.inv(),
            data == old(stream).stream_data(),
            start == old(stream).stream_pos(),
            stream.stream_data() == data,
            stream.stream_pos() == start + out@.len(),
            stream.reliable() == old(stream).reliable(),
            stream.stream_end() == old(stream).stream_end(),
            forall|p: u64|
                #[trigger] stream.seek_ok(SeekFrom::Start(p)) == old(stream).seek_ok(
                    SeekFrom::Start(p),
                ),
            out@.len() <= n,
            0 <= start,
            out@.len() > 0 ==> {
                &&& start + out@.len() <= data.len()
                &&& out@ =~= data.subrange(start, start + out@.len())
            },
        decreases n - out@.len(),
    {
        let want = n - out.len();
        let chunk = match stream.read(want) {
            Ok(c) => c,
            Err(e) => {
                return Err(e);
            },
        };
        if chunk.len() == 0 {
            // The stream ended before `n` bytes arrived.
            return Err(Error::Resource(ResourceCause::Io));
        }
        let ghost prev = out@;
        let mut chunk = chunk;
        out.append(&mut chunk);
        proof {
            assert(out@ =~= data.subrange(start, start + out@.len()));
        }
    }
    proof {
        if n > 0 {
            assert(out@ =~= data.subrange(start, start + n));
        }
    }
    Ok(out)
}

/// Read everything from the current position to the end of the stream.
pub fn read_to_end<S: FileStream>(stream: &mut S) -> (r: Result<Vec<u8>, Error>)
    requires
        old(stream).inv(),
    ensures
        final(stream).inv(),
        final(stream).stream_data() == old(stream).stream_data(),
        final(stream).reliable() == old(stream).reliable(),
        final(stream).stream_end() == old(stream).stream_end(),
        forall|p: u64|
            #[trigger] final(stream).seek_ok(SeekFrom::Start(p)) == old(stream).seek_ok(
                SeekFrom::Start(p),
            ),
        match r {
            Ok(v) => {
                &&& (old(stream).stream_pos() <= old(stream).stream_data().len() ==> v@ == old(
                    stream,
                ).stream_data().subrange(
                    old(stream).stream_pos(),
                    old(stream).stream_data().len() as int,
                ))
                &&& (old(stream).stream_pos() > old(stream).stream_data().len() ==> v@.len() == 0)
                &&& final(stream).stream_pos() == old(stream).stream_pos() + v@.len()
            },
            Err(_) => !old(stream).reliable(),
        },
{
    proof {
        old(stream).lemma_inv_bounds();
    }
    let ghost start = stream.stream_pos();
    let ghost data = stream.stream_data();
    let mut out: Vec<u8> = Vec::new();
    loop
        invariant
            stream.inv(),
            data == old(stream).stream_data(),
            start == old(stream).stream_pos(),
            stream.stream_data() == data,
            stream.stream_pos() == start + out@.len(),
            stream.reliable() == old(stream).reliable(),
            stream.stream_end() == old(stream).stream_end(),
            forall|p: u64|
                #[trigger] stream.seek_ok(SeekFrom::Start(p)) == old(stream).seek_ok(
                    SeekFrom::Start(p),
                ),
            0 <= start,
            start <= data.len() ==> {
                &&& start + out@.len() <= data.len()
                &&& out@ =~= data.subrange(start, start + out@.len())
            },
            start > data.len() ==> out@.len() == 0,
        decreases (if start + out@.len() <= data.len() {
            data.len() - start - out@.len()
        } else {
            0int
        }) + 1int,
    {
        let chunk = match stream.read(4096) {
            Ok(c) => c,
            Err(e) => {
                return Err(e);
            },
        };
        if chunk.len() == 0 {
            proof {
                if start <= data.len() {
                    assert(start + out@.len() == data.len());
                    assert(out@ =~= data.subrange(start, data.len() as int));
                }
            }
            return Ok(out);
        }
        let ghost prev = out@;
        let mut chunk = chunk;
        out.append(&mut chunk);
        proof {
            assert(out@ =~= data.subrange(start, start + out@.len()));
        }
    }
}

/// An in-memory byte source: the whole content is a vector, and the cursor
/// may be placed anywhere, including past the end.
#[derive(Debug)]
pub struct MemoryStream {
    data: Vec<u8>,
    pos: u64,
}

impl MemoryStream {
    /// Wrap a vector of bytes as a stream positioned at its start.
    pub fn new(data: Vec<u8>) -> (r: Self)
        ensures
            r.stream_data() == data@,
            r.stream_pos() == 0,
            r.stream_end() == data@.len(),
            r.inv(),
            r.reliable(),
    {
        MemoryStream { data, pos: 0 }
    }

    /// An in-memory stream accepts exactly the representable seek targets.
    pub proof fn lemma_seek_ok(&self, from: SeekFrom)
        ensures
            self.seek_ok(from) == (0 <= seek_target(
                from,
                self.stream_pos(),
                self.stream_data().len() as int,
            ) <= u64::MAX),
    {
    }
}

impl FileStream for MemoryStream {
    closed spec fn stream_data(&self) -> Seq<u8> {
        self.data@
    }

    closed spec fn stream_pos(&self) -> int {
        self.pos as int
    }

    closed spec fn inv(&self) -> bool {
        true
    }

    closed spec fn reliable(&self) -> bool {
        true
    }

    closed spec fn seek_ok(&self, from: SeekFrom) -> bool {
        0 <= seek_target(from, self.pos as int, self.data@.len() as int) <= u64::MAX
    }

    closed spec fn stream_end(&self) -> int {
        self.data@.len() as int
    }

    proof fn lemma_inv_bounds(&self) {
        broadcast use vstd::std_specs::vec::axiom_spec_len;

        assert(self.data@.len() == vstd::std_specs::vec::spec_vec_len(&self.data));
    }

    fn read(&mut self, n: usize) -> (r: Result<Vec<u8>, Error>) {
        let len = self.data.len();
        if self.pos >= len as u64 {
            return Ok(Vec::new());
        }
        let pos = self.pos as usize;
        let k = if n <= len - pos {
            n
        } else {
            len - pos
        };
        let piece = vstd::slice::slice_subrange(self.data.as_slice(), pos, pos + k);
        let v = vstd::slice::slice_to_vec(piece);
        self.pos = self.pos + k as u64;
        Ok(v)
    }

    fn seek(&mut self, from: SeekFrom) -> (r: Result<u64, Error>) {
        let (base, delta): (u64, i64) = match from {
            SeekFrom::Start(p) => {
                self.pos = p;
                return Ok(p);
            },
            SeekFrom::Current(d) => (self.pos, d),
            SeekFrom::End(d) => (self.data.len() as u64, d),
        };
        let target = base as i128 + delta as i128;
        if target < 0 || target > u64::MAX as i128 {
            return Err(Error::Invalid(ErrorValue::SeekPosition(target)));
        }
        self.pos = target as u64;
        Ok(self.pos)
    }
}

} // verus!

verus! {

/// The parts a sequence of reads returned, each picking up exactly where the
/// one before it ended, starting at position `pos` of `data`.
pub open spec fn reads_back_to_back(data: Seq<u8>, pos: int, parts: Seq<Seq<u8>>) -> bool
    decreases parts.len(),
{
    if parts.len() == 0 {
        true
    } else {
        &&& 0 <= pos
        &&& pos + parts[0].len() <= data.len()
        &&& parts[0] == data.subrange(pos, pos + parts[0].len())
        &&& reads_back_to_back(data, pos + parts[0].len(), parts.drop_first())
    }
}

/// All the parts, joined in order.
pub open spec fn concat_parts(parts: Seq<Seq<u8>>) -> Seq<u8>
    decreases parts.len(),
{
    if parts.len() == 0 {
        Seq::empty()
    } else {
        parts[0] + concat_parts(parts.drop_first())
    }
}

/// The total number of bytes over all the parts.
pub open spec fn parts_len(parts: Seq<Seq<u8>>) -> int
    decreases parts.len(),
{
    if parts.len() == 0 {
        0
    } else {
        parts[0].len() + parts_len(parts.drop_first())
    }
}

/// Reading a stream in arbitrarily-sized consecutive pieces yields
/// byte-for-byte what one single read of the same total length yields:
/// if back-to-back reads starting at `pos` returned `parts` totalling
/// `data.len() - pos` bytes, their concatenation is exactly the rest of the
/// stream, however the pieces were sized.
pub proof fn lemma_split_reads_equal_one_read(data: Seq<u8>, pos: int, parts: Seq<Seq<u8>>)
    requires
        0 <= pos <= data.len(),
        reads_back_to_back(data, pos, parts),
        parts_len(parts) == data.len() - pos,
    ensures
        concat_parts(parts) == data.subrange(pos, data.len() as int),
    decreases parts.len(),
{
    if parts.len() == 0 {
        assert(concat_parts(parts) =~= data.subrange(pos, data.len() as int));
    } else {
        let k = parts[0].len() as int;
        lemma_split_reads_equal_one_read(data, pos + k, parts.drop_first());
        assert(concat_parts(parts) =~= data.subrange(pos, data.len() as int));
    }
}

} // verus!
