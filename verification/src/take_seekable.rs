//! A bounded, seekable window over another byte source.
//!
//! The window captures the wrapped source's position as its `offset` and
//! exposes only the `limit` bytes from there as an independent, zero-based
//! stream. Reads are clamped to the window and never touch wrapped bytes
//! outside `[offset, offset + limit)`; seeks use overflow-checked arithmetic
//! and refuse computed positions below zero. Seeking past the limit is
//! allowed and surfaces as end-of-stream on the next read.

use vstd::prelude::*;

use crate::error::{Error, ErrorValue};
use crate::stream::{FileStream, SeekFrom, concat_parts, parts_len, reads_back_to_back, seek_target};

verus! {

/// The bytes a window of `limit` bytes starting at `offset` selects out of
/// `data`: the sub-range clamped to what `data` actually holds.
pub open spec fn window_of(data: Seq<u8>, offset: int, limit: int) -> Seq<u8> {
    let lo = if offset <= data.len() {
        offset
    } else {
        data.len() as int
    };
    let hi = if offset + limit <= data.len() {
        offset + limit
    } else {
        data.len() as int
    };
    data.subrange(lo, hi)
}

/// Reader adapter which limits the bytes read from a wrapped source and
/// provides seeking capabilities relative to the window.
#[derive(Debug)]
pub struct TakeSeekable<R> {
    inner: R,
    current: u64,
    offset: u64,
    limit: u64,
}

impl<R: FileStream> TakeSeekable<R> {
    /// The absolute position in the wrapped source where the window begins.
    pub closed spec fn spec_offset(&self) -> int {
        self.offset as int
    }

    /// The length of the window.
    pub closed spec fn spec_limit(&self) -> int {
        self.limit as int
    }

    /// The content of the wrapped source.
    pub closed spec fn spec_inner_data(&self) -> Seq<u8> {
        self.inner.stream_data()
    }

    /// The wrapped source itself, for stating what the window asks of it.
    pub closed spec fn spec_inner(&self) -> R {
        self.inner
    }

    /// Wrap `inner`, exposing the `limit` bytes from its current position as
    /// an independent stream. The wrapped source is left where it stands; the
    /// only operation performed on it is a position query.
    pub fn new(inner: R, limit: u64) -> (r: Result<Self, Error>)
        requires
            inner.inv(),
        ensures
            match r {
                Ok(w) => {
                    &&& w.inv()
                    &&& w.spec_offset() == inner.stream_pos()
                    &&& w.spec_limit() == limit
                    &&& w.spec_inner_data() == inner.stream_data()
                    &&& w.stream_pos() == 0
                    &&& w.stream_end() == limit
                    &&& w.stream_data() == window_of(
                        inner.stream_data(),
                        inner.stream_pos(),
                        limit as int,
                    )
                    &&& w.reliable() == inner.reliable()
                    &&& (forall|p: u64|
                        #[trigger] w.spec_inner().seek_ok(SeekFrom::Start(p)) == inner.seek_ok(
                            SeekFrom::Start(p),
                        ))
                },
                Err(_) => !(inner.reliable() && inner.seek_ok(SeekFrom::Current(0))),
            },
    {
        let mut inner = inner;
        let offset = match inner.seek(SeekFrom::Current(0)) {
            Ok(p) => p,
            Err(e) => {
                return Err(e);
            },
        };
        Ok(TakeSeekable { inner, current: 0, offset, limit })
    }

    /// Wrap `inner` as `new` does, without querying it: the caller already
    /// knows the wrapped source stands at `offset`.
    pub fn at_position(inner: R, offset: u64, limit: u64) -> (w: Self)
        requires
            inner.inv(),
            inner.stream_pos() == offset,
        ensures
            w.inv(),
            w.spec_offset() == offset,
            w.spec_limit() == limit,
            w.spec_inner_data() == inner.stream_data(),
            w.spec_inner() == inner,
            w.stream_pos() == 0,
            w.stream_end() == limit,
            w.stream_data() == window_of(inner.stream_data(), offset as int, limit as int),
            w.reliable() == inner.reliable(),
    {
        TakeSeekable { inner, current: 0, offset, limit }
    }

    /// The length of the window, as resolved at construction.
    pub fn limit(&self) -> (r: u64)
        ensures
            r as int == self.spec_limit(),
    {
        self.limit
    }

    /// The window never exposes more bytes than its limit.
    pub proof fn lemma_data_within_limit(&self)
        requires
            self.inv(),
        ensures
            self.stream_data().len() <= self.spec_limit(),
            self.stream_data() == window_of(
                self.spec_inner_data(),
                self.spec_offset(),
                self.spec_limit(),
            ),
    {
    }

    /// When the wrapped source holds at least `offset + limit` bytes, the
    /// window exposes exactly `limit` bytes of it.
    pub proof fn lemma_full_window(&self)
        requires
            self.inv(),
            self.spec_offset() + self.spec_limit() <= self.spec_inner_data().len(),
        ensures
            self.stream_data() == self.spec_inner_data().subrange(
                self.spec_offset(),
                self.spec_offset() + self.spec_limit(),
            ),
            self.stream_data().len() == self.spec_limit(),
    {
        self.inner.lemma_inv_bounds();
    }

    /// A relative seek whose computed position is negative is never
    /// acceptable: it fails and leaves the window's position unchanged.
    pub proof fn lemma_negative_seek_refused(&self, from: SeekFrom)
        requires
            self.inv(),
            seek_target(from, self.stream_pos(), self.stream_end()) < 0,
        ensures
            !self.seek_ok(from),
    {
    }

    /// A position at or past the limit is at or past everything the
    /// window can yield: the next read there reports end of stream.
    pub proof fn lemma_past_limit_is_end(&self)
        requires
            self.inv(),
            self.stream_pos() >= self.spec_limit(),
        ensures
            self.stream_pos() >= self.stream_data().len(),
    {
        self.lemma_data_within_limit();
    }

    /// Over a wrapped source holding at least `offset + limit` bytes, a
    /// window yields exactly `limit` bytes and then stands at its end,
    /// regardless of how many smaller reads the bytes are split across:
    /// back-to-back reads from position zero totalling `limit` bytes
    /// concatenate to the window's whole content.
    pub proof fn lemma_reads_exactly_limit(&self, parts: Seq<Seq<u8>>)
        requires
            self.inv(),
            self.spec_offset() + self.spec_limit() <= self.spec_inner_data().len(),
            reads_back_to_back(self.stream_data(), 0, parts),
            parts_len(parts) == self.spec_limit(),
        ensures
            concat_parts(parts) == self.stream_data(),
            self.stream_data() == self.spec_inner_data().subrange(
                self.spec_offset(),
                self.spec_offset() + self.spec_limit(),
            ),
            concat_parts(parts).len() == self.spec_limit(),
    {
        self.lemma_full_window();
        crate::stream::lemma_split_reads_equal_one_read(self.stream_data(), 0, parts);
        assert(self.stream_data().subrange(0, self.stream_data().len() as int)
            =~= self.stream_data());
    }

    /// Any position within the window, and past it up to the largest
    /// representable one, is acceptable to seek to from the start, provided
    /// the wrapped source accepts the corresponding absolute position.
    pub proof fn lemma_seek_from_start_ok(&self, position: u64)
        requires
            self.inv(),
            self.spec_offset() + position <= u64::MAX,
            self.spec_inner().seek_ok(SeekFrom::Start((self.spec_offset() + position) as u64)),
        ensures
            self.seek_ok(SeekFrom::Start(position)),
    {
    }
}

impl<R: FileStream> FileStream for TakeSeekable<R> {
    closed spec fn stream_data(&self) -> Seq<u8> {
        window_of(self.inner.stream_data(), self.offset as int, self.limit as int)
    }

    closed spec fn stream_pos(&self) -> int {
        self.current as int
    }

    closed spec fn inv(&self) -> bool {
        &&& self.inner.inv()
        &&& self.inner.stream_pos() == self.offset + self.current
    }

    closed spec fn reliable(&self) -> bool {
        self.inner.reliable()
    }

    closed spec fn seek_ok(&self, from: SeekFrom) -> bool {
        let target = seek_target(from, self.current as int, self.limit as int);
        &&& 0 <= target
        &&& self.offset + target <= u64::MAX
        &&& self.inner.seek_ok(SeekFrom::Start((self.offset + target) as u64))
    }

    closed spec fn stream_end(&self) -> int {
        self.limit as int
    }

    proof fn lemma_inv_bounds(&self) {
        self.inner.lemma_inv_bounds();
    }

    fn read(&mut self, n: usize) -> (r: Result<Vec<u8>, Error>) {
        proof {
            self.inner.lemma_inv_bounds();
        }
        // Don't call into the wrapped source at all at end-of-window, because
        // it may still block or fail even before its own end of data.
        if self.current >= self.limit {
            return Ok(Vec::new());
        }
        let remaining = self.limit - self.current;
        let want = if (n as u64) <= remaining {
            n
        } else {
            remaining as usize
        };
        let ghost inner_data = self.inner.stream_data();
        let ghost ipos = self.inner.stream_pos();
        let chunk = match self.inner.read(want) {
            Ok(c) => c,
            Err(e) => {
                return Err(e);
            },
        };
        // The wrapped source's contract caps what it returns at `want`, so
        // the count can never exceed the window's remainder.
        self.current = self.current + chunk.len() as u64;
        proof {
            let k = chunk@.len() as int;
            let cur = old(self).current as int;
            let data = old(self).stream_data();
            if k > 0 {
                assert(ipos < inner_data.len());
                assert(self.offset as int <= inner_data.len());
                assert(cur + k <= data.len());
                assert(chunk@ =~= data.subrange(cur, cur + k));
            } else if want == 0 {
                if cur < data.len() {
                    assert(chunk@ =~= data.subrange(cur, cur));
                }
            } else {
                // The wrapped source is at its end: the window has no byte
                // at or past the current position either.
                assert(ipos >= inner_data.len());
                assert(data.len() <= cur);
            }
        }
        Ok(chunk)
    }

    fn seek(&mut self, from: SeekFrom) -> (r: Result<u64, Error>) {
        proof {
            self.inner.lemma_inv_bounds();
        }
        let (base, delta): (u64, i64) = match from {
            SeekFrom::Start(position) => {
                let inner_target = match self.offset.checked_add(position) {
                    Some(t) => t,
                    None => {
                        return Err(
                            Error::Invalid(
                                ErrorValue::SeekPosition(
                                    self.offset as i128 + position as i128,
                                ),
                            ),
                        );
                    },
                };
                let landed = match self.inner.seek(SeekFrom::Start(inner_target)) {
                    Ok(p) => p,
                    Err(e) => {
                        return Err(e);
                    },
                };
                self.current = landed - self.offset;
                return Ok(self.current);
            },
            SeekFrom::Current(delta) => (self.current, delta),
            SeekFrom::End(delta) => (self.limit, delta),
        };
        let target = base as i128 + delta as i128;
        if target < 0 {
            return Err(Error::Invalid(ErrorValue::SeekPosition(target)));
        }
        if target > u64::MAX as i128 - self.offset as i128 {
            return Err(Error::Invalid(ErrorValue::SeekPosition(target)));
        }
        let landed = match self.inner.seek(SeekFrom::Start(self.offset + target as u64)) {
            Ok(p) => p,
            Err(e) => {
                return Err(e);
            },
        };
        self.current = landed - self.offset;
        Ok(self.current)
    }
}

} // verus!
