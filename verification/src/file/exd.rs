//! The Excel data page format: rows (and subrows) of a sheet's dataset.
//!
//! A page holds a big-endian header with the magic `EXDF`, a row index of
//! fixed-size definitions, and the row data itself. Row lookups first try
//! indexing by the ID's offset from the first row, then fall back to a
//! scan; subrow lookups divide a row's data evenly by its subrow count and
//! scan the candidates for the matching subrow ID.

use vstd::prelude::*;

use crate::error::{Error, ErrorValue, ResourceCause};
use crate::record::{SizedRead, spec_u16_be, spec_u32_be, u16_be, u32_be};
use crate::stream::{FileStream, read_to_end};

verus! {

/// Metadata of a row contained in a page. Big-endian.
#[derive(Debug, Clone, Copy, PartialEq, Eq, Structural)]
pub struct RowDefinition {
    /// Primary key ID of this row.
    pub id: u32,
    /// Offset of the row's data, relative to the start of the page.
    pub offset: u32,
}

impl SizedRead for RowDefinition {
    open spec fn spec_size() -> int {
        8
    }

    open spec fn spec_parse(b: Seq<u8>) -> Self {
        RowDefinition {
            id: spec_u32_be(b.subrange(0, 4)) as u32,
            offset: spec_u32_be(b.subrange(4, 8)) as u32,
        }
    }

    fn size() -> usize {
        8
    }

    fn parse_at(bytes: &Vec<u8>, at: usize) -> (r: Self) {
        proof {
            broadcast use vstd::std_specs::vec::axiom_spec_len;

            assert(vstd::std_specs::vec::spec_vec_len(bytes) == bytes@.len());
        }
        let id = u32_be(bytes, at);
        let offset = u32_be(bytes, at + 4);
        proof {
            let b = bytes@.subrange(at as int, at + 8);
            assert(b.subrange(0, 4) =~= bytes@.subrange(at as int, at + 4));
            assert(b.subrange(4, 8) =~= bytes@.subrange(at + 4, at + 8));
        }
        RowDefinition { id, offset }
    }
}

/// The header in front of one row's data. Big-endian.
#[derive(Debug, Clone, Copy, PartialEq, Eq, Structural)]
pub struct RowHeader {
    /// Number of data bytes belonging to the row.
    pub data_size: u32,
    /// Number of subrows the data is split into.
    pub row_count: u16,
}

impl SizedRead for RowHeader {
    open spec fn spec_size() -> int {
        6
    }

    open spec fn spec_parse(b: Seq<u8>) -> Self {
        RowHeader {
            data_size: spec_u32_be(b.subrange(0, 4)) as u32,
            row_count: spec_u16_be(b.subrange(4, 6)) as u16,
        }
    }

    fn size() -> usize {
        6
    }

    fn parse_at(bytes: &Vec<u8>, at: usize) -> (r: Self) {
        proof {
            broadcast use vstd::std_specs::vec::axiom_spec_len;

            assert(vstd::std_specs::vec::spec_vec_len(bytes) == bytes@.len());
        }
        let data_size = u32_be(bytes, at);
        let row_count = u16_be(bytes, at + 4);
        proof {
            let b = bytes@.subrange(at as int, at + 6);
            assert(b.subrange(0, 4) =~= bytes@.subrange(at as int, at + 4));
            assert(b.subrange(4, 6) =~= bytes@.subrange(at + 4, at + 6));
        }
        RowHeader { data_size, row_count }
    }
}

/// The header in front of one subrow's data. Big-endian.
#[derive(Debug, Clone, Copy, PartialEq, Eq, Structural)]
pub struct SubrowHeader {
    /// The subrow's ID within its row.
    pub id: u16,
}

impl SizedRead for SubrowHeader {
    open spec fn spec_size() -> int {
        2
    }

    open spec fn spec_parse(b: Seq<u8>) -> Self {
        SubrowHeader { id: spec_u16_be(b.subrange(0, 2)) as u16 }
    }

    fn size() -> usize {
        2
    }

    fn parse_at(bytes: &Vec<u8>, at: usize) -> (r: Self) {
        proof {
            broadcast use vstd::std_specs::vec::axiom_spec_len;

            assert(vstd::std_specs::vec::spec_vec_len(bytes) == bytes@.len());
        }
        let id = u16_be(bytes, at);
        proof {
            assert(bytes@.subrange(at as int, at + 2).subrange(0, 2) =~= bytes@.subrange(
                at as int,
                at + 2,
            ));
        }
        SubrowHeader { id }
    }
}

/// Whether a byte sequence is a well-formed page: long enough for the
/// fixed header, carrying the magic, and long enough for the row index the
/// header declares.
pub open spec fn spec_exd_ok(b: Seq<u8>) -> bool {
    &&& b.len() >= 32
    &&& b[0] == 69 && b[1] == 88 && b[2] == 68 && b[3] == 70
    &&& 32 + 8 * (spec_u32_be(b.subrange(8, 12)) / 8) <= b.len()
}

/// How many rows the page's header declares.
pub open spec fn spec_exd_row_count(b: Seq<u8>) -> int {
    spec_u32_be(b.subrange(8, 12)) / 8
}

/// The row definitions of a well-formed page.
pub open spec fn spec_exd_rows(b: Seq<u8>) -> Seq<RowDefinition> {
    Seq::new(
        spec_exd_row_count(b) as nat,
        |i: int| RowDefinition::spec_parse(b.subrange(32 + 8 * i, 32 + 8 * i + 8)),
    )
}

/// Where the row data begins: right after the row index.
pub open spec fn spec_exd_data_offset(b: Seq<u8>) -> int {
    32 + 8 * spec_exd_row_count(b)
}

/// The index a row ID resolves to, or the row count when the ID is
/// unknown: first the fast path (indexing by the ID's offset from the
/// first row), then a scan for the first matching definition.
pub open spec fn spec_first_match(rows: Seq<RowDefinition>, id: u32, i: int) -> int
    decreases rows.len() - i,
{
    if !(0 <= i < rows.len()) {
        rows.len() as int
    } else if rows[i].id == id {
        i
    } else {
        spec_first_match(rows, id, i + 1)
    }
}

/// The index a row ID resolves to, or the row count when it is unknown.
pub open spec fn spec_row_index(rows: Seq<RowDefinition>, id: u32) -> int {
    let first = if rows.len() > 0 {
        rows[0].id
    } else {
        0u32
    };
    if id >= first && id - first < rows.len() && rows[id - first].id == id {
        id - first
    } else {
        spec_first_match(rows, id, 0)
    }
}

/// The fast path and the scan both land on a definition with the asked-for
/// ID, when they land at all.
proof fn lemma_first_match_props(rows: Seq<RowDefinition>, id: u32, i: int)
    requires
        0 <= i <= rows.len(),
    ensures
        i <= spec_first_match(rows, id, i) <= rows.len(),
        spec_first_match(rows, id, i) < rows.len() ==> rows[spec_first_match(rows, id, i)].id
            == id,
    decreases rows.len() - i,
{
    if 0 <= i < rows.len() && rows[i].id != id {
        lemma_first_match_props(rows, id, i + 1);
    }
}

/// One candidate scan over a row's subrows: the outcome of looking for
/// `sid` among `count` candidates of `ssize` bytes starting at `off`.
pub enum SubrowScan {
    /// The candidate at this index carries the asked-for subrow ID.
    Found(int),
    /// A candidate's header lies outside the page data: the scan aborts.
    Oob,
    /// No candidate matched.
    Missing,
}

/// Scan the subrow candidates from `k` on.
pub open spec fn spec_scan_subrows(
    data: Seq<u8>,
    off: int,
    ssize: int,
    count: int,
    sid: u16,
    k: int,
) -> SubrowScan
    decreases count - k,
{
    if k >= count {
        SubrowScan::Missing
    } else {
        let so = off + ssize * k;
        if !(0 <= so && so + 2 <= data.len()) {
            SubrowScan::Oob
        } else if spec_u16_be(data.subrange(so, so + 2)) == sid {
            SubrowScan::Found(k)
        } else {
            spec_scan_subrows(data, off, ssize, count, sid, k + 1)
        }
    }
}

/// The largest subrow ID among the candidates from `k` on, or nothing when
/// a candidate's header lies outside the page data.
pub open spec fn spec_subrow_max(data: Seq<u8>, off: int, ssize: int, count: int, k: int) -> Option<
    int,
>
    decreases count - k,
{
    if k >= count {
        Some(0)
    } else {
        let so = off + ssize * k;
        if !(0 <= so && so + 2 <= data.len()) {
            None
        } else {
            match spec_subrow_max(data, off, ssize, count, k + 1) {
                None => None,
                Some(m) => Some(
                    if m >= spec_u16_be(data.subrange(so, so + 2)) {
                        m
                    } else {
                        spec_u16_be(data.subrange(so, so + 2))
                    },
                ),
            }
        }
    }
}

/// A candidate whose header cannot be read poisons the whole scan: the
/// maximum is undefined from every earlier index too.
proof fn lemma_subrow_max_none(data: Seq<u8>, off: int, ssize: int, count: int, j: int, k: int)
    requires
        0 <= j <= k,
        spec_subrow_max(data, off, ssize, count, k) is None,
    ensures
        spec_subrow_max(data, off, ssize, count, j) is None,
    decreases k - j,
{
    if j < k {
        lemma_subrow_max_none(data, off, ssize, count, j + 1, k);
    }
}

/// An Excel data page. One or more pages form the full dataset for an
/// Excel sheet.
#[derive(Debug)]
pub struct ExcelData {
    /// The row definitions contained within this page.
    pub rows: Vec<RowDefinition>,
    /// Where the row data begins, as an absolute page offset.
    pub data_offset: u64,
    /// The row data: everything after the row index.
    pub data: Vec<u8>,
}

impl ExcelData {
    /// Whether row ID `row_id` resolves to a definition whose data region
    /// begins inside the page data.
    pub open spec fn spec_row_found(&self, row_id: u32) -> bool {
        spec_row_index(self.rows@, row_id) < self.rows@.len()
    }

    /// The definition `row_id` resolves to.
    pub open spec fn spec_row_def(&self, row_id: u32) -> RowDefinition {
        self.rows@[spec_row_index(self.rows@, row_id)]
    }

    /// Where the resolved row's header lies inside the page data.
    pub open spec fn spec_row_start(&self, row_id: u32) -> int {
        self.spec_row_def(row_id).offset - self.data_offset
    }

    /// Whether the resolved row's header lies inside the page data.
    pub open spec fn spec_row_header_ok(&self, row_id: u32) -> bool {
        &&& self.spec_row_def(row_id).offset >= self.data_offset
        &&& self.spec_row_start(row_id) + 6 <= self.data@.len()
    }

    /// The resolved row's header.
    pub open spec fn spec_row_header(&self, row_id: u32) -> RowHeader {
        RowHeader::spec_parse(
            self.data@.subrange(self.spec_row_start(row_id), self.spec_row_start(row_id) + 6),
        )
    }

    /// Where the resolved row's data begins, right after its header.
    pub open spec fn spec_row_body(&self, row_id: u32) -> int {
        self.spec_row_start(row_id) + 6
    }

    /// Parse a page from everything the stream has left to offer.
    pub fn read<S: FileStream>(stream: S) -> (r: Result<ExcelData, Error>)
        requires
            stream.inv(),
            stream.stream_pos() == 0,
        ensures
            match r {
                Ok(d) => {
                    &&& spec_exd_ok(stream.stream_data())
                    &&& d.rows@ == spec_exd_rows(stream.stream_data())
                    &&& d.data_offset as int == spec_exd_data_offset(stream.stream_data())
                    &&& d.data@ == stream.stream_data().subrange(
                        spec_exd_data_offset(stream.stream_data()),
                        stream.stream_data().len() as int,
                    )
                },
                Err(e) => {
                    &&& !(stream.reliable() && spec_exd_ok(stream.stream_data()))
                    &&& (stream.reliable() && !spec_exd_ok(stream.stream_data()) ==> e
                        == Error::Resource(ResourceCause::Decode))
                },
            },
    {
        let mut s = stream;
        let bytes = match read_to_end(&mut s) {
            Ok(v) => v,
            Err(e) => {
                return Err(e);
            },
        };
        let ghost content = bytes@;
        proof {
            assert(content =~= s.stream_data());
            broadcast use vstd::std_specs::vec::axiom_spec_len;

            assert(vstd::std_specs::vec::spec_vec_len(&bytes) == bytes@.len());
        }
        let n = bytes.len();
        if n < 32 {
            return Err(Error::Resource(ResourceCause::Decode));
        }
        if !(bytes[0] == 69 && bytes[1] == 88 && bytes[2] == 68 && bytes[3] == 70) {
            return Err(Error::Resource(ResourceCause::Decode));
        }
        let index_size = u32_be(&bytes, 8);
        let count = (index_size / 8) as usize;
        if (n as u64 - 32) / 8 < count as u64 {
            proof {
                assert(32 + 8 * spec_exd_row_count(content) > content.len());
            }
            return Err(Error::Resource(ResourceCause::Decode));
        }
        let mut rows: Vec<RowDefinition> = Vec::new();
        let mut i: usize = 0;
        while i < count
            invariant
                rows@.len() == i as int,
                0 <= i <= count,
                count as int == spec_exd_row_count(content),
                content == bytes@,
                n == content.len(),
                32 + 8 * (count as int) <= n as int,
                forall|j: int| 0 <= j < i ==> rows@[j] == spec_exd_rows(content)[j],
            decreases count - i,
        {
            let def = RowDefinition::parse_at(&bytes, 32 + 8 * i);
            rows.push(def);
            i = i + 1;
        }
        proof {
            assert(rows@ =~= spec_exd_rows(content));
        }
        let data_offset = 32 + 8 * count;
        let piece = vstd::slice::slice_subrange(bytes.as_slice(), data_offset, n);
        let data = vstd::slice::slice_to_vec(piece);
        Ok(ExcelData { rows, data_offset: data_offset as u64, data })
    }

    /// The definition the row ID resolves to: by the ID's offset from the
    /// first row when that matches, else the first definition with that ID.
    #[verifier::loop_isolation(false)]
    pub fn row_definition(&self, row_id: u32) -> (r: Result<&RowDefinition, Error>)
        ensures
            match r {
                Ok(def) => {
                    &&& self.spec_row_found(row_id)
                    &&& *def == self.spec_row_def(row_id)
                    &&& def.id == row_id
                },
                Err(e) => {
                    &&& !self.spec_row_found(row_id)
                    &&& e == Error::NotFound(ErrorValue::Row { row: row_id, subrow: 0 })
                },
            },
    {
        proof {
            lemma_first_match_props(self.rows@, row_id, 0);
        }
        // In all likelihood the row can be found simply by indexing the
        // list with the ID's offset from the first row.
        if self.rows.len() > 0 {
            let first = self.rows[0].id;
            if row_id >= first {
                let idx = (row_id - first) as usize;
                if idx < self.rows.len() && self.rows[idx].id == row_id {
                    return Ok(&self.rows[idx]);
                }
            }
        }
        // If not, scan to find the row.
        let mut i: usize = 0;
        while i < self.rows.len()
            invariant
                0 <= i <= self.rows@.len(),
                spec_first_match(self.rows@, row_id, 0) == spec_first_match(
                    self.rows@,
                    row_id,
                    i as int,
                ),
            decreases self.rows@.len() - i,
        {
            if self.rows[i].id == row_id {
                proof {
                    lemma_first_match_props(self.rows@, row_id, 0);
                }
                return Ok(&self.rows[i]);
            }
            i = i + 1;
        }
        Err(Error::NotFound(ErrorValue::Row { row: row_id, subrow: 0 }))
    }

    /// Resolve a row ID to its header and the offset of its data.
    fn row_meta(&self, row_id: u32) -> (r: Result<(RowHeader, usize), Error>)
        ensures
            match r {
                Ok((header, body)) => {
                    &&& self.spec_row_found(row_id)
                    &&& self.spec_row_header_ok(row_id)
                    &&& header == self.spec_row_header(row_id)
                    &&& body as int == self.spec_row_body(row_id)
                },
                Err(e) => {
                    &&& (!self.spec_row_found(row_id) ==> e == Error::NotFound(
                        ErrorValue::Row { row: row_id, subrow: 0 },
                    ))
                    &&& !(self.spec_row_found(row_id) && self.spec_row_header_ok(row_id))
                },
            },
    {
        proof {
            broadcast use vstd::std_specs::vec::axiom_spec_len;

            assert(vstd::std_specs::vec::spec_vec_len(&self.data) == self.data@.len());
        }
        let def = match self.row_definition(row_id) {
            Ok(d) => *d,
            Err(e) => {
                return Err(e);
            },
        };
        // The row offset is absolute; the data starts after the row index.
        if (def.offset as u64) < self.data_offset {
            return Err(Error::Invalid(ErrorValue::Row { row: row_id, subrow: 0 }));
        }
        let start64 = def.offset as u64 - self.data_offset;
        if start64 > self.data.len() as u64 || self.data.len() as u64 - start64 < 6 {
            return Err(Error::Resource(ResourceCause::Decode));
        }
        let start = start64 as usize;
        let header = RowHeader::parse_at(&self.data, start);
        Ok((header, start + 6))
    }

    /// The slice of data associated with the specified row. If this page
    /// is for a sheet with subrows, this includes all child rows of the
    /// specified row; otherwise the row and any trailing string data.
    pub fn row_data(&self, row_id: u32) -> (r: Result<&[u8], Error>)
        ensures
            match r {
                Ok(s) => {
                    &&& self.spec_row_found(row_id)
                    &&& self.spec_row_header_ok(row_id)
                    &&& self.spec_row_body(row_id) + self.spec_row_header(row_id).data_size
                        <= self.data@.len()
                    &&& s@ == self.data@.subrange(
                        self.spec_row_body(row_id),
                        self.spec_row_body(row_id) + self.spec_row_header(row_id).data_size,
                    )
                },
                Err(e) => {
                    &&& (!self.spec_row_found(row_id) ==> e == Error::NotFound(
                        ErrorValue::Row { row: row_id, subrow: 0 },
                    ))
                    &&& !(self.spec_row_found(row_id) && self.spec_row_header_ok(row_id)
                        && self.spec_row_body(row_id) + self.spec_row_header(row_id).data_size
                        <= self.data@.len())
                },
            },
    {
        proof {
            broadcast use vstd::std_specs::vec::axiom_spec_len;

            assert(vstd::std_specs::vec::spec_vec_len(&self.data) == self.data@.len());
        }
        let (header, body) = match self.row_meta(row_id) {
            Ok(m) => m,
            Err(e) => {
                return Err(e);
            },
        };
        if self.data.len() - body < header.data_size as usize {
            return Err(Error::Invalid(ErrorValue::Row { row: row_id, subrow: 0 }));
        }
        let s = vstd::slice::slice_subrange(
            self.data.as_slice(),
            body,
            body + header.data_size as usize,
        );
        Ok(s)
    }

    /// The slice of data associated with the specified subrow. Subrows
    /// carry no unstructured data and are laid out back to back, so the
    /// row's data splits evenly by its subrow count; the candidates are
    /// scanned because subrow IDs do not always match their index.
    #[verifier::loop_isolation(false)]
    pub fn subrow_data(&self, row_id: u32, subrow_id: u16) -> (r: Result<&[u8], Error>)
        ensures
            ({
                let header = self.spec_row_header(row_id);
                let body = self.spec_row_body(row_id);
                let ssize = header.data_size as int / header.row_count as int;
                match r {
                    Ok(s) => {
                        &&& self.spec_row_found(row_id)
                        &&& self.spec_row_header_ok(row_id)
                        &&& header.row_count > 0
                        &&& (spec_scan_subrows(
                            self.data@,
                            body,
                            ssize,
                            header.row_count as int,
                            subrow_id,
                            0,
                        ) matches SubrowScan::Found(k) && {
                            let so = body + ssize * k;
                            &&& ssize >= 2
                            &&& so + ssize <= self.data@.len()
                            &&& s@ == self.data@.subrange(so + 2, so + ssize)
                        })
                    },
                    Err(e) => {
                        &&& (!self.spec_row_found(row_id) ==> e == Error::NotFound(
                            ErrorValue::Row { row: row_id, subrow: 0 },
                        ))
                        &&& (self.spec_row_found(row_id) && self.spec_row_header_ok(row_id)
                            && header.row_count > 0 && spec_scan_subrows(
                            self.data@,
                            body,
                            ssize,
                            header.row_count as int,
                            subrow_id,
                            0,
                        ) is Missing ==> e == Error::NotFound(
                            ErrorValue::Row { row: row_id, subrow: subrow_id },
                        ))
                        &&& !(self.spec_row_found(row_id) && self.spec_row_header_ok(row_id)
                            && header.row_count > 0 && (spec_scan_subrows(
                            self.data@,
                            body,
                            ssize,
                            header.row_count as int,
                            subrow_id,
                            0,
                        ) matches SubrowScan::Found(k) && ssize >= 2 && body + ssize * k + ssize
                            <= self.data@.len()))
                    },
                }
            }),
    {
        proof {
            broadcast use vstd::std_specs::vec::axiom_spec_len;

            assert(vstd::std_specs::vec::spec_vec_len(&self.data) == self.data@.len());
        }
        let (header, body) = match self.row_meta(row_id) {
            Ok(m) => m,
            Err(e) => {
                return Err(e);
            },
        };
        if header.row_count == 0 {
            return Err(Error::Invalid(ErrorValue::Row { row: row_id, subrow: subrow_id }));
        }
        let ssize64: u64 = (header.data_size / header.row_count as u32) as u64;
        let ghost ssize = ssize64 as int;
        let ghost count = header.row_count as int;
        let mut k: u16 = 0;
        while k < header.row_count
            invariant
                spec_scan_subrows(self.data@, body as int, ssize, count, subrow_id, 0)
                    == spec_scan_subrows(self.data@, body as int, ssize, count, subrow_id, k as int),
                0 <= k <= count,
            decreases count - k,
        {
            proof {
                assert(ssize64 * (k as u64) <= 0xFFFFFFFF * 0xFFFF) by (nonlinear_arith)
                    requires
                        ssize64 <= 0xFFFFFFFF,
                        k <= 0xFFFF,
                ;
            }
            let prod: u64 = ssize64 * k as u64;
            if body as u64 > u64::MAX - prod {
                return Err(Error::Resource(ResourceCause::Decode));
            }
            let so64: u64 = body as u64 + prod;
            if so64 > self.data.len() as u64 || self.data.len() as u64 - so64 < 2 {
                // A candidate header that cannot be read aborts the whole
                // scan immediately rather than skipping the bad candidate.
                return Err(Error::Resource(ResourceCause::Decode));
            }
            let so = so64 as usize;
            let sub = SubrowHeader::parse_at(&self.data, so);
            if sub.id == subrow_id {
                if ssize64 < 2 || self.data.len() as u64 - so64 < ssize64 {
                    return Err(
                        Error::Invalid(ErrorValue::Row { row: row_id, subrow: subrow_id }),
                    );
                }
                let ssize_usize = ssize64 as usize;
                let s = vstd::slice::slice_subrange(
                    self.data.as_slice(),
                    so + 2,
                    so + ssize_usize,
                );
                return Ok(s);
            }
            k = k + 1;
        }
        // No subrows matched at all.
        Err(Error::NotFound(ErrorValue::Row { row: row_id, subrow: subrow_id }))
    }

    /// The largest subrow ID the specified row holds.
    #[verifier::loop_isolation(false)]
    pub fn subrow_max(&self, row_id: u32) -> (r: Result<u16, Error>)
        ensures
            ({
                let header = self.spec_row_header(row_id);
                let body = self.spec_row_body(row_id);
                let ssize = header.data_size as int / header.row_count as int;
                match r {
                    Ok(m) => {
                        &&& self.spec_row_found(row_id)
                        &&& self.spec_row_header_ok(row_id)
                        &&& header.row_count > 0
                        &&& spec_subrow_max(
                            self.data@,
                            body,
                            ssize,
                            header.row_count as int,
                            0,
                        ) == Some(m as int)
                    },
                    Err(e) => {
                        &&& (!self.spec_row_found(row_id) ==> e == Error::NotFound(
                            ErrorValue::Row { row: row_id, subrow: 0 },
                        ))
                        &&& !(self.spec_row_found(row_id) && self.spec_row_header_ok(row_id)
                            && header.row_count > 0 && spec_subrow_max(
                            self.data@,
                            body,
                            ssize,
                            header.row_count as int,
                            0,
                        ) is Some)
                    },
                }
            }),
    {
        proof {
            broadcast use vstd::std_specs::vec::axiom_spec_len;

            assert(vstd::std_specs::vec::spec_vec_len(&self.data) == self.data@.len());
        }
        let (header, body) = match self.row_meta(row_id) {
            Ok(m) => m,
            Err(e) => {
                return Err(e);
            },
        };
        if header.row_count == 0 {
            return Err(Error::Invalid(ErrorValue::Row { row: row_id, subrow: 0 }));
        }
        let ssize64: u64 = (header.data_size / header.row_count as u32) as u64;
        let ghost ssize = ssize64 as int;
        let ghost count = header.row_count as int;
        // Walk the candidates backwards so the running maximum matches the
        // scan's recursion from each index to the end.
        let mut k: u16 = header.row_count;
        let mut best: u16 = 0;
        while k > 0
            invariant
                0 <= k <= count,
                spec_subrow_max(self.data@, body as int, ssize, count, k as int) == Some(
                    best as int,
                ),
            decreases k,
        {
            k = k - 1;
            proof {
                assert(ssize64 * (k as u64) <= 0xFFFFFFFF * 0xFFFF) by (nonlinear_arith)
                    requires
                        ssize64 <= 0xFFFFFFFF,
                        k <= 0xFFFF,
                ;
            }
            let prod: u64 = ssize64 * k as u64;
            if body as u64 > u64::MAX - prod {
                proof {
                    lemma_subrow_max_none(self.data@, body as int, ssize, count, 0, k as int);
                }
                return Err(Error::Resource(ResourceCause::Decode));
            }
            let so64: u64 = body as u64 + prod;
            if so64 > self.data.len() as u64 || self.data.len() as u64 - so64 < 2 {
                proof {
                    lemma_subrow_max_none(self.data@, body as int, ssize, count, 0, k as int);
                }
                return Err(Error::Resource(ResourceCause::Decode));
            }
            let so = so64 as usize;
            let sub = SubrowHeader::parse_at(&self.data, so);
            if sub.id > best {
                best = sub.id;
            }
        }
        Ok(best)
    }
}

} // verus!
