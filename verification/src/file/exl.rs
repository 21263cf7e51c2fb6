//! The Excel list format: the list of known sheets.
//!
//! The list is plain text split into CRLF-delimited lines. The first line
//! must begin with the magic `EXLT`; every following line that contains a
//! comma names a sheet before the comma (the field after it, the sheet ID,
//! is irrelevant here). Parsing works on the raw bytes.

use vstd::prelude::*;

use crate::error::{Error, ResourceCause};
use crate::stream::{FileStream, read_to_end};
use crate::text::bytes_eq;

verus! {

/// The position of the first CRLF pair at or after `i`, or the length of
/// the data when there is none.
pub open spec fn find_crlf(b: Seq<u8>, i: int) -> int
    decreases b.len() - i,
{
    if i + 2 > b.len() {
        b.len() as int
    } else if b[i] == 13 && b[i + 1] == 10 {
        i
    } else {
        find_crlf(b, i + 1)
    }
}

/// The position of the first `target` byte in `[i, end)`, or `end` when
/// there is none.
pub open spec fn find_byte(b: Seq<u8>, i: int, end: int, target: u8) -> int
    decreases end - i,
{
    if i >= end || i < 0 || i >= b.len() {
        end
    } else if b[i] == target {
        i
    } else {
        find_byte(b, i + 1, end, target)
    }
}

/// Whether the first CRLF-delimited line begins with the magic `EXLT`.
pub open spec fn magic_ok(b: Seq<u8>) -> bool {
    &&& find_crlf(b, 0) >= 4
    &&& b[0] == 69 && b[1] == 88 && b[2] == 76 && b[3] == 84
}

/// The sheet names in the lines starting at `start`: for each line that
/// contains a comma, the bytes before the comma.
pub open spec fn names_from(b: Seq<u8>, start: int) -> Set<Seq<u8>>
    decreases b.len() - start,
    via names_from_decreases
{
    if !(0 <= start <= b.len()) {
        Set::empty()
    } else {
        let j = find_crlf(b, start);
        let c = find_byte(b, start, j, 44);
        let here: Set<Seq<u8>> = if c < j {
            Set::empty().insert(b.subrange(start, c))
        } else {
            Set::empty()
        };
        if j >= b.len() {
            here
        } else {
            here.union(names_from(b, j + 2))
        }
    }
}

/// The sheet names the whole list spells out: those of every line after
/// the first.
pub open spec fn spec_sheet_names(b: Seq<u8>) -> Set<Seq<u8>> {
    let j = find_crlf(b, 0);
    if j >= b.len() {
        Set::empty()
    } else {
        names_from(b, j + 2)
    }
}

#[via_fn]
proof fn names_from_decreases(b: Seq<u8>, start: int) {
    if 0 <= start <= b.len() {
        lemma_find_crlf_bounds(b, start);
    }
}

/// The first CRLF search stays within the data and lands on a CRLF pair
/// when it lands short of the end.
proof fn lemma_find_crlf_bounds(b: Seq<u8>, i: int)
    requires
        0 <= i <= b.len(),
    ensures
        i <= find_crlf(b, i) <= b.len(),
        find_crlf(b, i) < b.len() ==> find_crlf(b, i) + 2 <= b.len(),
    decreases b.len() - i,
{
    if i + 2 <= b.len() && !(b[i] == 13 && b[i + 1] == 10) {
        lemma_find_crlf_bounds(b, i + 1);
    }
}

/// The byte search stays within its range.
proof fn lemma_find_byte_bounds(b: Seq<u8>, i: int, end: int, target: u8)
    requires
        0 <= i <= end <= b.len(),
    ensures
        i <= find_byte(b, i, end, target) <= end,
    decreases end - i,
{
    if i < end && b[i] != target {
        lemma_find_byte_bounds(b, i + 1, end, target);
    }
}

/// The set of byte strings a list of names holds.
pub open spec fn names_set(s: Seq<Vec<u8>>) -> Set<Seq<u8>> {
    Set::new(|n: Seq<u8>| exists|i: int| 0 <= i < s.len() && (#[trigger] s[i])@ == n)
}

/// Appending a name grows the set by exactly that name.
proof fn lemma_names_set_push(s: Seq<Vec<u8>>, v: Vec<u8>)
    ensures
        names_set(s.push(v)) == names_set(s).insert(v@),
{
    assert forall|n: Seq<u8>| names_set(s.push(v)).contains(n) implies names_set(s).insert(
        v@,
    ).contains(n) by {
        let i = choose|i: int| 0 <= i < s.push(v).len() && (#[trigger] s.push(v)[i])@ == n;
        if i < s.len() {
            assert(s[i]@ == n);
        }
    }
    assert forall|n: Seq<u8>| names_set(s).insert(v@).contains(n) implies names_set(
        s.push(v),
    ).contains(n) by {
        if n == v@ {
            assert(s.push(v)[s.len() as int]@ == n);
        } else {
            let i = choose|i: int| 0 <= i < s.len() && (#[trigger] s[i])@ == n;
            assert(s.push(v)[i]@ == n);
        }
    }
    assert(names_set(s.push(v)) =~= names_set(s).insert(v@));
}

/// The position of the first CRLF pair at or after `from`.
fn find_crlf_at(v: &Vec<u8>, from: usize) -> (r: usize)
    requires
        from <= v@.len(),
    ensures
        r as int == find_crlf(v@, from as int),
        from <= r <= v@.len(),
        r < v@.len() ==> r + 2 <= v@.len(),
{
    proof {
        broadcast use vstd::std_specs::vec::axiom_spec_len;

        assert(vstd::std_specs::vec::spec_vec_len(v) == v@.len());
        lemma_find_crlf_bounds(v@, from as int);
    }
    let n = v.len();
    let mut i = from;
    while i < n && i + 1 < n
        invariant
            from <= i <= n,
            n == v@.len(),
            find_crlf(v@, from as int) == find_crlf(v@, i as int),
        decreases n - i,
    {
        if v[i] == 13 && v[i + 1] == 10 {
            return i;
        }
        i = i + 1;
    }
    n
}

/// The position of the first `target` byte in `[from, end)`.
fn find_byte_at(v: &Vec<u8>, from: usize, end: usize, target: u8) -> (r: usize)
    requires
        from <= end <= v@.len(),
    ensures
        r as int == find_byte(v@, from as int, end as int, target),
        from <= r <= end,
{
    proof {
        broadcast use vstd::std_specs::vec::axiom_spec_len;

        assert(vstd::std_specs::vec::spec_vec_len(v) == v@.len());
        lemma_find_byte_bounds(v@, from as int, end as int, target);
    }
    let mut i = from;
    while i < end
        invariant
            from <= i <= end,
            end <= v@.len(),
            find_byte(v@, from as int, end as int, target) == find_byte(
                v@,
                i as int,
                end as int,
                target,
            ),
        decreases end - i,
    {
        if v[i] == target {
            return i;
        }
        i = i + 1;
    }
    end
}

/// Whether `name` is already listed.
fn contains_name(names: &Vec<Vec<u8>>, name: &Vec<u8>) -> (r: bool)
    ensures
        r == names_set(names@).contains(name@),
{
    let mut i: usize = 0;
    while i < names.len()
        invariant
            0 <= i <= names@.len(),
            forall|j: int| 0 <= j < i ==> (#[trigger] names@[j])@ != name@,
        decreases names@.len() - i,
    {
        if bytes_eq(names[i].as_slice(), name.as_slice()) {
            return true;
        }
        i = i + 1;
    }
    proof {
        assert(!names_set(names@).contains(name@));
    }
    false
}

/// List of known Excel sheets.
#[derive(Debug)]
pub struct ExcelList {
    names: Vec<Vec<u8>>,
}

impl ExcelList {
    /// The set of sheet names, as raw bytes.
    pub closed spec fn sheets(&self) -> Set<Seq<u8>> {
        names_set(self.names@)
    }

    /// Each name is listed once.
    #[verifier::type_invariant]
    spec fn wf(&self) -> bool {
        forall|i: int, j: int|
            0 <= i < j < self.names@.len() ==> (#[trigger] self.names@[i])@ != (
            #[trigger] self.names@[j])@
    }

    /// The known sheets, in the order first seen, each listed once.
    pub fn iter(&self) -> (r: &Vec<Vec<u8>>)
        ensures
            forall|i: int| 0 <= i < r@.len() ==> self.sheets().contains((#[trigger] r@[i])@),
            forall|n: Seq<u8>|
                self.sheets().contains(n) ==> exists|i: int|
                    0 <= i < r@.len() && (#[trigger] r@[i])@ == n,
            forall|i: int, j: int|
                0 <= i < j < r@.len() ==> (#[trigger] r@[i])@ != (#[trigger] r@[j])@,
    {
        proof {
            use_type_invariant(&*self);
        }
        &self.names
    }

    /// Check if the specified sheet is contained in the list.
    pub fn has(&self, sheet: &str) -> (r: bool)
        ensures
            r == self.sheets().contains(vstd::utf8::encode_utf8(sheet@)),
    {
        let bytes = vstd::slice::slice_to_vec(sheet.as_bytes());
        contains_name(&self.names, &bytes)
    }

    /// Parse the list from everything the stream has left to offer. The
    /// first line must carry the magic; the sheet names are the bytes
    /// before the comma of every later line that has one.
    #[verifier::loop_isolation(false)]
    pub fn read<S: FileStream>(stream: S) -> (r: Result<ExcelList, Error>)
        requires
            stream.inv(),
            stream.stream_pos() == 0,
        ensures
            match r {
                Ok(list) => {
                    &&& magic_ok(stream.stream_data())
                    &&& list.sheets() == spec_sheet_names(stream.stream_data())
                },
                Err(e) => {
                    &&& !(stream.reliable() && magic_ok(stream.stream_data()))
                    &&& (stream.reliable() && !magic_ok(stream.stream_data()) ==> e
                        == Error::Resource(ResourceCause::Decode))
                },
            },
    {
        let mut s = stream;
        let bytes = match read_to_end(&mut s) {
            Ok(v) => v,
            Err(e) => {
                return Err(e);
            },
        };
        let ghost content = bytes@;
        proof {
            assert(content =~= s.stream_data());
            broadcast use vstd::std_specs::vec::axiom_spec_len;

            assert(vstd::std_specs::vec::spec_vec_len(&bytes) == bytes@.len());
        }
        let n = bytes.len();
        // Ensure the first line carries the expected magic.
        let first_end = find_crlf_at(&bytes, 0);
        if first_end < 4 || !(bytes[0] == 69 && bytes[1] == 88 && bytes[2] == 76 && bytes[3]
            == 84) {
            return Err(Error::Resource(ResourceCause::Decode));
        }
        let mut names: Vec<Vec<u8>> = Vec::new();
        if first_end == n {
            // A single line: the magic alone, no sheets.
            return Ok(ExcelList { names });
        }
        let mut start = first_end + 2;
        proof {
            assert(names_set(names@).union(names_from(content, start as int))
                =~= spec_sheet_names(content));
        }
        // Collect the names line by line, keeping each one once.
        loop
            invariant
                n == content.len(),
                bytes@ == content,
                0 <= start <= n,
                names_set(names@).union(names_from(content, start as int)) == spec_sheet_names(
                    content,
                ),
                forall|i: int, j: int|
                    0 <= i < j < names@.len() ==> (#[trigger] names@[i])@ != (
                    #[trigger] names@[j])@,
            decreases n - start + 1,
        {
            let j = find_crlf_at(&bytes, start);
            let c = find_byte_at(&bytes, start, j, 44);
            let ghost names_before = names@;
            if c < j {
                let piece = vstd::slice::slice_subrange(bytes.as_slice(), start, c);
                let name = vstd::slice::slice_to_vec(piece);
                if !contains_name(&names, &name) {
                    names.push(name);
                    proof {
                        lemma_names_set_push(names_before, name);
                    }
                }
                proof {
                    assert(names_set(names@).union(names_from(content, start as int))
                        =~= names_set(names_before).union(names_from(content, start as int)));
                }
            }
            if j == n {
                proof {
                    assert(names_set(names@) =~= spec_sheet_names(content));
                }
                return Ok(ExcelList { names });
            }
            let ghost old_start = start as int;
            start = j + 2;
            proof {
                assert(names_set(names@).union(names_from(content, start as int))
                    =~= names_set(names_before).union(names_from(content, old_start)));
            }
        }
    }
}

} // verus!
