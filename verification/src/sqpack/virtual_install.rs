//! SqPack resource for reading game data from a virtual installation.
//!
//! A storage backend only needs the minimal capability set of
//! [`VirtualFilesystem`]: existence check, whole-file reads and
//! open-for-streaming, all read-only. [`VirtualInstall`] resolves repository
//! names, builds the on-disk path strings per platform, and produces bounded
//! windows over container files at a requested location and size.

use vstd::prelude::*;

use crate::error::{Error, ErrorValue, ResourceCause};
use crate::stream::{FileStream, MemoryStream, SeekFrom};
use crate::take_seekable::{TakeSeekable, window_of};
use crate::text::{str_eq, string_from_utf8};
use vstd::string::StringExecFns;

use super::resource::{Location, Resource};

verus! {

/// Failure of a virtual filesystem operation.
#[derive(Debug, Clone, Copy, PartialEq, Eq, Structural)]
pub enum VfsError {
    /// The path does not exist in the backing store.
    NotFound,
    /// The bytes exist but cannot be presented as asked (not valid text).
    Invalid,
    /// The backing store failed.
    Io,
}

/// The minimal capability set a storage backend must provide: existence
/// check, whole-file read as bytes or text, and open for streaming,
/// seekable access. No directory listing or write capability — the archive
/// layer is read-only.
///
/// A backend is modelled as a map from paths to file contents (`files`).
/// `reliable` marks backends whose operations never fail for external
/// reasons; on such a backend an operation fails exactly when the path is
/// missing or the bytes are not valid text.
pub trait VirtualFilesystem: Sized {
    /// The type of an opened, streamable file.
    type File: FileStream;

    /// The backend's content: what bytes each existing path holds.
    spec fn files(&self) -> Map<Seq<char>, Seq<u8>>;

    /// No operation on this backend fails for an external reason.
    spec fn reliable(&self) -> bool;

    /// Whether `path` exists in the backing store.
    fn path_exists(&self, path: &str) -> (r: bool)
        ensures
            r == self.files().contains_key(path@),
    ;

    /// Read the file at `path` fully into memory as text.
    fn read_to_string(&self, path: &str) -> (r: Result<String, VfsError>)
        ensures
            match r {
                Ok(s) => {
                    &&& self.files().contains_key(path@)
                    &&& vstd::utf8::valid_utf8(self.files()[path@])
                    &&& s@ == vstd::utf8::decode_utf8(self.files()[path@])
                },
                Err(e) => {
                    &&& (!self.files().contains_key(path@) ==> e == VfsError::NotFound)
                    &&& !(self.reliable() && self.files().contains_key(path@)
                        && vstd::utf8::valid_utf8(self.files()[path@]))
                },
            },
    ;

    /// Read the file at `path` fully into memory as bytes.
    fn read(&self, path: &str) -> (r: Result<Vec<u8>, VfsError>)
        ensures
            match r {
                Ok(v) => {
                    &&& self.files().contains_key(path@)
                    &&& v@ == self.files()[path@]
                },
                Err(e) => {
                    &&& (!self.files().contains_key(path@) ==> e == VfsError::NotFound)
                    &&& !(self.reliable() && self.files().contains_key(path@))
                },
            },
    ;

    /// Open the file at `path` for streaming, seekable access, positioned
    /// at its first byte.
    fn open(&self, path: &str) -> (r: Result<Self::File, VfsError>)
        ensures
            match r {
                Ok(f) => {
                    &&& self.files().contains_key(path@)
                    &&& f.inv()
                    &&& f.stream_data() == self.files()[path@]
                    &&& f.stream_pos() == 0
                    &&& f.stream_end() == f.stream_data().len()
                    &&& (self.reliable() ==> f.reliable())
                    &&& (self.reliable() ==> forall|p: u64|
                        #[trigger] f.seek_ok(SeekFrom::Start(p)))
                    &&& (self.reliable() ==> f.seek_ok(SeekFrom::End(0)))
                },
                Err(e) => {
                    &&& (!self.files().contains_key(path@) ==> e == VfsError::NotFound)
                    &&& !(self.reliable() && self.files().contains_key(path@))
                },
            },
    ;
}

/// The path-to-content map a list of entries spells out, later entries
/// winning over earlier ones.
pub open spec fn entries_map(s: Seq<(String, Vec<u8>)>) -> Map<Seq<char>, Seq<u8>>
    decreases s.len(),
{
    if s.len() == 0 {
        Map::empty()
    } else {
        entries_map(s.drop_last()).insert(s.last().0@, s.last().1@)
    }
}

/// An in-memory virtual filesystem: a plain list of path/content pairs.
#[derive(Debug)]
pub struct MemoryVfs {
    entries: Vec<(String, Vec<u8>)>,
}

impl MemoryVfs {
    /// An empty backing store.
    pub fn new() -> (r: Self)
        ensures
            r.files() == Map::<Seq<char>, Seq<u8>>::empty(),
            r.reliable(),
    {
        MemoryVfs { entries: Vec::new() }
    }

    /// Add (or replace) the file at `path` with `data`.
    pub fn insert(&mut self, path: &str, data: Vec<u8>)
        ensures
            final(self).files() == old(self).files().insert(path@, data@),
            final(self).reliable(),
    {
        let owned: String = path.to_owned();
        let ghost before = self.entries@;
        self.entries.push((owned, data));
        proof {
            assert(self.entries@.drop_last() =~= before);
        }
    }

    /// Find the content stored for `path`, honouring the latest entry.
    fn lookup(&self, path: &str) -> (r: Option<&Vec<u8>>)
        ensures
            match r {
                Some(v) => {
                    &&& self.files().contains_key(path@)
                    &&& v@ == self.files()[path@]
                },
                None => !self.files().contains_key(path@),
            },
    {
        let ghost full = self.entries@;
        let ghost k = path@;
        let mut i = self.entries.len();
        proof {
            assert(full.take(full.len() as int) =~= full);
        }
        loop
            invariant
                full == self.entries@,
                k == path@,
                0 <= i <= full.len(),
                entries_map(full).contains_key(k) ==> entries_map(full.take(i as int)).contains_key(
                    k,
                ) && entries_map(full.take(i as int))[k] == entries_map(full)[k],
                entries_map(full.take(i as int)).contains_key(k) ==> entries_map(
                    full,
                ).contains_key(k),
            decreases i,
        {
            if i == 0 {
                proof {
                    assert(full.take(0) =~= Seq::<(String, Vec<u8>)>::empty());
                    reveal_with_fuel(entries_map, 1);
                }
                return None;
            }
            i = i - 1;
            let entry = &self.entries[i];
            proof {
                assert(full.take(i + 1).drop_last() =~= full.take(i as int));
                assert(full.take(i + 1).last() == full[i as int]);
            }
            if str_eq(entry.0.as_str(), path) {
                return Some(&entry.1);
            }
        }
    }
}

impl VirtualFilesystem for MemoryVfs {
    type File = MemoryStream;

    closed spec fn files(&self) -> Map<Seq<char>, Seq<u8>> {
        entries_map(self.entries@)
    }

    closed spec fn reliable(&self) -> bool {
        true
    }

    fn path_exists(&self, path: &str) -> (r: bool) {
        match self.lookup(path) {
            Some(_) => true,
            None => false,
        }
    }

    fn read_to_string(&self, path: &str) -> (r: Result<String, VfsError>) {
        let bytes = match self.lookup(path) {
            Some(v) => v.clone(),
            None => {
                return Err(VfsError::NotFound);
            },
        };
        match string_from_utf8(bytes) {
            Some(s) => Ok(s),
            None => Err(VfsError::Invalid),
        }
    }

    fn read(&self, path: &str) -> (r: Result<Vec<u8>, VfsError>) {
        match self.lookup(path) {
            Some(v) => Ok(v.clone()),
            None => Err(VfsError::NotFound),
        }
    }

    fn open(&self, path: &str) -> (r: Result<Self::File, VfsError>) {
        let bytes = match self.lookup(path) {
            Some(v) => v.clone(),
            None => {
                return Err(VfsError::NotFound);
            },
        };
        let stream = MemoryStream::new(bytes);
        proof {
            stream.lemma_inv_bounds();
            assert forall|p: u64| #[trigger] stream.seek_ok(SeekFrom::Start(p)) by {
                stream.lemma_seek_ok(SeekFrom::Start(p));
            }
            stream.lemma_seek_ok(SeekFrom::End(0));
        }
        Ok(stream)
    }
}

} // verus!

verus! {

/// The platform whose on-disk file naming is used.
#[derive(Debug, Clone, Copy, PartialEq, Eq, Structural)]
pub enum Platform {
    Win32,
    PS3,
    PS4,
}

/// The character spelling one hex (or decimal) digit, lower case.
pub open spec fn spec_digit(n: int) -> char {
    if n == 0 {
        '0'
    } else if n == 1 {
        '1'
    } else if n == 2 {
        '2'
    } else if n == 3 {
        '3'
    } else if n == 4 {
        '4'
    } else if n == 5 {
        '5'
    } else if n == 6 {
        '6'
    } else if n == 7 {
        '7'
    } else if n == 8 {
        '8'
    } else if n == 9 {
        '9'
    } else if n == 10 {
        'a'
    } else if n == 11 {
        'b'
    } else if n == 12 {
        'c'
    } else if n == 13 {
        'd'
    } else if n == 14 {
        'e'
    } else {
        'f'
    }
}

/// A byte as two lower-case hex digits.
pub open spec fn spec_hex2(b: u8) -> Seq<char> {
    seq![spec_digit(b as int / 16), spec_digit(b as int % 16)]
}

/// A byte in decimal, without leading zeroes.
pub open spec fn spec_decimal(n: u8) -> Seq<char> {
    if n < 10 {
        seq![spec_digit(n as int)]
    } else if n < 100 {
        seq![spec_digit(n as int / 10), spec_digit(n as int % 10)]
    } else {
        seq![
            spec_digit(n as int / 100),
            spec_digit((n as int / 10) % 10),
            spec_digit(n as int % 10),
        ]
    }
}

/// The naming scheme's tag for a platform.
pub open spec fn spec_platform_name(p: Platform) -> Seq<char> {
    match p {
        Platform::Win32 => seq!['w', 'i', 'n', '3', '2'],
        Platform::PS3 => seq!['p', 's', '3'],
        Platform::PS4 => seq!['p', 's', '4'],
    }
}

/// The directory name of a repository: `ffxiv` for the base game,
/// `ex1`..`ex9` for the expansions.
pub open spec fn spec_repository_name(i: int) -> Seq<char> {
    if i == 0 {
        seq!['f', 'f', 'x', 'i', 'v']
    } else {
        seq!['e', 'x', spec_digit(i)]
    }
}

/// An on-disk file path inside a repository:
/// `<name>/<category:2-hex><repository:2-hex><chunk:2-hex>.<platform>.<extension>`.
pub open spec fn spec_dat_file_path(
    repository_name: Seq<char>,
    category: u8,
    repository: u8,
    chunk: u8,
    platform: Platform,
    extension: Seq<char>,
) -> Seq<char> {
    repository_name + seq!['/'] + spec_hex2(category) + spec_hex2(repository) + spec_hex2(chunk)
        + seq!['.'] + spec_platform_name(platform) + seq!['.'] + extension
}

/// The version file of a named repository: `<name>/<name>.ver`.
pub open spec fn spec_version_path(name: Seq<char>) -> Seq<char> {
    name + seq!['/'] + name + seq!['.', 'v', 'e', 'r']
}

/// The version file of repository zero: `../ffxivgame.ver`.
pub open spec fn spec_root_version_path() -> Seq<char> {
    seq!['.', '.', '/', 'f', 'f', 'x', 'i', 'v', 'g', 'a', 'm', 'e', '.', 'v', 'e', 'r']
}

/// The version-file path a repository index resolves to.
pub open spec fn spec_version_path_of(repository: int) -> Seq<char> {
    if repository == 0 {
        spec_root_version_path()
    } else {
        spec_version_path(spec_repository_name(repository))
    }
}

/// The string spelling one digit.
fn digit_str(n: u8) -> (r: &'static str)
    requires
        n < 16,
    ensures
        r@ == seq![spec_digit(n as int)],
{
    match n {
        0 => {
            proof {
                reveal_strlit("0");
                assert("0"@ =~= seq!['0']);
            }
            "0"
        },
        1 => {
            proof {
                reveal_strlit("1");
                assert("1"@ =~= seq!['1']);
            }
            "1"
        },
        2 => {
            proof {
                reveal_strlit("2");
                assert("2"@ =~= seq!['2']);
            }
            "2"
        },
        3 => {
            proof {
                reveal_strlit("3");
                assert("3"@ =~= seq!['3']);
            }
            "3"
        },
        4 => {
            proof {
                reveal_strlit("4");
                assert("4"@ =~= seq!['4']);
            }
            "4"
        },
        5 => {
            proof {
                reveal_strlit("5");
                assert("5"@ =~= seq!['5']);
            }
            "5"
        },
        6 => {
            proof {
                reveal_strlit("6");
                assert("6"@ =~= seq!['6']);
            }
            "6"
        },
        7 => {
            proof {
                reveal_strlit("7");
                assert("7"@ =~= seq!['7']);
            }
            "7"
        },
        8 => {
            proof {
                reveal_strlit("8");
                assert("8"@ =~= seq!['8']);
            }
            "8"
        },
        9 => {
            proof {
                reveal_strlit("9");
                assert("9"@ =~= seq!['9']);
            }
            "9"
        },
        10 => {
            proof {
                reveal_strlit("a");
                assert("a"@ =~= seq!['a']);
            }
            "a"
        },
        11 => {
            proof {
                reveal_strlit("b");
                assert("b"@ =~= seq!['b']);
            }
            "b"
        },
        12 => {
            proof {
                reveal_strlit("c");
                assert("c"@ =~= seq!['c']);
            }
            "c"
        },
        13 => {
            proof {
                reveal_strlit("d");
                assert("d"@ =~= seq!['d']);
            }
            "d"
        },
        14 => {
            proof {
                reveal_strlit("e");
                assert("e"@ =~= seq!['e']);
            }
            "e"
        },
        _ => {
            proof {
                reveal_strlit("f");
                assert("f"@ =~= seq!['f']);
            }
            "f"
        },
    }
}

/// Append a byte as two hex digits.
fn push_hex2(s: &mut String, b: u8)
    ensures
        final(s)@ == old(s)@ + spec_hex2(b),
{
    let ghost start = s@;
    s.append(digit_str(b / 16));
    s.append(digit_str(b % 16));
    proof {
        assert(s@ =~= start + spec_hex2(b));
    }
}

/// Append a byte in decimal.
fn push_decimal(s: &mut String, n: u8)
    ensures
        final(s)@ == old(s)@ + spec_decimal(n),
{
    let ghost start = s@;
    if n < 10 {
        s.append(digit_str(n));
    } else if n < 100 {
        s.append(digit_str(n / 10));
        s.append(digit_str(n % 10));
    } else {
        s.append(digit_str(n / 100));
        s.append(digit_str((n / 10) % 10));
        s.append(digit_str(n % 10));
    }
    proof {
        assert(s@ =~= start + spec_decimal(n));
    }
}

/// The directory name of a repository index.
fn repository_name_str(i: u8) -> (r: &'static str)
    requires
        i <= 9,
    ensures
        r@ == spec_repository_name(i as int),
{
    match i {
        0 => {
            proof {
                reveal_strlit("ffxiv");
                assert("ffxiv"@ =~= spec_repository_name(0));
            }
            "ffxiv"
        },
        1 => {
            proof {
                reveal_strlit("ex1");
                assert("ex1"@ =~= spec_repository_name(1));
            }
            "ex1"
        },
        2 => {
            proof {
                reveal_strlit("ex2");
                assert("ex2"@ =~= spec_repository_name(2));
            }
            "ex2"
        },
        3 => {
            proof {
                reveal_strlit("ex3");
                assert("ex3"@ =~= spec_repository_name(3));
            }
            "ex3"
        },
        4 => {
            proof {
                reveal_strlit("ex4");
                assert("ex4"@ =~= spec_repository_name(4));
            }
            "ex4"
        },
        5 => {
            proof {
                reveal_strlit("ex5");
                assert("ex5"@ =~= spec_repository_name(5));
            }
            "ex5"
        },
        6 => {
            proof {
                reveal_strlit("ex6");
                assert("ex6"@ =~= spec_repository_name(6));
            }
            "ex6"
        },
        7 => {
            proof {
                reveal_strlit("ex7");
                assert("ex7"@ =~= spec_repository_name(7));
            }
            "ex7"
        },
        8 => {
            proof {
                reveal_strlit("ex8");
                assert("ex8"@ =~= spec_repository_name(8));
            }
            "ex8"
        },
        _ => {
            proof {
                reveal_strlit("ex9");
                assert("ex9"@ =~= spec_repository_name(9));
            }
            "ex9"
        },
    }
}

} // verus!

verus! {

/// Map a virtual-filesystem failure on `path` to this crate's taxonomy: a
/// missing path is a not-found condition carrying the path, anything else
/// a resource condition wrapping the cause.
fn map_vfs_error(e: VfsError, path: &str) -> (r: Error)
    ensures
        e == VfsError::NotFound ==> (r matches Error::NotFound(ErrorValue::Path(b)) && b@
            == vstd::utf8::encode_utf8(path@)),
        e != VfsError::NotFound ==> r matches Error::Resource(_),
{
    match e {
        VfsError::NotFound => {
            let bytes = vstd::slice::slice_to_vec(path.as_bytes());
            Error::NotFound(ErrorValue::Path(bytes))
        },
        VfsError::Invalid => Error::Resource(ResourceCause::Text),
        VfsError::Io => Error::Resource(ResourceCause::Io),
    }
}

/// Probe the backend for the base-game directory and each of the nine
/// expansion directories, keeping the names that exist.
fn find_repositories<V: VirtualFilesystem>(vfs: &V) -> (r: Vec<Option<String>>)
    ensures
        r@.len() == 10,
        forall|i: int|
            0 <= i < 10 ==> ((#[trigger] r@[i]) is Some <==> vfs.files().contains_key(
                spec_repository_name(i),
            )),
        forall|i: int|
            0 <= i < 10 ==> ((#[trigger] r@[i]) matches Some(name) ==> name@
                == spec_repository_name(i)),
{
    let mut out: Vec<Option<String>> = Vec::new();
    let mut i: u8 = 0;
    while i < 10
        invariant
            out@.len() == i as int,
            i <= 10,
            forall|j: int|
                0 <= j < i ==> ((#[trigger] out@[j]) is Some <==> vfs.files().contains_key(
                    spec_repository_name(j),
                )),
            forall|j: int|
                0 <= j < i ==> ((#[trigger] out@[j]) matches Some(name) ==> name@
                    == spec_repository_name(j)),
        decreases 10 - i,
    {
        let name = repository_name_str(i);
        if vfs.path_exists(name) {
            out.push(Some(name.to_owned()));
        } else {
            out.push(None);
        }
        i = i + 1;
    }
    out
}

/// Read the file at `path` fully into memory and wrap it for in-memory
/// cursor access — index tables are always read in full because near-total
/// coverage is the common case and per-operation latency dominates
/// streaming costs for small files.
fn read_index<V: VirtualFilesystem>(vfs: &V, path: &str) -> (r: Result<MemoryStream, Error>)
    ensures
        match r {
            Ok(ms) => {
                &&& vfs.files().contains_key(path@)
                &&& ms.stream_data() == vfs.files()[path@]
                &&& ms.stream_pos() == 0
                &&& ms.inv()
                &&& ms.reliable()
            },
            Err(e) => {
                &&& !(vfs.reliable() && vfs.files().contains_key(path@))
                &&& (!vfs.files().contains_key(path@) ==> (e matches Error::NotFound(
                    ErrorValue::Path(b),
                ) && b@ == vstd::utf8::encode_utf8(path@)))
            },
        },
{
    let buffer = match vfs.read(path) {
        Ok(v) => v,
        Err(e) => {
            return Err(map_vfs_error(e, path));
        },
    };
    Ok(MemoryStream::new(buffer))
}

/// SqPack resource for reading game data from a virtual installation.
///
/// Construction probes the backend once for the repository directories;
/// the resulting name table is immutable for the instance's lifetime.
#[derive(Debug)]
pub struct VirtualInstall<V: VirtualFilesystem> {
    vfs: V,
    repositories: Vec<Option<String>>,
    platform: Platform,
}

impl<V: VirtualFilesystem> VirtualInstall<V> {
    /// The backing filesystem.
    pub closed spec fn spec_vfs(&self) -> V {
        self.vfs
    }

    /// The sparse repository-name table built at construction.
    pub closed spec fn spec_repositories(&self) -> Seq<Option<String>> {
        self.repositories@
    }

    /// The platform whose naming scheme is used.
    pub closed spec fn spec_platform(&self) -> Platform {
        self.platform
    }

    /// The name table mirrors the backend: ten slots, a slot filled exactly
    /// when the correspondingly named directory exists.
    #[verifier::type_invariant]
    spec fn wf(&self) -> bool {
        &&& self.spec_repositories().len() == 10
        &&& forall|i: int|
            0 <= i < 10 ==> ((#[trigger] self.spec_repositories()[i]) is Some
                <==> self.spec_vfs().files().contains_key(spec_repository_name(i)))
        &&& forall|i: int|
            0 <= i < 10 ==> ((#[trigger] self.spec_repositories()[i]) matches Some(name)
                ==> name@ == spec_repository_name(i))
    }

    /// Whether a repository index resolves to a known directory name.
    pub open spec fn repository_known(&self, repository: int) -> bool {
        0 <= repository < 10 && self.spec_vfs().files().contains_key(
            spec_repository_name(repository),
        )
    }

    /// Build an instance over `vfs`, probing it once for the base-game
    /// directory name and each of the nine expansion directory names.
    pub fn at_sqpack(vfs: V) -> (r: Self)
        ensures
            r.spec_vfs() == vfs,
            r.spec_platform() == Platform::Win32,
    {
        let repositories = find_repositories(&vfs);
        VirtualInstall { vfs, repositories, platform: Platform::Win32 }
    }

    /// The backing filesystem.
    pub fn vfs(&self) -> (r: &V)
        ensures
            *r == self.spec_vfs(),
    {
        &self.vfs
    }

    /// The name the repository index resolves to, or a not-found condition.
    fn get_repository_name(&self, repository: u8) -> (r: Result<&String, Error>)
        ensures
            match r {
                Ok(name) => self.repository_known(repository as int) && name@
                    == spec_repository_name(repository as int),
                Err(e) => {
                    &&& e == Error::NotFound(ErrorValue::Repository(repository))
                    &&& !self.repository_known(repository as int)
                },
            },
    {
        proof {
            use_type_invariant(&*self);
        }
        if repository < 10 {
            let idx = repository as usize;
            match &self.repositories[idx] {
                Some(name) => {
                    return Ok(name);
                },
                None => (),
            }
        }
        Err(Error::NotFound(ErrorValue::Repository(repository)))
    }

    /// The on-disk path of one table or container file of a repository.
    fn build_file_path(&self, repository: u8, category: u8, chunk: u8, extension: &str) -> (r:
        Result<String, Error>)
        ensures
            match r {
                Ok(path) => {
                    &&& self.spec_platform() == Platform::Win32
                    &&& self.repository_known(repository as int)
                    &&& path@ == spec_dat_file_path(
                        spec_repository_name(repository as int),
                        category,
                        repository,
                        chunk,
                        Platform::Win32,
                        extension@,
                    )
                },
                Err(e) => {
                    &&& (self.spec_platform() != Platform::Win32 ==> e == Error::Unimplemented)
                    &&& (self.spec_platform() == Platform::Win32 ==> e == Error::NotFound(
                        ErrorValue::Repository(repository),
                    ) && !self.repository_known(repository as int))
                },
            },
    {
        let platform = match self.platform {
            Platform::Win32 => {
                proof {
                    reveal_strlit("win32");
                    assert("win32"@ =~= spec_platform_name(Platform::Win32));
                }
                "win32"
            },
            // Only one platform naming scheme is implemented; requesting
            // another is an explicit hard stop, never silently wrong.
            Platform::PS3 => {
                return Err(Error::Unimplemented);
            },
            Platform::PS4 => {
                return Err(Error::Unimplemented);
            },
        };
        let name = match self.get_repository_name(repository) {
            Ok(n) => n,
            Err(e) => {
                return Err(e);
            },
        };
        let mut path = String::new();
        path.append(name.as_str());
        proof {
            reveal_strlit("/");
            assert("/"@ =~= seq!['/']);
            reveal_strlit(".");
            assert("."@ =~= seq!['.']);
        }
        path.append("/");
        push_hex2(&mut path, category);
        push_hex2(&mut path, repository);
        push_hex2(&mut path, chunk);
        path.append(".");
        path.append(platform);
        path.append(".");
        path.append(extension);
        proof {
            assert(path@ =~= spec_dat_file_path(
                spec_repository_name(repository as int),
                category,
                repository,
                chunk,
                Platform::Win32,
                extension@,
            ));
        }
        Ok(path)
    }
}

impl<V: VirtualFilesystem> Resource for VirtualInstall<V> {
    type Index = MemoryStream;

    type Index2 = MemoryStream;

    type File = TakeSeekable<V::File>;

    /// The repository's version string: the decoded text of its version
    /// file (`../ffxivgame.ver` for repository zero, `<name>/<name>.ver`
    /// otherwise). An unknown repository is a not-found condition.
    fn version(&self, repository: u8) -> (r: Result<String, Error>)
        ensures
            match r {
                Ok(s) => {
                    &&& (repository != 0 ==> self.repository_known(repository as int))
                    &&& self.spec_vfs().files().contains_key(spec_version_path_of(
                        repository as int,
                    ))
                    &&& vstd::utf8::valid_utf8(
                        self.spec_vfs().files()[spec_version_path_of(repository as int)],
                    )
                    &&& s@ == vstd::utf8::decode_utf8(
                        self.spec_vfs().files()[spec_version_path_of(repository as int)],
                    )
                },
                Err(e) => {
                    &&& (repository != 0 && !self.repository_known(repository as int)) ==> e
                        == Error::NotFound(ErrorValue::Repository(repository))
                    &&& ((repository == 0 || self.repository_known(repository as int))
                        && !self.spec_vfs().files().contains_key(spec_version_path_of(
                        repository as int,
                    ))) ==> (e matches Error::NotFound(ErrorValue::Path(b)) && b@
                        == vstd::utf8::encode_utf8(spec_version_path_of(repository as int)))
                    &&& !(self.spec_vfs().reliable() && (repository == 0
                        || self.repository_known(repository as int))
                        && self.spec_vfs().files().contains_key(spec_version_path_of(
                        repository as int,
                    )) && vstd::utf8::valid_utf8(
                        self.spec_vfs().files()[spec_version_path_of(repository as int)],
                    ))
                },
            },
    {
        let path: String = if repository == 0 {
            proof {
                reveal_strlit("../ffxivgame.ver");
                assert("../ffxivgame.ver"@ =~= spec_root_version_path());
            }
            let p: String = "../ffxivgame.ver".to_owned();
            p
        } else {
            let name = match self.get_repository_name(repository) {
                Ok(n) => n,
                Err(e) => {
                    return Err(e);
                },
            };
            let mut p = String::new();
            p.append(name.as_str());
            proof {
                reveal_strlit("/");
                assert("/"@ =~= seq!['/']);
                reveal_strlit(".ver");
                assert(".ver"@ =~= seq!['.', 'v', 'e', 'r']);
            }
            p.append("/");
            p.append(name.as_str());
            p.append(".ver");
            proof {
                assert(p@ =~= spec_version_path(spec_repository_name(repository as int)));
            }
            p
        };
        match self.vfs.read_to_string(path.as_str()) {
            Ok(s) => Ok(s),
            Err(e) => Err(map_vfs_error(e, path.as_str())),
        }
    }

    /// The primary index table for the triple, read fully into memory.
    fn index(&self, repository: u8, category: u8, chunk: u8) -> (r: Result<Self::Index, Error>)
        ensures
            match r {
                Ok(ms) => {
                    &&& self.repository_known(repository as int)
                    &&& self.spec_vfs().files().contains_key(spec_dat_file_path(
                        spec_repository_name(repository as int),
                        category,
                        repository,
                        chunk,
                        Platform::Win32,
                        seq!['i', 'n', 'd', 'e', 'x'],
                    ))
                    &&& ms.stream_data() == self.spec_vfs().files()[spec_dat_file_path(
                        spec_repository_name(repository as int),
                        category,
                        repository,
                        chunk,
                        Platform::Win32,
                        seq!['i', 'n', 'd', 'e', 'x'],
                    )]
                    &&& ms.stream_pos() == 0
                    &&& ms.inv()
                    &&& ms.reliable()
                },
                Err(e) => {
                    let path = spec_dat_file_path(
                        spec_repository_name(repository as int),
                        category,
                        repository,
                        chunk,
                        Platform::Win32,
                        seq!['i', 'n', 'd', 'e', 'x'],
                    );
                    &&& (self.spec_platform() != Platform::Win32 ==> e == Error::Unimplemented)
                    &&& (self.spec_platform() == Platform::Win32 && !self.repository_known(
                        repository as int,
                    ) ==> e == Error::NotFound(ErrorValue::Repository(repository)))
                    &&& (self.spec_platform() == Platform::Win32 && self.repository_known(
                        repository as int,
                    ) && !self.spec_vfs().files().contains_key(path) ==> (e
                        matches Error::NotFound(ErrorValue::Path(b)) && b@
                        == vstd::utf8::encode_utf8(path)))
                    &&& !(self.spec_vfs().reliable() && self.spec_platform() == Platform::Win32
                        && self.repository_known(repository as int)
                        && self.spec_vfs().files().contains_key(path))
                },
            },
    {
        proof {
            reveal_strlit("index");
            assert("index"@ =~= seq!['i', 'n', 'd', 'e', 'x']);
        }
        let path = match self.build_file_path(repository, category, chunk, "index") {
            Ok(p) => p,
            Err(e) => {
                return Err(e);
            },
        };
        read_index(&self.vfs, path.as_str())
    }

    /// The secondary (flat) index table for the triple, read fully into
    /// memory.
    fn index2(&self, repository: u8, category: u8, chunk: u8) -> (r: Result<Self::Index2, Error>)
        ensures
            match r {
                Ok(ms) => {
                    &&& self.repository_known(repository as int)
                    &&& self.spec_vfs().files().contains_key(spec_dat_file_path(
                        spec_repository_name(repository as int),
                        category,
                        repository,
                        chunk,
                        Platform::Win32,
                        seq!['i', 'n', 'd', 'e', 'x', '2'],
                    ))
                    &&& ms.stream_data() == self.spec_vfs().files()[spec_dat_file_path(
                        spec_repository_name(repository as int),
                        category,
                        repository,
                        chunk,
                        Platform::Win32,
                        seq!['i', 'n', 'd', 'e', 'x', '2'],
                    )]
                    &&& ms.stream_pos() == 0
                    &&& ms.inv()
                    &&& ms.reliable()
                },
                Err(e) => {
                    let path = spec_dat_file_path(
                        spec_repository_name(repository as int),
                        category,
                        repository,
                        chunk,
                        Platform::Win32,
                        seq!['i', 'n', 'd', 'e', 'x', '2'],
                    );
                    &&& (self.spec_platform() != Platform::Win32 ==> e == Error::Unimplemented)
                    &&& (self.spec_platform() == Platform::Win32 && !self.repository_known(
                        repository as int,
                    ) ==> e == Error::NotFound(ErrorValue::Repository(repository)))
                    &&& (self.spec_platform() == Platform::Win32 && self.repository_known(
                        repository as int,
                    ) && !self.spec_vfs().files().contains_key(path) ==> (e
                        matches Error::NotFound(ErrorValue::Path(b)) && b@
                        == vstd::utf8::encode_utf8(path)))
                    &&& !(self.spec_vfs().reliable() && self.spec_platform() == Platform::Win32
                        && self.repository_known(repository as int)
                        && self.spec_vfs().files().contains_key(path))
                },
            },
    {
        proof {
            reveal_strlit("index2");
            assert("index2"@ =~= seq!['i', 'n', 'd', 'e', 'x', '2']);
        }
        let path = match self.build_file_path(repository, category, chunk, "index2") {
            Ok(p) => p,
            Err(e) => {
                return Err(e);
            },
        };
        read_index(&self.vfs, path.as_str())
    }

    /// A reader bounded to exactly the bytes of one logical file: the dat
    /// container is opened, the window size resolved (the location's known
    /// size, or else discovered by seeking to the container's end), and a
    /// bounded window returned over the bytes from the location's offset.
    fn file(&self, repository: u8, category: u8, location: Location) -> (r: Result<
        Self::File,
        Error,
    >)
        ensures
            match r {
                Ok(w) => {
                    let path = spec_dat_file_path(
                        spec_repository_name(repository as int),
                        category,
                        repository,
                        location.spec_chunk(),
                        Platform::Win32,
                        seq!['d', 'a', 't'] + spec_decimal(location.spec_data_file()),
                    );
                    let data = self.spec_vfs().files()[path];
                    &&& self.repository_known(repository as int)
                    &&& self.spec_vfs().files().contains_key(path)
                    &&& w.inv()
                    &&& w.stream_pos() == 0
                    &&& w.spec_offset() == location.spec_offset()
                    &&& w.spec_limit() == (match location.spec_size() {
                        Some(size) => size as int,
                        None => data.len() - location.spec_offset(),
                    })
                    &&& w.stream_data() == window_of(
                        data,
                        location.spec_offset() as int,
                        w.spec_limit(),
                    )
                    &&& (self.spec_vfs().reliable() ==> w.reliable())
                },
                Err(e) => {
                    let path = spec_dat_file_path(
                        spec_repository_name(repository as int),
                        category,
                        repository,
                        location.spec_chunk(),
                        Platform::Win32,
                        seq!['d', 'a', 't'] + spec_decimal(location.spec_data_file()),
                    );
                    &&& (self.spec_platform() != Platform::Win32 ==> e == Error::Unimplemented)
                    &&& (self.spec_platform() == Platform::Win32 && !self.repository_known(
                        repository as int,
                    ) ==> e == Error::NotFound(ErrorValue::Repository(repository)))
                    &&& (self.spec_platform() == Platform::Win32 && self.repository_known(
                        repository as int,
                    ) && !self.spec_vfs().files().contains_key(path) ==> (e
                        matches Error::NotFound(ErrorValue::Path(b)) && b@
                        == vstd::utf8::encode_utf8(path)))
                    &&& (self.spec_vfs().reliable() && self.spec_platform() == Platform::Win32
                        && self.repository_known(repository as int)
                        && self.spec_vfs().files().contains_key(path)
                        && location.spec_size() is None && self.spec_vfs().files()[path].len()
                        < location.spec_offset() ==> e == Error::Invalid(
                        ErrorValue::SeekPosition(
                            (self.spec_vfs().files()[path].len() - location.spec_offset()) as i128,
                        ),
                    ))
                    &&& !(self.spec_vfs().reliable() && self.spec_platform() == Platform::Win32
                        && self.repository_known(repository as int)
                        && self.spec_vfs().files().contains_key(path) && (match location.spec_size() {
                        Some(_) => true,
                        None => self.spec_vfs().files()[path].len()
                            >= location.spec_offset(),
                    }))
                },
            },
    {
        let mut extension = String::new();
        proof {
            reveal_strlit("dat");
            assert("dat"@ =~= seq!['d', 'a', 't']);
        }
        extension.append("dat");
        push_decimal(&mut extension, location.data_file());
        let path = match self.build_file_path(
            repository,
            category,
            location.chunk(),
            extension.as_str(),
        ) {
            Ok(p) => p,
            Err(e) => {
                return Err(e);
            },
        };
        let mut file = match self.vfs.open(path.as_str()) {
            Ok(f) => f,
            Err(e) => {
                return Err(map_vfs_error(e, path.as_str()));
            },
        };
        let offset = location.offset() as u64;
        // Resolve the size early, in case the end of the container must be
        // probed to find it. Probing only happens when the location carries
        // no size: the known-size fast path must stay cheap.
        let size: u64 = match location.size() {
            Some(size) => size as u64,
            None => {
                let end = match file.seek(SeekFrom::End(0)) {
                    Ok(p) => p,
                    Err(e) => {
                        return Err(e);
                    },
                };
                if end < offset {
                    return Err(Error::Invalid(ErrorValue::SeekPosition(
                        end as i128 - offset as i128,
                    )));
                }
                end - offset
            },
        };
        match file.seek(SeekFrom::Start(offset)) {
            Ok(_) => (),
            Err(e) => {
                return Err(e);
            },
        }
        Ok(TakeSeekable::at_position(file, offset, size))
    }
}

} // verus!
