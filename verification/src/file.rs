//! The uniform file handle: one value that stands for a file whether its
//! bytes are embedded in the table or read live from disk, with path,
//! extension, metadata and content access that behave the same either way.
//! Two handles are the same file exactly when their relative paths agree.

use vstd::prelude::*;
use vstd::string::StringExecFns;
use vstd::utf8::decode_utf8;
use vstd::utf8::valid_utf8;

use crate::embed::clone_byte_vec;
use crate::embed::EmbedFile;
use crate::embed::RecordV;
use crate::fsio::read_file_bytes;
use crate::fsio::stat_file;
use crate::fsio::utf8_to_string;
use crate::paths::extension_of;
use crate::paths::path_extension;
use crate::strutil::str_eq;

verus! {

/// Error type for file and silo operations.
#[derive(Debug, Clone)]
pub enum Error {
    /// The file's bytes were not valid text.
    DecodeError,
    /// No file with the requested path.
    NotFound,
    /// An underlying I/O operation failed.
    IoError { message: String },
}

/// Size and modification time reported for a file. A modification time of
/// `0` means the time was unavailable.
#[derive(Debug, Clone, Copy)]
pub struct Meta {
    pub size: usize,
    pub modified: u64,
}

/// The metadata reported from a measured size and an optional modification
/// time: a missing time is reported as the sentinel `0`.
pub fn meta_from_parts(size: usize, modified: Option<u64>) -> (r: Meta)
    ensures
        r.size == size,
        r.modified == (match modified {
            Some(m) => m,
            None => 0u64,
        }),
{
    Meta {
        size,
        modified: match modified {
            Some(m) => m,
            None => 0,
        },
    }
}

/// A file backed by the filesystem: the relative path it was looked up
/// under and the absolute path it resolved to.
#[derive(Debug, Clone)]
pub struct DynFile {
    rel_path: String,
    full_path: String,
}

impl DynFile {
    /// The relative path, as a sequence of characters.
    pub closed spec fn rel_spec(&self) -> Seq<char> {
        self.rel_path@
    }

    /// The absolute path, as a sequence of characters.
    pub closed spec fn full_spec(&self) -> Seq<char> {
        self.full_path@
    }

    /// A handle from an absolute path and the relative path it answers to.
    pub fn new(full_path: &str, rel_path: &str) -> (r: DynFile)
        ensures
            r.full_spec() == full_path@,
            r.rel_spec() == rel_path@,
    {
        DynFile { rel_path: rel_path.to_owned(), full_path: full_path.to_owned() }
    }

    /// The relative path of the file.
    pub fn path(&self) -> (r: &str)
        ensures
            r@ == self.rel_spec(),
    {
        self.rel_path.as_str()
    }

    /// The absolute path of the file.
    pub fn absolute_path(&self) -> (r: &str)
        ensures
            r@ == self.full_spec(),
    {
        self.full_path.as_str()
    }
}

/// Mathematical model of a file handle.
pub ghost enum FileV {
    /// An embedded record, bytes and all.
    Embed(RecordV),
    /// A filesystem file: relative path and resolved absolute path.
    Dyn { rel: Seq<char>, abs: Seq<char> },
}

impl FileV {
    /// The relative path, whichever backend holds the file.
    pub open spec fn rel(self) -> Seq<char> {
        match self {
            FileV::Embed(rec) => rec.path,
            FileV::Dyn { rel, .. } => rel,
        }
    }
}

/// The models of a sequence of file handles, in order.
pub open spec fn files_views(s: Seq<File>) -> Seq<FileV> {
    s.map_values(|f: File| f@)
}

#[derive(Debug, Clone)]
enum FileKind {
    Embed(EmbedFile),
    Dynamic(DynFile),
}

/// A file, which may be embedded or dynamic.
#[derive(Debug, Clone)]
pub struct File {
    inner: FileKind,
}

impl View for File {
    type V = FileV;

    closed spec fn view(&self) -> FileV {
        match self.inner {
            FileKind::Embed(ref f) => FileV::Embed(f@),
            FileKind::Dynamic(ref f) => FileV::Dyn { rel: f.rel_spec(), abs: f.full_spec() },
        }
    }
}

impl File {
    /// A handle over an embedded record.
    pub(crate) fn from_embedded(f: EmbedFile) -> (r: File)
        ensures
            r@ == FileV::Embed(f@),
    {
        File { inner: FileKind::Embed(f) }
    }

    /// A handle over a filesystem file.
    pub(crate) fn from_dynamic(f: DynFile) -> (r: File)
        ensures
            r@ == (FileV::Dyn { rel: f.rel_spec(), abs: f.full_spec() }),
    {
        File { inner: FileKind::Dynamic(f) }
    }

    /// The relative path of the file.
    pub fn path(&self) -> (r: &str)
        ensures
            r@ == self@.rel(),
    {
        match &self.inner {
            FileKind::Embed(f) => f.path(),
            FileKind::Dynamic(f) => f.path(),
        }
    }

    /// Whether the file's bytes are embedded rather than read from disk.
    pub fn is_embedded(&self) -> (r: bool)
        ensures
            r == self@ is Embed,
    {
        match &self.inner {
            FileKind::Embed(_) => true,
            FileKind::Dynamic(_) => false,
        }
    }

    /// The on-disk location for a filesystem-backed file; an embedded file
    /// has none to report.
    pub fn absolute_path(&self) -> (r: Option<&str>)
        ensures
            ({
                match r {
                    Some(p) => self@ matches FileV::Dyn { rel, abs } && p@ == abs,
                    None => self@ is Embed,
                }
            }),
    {
        match &self.inner {
            FileKind::Embed(_) => None,
            FileKind::Dynamic(f) => Some(f.absolute_path()),
        }
    }

    /// The file extension derived from the relative path's final segment.
    pub fn extension(&self) -> (r: Option<&str>)
        ensures
            ({
                match r {
                    Some(e) => extension_of(self@.rel()) == Some(e@),
                    None => extension_of(self@.rel()) is None,
                }
            }),
    {
        path_extension(self.path())
    }

    /// The file's size and modification time. An embedded file reports the
    /// recorded values and never fails; a filesystem file is measured anew
    /// at call time and fails when it cannot be.
    pub fn meta(&self) -> (r: Result<Meta, Error>)
        ensures
            self@ matches FileV::Embed(rec) ==> r matches Ok(m) && m.size == rec.size
                && m.modified == rec.modified,
            r is Err ==> !(self@ is Embed),
            r matches Err(e) ==> e is IoError,
    {
        match &self.inner {
            FileKind::Embed(f) => {
                let e = f.entry();
                Ok(Meta { size: e.size, modified: e.modified })
            },
            FileKind::Dynamic(f) => {
                match stat_file(f.absolute_path()) {
                    Some((size, modified)) => Ok(meta_from_parts(size, modified)),
                    None => {
                        let mut message = "failed to read metadata for ".to_owned();
                        message.append(f.absolute_path());
                        Err(Error::IoError { message })
                    },
                }
            },
        }
    }

    /// The embedded bytes, borrowed without a copy; a filesystem-backed
    /// file holds none in memory.
    pub fn embedded_bytes(&self) -> (r: Option<&Vec<u8>>)
        ensures
            ({
                match r {
                    Some(b) => self@ matches FileV::Embed(rec) && b@ == rec.contents,
                    None => !(self@ is Embed),
                }
            }),
    {
        match &self.inner {
            FileKind::Embed(f) => Some(&f.entry().contents),
            FileKind::Dynamic(_) => None,
        }
    }

    /// The file's bytes, owned. An embedded file hands back a copy of its
    /// recorded contents and never fails; a filesystem file is read from
    /// disk at call time.
    pub fn read_bytes(&self) -> (r: Result<Vec<u8>, Error>)
        ensures
            self@ matches FileV::Embed(rec) ==> r matches Ok(b) && b@ == rec.contents,
            r is Err ==> !(self@ is Embed),
            r matches Err(e) ==> e is IoError,
    {
        match &self.inner {
            FileKind::Embed(f) => Ok(clone_byte_vec(&f.entry().contents)),
            FileKind::Dynamic(f) => {
                match read_file_bytes(f.absolute_path()) {
                    Ok(bytes) => Ok(bytes),
                    Err(message) => Err(Error::IoError { message }),
                }
            },
        }
    }

    /// The file's contents decoded as text; fails with a decode error
    /// exactly when the bytes are not valid UTF-8.
    pub fn read_string(&self) -> (r: Result<String, Error>)
        ensures
            self@ matches FileV::Embed(rec) ==> {
                &&& r is Ok <==> valid_utf8(rec.contents)
                &&& (r matches Ok(s) ==> s@ == decode_utf8(rec.contents))
                &&& (r matches Err(e) ==> e is DecodeError)
            },
            r matches Err(e) ==> e is DecodeError || (e is IoError && !(self@ is Embed)),
    {
        match self.read_bytes() {
            Ok(bytes) => {
                match utf8_to_string(bytes) {
                    Some(s) => Ok(s),
                    None => Err(Error::DecodeError),
                }
            },
            Err(e) => Err(e),
        }
    }
}

/// Files are equal exactly when their relative paths are equal, whatever
/// backend holds them; that is what lets a layered set treat copies of one
/// path as the same logical file.
impl PartialEq for File {
    fn eq(&self, other: &File) -> (r: bool) {
        str_eq(self.path(), other.path())
    }
}

impl vstd::std_specs::cmp::PartialEqSpecImpl for File {
    open spec fn obeys_eq_spec() -> bool {
        true
    }

    open spec fn eq_spec(&self, other: &File) -> bool {
        self@.rel() == other@.rel()
    }
}

impl Eq for File {

}

} // verus!
