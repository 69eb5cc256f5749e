//! The trusted boundary to the filesystem. Each function here wraps one
//! outside call; everything the rest of the crate concludes about the
//! filesystem goes through the contracts on this page. Results that depend
//! on the state of the disk carry no promises beyond their types: callers
//! state what holds of every outcome.

use vstd::prelude::*;
use vstd::utf8::decode_utf8;
use vstd::utf8::valid_utf8;

verus! {

/// One item seen during a directory walk: an entry with its absolute path
/// and whether it is a regular file, or the report of an entry that could
/// not be read.
pub enum WalkItem {
    Entry { abs_path: String, is_file: bool },
    Fault { message: String },
}

/// Mathematical model of one walk item.
pub ghost enum WalkItemV {
    Entry { abs: Seq<char>, is_file: bool },
    Fault { message: Seq<char> },
}

impl View for WalkItem {
    type V = WalkItemV;

    open spec fn view(&self) -> WalkItemV {
        match self {
            WalkItem::Entry { abs_path, is_file } => WalkItemV::Entry {
                abs: abs_path@,
                is_file: *is_file,
            },
            WalkItem::Fault { message } => WalkItemV::Fault { message: message@ },
        }
    }
}

/// The models of a sequence of walk items, in order.
pub open spec fn walk_views(s: Seq<WalkItem>) -> Seq<WalkItemV> {
    s.map_values(|w: WalkItem| w@)
}

/// Relies on walkdir::WalkDir: yields every entry under `root` (the root
/// itself included), depth first, with one fault item per entry that could
/// not be read.
#[verifier::external_body]
pub(crate) fn walk_dir(root: &str) -> (r: Vec<WalkItem>) {
    walkdir::WalkDir::new(root)
        .into_iter()
        .map(|e| match e {
            Ok(ent) => WalkItem::Entry {
                abs_path: ent.path().to_string_lossy().into_owned(),
                is_file: ent.file_type().is_file(),
            },
            Err(err) => WalkItem::Fault { message: err.to_string() },
        })
        .collect()
}

/// Relies on std::path::Path::canonicalize: the absolute form of `p` with
/// `.`, `..` and symbolic links resolved, when `p` exists and the result is
/// representable as text.
#[verifier::external_body]
pub(crate) fn canonicalize_path(p: &str) -> (r: Option<String>) {
    match std::path::Path::new(p).canonicalize() {
        Ok(c) => c.to_str().map(|s| s.to_owned()),
        Err(_) => None,
    }
}

/// Relies on std::path::Path::is_file: whether `p` names an existing
/// regular file at the time of the call.
#[verifier::external_body]
pub(crate) fn probe_is_file(p: &str) -> (r: bool) {
    std::path::Path::new(p).is_file()
}

/// Relies on std::path::Path::metadata: the size in bytes of the file at
/// `p` and, when the platform reports one, its modification time in seconds
/// since the epoch.
#[verifier::external_body]
pub(crate) fn stat_file(p: &str) -> (r: Option<(usize, Option<u64>)>) {
    let md = match std::path::Path::new(p).metadata() {
        Ok(m) => m,
        Err(_) => return None,
    };
    let modified = md
        .modified()
        .ok()
        .and_then(|t| t.duration_since(std::time::UNIX_EPOCH).ok())
        .map(|d| d.as_secs());
    Some((md.len() as usize, modified))
}

/// Relies on fs_err::read: the entire contents of the file at `p`, or the
/// underlying I/O error rendered as text.
#[verifier::external_body]
pub(crate) fn read_file_bytes(p: &str) -> (r: Result<Vec<u8>, String>) {
    fs_err::read(p).map_err(|e| e.to_string())
}

/// Relies on String::from_utf8: decodes the bytes exactly when they are
/// valid UTF-8.
#[verifier::external_body]
pub(crate) fn utf8_to_string(bytes: Vec<u8>) -> (r: Option<String>)
    ensures
        r is Some <==> valid_utf8(bytes@),
        r matches Some(s) ==> s@ == decode_utf8(bytes@),
{
    String::from_utf8(bytes).ok()
}

} // verus!
