//! A silo: one logical root of files behind one interface, whether backed
//! by the embedded table, a fixed filesystem root, or a caller-supplied
//! filesystem root. Every filesystem lookup resolves the requested path and
//! accepts it only when it stays inside the root; a rejected path is
//! indistinguishable from an absent one, by design.

use vstd::prelude::*;
use vstd::string::StringExecFns;

use crate::embed::table_lookup;
use crate::embed::table_wf;
use crate::embed::EmbedSilo;
use crate::embed::RecordV;
use crate::file::DynFile;
use crate::file::File;
use crate::file::FileV;
use crate::fsio::canonicalize_path;
use crate::fsio::walk_views;
use crate::fsio::probe_is_file;
use crate::fsio::walk_dir;
use crate::fsio::WalkItem;
use crate::paths::has_root_prefix;
use crate::paths::join_rel;
use crate::paths::normalize_seps;
use crate::paths::normalize_seps_spec;
use crate::paths::path_contained;
use crate::paths::path_is_contained;
use crate::paths::strip_root_prefix;
use crate::scan::walk_files;
use crate::scan::WalkFileV;

verus! {

/// Decides a filesystem lookup from what the filesystem answered: given the
/// canonical root, the relative path asked for, the canonical form the
/// joined path resolved to, and whether that resolved path is a regular
/// file, the lookup succeeds exactly when the file exists and the resolved
/// path stays inside the root.
pub fn resolve_lookup(root_canon: &str, rel: &str, resolved: &str, exists_file: bool) -> (r:
    Option<DynFile>)
    ensures
        r is Some <==> (exists_file && path_contained(root_canon@, resolved@)),
        r matches Some(f) ==> f.rel_spec() == rel@ && f.full_spec() == resolved@,
{
    if exists_file && path_is_contained(root_canon, resolved) {
        Some(DynFile::new(resolved, rel))
    } else {
        None
    }
}

/// A file under `root` by relative path: the join of root and path is
/// resolved against the live filesystem and judged by [`resolve_lookup`].
/// Absence, a containment rejection, and a resolution failure all yield
/// nothing.
pub fn get_file_for_root(root: &str, path: &str) -> (r: Option<DynFile>)
    ensures
        r matches Some(f) ==> f.rel_spec() == path@,
{
    let root_canon = match canonicalize_path(root) {
        Some(c) => c,
        None => {
            return None;
        },
    };
    let joined = join_rel(root_canon.as_str(), path);
    let resolved = match canonicalize_path(joined.as_str()) {
        Some(c) => c,
        None => {
            return None;
        },
    };
    let exists_file = probe_is_file(resolved.as_str());
    resolve_lookup(root_canon.as_str(), path, resolved.as_str(), exists_file)
}

/// Turns a walk answer into file handles: exactly one dynamic handle, in
/// walk order, per regular-file entry whose path extends the root, with
/// the relative path the normalized remainder. This function fixes what
/// enumeration owes for every possible walk answer; faults, directories
/// and entries outside the root are skipped silently.
pub fn files_of_walk(root: &str, items: &Vec<WalkItem>) -> (r: Vec<File>)
    ensures
        ({
            let found = walk_files(root@, walk_views(items@));
            &&& r@.len() == found.len()
            &&& forall|i: int|
                0 <= i < r@.len() ==> #[trigger] r@[i]@ == (FileV::Dyn {
                    rel: found[i].rel,
                    abs: found[i].abs,
                })
        }),
{
    let ghost wv = walk_views(items@);
    let mut out: Vec<File> = Vec::new();
    let mut i: usize = 0;
    proof {
        assert(wv.take(0) =~= Seq::<crate::fsio::WalkItemV>::empty());
    }
    while i < items.len()
        invariant
            i <= items@.len(),
            wv == walk_views(items@),
            out@.len() == walk_files(root@, wv.take(i as int)).len(),
            forall|m: int|
                0 <= m < out@.len() ==> #[trigger] out@[m]@ == (FileV::Dyn {
                    rel: walk_files(root@, wv.take(i as int))[m].rel,
                    abs: walk_files(root@, wv.take(i as int))[m].abs,
                }),
        decreases items@.len() - i,
    {
        proof {
            assert(wv[i as int] == items@[i as int]@);
            assert(wv.take(i as int + 1).drop_last() =~= wv.take(i as int));
            assert(wv.take(i as int + 1).last() == wv[i as int]);
        }
        match &items[i] {
            WalkItem::Entry { abs_path, is_file } => {
                if *is_file {
                    match strip_root_prefix(root, abs_path.as_str()) {
                        Some(raw) => {
                            let rel = normalize_seps(raw.as_str());
                            let ghost old_out = out@;
                            out.push(
                                File::from_dynamic(DynFile::new(abs_path.as_str(), rel.as_str())),
                            );
                            proof {
                                let pf = walk_files(root@, wv.take(i as int));
                                let nf = walk_files(root@, wv.take(i as int + 1));
                                assert(nf == pf + seq![
                                    WalkFileV {
                                        abs: abs_path@,
                                        rel: normalize_seps_spec(
                                            abs_path@.skip(root@.len() as int + 1),
                                        ),
                                    },
                                ]);
                                assert forall|m: int|
                                    0 <= m < out@.len() implies #[trigger] out@[m]@ == (FileV::Dyn {
                                    rel: nf[m].rel,
                                    abs: nf[m].abs,
                                }) by {
                                    if m < out@.len() - 1 {
                                        assert(out@[m] == old_out[m]);
                                        assert(nf[m] == pf[m]);
                                    } else {
                                        assert(nf[m].rel == normalize_seps_spec(
                                            abs_path@.skip(root@.len() as int + 1),
                                        ));
                                    }
                                }
                            }
                        },
                        None => {},
                    }
                }
            },
            WalkItem::Fault { .. } => {},
        }
        i += 1;
    }
    proof {
        assert(wv.take(items@.len() as int) =~= wv);
    }
    out
}

/// Every regular file under `root` at the time of the call: a fresh
/// recursive walk, judged by [`files_of_walk`]. Whatever the walk
/// answered, each handle's relative path is the walked path with the root
/// stripped and separators normalized.
pub fn iter_root(root: &str) -> (r: Vec<File>)
    ensures
        forall|i: int|
            0 <= i < r@.len() ==> ((#[trigger] r@[i]@) matches FileV::Dyn { rel, abs }
                && has_root_prefix(root@, abs) && rel == normalize_seps_spec(
                abs.skip(root@.len() as int + 1),
            )),
{
    let items = walk_dir(root);
    let r = files_of_walk(root, &items);
    proof {
        crate::scan::lemma_walk_files_under_root(root@, walk_views(items@));
    }
    r
}

/// Mathematical model of a silo: which backend it is, its root path, and,
/// for the embedded backend, its table of records.
pub ghost enum SiloV {
    Embed { table: Seq<RecordV>, root: Seq<char> },
    Static { root: Seq<char> },
    Dynamic { root: Seq<char> },
}

impl SiloV {
    /// The root path, whichever backend.
    pub open spec fn root(self) -> Seq<char> {
        match self {
            SiloV::Embed { root, .. } => root,
            SiloV::Static { root } => root,
            SiloV::Dynamic { root } => root,
        }
    }

    /// The silo forced onto filesystem-backed behaviour over its root; a
    /// filesystem silo is unchanged.
    pub open spec fn into_dynamic_spec(self) -> SiloV {
        match self {
            SiloV::Embed { table, root } => SiloV::Static { root },
            _ => self,
        }
    }

    pub open spec fn wf(self) -> bool {
        match self {
            SiloV::Embed { table, .. } => table_wf(table),
            _ => true,
        }
    }

    /// What lookup means on the embedded backend; the filesystem backends
    /// answer from the disk instead and promise nothing here.
    pub open spec fn embed_lookup(self, p: Seq<char>) -> Option<FileV> {
        match self {
            SiloV::Embed { table, .. } => match table_lookup(table, p) {
                Some(rec) => Some(FileV::Embed(rec)),
                None => None,
            },
            _ => None,
        }
    }

    /// The files an embedded silo enumerates, in table order; empty for the
    /// filesystem backends, whose enumeration answers from the disk.
    pub open spec fn embed_files(self) -> Seq<FileV> {
        match self {
            SiloV::Embed { table, .. } => table.map_values(|rec: RecordV| FileV::Embed(rec)),
            _ => Seq::empty(),
        }
    }
}

/// A silo over a root path fixed for the life of the program.
#[derive(Debug, Clone)]
pub struct StaticSilo {
    root: String,
}

impl StaticSilo {
    pub closed spec fn root_spec(&self) -> Seq<char> {
        self.root@
    }

    /// A silo rooted at a fixed path.
    pub fn new(root: &'static str) -> (r: StaticSilo)
        ensures
            r.root_spec() == root@,
    {
        StaticSilo { root: root.to_owned() }
    }

    /// As [`StaticSilo::new`], from an owned root path.
    pub(crate) fn from_root(root: String) -> (r: StaticSilo)
        ensures
            r.root_spec() == root@,
    {
        StaticSilo { root }
    }

    /// The file at `path` under this root, or nothing.
    pub fn get_file(&self, path: &str) -> (r: Option<DynFile>)
        ensures
            r matches Some(f) ==> f.rel_spec() == path@,
    {
        get_file_for_root(self.root.as_str(), path)
    }

    /// Every file under this root, by a fresh walk.
    pub fn iter(&self) -> (r: Vec<File>)
        ensures
            forall|i: int|
                0 <= i < r@.len() ==> ((#[trigger] r@[i]@) matches FileV::Dyn { rel, abs }
                    && has_root_prefix(self.root_spec(), abs) && rel == normalize_seps_spec(
                    abs.skip(self.root_spec().len() as int + 1),
                )),
    {
        iter_root(self.root.as_str())
    }
}

/// A silo over a root path supplied by the caller at run time.
#[derive(Debug, Clone)]
pub struct DynamicSilo {
    root: String,
}

impl DynamicSilo {
    pub closed spec fn root_spec(&self) -> Seq<char> {
        self.root@
    }

    /// A silo rooted at the given path.
    pub fn new(root: &str) -> (r: DynamicSilo)
        ensures
            r.root_spec() == root@,
    {
        DynamicSilo { root: root.to_owned() }
    }

    /// The file at `path` under this root, or nothing.
    pub fn get_file(&self, path: &str) -> (r: Option<DynFile>)
        ensures
            r matches Some(f) ==> f.rel_spec() == path@,
    {
        get_file_for_root(self.root.as_str(), path)
    }

    /// Every file under this root, by a fresh walk.
    pub fn iter(&self) -> (r: Vec<File>)
        ensures
            forall|i: int|
                0 <= i < r@.len() ==> ((#[trigger] r@[i]@) matches FileV::Dyn { rel, abs }
                    && has_root_prefix(self.root_spec(), abs) && rel == normalize_seps_spec(
                    abs.skip(self.root_spec().len() as int + 1),
                )),
    {
        iter_root(self.root.as_str())
    }
}

#[derive(Debug, Clone)]
enum InnerSilo {
    Embed(EmbedSilo),
    Static(StaticSilo),
    Dynamic(DynamicSilo),
}

/// A root of files, which may be embedded or filesystem-backed.
#[derive(Debug, Clone)]
pub struct Silo {
    inner: InnerSilo,
}

impl View for Silo {
    type V = SiloV;

    closed spec fn view(&self) -> SiloV {
        match self.inner {
            InnerSilo::Embed(ref s) => SiloV::Embed { table: s.table(), root: s.root_spec() },
            InnerSilo::Static(ref s) => SiloV::Static { root: s.root_spec() },
            InnerSilo::Dynamic(ref s) => SiloV::Dynamic { root: s.root_spec() },
        }
    }
}

impl Silo {
    /// A silo backed by an embedded table.
    pub fn from_embedded(silo: EmbedSilo) -> (r: Silo)
        ensures
            r@ == (SiloV::Embed { table: silo.table(), root: silo.root_spec() }),
    {
        Silo { inner: InnerSilo::Embed(silo) }
    }

    /// A silo backed by a fixed filesystem root.
    pub fn from_static(path: &'static str) -> (r: Silo)
        ensures
            r@ == (SiloV::Static { root: path@ }),
    {
        Silo { inner: InnerSilo::Static(StaticSilo::new(path)) }
    }

    /// A silo backed by a caller-supplied filesystem root.
    pub fn new(path: &str) -> (r: Silo)
        ensures
            r@ == (SiloV::Dynamic { root: path@ }),
    {
        Silo { inner: InnerSilo::Dynamic(DynamicSilo::new(path)) }
    }

    /// An equivalent silo forced onto filesystem-backed behaviour, using
    /// the embedded table's original root path; unchanged if already
    /// filesystem-backed.
    pub fn into_dynamic(self) -> (r: Silo)
        ensures
            r@ == self@.into_dynamic_spec(),
    {
        match self.inner {
            InnerSilo::Embed(s) => {
                let root = s.root().to_owned();
                Silo { inner: InnerSilo::Static(StaticSilo::from_root(root)) }
            },
            InnerSilo::Static(_) => self,
            InnerSilo::Dynamic(_) => self,
        }
    }

    /// Filesystem-backed behaviour when the caller's build configuration
    /// asks for live files (a development build), the silo unchanged
    /// otherwise. The decision is the caller's, made once when the silo is
    /// wired up.
    pub fn auto_dynamic(self, dev_mode: bool) -> (r: Silo)
        ensures
            r@ == if dev_mode {
                self@.into_dynamic_spec()
            } else {
                self@
            },
    {
        if dev_mode {
            self.into_dynamic()
        } else {
            self
        }
    }

    /// Whether this silo reads the live filesystem.
    pub fn is_dynamic(&self) -> (r: bool)
        ensures
            r == !(self@ is Embed),
    {
        match &self.inner {
            InnerSilo::Embed(_) => false,
            InnerSilo::Static(_) => true,
            InnerSilo::Dynamic(_) => true,
        }
    }

    /// Whether this silo answers from the embedded table.
    pub fn is_embedded(&self) -> (r: bool)
        ensures
            r == self@ is Embed,
    {
        match &self.inner {
            InnerSilo::Embed(_) => true,
            InnerSilo::Static(_) => false,
            InnerSilo::Dynamic(_) => false,
        }
    }

    /// The file at `path`, by exact relative-path match. On the embedded
    /// backend this is exactly the table lookup; on a filesystem backend
    /// the live filesystem decides, and whatever it answers, a returned
    /// file carries the requested path.
    pub fn get_file(&self, path: &str) -> (r: Option<File>)
        ensures
            r matches Some(f) ==> f@.rel() == path@,
            r matches Some(f) ==> (f@ is Embed <==> self@ is Embed),
            self@ is Embed ==> ({
                match r {
                    Some(f) => self@.embed_lookup(path@) == Some(f@),
                    None => self@.embed_lookup(path@) is None,
                }
            }),
    {
        match &self.inner {
            InnerSilo::Embed(s) => {
                match s.get_file(path) {
                    Some(f) => {
                        proof {
                            crate::embed::lemma_table_lookup(s.table(), path@);
                        }
                        Some(File::from_embedded(f))
                    },
                    None => None,
                }
            },
            InnerSilo::Static(s) => {
                match s.get_file(path) {
                    Some(f) => Some(File::from_dynamic(f)),
                    None => None,
                }
            },
            InnerSilo::Dynamic(s) => {
                match s.get_file(path) {
                    Some(f) => Some(File::from_dynamic(f)),
                    None => None,
                }
            },
        }
    }

    /// Every file in this silo: the table's records in order for the
    /// embedded backend, a fresh walk of the root for the filesystem
    /// backends.
    pub fn iter(&self) -> (r: Vec<File>)
        ensures
            self@ matches SiloV::Embed { table, root } ==> r@.len() == table.len() && forall|i: int|
                0 <= i < r@.len() ==> #[trigger] r@[i]@ == FileV::Embed(table[i]),
            !(self@ is Embed) ==> forall|i: int|
                0 <= i < r@.len() ==> ((#[trigger] r@[i]@) matches FileV::Dyn { rel, abs }
                    && has_root_prefix(self@.root(), abs) && rel == normalize_seps_spec(
                    abs.skip(self@.root().len() as int + 1),
                )),
    {
        match &self.inner {
            InnerSilo::Embed(s) => s.iter(),
            InnerSilo::Static(s) => s.iter(),
            InnerSilo::Dynamic(s) => s.iter(),
        }
    }
}

} // verus!
