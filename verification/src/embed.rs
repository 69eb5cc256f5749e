//! The immutable table of embedded file records: one record per relative
//! path, addressable by exact path match, with paths kept strictly sorted so
//! that the table has map semantics and a canonical order.

use vstd::prelude::*;
use vstd::string::StrSliceExecFns;

use crate::file::File;
use crate::strutil::lex_lt;
use crate::strutil::lemma_lex_lt_irreflexive;
use crate::strutil::str_eq;

verus! {

/// Mathematical model of one file record: its relative path, its bytes, and
/// the size and modification time recorded for it.
pub ghost struct RecordV {
    pub path: Seq<char>,
    pub contents: Seq<u8>,
    pub size: nat,
    pub modified: u64,
}

/// A record is well formed when its recorded size is the length of its
/// contents.
pub open spec fn record_wf(e: RecordV) -> bool {
    e.size == e.contents.len()
}

/// Metadata and contents for an embedded file.
#[derive(Debug, Clone)]
pub struct EmbedEntry {
    pub path: String,
    pub contents: Vec<u8>,
    pub size: usize,
    pub modified: u64,
}

impl View for EmbedEntry {
    type V = RecordV;

    open spec fn view(&self) -> RecordV {
        RecordV {
            path: self.path@,
            contents: self.contents@,
            size: self.size as nat,
            modified: self.modified,
        }
    }
}

/// The first record in `s` whose path is `p`, if any.
pub open spec fn table_lookup(s: Seq<RecordV>, p: Seq<char>) -> Option<RecordV>
    decreases s.len(),
{
    if s.len() == 0 {
        None
    } else if s[0].path == p {
        Some(s[0])
    } else {
        table_lookup(s.drop_first(), p)
    }
}

/// Paths strictly increase through the table, which makes them unique.
pub open spec fn table_sorted(s: Seq<RecordV>) -> bool {
    forall|i: int, j: int| 0 <= i < j < s.len() ==> lex_lt(s[i].path, s[j].path)
}

pub open spec fn table_wf(s: Seq<RecordV>) -> bool {
    table_sorted(s) && forall|i: int| 0 <= i < s.len() ==> record_wf(#[trigger] s[i])
}

pub proof fn lemma_table_lookup(s: Seq<RecordV>, p: Seq<char>)
    ensures
        table_lookup(s, p) is Some <==> exists|i: int|
            0 <= i < s.len() && #[trigger] s[i].path == p,
        table_lookup(s, p) matches Some(e) ==> e.path == p && exists|i: int|
            0 <= i < s.len() && #[trigger] s[i] == e,
    decreases s.len(),
{
    if s.len() > 0 && s[0].path != p {
        lemma_table_lookup(s.drop_first(), p);
        if table_lookup(s, p) is Some {
            let e = table_lookup(s, p)->Some_0;
            let i = choose|i: int| 0 <= i < s.drop_first().len() && #[trigger] s.drop_first()[i]
                == e;
            assert(s[i + 1] == e);
        }
        if exists|i: int| 0 <= i < s.len() && #[trigger] s[i].path == p {
            let i = choose|i: int| 0 <= i < s.len() && #[trigger] s[i].path == p;
            assert(s.drop_first()[i - 1].path == p);
        }
    }
}

/// Skipping records whose paths all differ from `p` leaves the lookup
/// result unchanged.
pub proof fn lemma_table_lookup_skip(s: Seq<RecordV>, p: Seq<char>, i: int)
    requires
        0 <= i <= s.len(),
        forall|j: int| 0 <= j < i ==> #[trigger] s[j].path != p,
    ensures
        table_lookup(s, p) == table_lookup(s.skip(i), p),
    decreases i,
{
    if i > 0 {
        assert(s.len() > 0);
        lemma_table_lookup_skip(s.drop_first(), p, i - 1);
        assert(s.drop_first().skip(i - 1) =~= s.skip(i));
    } else {
        assert(s.skip(0) =~= s);
    }
}

/// In a sorted table the record found for `p` is the only one carrying `p`.
pub proof fn lemma_table_paths_unique(s: Seq<RecordV>)
    requires
        table_sorted(s),
    ensures
        forall|i: int, j: int|
            0 <= i < s.len() && 0 <= j < s.len() && i != j ==> s[i].path != s[j].path,
{
    assert forall|i: int, j: int|
        0 <= i < s.len() && 0 <= j < s.len() && i != j implies s[i].path != s[j].path by {
        if i < j {
            lemma_lex_lt_irreflexive(s[i].path);
        } else {
            lemma_lex_lt_irreflexive(s[j].path);
        }
    }
}

/// Handle to one embedded file record.
#[derive(Debug, Clone)]
pub struct EmbedFile {
    entry: EmbedEntry,
}

impl View for EmbedFile {
    type V = RecordV;

    closed spec fn view(&self) -> RecordV {
        self.entry@
    }
}

impl EmbedFile {
    /// Wraps one record.
    pub(crate) fn from_entry(entry: EmbedEntry) -> (r: EmbedFile)
        ensures
            r@ == entry@,
    {
        EmbedFile { entry }
    }

    /// The relative path of the embedded file.
    pub fn path(&self) -> (r: &str)
        ensures
            r@ == self@.path,
    {
        self.entry.path.as_str()
    }

    /// The record behind the handle.
    pub(crate) fn entry(&self) -> (r: &EmbedEntry)
        ensures
            r@ == self@,
    {
        &self.entry
    }
}

/// A byte-for-byte copy of a byte vector.
pub(crate) fn clone_byte_vec(v: &Vec<u8>) -> (r: Vec<u8>)
    ensures
        r@ == v@,
{
    let mut r: Vec<u8> = Vec::new();
    let mut i: usize = 0;
    while i < v.len()
        invariant
            i <= v.len(),
            r@ == v@.take(i as int),
        decreases v.len() - i,
    {
        r.push(v[i]);
        i += 1;
        proof {
            assert(v@.take(i as int) =~= v@.take(i - 1).push(v@[i - 1]));
        }
    }
    proof {
        assert(v@.take(v@.len() as int) =~= v@);
    }
    r
}

/// A field-for-field copy of a record.
pub(crate) fn clone_entry(e: &EmbedEntry) -> (r: EmbedEntry)
    ensures
        r@ == e@,
{
    EmbedEntry {
        path: e.path.clone(),
        contents: clone_byte_vec(&e.contents),
        size: e.size,
        modified: e.modified,
    }
}

/// An embedded bundle: the sorted record table plus the root directory path
/// the table was snapshotted from, kept so the bundle can later be exposed
/// as a filesystem-backed one over the same root.
#[derive(Debug, Clone)]
pub struct EmbedSilo {
    entries: Vec<EmbedEntry>,
    root: String,
}

impl EmbedSilo {
    /// The table of records, as their models.
    pub closed spec fn table(&self) -> Seq<RecordV> {
        self.entries@.map_values(|e: EmbedEntry| e@)
    }

    /// The root directory the table was snapshotted from.
    pub closed spec fn root_spec(&self) -> Seq<char> {
        self.root@
    }

    pub open spec fn wf(&self) -> bool {
        table_wf(self.table())
    }

    /// Builds the bundle from records already sorted strictly by path, as
    /// the snapshot step leaves them, each with its size matching its
    /// contents.
    pub fn new(entries: Vec<EmbedEntry>, root: String) -> (r: EmbedSilo)
        requires
            table_wf(entries@.map_values(|e: EmbedEntry| e@)),
        ensures
            r.table() == entries@.map_values(|e: EmbedEntry| e@),
            r.root_spec() == root@,
            r.wf(),
    {
        EmbedSilo { entries, root }
    }

    /// The recorded root path.
    pub fn root(&self) -> (r: &str)
        ensures
            r@ == self.root_spec(),
    {
        self.root.as_str()
    }

    /// The embedded file at `path`, by exact relative-path match.
    pub fn get_file(&self, path: &str) -> (r: Option<EmbedFile>)
        ensures
            ({
                match r {
                    Some(f) => table_lookup(self.table(), path@) == Some(f@),
                    None => table_lookup(self.table(), path@) is None,
                }
            }),
    {
        let n = self.entries.len();
        let mut i: usize = 0;
        while i < n
            invariant
                i <= n,
                n == self.entries.len(),
                forall|j: int| 0 <= j < i ==> #[trigger] self.table()[j].path != path@,
            decreases n - i,
        {
            if str_eq(self.entries[i].path.as_str(), path) {
                let f = EmbedFile::from_entry(clone_entry(&self.entries[i]));
                proof {
                    lemma_table_lookup_skip(self.table(), path@, i as int);
                    assert(self.table().skip(i as int)[0] == self.table()[i as int]);
                }
                return Some(f);
            }
            i += 1;
        }
        proof {
            lemma_table_lookup_skip(self.table(), path@, n as int);
            assert(self.table().skip(n as int) =~= Seq::<RecordV>::empty());
        }
        None
    }

    /// One handle per record, in table order.
    pub fn iter(&self) -> (r: Vec<File>)
        ensures
            r@.len() == self.table().len(),
            forall|i: int|
                0 <= i < r@.len() ==> #[trigger] r@[i]@ == crate::file::FileV::Embed(
                    self.table()[i],
                ),
    {
        let n = self.entries.len();
        let mut out: Vec<File> = Vec::new();
        let mut i: usize = 0;
        while i < n
            invariant
                i <= n,
                n == self.entries.len(),
                out@.len() == i,
                forall|j: int|
                    0 <= j < i ==> #[trigger] out@[j]@ == crate::file::FileV::Embed(
                        self.table()[j],
                    ),
            decreases n - i,
        {
            out.push(File::from_embedded(EmbedFile::from_entry(clone_entry(&self.entries[i]))));
            i += 1;
        }
        out
    }
}

} // verus!
