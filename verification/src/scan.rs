//! The build-time snapshot pipeline: walk a root directory, record every
//! regular file with normalized relative path and metadata, sort the records
//! lexicographically so two scans of identical input agree, and read each
//! file once to build the immutable embedded table. Scan failures are all
//! collected and reported together; a failing scan builds nothing.

use vstd::prelude::*;
use vstd::seq_lib::lemma_multiset_commutative;
use vstd::seq_lib::to_multiset_build;
use vstd::string::StrSliceExecFns;
use vstd::string::StringExecFns;

use crate::embed::record_wf;
use crate::embed::table_wf;
use crate::embed::EmbedEntry;
use crate::embed::EmbedSilo;
use crate::fsio::canonicalize_path;
use crate::fsio::read_file_bytes;
use crate::fsio::stat_file;
use crate::fsio::walk_dir;
use crate::fsio::WalkItem;
use crate::paths::has_root_prefix;
use crate::paths::normalize_seps;
use crate::paths::normalize_seps_spec;
use crate::paths::strip_root_prefix;
use crate::strutil::lemma_lex_lt_connected;
use crate::strutil::lemma_lex_lt_irreflexive;
use crate::strutil::lemma_lex_lt_transitive;
use crate::strutil::lex_le;
use crate::strutil::lex_lt;
use crate::strutil::str_le;
use crate::strutil::str_lt;

verus! {

/// Mathematical model of one scanned file: relative path, absolute path,
/// size, and modification time (`0` when unavailable).
pub ghost struct ScanRecordV {
    pub rel: Seq<char>,
    pub abs: Seq<char>,
    pub size: nat,
    pub modified: u64,
}

/// One file seen by the directory scanner.
#[derive(Debug, Clone)]
pub struct ScanRecord {
    pub rel_path: String,
    pub abs_path: String,
    pub size: usize,
    pub modified: u64,
}

impl View for ScanRecord {
    type V = ScanRecordV;

    open spec fn view(&self) -> ScanRecordV {
        ScanRecordV {
            rel: self.rel_path@,
            abs: self.abs_path@,
            size: self.size as nat,
            modified: self.modified,
        }
    }
}

/// The models of a sequence of scan records, in order.
pub open spec fn record_views(s: Seq<ScanRecord>) -> Seq<ScanRecordV> {
    s.map_values(|x: ScanRecord| x@)
}

/// Relative paths never decrease through the sequence.
pub open spec fn records_sorted(s: Seq<ScanRecordV>) -> bool {
    forall|i: int, j: int| 0 <= i < j < s.len() ==> lex_le(s[i].rel, s[j].rel)
}

/// Relative paths strictly increase through the sequence.
pub open spec fn records_strictly_sorted(s: Seq<ScanRecordV>) -> bool {
    forall|i: int, j: int| 0 <= i < j < s.len() ==> lex_lt(s[i].rel, s[j].rel)
}

/// Some record in `s` carries the relative path `p`.
pub open spec fn records_contain(s: Seq<ScanRecordV>, p: Seq<char>) -> bool {
    exists|i: int| 0 <= i < s.len() && (#[trigger] s[i]).rel == p
}

/// A record the scanner built over the root `root`: the absolute path lies
/// below the root, and the relative path is the remainder with separators
/// normalized.
pub open spec fn record_under_root(root: Seq<char>, x: ScanRecordV) -> bool {
    has_root_prefix(root, x.abs) && x.rel == normalize_seps_spec(x.abs.skip(root.len() as int + 1))
}

/// The records sorted by relative path: same records, path order
/// nondecreasing. Equal paths keep their input order.
pub fn sort_records(records: Vec<ScanRecord>) -> (r: Vec<ScanRecord>)
    ensures
        records_sorted(record_views(r@)),
        record_views(r@).to_multiset() == record_views(records@).to_multiset(),
{
    broadcast use vstd::seq_lib::group_to_multiset_ensures;
    broadcast use vstd::multiset::group_multiset_axioms;

    let ghost orig = record_views(records@);
    let mut rest = records;
    let mut out: Vec<ScanRecord> = Vec::new();
    let ghost mut k: int = 0;
    proof {
        assert(record_views(rest@) =~= orig.skip(0));
        assert(record_views(out@) =~= Seq::<ScanRecordV>::empty());
        assert(orig.take(0) =~= Seq::<ScanRecordV>::empty());
        assert(record_views(out@).to_multiset() =~= orig.take(0).to_multiset());
    }
    while rest.len() > 0
        invariant
            0 <= k <= orig.len(),
            rest@.len() == orig.len() - k,
            record_views(rest@) == orig.skip(k),
            records_sorted(record_views(out@)),
            record_views(out@).to_multiset() == orig.take(k).to_multiset(),
            out@.len() == k,
        decreases rest@.len(),
    {
        let x = rest.remove(0);
        proof {
            assert(record_views(rest@) =~= orig.skip(k).drop_first());
            assert(orig.skip(k).drop_first() =~= orig.skip(k + 1));
            assert(orig.skip(k)[0] == orig[k]);
        }
        let mut p: usize = 0;
        while p < out.len() && str_le(out[p].rel_path.as_str(), x.rel_path.as_str())
            invariant
                p <= out@.len(),
                forall|q: int| 0 <= q < p ==> lex_le((#[trigger] record_views(out@)[q]).rel, x@.rel),
            decreases out@.len() - p,
        {
            proof {
                assert(record_views(out@)[p as int].rel == out@[p as int]@.rel);
            }
            p += 1;
        }
        let ghost old_out = out@;
        out.insert(p, x);
        proof {
            let ov = record_views(old_out);
            let nv = record_views(out@);
            assert(nv =~= ov.take(p as int).push(x@) + ov.skip(p as int));
            assert(forall|q: int| 0 <= q < p ==> lex_le((#[trigger] ov[q]).rel, x@.rel));
            if (p as int) < ov.len() {
                assert(ov[p as int].rel == old_out[p as int]@.rel);
                lemma_lex_lt_connected(x@.rel, ov[p as int].rel);
                assert(lex_lt(x@.rel, ov[p as int].rel));
                assert forall|m: int| p <= m < ov.len() implies lex_lt(
                    x@.rel,
                    (#[trigger] ov[m]).rel,
                ) by {
                    if m > p {
                        assert(lex_le(ov[p as int].rel, ov[m].rel));
                        if ov[p as int].rel != ov[m].rel {
                            lemma_lex_lt_transitive(x@.rel, ov[p as int].rel, ov[m].rel);
                        }
                    }
                }
            }
            assert forall|i: int, j: int| 0 <= i < j < nv.len() implies lex_le(
                nv[i].rel,
                nv[j].rel,
            ) by {
                if i < p {
                    assert(nv[i] == ov[i]);
                }
                if i == p {
                    assert(nv[i] == x@);
                }
                if i > p {
                    assert(nv[i] == ov[i - 1]);
                }
                if j < p {
                    assert(nv[j] == ov[j]);
                }
                if j == p {
                    assert(nv[j] == x@);
                }
                if j > p {
                    assert(nv[j] == ov[j - 1]);
                }
            }
            // Multiset bookkeeping.
            assert(ov =~= ov.take(p as int) + ov.skip(p as int));
            lemma_multiset_commutative(ov.take(p as int), ov.skip(p as int));
            lemma_multiset_commutative(ov.take(p as int).push(x@), ov.skip(p as int));
            to_multiset_build(ov.take(p as int), x@);
            assert(nv.to_multiset() =~= ov.to_multiset().insert(x@));
            assert(orig.take(k + 1) =~= orig.take(k).push(orig[k]));
            to_multiset_build(orig.take(k), orig[k]);
            assert(orig.take(k + 1).to_multiset() == orig.take(k).to_multiset().insert(x@));
            k = k + 1;
        }
    }
    proof {
        assert(orig.take(orig.len() as int) =~= orig);
    }
    out
}

/// The sorted records with duplicate relative paths dropped, keeping the
/// first record of each run. Input with all paths distinct comes back
/// unchanged, and no path disappears.
#[verifier::rlimit(50)]
pub fn dedup_sorted_records(records: Vec<ScanRecord>) -> (r: Vec<ScanRecord>)
    requires
        records_sorted(record_views(records@)),
    ensures
        records_strictly_sorted(record_views(r@)),
        forall|p: Seq<char>|
            records_contain(record_views(r@), p) == records_contain(record_views(records@), p),
        records_strictly_sorted(record_views(records@)) ==> r@ == records@,
        forall|i: int|
            0 <= i < r@.len() ==> record_views(records@).contains(#[trigger] record_views(r@)[i]),
{
    let ghost orig = record_views(records@);
    let ghost origx = records@;
    let mut rest = records;
    let mut out: Vec<ScanRecord> = Vec::new();
    let ghost mut k: int = 0;
    let ghost mut j_last: int = -1;
    proof {
        assert(record_views(rest@) =~= orig.skip(0));
        assert(rest@ =~= origx.skip(0));
        assert(orig.take(0) =~= Seq::<ScanRecordV>::empty());
        assert(origx.take(0) =~= Seq::<ScanRecord>::empty());
        assert(record_views(out@) =~= Seq::<ScanRecordV>::empty());
        assert(out@ =~= origx.take(0));
    }
    while rest.len() > 0
        invariant
            0 <= k <= orig.len(),
            rest@.len() == orig.len() - k,
            record_views(rest@) == orig.skip(k),
            records_sorted(orig),
            out@.len() > 0 ==> 0 <= j_last < k && record_views(out@).last() == orig[j_last],
            records_strictly_sorted(record_views(out@)),
            forall|p: Seq<char>|
                records_contain(record_views(out@), p) == records_contain(orig.take(k), p),
            records_strictly_sorted(orig) ==> out@ == origx.take(k),
            forall|i: int|
                0 <= i < out@.len() ==> orig.contains(#[trigger] record_views(out@)[i]),
            record_views(origx) == orig,
            rest@ == origx.skip(k),
        decreases rest@.len(),
    {
        proof {
            assert(record_views(rest@)[0] == rest@[0]@);
            assert(orig.skip(k)[0] == orig[k]);
            assert(origx.skip(k)[0] == origx[k]);
        }
        let x = rest.remove(0);
        proof {
            assert(x@ == orig[k]);
            assert(x == origx[k]);
            assert(rest@ =~= origx.skip(k).drop_first());
            assert(origx.skip(k).drop_first() =~= origx.skip(k + 1));
            assert(record_views(rest@) =~= orig.skip(k).drop_first());
            assert(orig.skip(k).drop_first() =~= orig.skip(k + 1));
        }
        let push_it: bool = if out.len() == 0 {
            true
        } else {
            let lastpos = out.len() - 1;
            proof {
                assert(record_views(out@)[lastpos as int].rel == out@[lastpos as int]@.rel);
            }
            str_lt(out[lastpos].rel_path.as_str(), x.rel_path.as_str())
        };
        let ghost old_out = out@;
        if push_it {
            out.push(x);
            proof {
                let ov = record_views(old_out);
                let nv = record_views(out@);
                assert(nv =~= ov.push(x@));
                assert forall|i: int, j: int| 0 <= i < j < nv.len() implies lex_lt(
                    nv[i].rel,
                    nv[j].rel,
                ) by {
                    assert(nv[i] == if i < ov.len() { ov[i] } else { x@ });
                    assert(nv[j] == if j < ov.len() { ov[j] } else { x@ });
                    if j == nv.len() - 1 && ov.len() > 0 {
                        assert(ov.last() == ov[ov.len() - 1]);
                        assert(lex_lt(ov.last().rel, x@.rel));
                        if i < ov.len() - 1 {
                            assert(lex_lt(ov[i].rel, ov.last().rel));
                            lemma_lex_lt_transitive(ov[i].rel, ov.last().rel, x@.rel);
                        }
                    }
                }
                assert forall|p: Seq<char>|
                    records_contain(nv, p) == records_contain(orig.take(k + 1), p) by {
                    if records_contain(nv, p) {
                        let i = choose|i: int| 0 <= i < nv.len() && (#[trigger] nv[i]).rel == p;
                        if i < nv.len() - 1 {
                            assert(nv[i] == ov[i]);
                            assert(ov[i].rel == p);
                            assert(records_contain(ov, p));
                            let m = choose|m: int|
                                0 <= m < orig.take(k).len() && (#[trigger] orig.take(k)[m]).rel
                                    == p;
                            assert(orig.take(k + 1)[m].rel == p);
                        } else {
                            assert(nv[i] == x@);
                            assert(orig.take(k + 1)[k].rel == p);
                        }
                    }
                    if records_contain(orig.take(k + 1), p) {
                        let m = choose|m: int|
                            0 <= m < orig.take(k + 1).len() && (#[trigger] orig.take(k + 1)[m]).rel
                                == p;
                        if m < k {
                            assert(orig.take(k)[m].rel == p);
                            assert(records_contain(orig.take(k), p));
                            assert(records_contain(ov, p));
                            let i = choose|i: int|
                                0 <= i < ov.len() && (#[trigger] ov[i]).rel == p;
                            assert(nv[i] == ov[i]);
                            assert(nv[i].rel == p);
                            assert(records_contain(nv, p));
                        } else {
                            assert(orig.take(k + 1)[m] == orig[k]);
                            assert(nv[nv.len() - 1] == x@);
                            assert(nv[nv.len() - 1].rel == p);
                            assert(records_contain(nv, p));
                        }
                    }
                }
                assert forall|i: int|
                    0 <= i < out@.len() implies orig.contains(
                    #[trigger] record_views(out@)[i],
                ) by {
                    if i < out@.len() - 1 {
                        assert(record_views(out@)[i] == ov[i]);
                    } else {
                        assert(record_views(out@)[i] == x@);
                        assert(orig[k] == x@);
                    }
                }
                j_last = k;
                k = k + 1;
                if records_strictly_sorted(orig) {
                    assert(old_out == origx.take(k - 1));
                    assert(out@ =~= origx.take(k - 1).push(origx[k - 1]));
                    assert(origx.take(k) =~= origx.take(k - 1).push(origx[k - 1]));
                }
            }
        } else {
            proof {
                let ov = record_views(old_out);
                assert(ov.last() == orig[j_last]);
                assert(lex_le(orig[j_last].rel, orig[k].rel));
                assert(!lex_lt(orig[j_last].rel, orig[k].rel));
                assert(orig[j_last].rel == orig[k].rel);
                assert forall|p: Seq<char>|
                    records_contain(ov, p) == records_contain(orig.take(k + 1), p) by {
                    if records_contain(orig.take(k + 1), p) {
                        let m = choose|m: int|
                            0 <= m < orig.take(k + 1).len() && (#[trigger] orig.take(k + 1)[m]).rel
                                == p;
                        if m < k {
                            assert(orig.take(k)[m].rel == p);
                            assert(records_contain(orig.take(k), p));
                        } else {
                            assert(orig.take(k + 1)[m] == orig[k]);
                            assert(p == orig[k].rel);
                            assert(ov[ov.len() - 1].rel == p);
                            assert(records_contain(ov, p));
                        }
                    }
                    if records_contain(ov, p) {
                        assert(records_contain(orig.take(k), p));
                        let m = choose|m: int|
                            0 <= m < orig.take(k).len() && (#[trigger] orig.take(k)[m]).rel == p;
                        assert(orig.take(k + 1)[m].rel == p);
                    }
                }
                if records_strictly_sorted(orig) {
                    assert(lex_lt(orig[j_last].rel, orig[k].rel));
                    lemma_lex_lt_irreflexive(orig[k].rel);
                    assert(false);
                }
                k = k + 1;
            }
        }
    }
    proof {
        assert(orig.take(orig.len() as int) =~= orig);
        if records_strictly_sorted(orig) {
            assert(origx.take(orig.len() as int) =~= origx);
        }
    }
    out
}


/// Mathematical model of one file the walk found under the root: its
/// absolute path and the relative path the scanner derives for it.
pub ghost struct WalkFileV {
    pub abs: Seq<char>,
    pub rel: Seq<char>,
}

/// The files a walk answer yields, in walk order: one per regular-file
/// entry whose path extends the root, its relative path the remainder
/// after the root with separators normalized. Faults, directories and
/// entries outside the root contribute nothing here.
pub open spec fn walk_files(root: Seq<char>, items: Seq<crate::fsio::WalkItemV>) -> Seq<WalkFileV>
    decreases items.len(),
{
    if items.len() == 0 {
        Seq::empty()
    } else {
        let rest = walk_files(root, items.drop_last());
        match items.last() {
            crate::fsio::WalkItemV::Entry { abs, is_file } => {
                if is_file && has_root_prefix(root, abs) {
                    rest + seq![
                        WalkFileV {
                            abs,
                            rel: normalize_seps_spec(abs.skip(root.len() as int + 1)),
                        },
                    ]
                } else {
                    rest
                }
            },
            crate::fsio::WalkItemV::Fault { .. } => rest,
        }
    }
}

/// How many failures a walk answer carries for the scanner: one per
/// unreadable entry, and one per regular file whose relative path cannot
/// be formed because its path does not extend the root.
pub open spec fn walk_fault_count(root: Seq<char>, items: Seq<crate::fsio::WalkItemV>) -> nat
    decreases items.len(),
{
    if items.len() == 0 {
        0
    } else {
        walk_fault_count(root, items.drop_last()) + (match items.last() {
            crate::fsio::WalkItemV::Entry { abs, is_file } => {
                if is_file && !has_root_prefix(root, abs) {
                    1nat
                } else {
                    0nat
                }
            },
            crate::fsio::WalkItemV::Fault { .. } => 1nat,
        })
    }
}

/// Every file the walk yields lies under the root, with the relative path
/// the normalized remainder.
pub proof fn lemma_walk_files_under_root(root: Seq<char>, items: Seq<crate::fsio::WalkItemV>)
    ensures
        forall|i: int|
            0 <= i < walk_files(root, items).len() ==> has_root_prefix(
                root,
                (#[trigger] walk_files(root, items)[i]).abs,
            ) && walk_files(root, items)[i].rel == normalize_seps_spec(
                walk_files(root, items)[i].abs.skip(root.len() as int + 1),
            ),
    decreases items.len(),
{
    if items.len() > 0 {
        lemma_walk_files_under_root(root, items.drop_last());
        let rest = walk_files(root, items.drop_last());
        let full = walk_files(root, items);
        assert forall|i: int|
            0 <= i < full.len() implies has_root_prefix(root, (#[trigger] full[i]).abs)
            && full[i].rel == normalize_seps_spec(full[i].abs.skip(root.len() as int + 1)) by {
            if i < rest.len() {
                assert(full[i] == rest[i]);
            }
        }
    }
}

/// The measured size and modification time, with the sentinel `0` standing
/// in for anything the platform could not report.
pub fn stat_or_zero(stat: Option<(usize, Option<u64>)>) -> (r: (usize, u64))
    ensures
        r == (match stat {
            Some((size, Some(modified))) => (size, modified),
            Some((size, None)) => (size, 0u64),
            None => (0usize, 0u64),
        }),
{
    match stat {
        Some((size, Some(modified))) => (size, modified),
        Some((size, None)) => (size, 0),
        None => (0, 0),
    }
}

/// Turns a walk answer into scan records and failure reports: exactly one
/// record, in walk order, per regular-file entry whose path extends the
/// canonical root — its relative path the normalized remainder, its
/// metadata measured here with `0` standing in when unavailable and no
/// failure charged for that — and exactly one report per unreadable entry
/// or per file whose relative path cannot be formed. This function fixes
/// what the scanner owes for every possible walk answer.
pub fn collect_records(root_canon: &str, items: &Vec<WalkItem>) -> (r: (
    Vec<ScanRecord>,
    Vec<String>,
))
    ensures
        ({
            let found = walk_files(root_canon@, crate::fsio::walk_views(items@));
            &&& r.0@.len() == found.len()
            &&& forall|i: int|
                0 <= i < r.0@.len() ==> (#[trigger] r.0@[i]@).abs == found[i].abs
                    && r.0@[i]@.rel == found[i].rel
            &&& r.1@.len() == walk_fault_count(root_canon@, crate::fsio::walk_views(items@))
        }),
{
    let ghost wv = crate::fsio::walk_views(items@);
    let mut records: Vec<ScanRecord> = Vec::new();
    let mut errors: Vec<String> = Vec::new();
    let mut i: usize = 0;
    proof {
        assert(wv.take(0) =~= Seq::<crate::fsio::WalkItemV>::empty());
    }
    while i < items.len()
        invariant
            i <= items@.len(),
            wv == crate::fsio::walk_views(items@),
            records@.len() == walk_files(root_canon@, wv.take(i as int)).len(),
            forall|m: int|
                0 <= m < records@.len() ==> (#[trigger] records@[m]@).abs == walk_files(
                    root_canon@,
                    wv.take(i as int),
                )[m].abs && records@[m]@.rel == walk_files(root_canon@, wv.take(i as int))[m].rel,
            errors@.len() == walk_fault_count(root_canon@, wv.take(i as int)),
        decreases items@.len() - i,
    {
        proof {
            assert(wv[i as int] == items@[i as int]@);
            assert(wv.take(i as int + 1).drop_last() =~= wv.take(i as int));
            assert(wv.take(i as int + 1).last() == wv[i as int]);
        }
        match &items[i] {
            WalkItem::Entry { abs_path, is_file } => {
                if *is_file {
                    match strip_root_prefix(root_canon, abs_path.as_str()) {
                        Some(raw) => {
                            let rel = normalize_seps(raw.as_str());
                            let (size, modified) = stat_or_zero(stat_file(abs_path.as_str()));
                            let ghost old_records = records@;
                            records.push(
                                ScanRecord {
                                    rel_path: rel,
                                    abs_path: abs_path.clone(),
                                    size,
                                    modified,
                                },
                            );
                            proof {
                                let pf = walk_files(root_canon@, wv.take(i as int));
                                let nf = walk_files(root_canon@, wv.take(i as int + 1));
                                assert(nf == pf + seq![
                                    WalkFileV {
                                        abs: abs_path@,
                                        rel: normalize_seps_spec(
                                            abs_path@.skip(root_canon@.len() as int + 1),
                                        ),
                                    },
                                ]);
                                assert forall|m: int|
                                    0 <= m < records@.len() implies (#[trigger] records@[m]@).abs
                                    == nf[m].abs && records@[m]@.rel == nf[m].rel by {
                                    if m < records@.len() - 1 {
                                        assert(records@[m] == old_records[m]);
                                        assert(nf[m] == pf[m]);
                                    } else {
                                        assert(records@[m]@.rel == normalize_seps_spec(
                                            abs_path@.skip(root_canon@.len() as int + 1),
                                        ));
                                    }
                                }
                            }
                        },
                        None => {
                            let mut msg = "failed to compute a relative path for ".to_owned();
                            msg.append(abs_path.as_str());
                            errors.push(msg);
                        },
                    }
                }
            },
            WalkItem::Fault { message } => {
                let mut msg = "failed to read a directory entry: ".to_owned();
                msg.append(message.as_str());
                errors.push(msg);
            },
        }
        i += 1;
    }
    proof {
        assert(wv.take(items@.len() as int) =~= wv);
    }
    (records, errors)
}

/// Scans the directory at `root`: canonicalizes the root, walks it, builds
/// the records through [`collect_records`], and hands back the canonical
/// root with the records sorted strictly by relative path. Every failure
/// of the scan itself — a root that cannot be canonicalized, an unreadable
/// directory entry, an entry whose relative path cannot be computed — is
/// collected, and any failure fails the whole scan with all of them
/// reported together, never an empty report.
pub fn scan_directory(root: &str) -> (r: Result<(String, Vec<ScanRecord>), Vec<String>>)
    ensures
        r matches Ok(out) ==> records_strictly_sorted(record_views(out.1@)),
        r matches Ok(out) ==> forall|i: int|
            0 <= i < out.1@.len() ==> record_under_root(
                out.0@,
                #[trigger] record_views(out.1@)[i],
            ),
        r matches Err(errs) ==> errs@.len() > 0,
{
    let root_canon = match canonicalize_path(root) {
        Some(c) => c,
        None => {
            let mut msg = "failed to canonicalize the root directory ".to_owned();
            msg.append(root);
            let mut errors: Vec<String> = Vec::new();
            errors.push(msg);
            return Err(errors);
        },
    };
    let items = walk_dir(root_canon.as_str());
    let (records, errors) = collect_records(root_canon.as_str(), &items);
    if errors.len() > 0 {
        return Err(errors);
    }
    proof {
        lemma_walk_files_under_root(root_canon@, crate::fsio::walk_views(items@));
        assert forall|m: int|
            0 <= m < records@.len() implies record_under_root(
            root_canon@,
            #[trigger] record_views(records@)[m],
        ) by {
            let found = walk_files(root_canon@, crate::fsio::walk_views(items@));
            assert(records@[m]@.abs == found[m].abs && records@[m]@.rel == found[m].rel);
        }
    }
    let ghost raw_views = record_views(records@);
    let sorted = sort_records(records);
    proof {
        assert forall|m: int|
            0 <= m < sorted@.len() implies record_under_root(
            root_canon@,
            #[trigger] record_views(sorted@)[m],
        ) by {
            let e = record_views(sorted@)[m];
            assert(record_views(sorted@).contains(e));
            vstd::seq_lib::to_multiset_contains(record_views(sorted@), e);
            vstd::seq_lib::to_multiset_contains(raw_views, e);
            assert(raw_views.contains(e));
            let j = choose|j: int| 0 <= j < raw_views.len() && raw_views[j] == e;
            assert(record_under_root(root_canon@, raw_views[j]));
        }
    }
    let ghost sorted_views = record_views(sorted@);
    let deduped = dedup_sorted_records(sorted);
    proof {
        assert forall|m: int|
            0 <= m < deduped@.len() implies record_under_root(
            root_canon@,
            #[trigger] record_views(deduped@)[m],
        ) by {
            let e = record_views(deduped@)[m];
            assert(sorted_views.contains(e));
            let j = choose|j: int| 0 <= j < sorted_views.len() && sorted_views[j] == e;
            assert(record_under_root(root_canon@, sorted_views[j]));
        }
    }
    Ok((root_canon, deduped))
}

/// Reads every scanned file once and builds its embedded record: the
/// relative path, the bytes verbatim, the size as the byte count, and the
/// recorded modification time. A file that cannot be read fails the build;
/// every such failure is reported, and nothing partial comes back.
pub fn build_entries(records: &Vec<ScanRecord>) -> (r: Result<Vec<EmbedEntry>, Vec<String>>)
    ensures
        r matches Err(errs) ==> errs@.len() > 0,
        r matches Ok(entries) ==> entries@.len() == records@.len() && forall|i: int|
            0 <= i < entries@.len() ==> (#[trigger] entries@[i]@).path == record_views(
                records@,
            )[i].rel && entries@[i]@.modified == record_views(records@)[i].modified && record_wf(
                entries@[i]@,
            ),
{
    let mut entries: Vec<EmbedEntry> = Vec::new();
    let mut errors: Vec<String> = Vec::new();
    let mut i: usize = 0;
    while i < records.len()
        invariant
            i <= records@.len(),
            errors@.len() == 0 ==> entries@.len() == i,
            entries@.len() <= i,
            forall|m: int|
                0 <= m < entries@.len() ==> (#[trigger] entries@[m]@).path == record_views(
                    records@,
                )[m].rel && entries@[m]@.modified == record_views(records@)[m].modified
                    && record_wf(entries@[m]@),
        decreases records@.len() - i,
    {
        let rec = &records[i];
        match read_file_bytes(rec.abs_path.as_str()) {
            Ok(bytes) => {
                if errors.len() == 0 {
                    let size = bytes.len();
                    let ghost old_entries = entries@;
                    entries.push(
                        EmbedEntry {
                            path: rec.rel_path.clone(),
                            contents: bytes,
                            size,
                            modified: rec.modified,
                        },
                    );
                    proof {
                        assert forall|m: int|
                            0 <= m < entries@.len() implies (#[trigger] entries@[m]@).path
                            == record_views(records@)[m].rel && entries@[m]@.modified
                            == record_views(records@)[m].modified && record_wf(entries@[m]@) by {
                            if m < entries@.len() - 1 {
                                assert(entries@[m] == old_entries[m]);
                            } else {
                                assert(record_views(records@)[m] == records@[m]@);
                            }
                        }
                    }
                }
            },
            Err(why) => {
                let mut msg = "failed to read ".to_owned();
                msg.append(rec.abs_path.as_str());
                msg.append(": ");
                msg.append(why.as_str());
                errors.push(msg);
            },
        }
        i += 1;
    }
    if errors.len() > 0 {
        Err(errors)
    } else {
        Ok(entries)
    }
}

/// The whole snapshot step: scan the directory at `root` and embed every
/// file found, yielding the immutable table over the canonical root. Any
/// scan or read failure fails the snapshot with all failures reported.
pub fn snapshot_directory(root: &str) -> (r: Result<EmbedSilo, Vec<String>>)
    ensures
        r matches Ok(silo) ==> silo.wf(),
        r matches Err(errs) ==> errs@.len() > 0,
{
    let (root_canon, records) = match scan_directory(root) {
        Ok(out) => out,
        Err(errors) => {
            return Err(errors);
        },
    };
    let entries = match build_entries(&records) {
        Ok(entries) => entries,
        Err(errors) => {
            return Err(errors);
        },
    };
    proof {
        let tv = entries@.map_values(|e: EmbedEntry| e@);
        assert forall|i: int, j: int| 0 <= i < j < tv.len() implies lex_lt(
            tv[i].path,
            tv[j].path,
        ) by {
            assert(tv[i] == entries@[i]@);
            assert(tv[j] == entries@[j]@);
            assert(lex_lt(record_views(records@)[i].rel, record_views(records@)[j].rel));
        }
        assert forall|i: int| 0 <= i < tv.len() implies record_wf(#[trigger] tv[i]) by {
            assert(tv[i] == entries@[i]@);
        }
        assert(table_wf(tv));
    }
    Ok(EmbedSilo::new(entries, root_canon))
}

} // verus!

