//! The laws the library states about itself, each proved against the
//! contracts of the modules above: override precedence and enumeration
//! across layered silos, parity between a snapshot and the scan it came
//! from, metadata sanity of embedded records, and the canonical order of a
//! scan's output.

use vstd::prelude::*;
use vstd::seq_lib::to_multiset_contains;
use vstd::seq_lib::to_multiset_remove;

use crate::embed::record_wf;
use crate::embed::table_lookup;
use crate::embed::table_sorted;
use crate::embed::RecordV;
use crate::file::FileV;
use crate::scan::records_contain;
use crate::scan::records_strictly_sorted;
use crate::scan::ScanRecordV;
use crate::silo::SiloV;
use crate::silo_set::dedup_first;
use crate::silo_set::dedup_first_rec;
use crate::silo_set::embed_concat;
use crate::silo_set::embed_set_lookup;
use crate::strutil::lemma_lex_lt_irreflexive;
use crate::strutil::lemma_lex_lt_transitive;
use crate::strutil::lex_lt;

verus! {

/// How many of the modelled files carry the relative path `p`.
pub open spec fn count_path(s: Seq<FileV>, p: Seq<char>) -> nat
    decreases s.len(),
{
    if s.len() == 0 {
        0
    } else {
        (if s[0].rel() == p {
            1nat
        } else {
            0nat
        }) + count_path(s.drop_first(), p)
    }
}

pub proof fn lemma_count_path_zero(s: Seq<FileV>, p: Seq<char>)
    requires
        forall|i: int| 0 <= i < s.len() ==> (#[trigger] s[i]).rel() != p,
    ensures
        count_path(s, p) == 0,
    decreases s.len(),
{
    if s.len() > 0 {
        assert(s[0].rel() != p);
        assert(forall|i: int|
            0 <= i < s.drop_first().len() ==> (#[trigger] s.drop_first()[i]).rel() != p);
        lemma_count_path_zero(s.drop_first(), p);
    }
}

pub proof fn lemma_count_path_concat(a: Seq<FileV>, b: Seq<FileV>, p: Seq<char>)
    ensures
        count_path(a + b, p) == count_path(a, p) + count_path(b, p),
    decreases a.len(),
{
    if a.len() == 0 {
        assert(a + b =~= b);
    } else {
        assert((a + b)[0] == a[0]);
        assert((a + b).drop_first() =~= a.drop_first() + b);
        lemma_count_path_concat(a.drop_first(), b, p);
    }
}

/// In a sorted table a found path occurs exactly once among the files the
/// table enumerates.
pub proof fn lemma_count_path_in_table(table: Seq<RecordV>, p: Seq<char>)
    requires
        table_sorted(table),
    ensures
        table_lookup(table, p) is Some ==> count_path(
            table.map_values(|rec: RecordV| FileV::Embed(rec)),
            p,
        ) == 1,
        table_lookup(table, p) is None ==> count_path(
            table.map_values(|rec: RecordV| FileV::Embed(rec)),
            p,
        ) == 0,
    decreases table.len(),
{
    let fv = table.map_values(|rec: RecordV| FileV::Embed(rec));
    if table.len() == 0 {
    } else {
        let rest = table.drop_first();
        assert(fv[0] == FileV::Embed(table[0]));
        assert(fv.drop_first() =~= rest.map_values(|rec: RecordV| FileV::Embed(rec)));
        assert(table_sorted(rest)) by {
            assert(forall|i: int, j: int|
                0 <= i < j < rest.len() ==> rest[i] == table[i + 1] && rest[j] == table[j + 1]);
        }
        lemma_count_path_in_table(rest, p);
        if table[0].path == p {
            // No later record can carry the same path.
            assert forall|i: int| 0 <= i < rest.len() implies (#[trigger] rest[i]).path != p by {
                assert(rest[i] == table[i + 1]);
                assert(lex_lt(table[0].path, table[i + 1].path));
                lemma_lex_lt_irreflexive(p);
            }
            if table_lookup(rest, p) is Some {
                crate::embed::lemma_table_lookup(rest, p);
                assert(false);
            }
        }
    }
}

/// The index of the first file carrying `p`, or `-1` if none does.
pub open spec fn first_with_path(s: Seq<FileV>, p: Seq<char>) -> int
    decreases s.len(),
{
    if s.len() == 0 {
        -1
    } else if s[0].rel() == p {
        0
    } else {
        let rest = first_with_path(s.drop_first(), p);
        if rest == -1 {
            -1
        } else {
            rest + 1
        }
    }
}

pub proof fn lemma_first_with_path(s: Seq<FileV>, p: Seq<char>)
    ensures
        -1 <= first_with_path(s, p) < s.len(),
        first_with_path(s, p) == -1 ==> forall|i: int|
            0 <= i < s.len() ==> (#[trigger] s[i]).rel() != p,
        first_with_path(s, p) >= 0 ==> s[first_with_path(s, p)].rel() == p && forall|i: int|
            0 <= i < first_with_path(s, p) ==> (#[trigger] s[i]).rel() != p,
    decreases s.len(),
{
    if s.len() == 0 {
    } else if s[0].rel() == p {
    } else {
        lemma_first_with_path(s.drop_first(), p);
        let r = first_with_path(s.drop_first(), p);
        if r == -1 {
            assert forall|i: int| 0 <= i < s.len() implies (#[trigger] s[i]).rel() != p by {
                if i > 0 {
                    assert(s.drop_first()[i - 1] == s[i]);
                }
            }
        } else {
            assert(s[r + 1] == s.drop_first()[r]);
            assert forall|i: int| 0 <= i < r + 1 implies (#[trigger] s[i]).rel() != p by {
                if i > 0 {
                    assert(s.drop_first()[i - 1] == s[i]);
                }
            }
        }
    }
}

/// When the left part holds `p`, the first occurrence in a concatenation
/// lies in the left part, at the same index.
pub proof fn lemma_first_with_path_concat(a: Seq<FileV>, b: Seq<FileV>, p: Seq<char>)
    requires
        first_with_path(a, p) >= 0,
    ensures
        first_with_path(a + b, p) == first_with_path(a, p),
        (a + b)[first_with_path(a, p)] == a[first_with_path(a, p)],
    decreases a.len(),
{
    lemma_first_with_path(a, p);
    if a[0].rel() == p {
        assert((a + b)[0] == a[0]);
    } else {
        assert((a + b)[0] == a[0]);
        assert((a + b).drop_first() =~= a.drop_first() + b);
        lemma_first_with_path_concat(a.drop_first(), b, p);
    }
}

/// Deduplication keeps exactly the first occurrence of each path not
/// already seen: one copy survives, and it is the first one.
pub proof fn lemma_dedup_keeps_first(s: Seq<FileV>, seen: Set<Seq<char>>, p: Seq<char>)
    requires
        !seen.contains(p),
    ensures
        first_with_path(s, p) == -1 ==> count_path(dedup_first_rec(s, seen), p) == 0,
        first_with_path(s, p) >= 0 ==> count_path(dedup_first_rec(s, seen), p) == 1 && forall|
            i: int,
        |
            0 <= i < dedup_first_rec(s, seen).len() && (#[trigger] dedup_first_rec(s, seen)[i]).rel()
                == p ==> dedup_first_rec(s, seen)[i] == s[first_with_path(s, p)],
    decreases s.len(),
{
    let d = dedup_first_rec(s, seen);
    if s.len() == 0 {
    } else if seen.contains(s[0].rel()) {
        assert(s[0].rel() != p);
        lemma_dedup_keeps_first(s.drop_first(), seen, p);
        lemma_first_with_path(s, p);
        lemma_first_with_path(s.drop_first(), p);
        if first_with_path(s, p) >= 0 {
            assert(first_with_path(s.drop_first(), p) == first_with_path(s, p) - 1);
            assert(s.drop_first()[first_with_path(s, p) - 1] == s[first_with_path(s, p)]);
        }
    } else if s[0].rel() == p {
        // The head is the first occurrence and is emitted; nothing later
        // with this path survives, since the path is now seen.
        let seen2 = seen.insert(s[0].rel());
        let tail = dedup_first_rec(s.drop_first(), seen2);
        assert(d == seq![s[0]] + tail);
        crate::silo_set::lemma_dedup_first_rec_distinct(s.drop_first(), seen2);
        assert forall|i: int| 0 <= i < tail.len() implies (#[trigger] tail[i]).rel() != p by {
            assert(!seen2.contains(tail[i].rel()));
        }
        lemma_count_path_zero(tail, p);
        assert(d.drop_first() =~= tail);
        assert(count_path(d, p) == 1);
        assert forall|i: int|
            0 <= i < d.len() && (#[trigger] d[i]).rel() == p implies d[i] == s[first_with_path(
            s,
            p,
        )] by {
            if i > 0 {
                assert(d[i] == tail[i - 1]);
            }
        }
    } else {
        let seen2 = seen.insert(s[0].rel());
        let tail = dedup_first_rec(s.drop_first(), seen2);
        assert(d == seq![s[0]] + tail);
        assert(!seen2.contains(p));
        lemma_dedup_keeps_first(s.drop_first(), seen2, p);
        assert(d.drop_first() =~= tail);
        assert(count_path(d, p) == count_path(tail, p));
        lemma_first_with_path(s, p);
        lemma_first_with_path(s.drop_first(), p);
        if first_with_path(s, p) >= 0 {
            assert(first_with_path(s.drop_first(), p) == first_with_path(s, p) - 1);
            assert(s.drop_first()[first_with_path(s, p) - 1] == s[first_with_path(s, p)]);
            assert forall|i: int|
                0 <= i < d.len() && (#[trigger] d[i]).rel() == p implies d[i] == s[first_with_path(
                s,
                p,
            )] by {
                assert(i > 0);
                assert(d[i] == tail[i - 1]);
            }
        } else {
            assert(first_with_path(s.drop_first(), p) == -1);
        }
    }
}

/// Law of override precedence: in a layered set of two embedded silos that
/// both hold the path `p`, a lookup answers with the later (higher
/// precedence) silo's record.
pub proof fn lemma_override_precedence(
    ta: Seq<RecordV>,
    roota: Seq<char>,
    tb: Seq<RecordV>,
    rootb: Seq<char>,
    p: Seq<char>,
    ra: RecordV,
    rb: RecordV,
)
    requires
        table_lookup(ta, p) == Some(ra),
        table_lookup(tb, p) == Some(rb),
    ensures
        embed_set_lookup(
            seq![
                SiloV::Embed { table: ta, root: roota },
                SiloV::Embed { table: tb, root: rootb },
            ],
            p,
        ) == Some(FileV::Embed(rb)),
{
    let ss = seq![
        SiloV::Embed { table: ta, root: roota },
        SiloV::Embed { table: tb, root: rootb },
    ];
    assert(ss.last() == SiloV::Embed { table: tb, root: rootb });
    assert(ss.last().embed_lookup(p) == Some(FileV::Embed(rb)));
}

/// Law of override enumeration: over the same two silos, enumerating with
/// deduplication yields exactly one file for `p`, and it is the later
/// silo's record; enumerating without deduplication yields both copies.
pub proof fn lemma_override_enumeration(
    ta: Seq<RecordV>,
    roota: Seq<char>,
    tb: Seq<RecordV>,
    rootb: Seq<char>,
    p: Seq<char>,
    ra: RecordV,
    rb: RecordV,
)
    requires
        table_sorted(ta),
        table_sorted(tb),
        table_lookup(ta, p) == Some(ra),
        table_lookup(tb, p) == Some(rb),
    ensures
        ({
            let ss = seq![
                SiloV::Embed { table: ta, root: roota },
                SiloV::Embed { table: tb, root: rootb },
            ];
            &&& count_path(embed_concat(ss), p) == 2
            &&& count_path(dedup_first(embed_concat(ss)), p) == 1
            &&& forall|i: int|
                0 <= i < dedup_first(embed_concat(ss)).len() && (#[trigger] dedup_first(
                    embed_concat(ss),
                )[i]).rel() == p ==> dedup_first(embed_concat(ss))[i] == FileV::Embed(rb)
        }),
{
    let ss = seq![
        SiloV::Embed { table: ta, root: roota },
        SiloV::Embed { table: tb, root: rootb },
    ];
    let fa = ta.map_values(|rec: RecordV| FileV::Embed(rec));
    let fb = tb.map_values(|rec: RecordV| FileV::Embed(rec));
    assert(ss.last() == SiloV::Embed { table: tb, root: rootb });
    assert(ss.drop_last() =~= seq![SiloV::Embed { table: ta, root: roota }]);
    let sa = seq![SiloV::Embed { table: ta, root: roota }];
    assert(sa.last() == SiloV::Embed { table: ta, root: roota });
    assert(sa.drop_last() =~= Seq::<SiloV>::empty());
    assert(embed_concat(sa.drop_last()) == embed_concat(Seq::<SiloV>::empty()));
    assert(embed_concat(Seq::<SiloV>::empty()) == Seq::<FileV>::empty());
    assert(sa.last().embed_files() == fa);
    assert(embed_concat(sa) == fa + Seq::<FileV>::empty());
    assert(fa + Seq::<FileV>::empty() =~= fa);
    assert(ss.last().embed_files() == fb);
    assert(embed_concat(ss) == fb + embed_concat(sa));
    assert(embed_concat(ss) == fb + fa);
    // Both copies are counted.
    lemma_count_path_concat(fb, fa, p);
    lemma_count_path_in_table(ta, p);
    lemma_count_path_in_table(tb, p);
    assert(count_path(embed_concat(ss), p) == 2);
    // Deduplication keeps the first copy, which comes from `tb`.
    crate::embed::lemma_table_lookup(tb, p);
    let j = choose|j: int| 0 <= j < tb.len() && #[trigger] tb[j] == rb;
    assert(fb[j] == FileV::Embed(rb));
    assert(fb[j].rel() == p);
    lemma_first_with_path(fb, p);
    assert(first_with_path(fb, p) >= 0) by {
        if first_with_path(fb, p) == -1 {
            assert(fb[j].rel() != p);
        }
    }
    let f0 = first_with_path(fb, p);
    // The first occurrence within `fb` is the unique record `rb`.
    crate::embed::lemma_table_paths_unique(tb);
    assert(fb[f0] == FileV::Embed(tb[f0]));
    assert(tb[f0].path == p);
    assert(tb[j].path == p);
    assert(f0 == j);
    lemma_first_with_path_concat(fb, fa, p);
    assert((fb + fa)[first_with_path(fb + fa, p)] == FileV::Embed(rb));
    lemma_dedup_keeps_first(fb + fa, Set::empty(), p);
}

/// Law of snapshot parity: a table whose records were built one-for-one
/// from scan records lists exactly the scanned relative paths, in the same
/// order.
pub proof fn lemma_snapshot_paths_match_scan(table: Seq<RecordV>, records: Seq<ScanRecordV>)
    requires
        table.len() == records.len(),
        forall|i: int| 0 <= i < table.len() ==> (#[trigger] table[i]).path == records[i].rel,
    ensures
        table.map_values(|rec: RecordV| rec.path) == records.map_values(
            |rec: ScanRecordV| rec.rel,
        ),
        forall|p: Seq<char>|
            table_lookup(table, p) is Some <==> records_contain(records, p),
{
    assert(table.map_values(|rec: RecordV| rec.path) =~= records.map_values(
        |rec: ScanRecordV| rec.rel,
    ));
    assert forall|p: Seq<char>|
        table_lookup(table, p) is Some <==> records_contain(records, p) by {
        crate::embed::lemma_table_lookup(table, p);
        if table_lookup(table, p) is Some {
            let i = choose|i: int| 0 <= i < table.len() && #[trigger] table[i].path == p;
            assert(records[i].rel == p);
        }
        if records_contain(records, p) {
            let i = choose|i: int| 0 <= i < records.len() && (#[trigger] records[i]).rel == p;
            assert(table[i].path == p);
        }
    }
}

/// Law of metadata sanity: a well-formed embedded record reports a
/// positive size exactly when its contents are non-empty.
pub proof fn lemma_embedded_meta_sanity(rec: RecordV)
    requires
        record_wf(rec),
    ensures
        rec.size > 0 <==> rec.contents.len() > 0,
{
}

/// Law of canonical order: two strictly sorted record lists holding the
/// same records are the same list — so the ordered output of a scan is
/// determined by the set of files seen, not by the order the walk
/// delivered them.
pub proof fn lemma_scan_order_canonical(x: Seq<ScanRecordV>, y: Seq<ScanRecordV>)
    requires
        records_strictly_sorted(x),
        records_strictly_sorted(y),
        x.to_multiset() == y.to_multiset(),
    ensures
        x =~= y,
    decreases x.len(),
{
    to_multiset_contains(x, x[0]);
    to_multiset_contains(y, x[0]);
    to_multiset_contains(x, y[0]);
    to_multiset_contains(y, y[0]);
    vstd::seq_lib::to_multiset_len(x);
    vstd::seq_lib::to_multiset_len(y);
    if x.len() == 0 || y.len() == 0 {
    } else {
        assert(y.contains(x[0]));
        assert(x.contains(y[0]));
        let i = choose|i: int| 0 <= i < x.len() && x[i] == y[0];
        let j = choose|j: int| 0 <= j < y.len() && y[j] == x[0];
        if i > 0 && j > 0 {
            assert(lex_lt(x[0].rel, x[i].rel));
            assert(lex_lt(y[0].rel, y[j].rel));
            lemma_lex_lt_transitive(x[0].rel, y[0].rel, x[0].rel);
            lemma_lex_lt_irreflexive(x[0].rel);
            assert(false);
        }
        assert(x[0] == y[0]);
        to_multiset_remove(x, 0);
        to_multiset_remove(y, 0);
        assert(x.remove(0) =~= x.drop_first());
        assert(y.remove(0) =~= y.drop_first());
        assert(x.drop_first().to_multiset() == y.drop_first().to_multiset());
        assert(records_strictly_sorted(x.drop_first())) by {
            assert(forall|a: int, b: int|
                0 <= a < b < x.drop_first().len() ==> x.drop_first()[a] == x[a + 1]
                    && x.drop_first()[b] == x[b + 1]);
        }
        assert(records_strictly_sorted(y.drop_first())) by {
            assert(forall|a: int, b: int|
                0 <= a < b < y.drop_first().len() ==> y.drop_first()[a] == y[a + 1]
                    && y.drop_first()[b] == y[b + 1]);
        }
        lemma_scan_order_canonical(x.drop_first(), y.drop_first());
        assert forall|m: int| 0 <= m < x.len() implies x[m] == y[m] by {
            if m > 0 {
                assert(x.drop_first()[m - 1] == y.drop_first()[m - 1]);
            }
        }
    }
}

} // verus!
