//! An ordered set of silos with override semantics: the members stand in
//! increasing precedence, so a lookup scans them from last to first and the
//! last silo holding a path fully shadows the earlier ones. Enumeration
//! comes in two flavours: every file of every member, duplicates kept, or
//! one file per distinct path, the highest-precedence copy.

use vstd::prelude::*;

use crate::file::files_views;
use crate::file::File;
use crate::file::FileV;
use crate::paths::has_root_prefix;
use crate::paths::normalize_seps_spec;
use crate::silo::Silo;
use crate::silo::SiloV;
use crate::strutil::str_eq;

verus! {

/// All member silos answer from embedded tables.
pub open spec fn all_embedded(ss: Seq<SiloV>) -> bool {
    forall|i: int| 0 <= i < ss.len() ==> (#[trigger] ss[i]) is Embed
}

/// Lookup across the members' embedded tables, highest precedence (last
/// member) first.
pub open spec fn embed_set_lookup(ss: Seq<SiloV>, p: Seq<char>) -> Option<FileV>
    decreases ss.len(),
{
    if ss.len() == 0 {
        None
    } else {
        match ss.last().embed_lookup(p) {
            Some(f) => Some(f),
            None => embed_set_lookup(ss.drop_last(), p),
        }
    }
}

/// The members' embedded enumerations concatenated, highest precedence
/// first.
pub open spec fn embed_concat(ss: Seq<SiloV>) -> Seq<FileV>
    decreases ss.len(),
{
    if ss.len() == 0 {
        Seq::empty()
    } else {
        ss.last().embed_files() + embed_concat(ss.drop_last())
    }
}

/// Peeling the lowest-precedence member off the front of the
/// concatenation.
pub proof fn lemma_embed_concat_first(ss: Seq<SiloV>)
    requires
        ss.len() > 0,
    ensures
        embed_concat(ss) == embed_concat(ss.drop_first()) + ss[0].embed_files(),
    decreases ss.len(),
{
    if ss.len() == 1 {
        assert(ss.drop_last() =~= Seq::<SiloV>::empty());
        assert(ss.drop_first() =~= Seq::<SiloV>::empty());
        assert(ss.last() == ss[0]);
        assert(ss[0].embed_files() + Seq::<FileV>::empty() =~= ss[0].embed_files());
        assert(Seq::<FileV>::empty() + ss[0].embed_files() =~= ss[0].embed_files());
    } else {
        let m = ss.drop_last();
        lemma_embed_concat_first(m);
        assert(ss.drop_first().len() > 0);
        assert(ss.drop_first().last() == ss.last());
        assert(ss.drop_first().drop_last() =~= m.drop_first());
        assert(m[0] == ss[0]);
        assert(ss.last().embed_files() + (embed_concat(m.drop_first()) + m[0].embed_files()) =~= (
        ss.last().embed_files() + embed_concat(m.drop_first())) + ss[0].embed_files());
    }
}

/// The set of relative paths among the modelled files.
pub open spec fn rel_paths_of(s: Seq<FileV>) -> Set<Seq<char>> {
    Set::new(|p: Seq<char>| exists|i: int| 0 <= i < s.len() && (#[trigger] s[i]).rel() == p)
}

/// `s` filtered to the first file for each relative path, walking left to
/// right with `seen` the paths already emitted.
pub open spec fn dedup_first_rec(s: Seq<FileV>, seen: Set<Seq<char>>) -> Seq<FileV>
    decreases s.len(),
{
    if s.len() == 0 {
        Seq::empty()
    } else if seen.contains(s[0].rel()) {
        dedup_first_rec(s.drop_first(), seen)
    } else {
        seq![s[0]] + dedup_first_rec(s.drop_first(), seen.insert(s[0].rel()))
    }
}

/// `s` with every relative path kept exactly once, at its first
/// occurrence.
pub open spec fn dedup_first(s: Seq<FileV>) -> Seq<FileV> {
    dedup_first_rec(s, Set::empty())
}

/// The deduplicated sequence repeats no path and emits none it was told is
/// already seen.
pub proof fn lemma_dedup_first_rec_distinct(s: Seq<FileV>, seen: Set<Seq<char>>)
    ensures
        forall|i: int|
            0 <= i < dedup_first_rec(s, seen).len() ==> !seen.contains(
                #[trigger] dedup_first_rec(s, seen)[i].rel(),
            ),
        forall|i: int, j: int|
            0 <= i < j < dedup_first_rec(s, seen).len() ==> dedup_first_rec(s, seen)[i].rel()
                != dedup_first_rec(s, seen)[j].rel(),
    decreases s.len(),
{
    if s.len() == 0 {
    } else if seen.contains(s[0].rel()) {
        lemma_dedup_first_rec_distinct(s.drop_first(), seen);
        let d = dedup_first_rec(s, seen);
        let t = dedup_first_rec(s.drop_first(), seen);
        assert(d == t);
        assert forall|i: int| 0 <= i < d.len() implies !seen.contains(#[trigger] d[i].rel()) by {
            assert(d[i].rel() == t[i].rel());
        }
        assert forall|i: int, j: int| 0 <= i < j < d.len() implies d[i].rel() != d[j].rel() by {
            assert(d[i].rel() == t[i].rel());
            assert(d[j].rel() == t[j].rel());
        }
    } else {
        let seen2 = seen.insert(s[0].rel());
        let tail = dedup_first_rec(s.drop_first(), seen2);
        lemma_dedup_first_rec_distinct(s.drop_first(), seen2);
        let d = dedup_first_rec(s, seen);
        assert(d == seq![s[0]] + tail);
        assert(d[0] == s[0]);
        assert forall|i: int| 0 <= i < d.len() implies !seen.contains(#[trigger] d[i].rel()) by {
            if i > 0 {
                assert(d[i] == tail[i - 1]);
            }
        }
        assert forall|i: int, j: int| 0 <= i < j < d.len() implies d[i].rel() != d[j].rel() by {
            assert(d[j] == tail[j - 1]);
            if i == 0 {
                assert(!seen2.contains(tail[j - 1].rel()));
            } else {
                assert(d[i] == tail[i - 1]);
            }
        }
    }
}

/// Whether some file already collected carries the path `p`.
fn contains_rel(out: &Vec<File>, p: &str) -> (r: bool)
    ensures
        r == rel_paths_of(files_views(out@)).contains(p@),
{
    let n = out.len();
    let mut i: usize = 0;
    while i < n
        invariant
            i <= n,
            n == out@.len(),
            forall|j: int| 0 <= j < i ==> (#[trigger] out@[j]@).rel() != p@,
        decreases n - i,
    {
        if str_eq(out[i].path(), p) {
            proof {
                assert(files_views(out@)[i as int].rel() == p@);
            }
            return true;
        }
        i += 1;
    }
    proof {
        if rel_paths_of(files_views(out@)).contains(p@) {
            let i = choose|i: int|
                0 <= i < files_views(out@).len() && (#[trigger] files_views(out@)[i]).rel() == p@;
            assert(out@[i]@.rel() == p@);
        }
    }
    false
}

/// Keeps the first file for each relative path, dropping later duplicates.
pub fn dedup_first_by_path(files: Vec<File>) -> (r: Vec<File>)
    ensures
        files_views(r@) == dedup_first(files_views(files@)),
        forall|i: int, j: int| 0 <= i < j < r@.len() ==> r@[i]@.rel() != r@[j]@.rel(),
{
    let ghost orig: Seq<FileV> = files_views(files@);
    let mut rest = files;
    let mut out: Vec<File> = Vec::new();
    let ghost mut k: int = 0;
    proof {
        assert(files_views(rest@) =~= orig.skip(0));
        assert(rel_paths_of(files_views(out@)) =~= Set::<Seq<char>>::empty());
    }
    while rest.len() > 0
        invariant
            0 <= k <= orig.len(),
            files_views(rest@) == orig.skip(k),
            rest@.len() == orig.len() - k,
            dedup_first(orig) == files_views(out@) + dedup_first_rec(
                orig.skip(k),
                rel_paths_of(files_views(out@)),
            ),
        decreases rest@.len(),
    {
        let f = rest.remove(0);
        let ghost seen = rel_paths_of(files_views(out@));
        let dup = contains_rel(&out, f.path());
        proof {
            assert(orig.skip(k)[0] == f@);
            assert(orig.skip(k).drop_first() =~= orig.skip(k + 1));
            assert(files_views(rest@) =~= orig.skip(k + 1));
        }
        if dup {
            proof {
                assert(dedup_first_rec(orig.skip(k), seen) == dedup_first_rec(
                    orig.skip(k + 1),
                    seen,
                ));
                k = k + 1;
            }
        } else {
            let ghost old_out = out@;
            out.push(f);
            proof {
                assert(files_views(out@) =~= files_views(old_out).push(f@));
                let seen2 = seen.insert(f@.rel());
                assert(rel_paths_of(files_views(out@)) =~= seen2) by {
                    let nv = files_views(out@);
                    assert forall|p: Seq<char>| rel_paths_of(nv).contains(p) implies seen2.contains(
                        p,
                    ) by {
                        let i = choose|i: int|
                            0 <= i < nv.len() && (#[trigger] nv[i]).rel() == p;
                        if i < nv.len() - 1 {
                            assert(files_views(old_out)[i].rel() == p);
                        }
                    }
                    assert forall|p: Seq<char>| seen2.contains(p) implies rel_paths_of(
                        nv,
                    ).contains(p) by {
                        if p == f@.rel() {
                            assert(nv[nv.len() - 1].rel() == p);
                        } else {
                            let i = choose|i: int|
                                0 <= i < files_views(old_out).len() && (#[trigger] files_views(
                                    old_out,
                                )[i]).rel() == p;
                            assert(nv[i].rel() == p);
                        }
                    }
                }
                assert(dedup_first_rec(orig.skip(k), seen) == seq![f@] + dedup_first_rec(
                    orig.skip(k + 1),
                    seen2,
                ));
                assert(files_views(old_out) + (seq![f@] + dedup_first_rec(orig.skip(k + 1), seen2))
                    =~= files_views(out@) + dedup_first_rec(orig.skip(k + 1), seen2));
                k = k + 1;
            }
        }
    }
    proof {
        assert(orig.skip(k) =~= Seq::<FileV>::empty());
        assert(files_views(out@) + Seq::<FileV>::empty() =~= files_views(out@));
        lemma_dedup_first_rec_distinct(orig, Set::empty());
        assert forall|i: int, j: int| 0 <= i < j < out@.len() implies out@[i]@.rel()
            != out@[j]@.rel() by {
            assert(files_views(out@)[i] == out@[i]@);
            assert(files_views(out@)[j] == out@[j]@);
        }
    }
    out
}

/// An ordered collection of silos, later members taking precedence over
/// earlier ones for the same relative path.
#[derive(Debug, Clone)]
pub struct SiloSet {
    /// The member silos, in order of increasing precedence.
    pub silos: Vec<Silo>,
}

impl View for SiloSet {
    type V = Seq<SiloV>;

    open spec fn view(&self) -> Seq<SiloV> {
        self.silos@.map_values(|s: Silo| s@)
    }
}

impl SiloSet {
    /// A set from the given silos; their order fixes the precedence.
    pub fn new(dirs: Vec<Silo>) -> (r: SiloSet)
        ensures
            r@ == dirs@.map_values(|s: Silo| s@),
    {
        SiloSet { silos: dirs }
    }

    /// The file with the given name from the highest-precedence member
    /// that has it. Where every member is embedded this is exactly the
    /// layered table lookup; a returned file always carries the requested
    /// path, and a miss means no embedded member holds it.
    pub fn get_file(&self, name: &str) -> (r: Option<File>)
        ensures
            r matches Some(f) ==> f@.rel() == name@,
            all_embedded(self@) ==> ({
                match r {
                    Some(f) => embed_set_lookup(self@, name@) == Some(f@),
                    None => embed_set_lookup(self@, name@) is None,
                }
            }),
            r is None ==> forall|i: int|
                0 <= i < self@.len() ==> (#[trigger] self@[i]).embed_lookup(name@) is None,
    {
        let n = self.silos.len();
        let mut i: usize = n;
        proof {
            assert(self@.take(n as int) =~= self@);
        }
        while i > 0
            invariant
                i <= n,
                n == self.silos.len(),
                self@.len() == n,
                forall|j: int|
                    i <= j < n ==> (#[trigger] self@[j]).embed_lookup(name@) is None,
                embed_set_lookup(self@, name@) == embed_set_lookup(self@.take(i as int), name@),
            decreases i,
        {
            i -= 1;
            proof {
                assert(self@[i as int] == self.silos@[i as int]@);
            }
            let found = self.silos[i].get_file(name);
            proof {
                assert(self@.take(i as int + 1).last() == self@[i as int]);
                assert(self@.take(i as int + 1).drop_last() =~= self@.take(i as int));
            }
            match found {
                Some(f) => {
                    return Some(f);
                },
                None => {},
            }
        }
        proof {
            assert(self@.take(0) =~= Seq::<SiloV>::empty());
        }
        None
    }

    /// Every file of every member, highest-precedence member first,
    /// duplicates across members kept. For embedded members this is
    /// exactly the concatenation of their tables; every filesystem-backed
    /// handle that appears lies under some member's root with the
    /// normalized remainder as its path.
    pub fn iter(&self) -> (r: Vec<File>)
        ensures
            all_embedded(self@) ==> files_views(r@) == embed_concat(self@),
            forall|m: int|
                0 <= m < r@.len() ==> ((#[trigger] r@[m]@) matches FileV::Dyn { rel, abs }
                    ==> exists|j: int|
                    0 <= j < self@.len() && has_root_prefix((#[trigger] self@[j]).root(), abs)
                        && rel == normalize_seps_spec(
                        abs.skip(self@[j].root().len() as int + 1),
                    )),
    {
        let n = self.silos.len();
        let mut out: Vec<File> = Vec::new();
        let mut i: usize = n;
        proof {
            assert(self@.skip(n as int) =~= Seq::<SiloV>::empty());
            assert(files_views(out@) =~= Seq::<FileV>::empty());
        }
        while i > 0
            invariant
                i <= n,
                n == self.silos.len(),
                self@.len() == n,
                all_embedded(self@) ==> files_views(out@) == embed_concat(self@.skip(i as int)),
                forall|m: int|
                    0 <= m < out@.len() ==> ((#[trigger] out@[m]@) matches FileV::Dyn { rel, abs }
                        ==> exists|j: int|
                        0 <= j < self@.len() && has_root_prefix((#[trigger] self@[j]).root(), abs)
                            && rel == normalize_seps_spec(
                            abs.skip(self@[j].root().len() as int + 1),
                        )),
            decreases i,
        {
            i -= 1;
            proof {
                assert(self@[i as int] == self.silos@[i as int]@);
            }
            let mut part = self.silos[i].iter();
            let ghost old_out = out@;
            let ghost old_part = part@;
            out.append(&mut part);
            proof {
                if all_embedded(self@) {
                    assert(self@[i as int] is Embed);
                    assert(files_views(old_part) =~= self@[i as int].embed_files());
                    assert(files_views(out@) =~= files_views(old_out) + files_views(old_part));
                    lemma_embed_concat_first(self@.skip(i as int));
                    assert(self@.skip(i as int).drop_first() =~= self@.skip(i as int + 1));
                    assert(self@.skip(i as int)[0] == self@[i as int]);
                }
                assert forall|m: int|
                    0 <= m < out@.len() implies ((#[trigger] out@[m]@) matches FileV::Dyn {
                    rel,
                    abs,
                } ==> exists|j: int|
                    0 <= j < self@.len() && has_root_prefix((#[trigger] self@[j]).root(), abs)
                        && rel == normalize_seps_spec(
                        abs.skip(self@[j].root().len() as int + 1),
                    )) by {
                    if m < old_out.len() {
                        assert(out@[m] == old_out[m]);
                    } else {
                        assert(out@[m] == old_part[m - old_out.len()]);
                        if !(self@[i as int] is Embed) {
                            match out@[m]@ {
                                FileV::Dyn { rel, abs } => {
                                    assert(has_root_prefix(self@[i as int].root(), abs) && rel
                                        == normalize_seps_spec(
                                        abs.skip(self@[i as int].root().len() as int + 1),
                                    ));
                                },
                                _ => {},
                            }
                        }
                    }
                }
            }
        }
        proof {
            assert(self@.skip(0) =~= self@);
        }
        out
    }

    /// One file per distinct relative path across the members: the
    /// highest-precedence copy, because the walk runs in precedence order
    /// and the first occurrence of each path wins.
    pub fn iter_override(&self) -> (r: Vec<File>)
        ensures
            forall|i: int, j: int| 0 <= i < j < r@.len() ==> r@[i]@.rel() != r@[j]@.rel(),
            all_embedded(self@) ==> files_views(r@) == dedup_first(embed_concat(self@)),
    {
        let all = self.iter();
        dedup_first_by_path(all)
    }
}

} // verus!
