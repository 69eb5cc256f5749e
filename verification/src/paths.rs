//! Relative-path reasoning: separator normalization, final-segment and
//! extension derivation, root containment, and joining/stripping a root
//! prefix. All specifications are over `Seq<char>` views.

use vstd::prelude::*;
use vstd::string::StrSliceExecFns;
use vstd::string::StringExecFns;

verus! {

/// Every backslash replaced by a forward slash.
pub open spec fn normalize_seps_spec(s: Seq<char>) -> Seq<char> {
    s.map_values(|c: char| if c == '\\' { '/' } else { c })
}

/// Index of the last occurrence of `c` in `s`, or `-1` if `c` does not occur.
pub open spec fn last_index_of_char(s: Seq<char>, c: char) -> int
    decreases s.len(),
{
    if s.len() == 0 {
        -1
    } else if s[s.len() - 1] == c {
        s.len() - 1
    } else {
        last_index_of_char(s.drop_last(), c)
    }
}

pub proof fn lemma_last_index_of_char(s: Seq<char>, c: char)
    ensures
        -1 <= last_index_of_char(s, c) < s.len(),
        last_index_of_char(s, c) == -1 ==> forall|i: int| 0 <= i < s.len() ==> s[i] != c,
        last_index_of_char(s, c) >= 0 ==> s[last_index_of_char(s, c)] == c,
        forall|i: int| last_index_of_char(s, c) < i < s.len() ==> s[i] != c,
    decreases s.len(),
{
    if s.len() > 0 && s[s.len() - 1] != c {
        lemma_last_index_of_char(s.drop_last(), c);
        assert forall|i: int| last_index_of_char(s, c) < i < s.len() implies s[i] != c by {
            if i < s.len() - 1 {
                assert(s.drop_last()[i] == s[i]);
            }
        }
    }
}

/// The part of `s` after its last `/`, or all of `s` if it has none.
pub open spec fn final_segment(s: Seq<char>) -> Seq<char> {
    s.skip(last_index_of_char(s, '/') + 1)
}

/// The extension of the path's final segment: the characters after the last
/// `.` of that segment, or nothing when the segment has no `.` or begins
/// with its only `.`.
pub open spec fn extension_of(s: Seq<char>) -> Option<Seq<char>> {
    let seg = final_segment(s);
    let d = last_index_of_char(seg, '.');
    if d <= 0 {
        None
    } else {
        Some(seg.skip(d + 1))
    }
}

/// `p` is an initial run of `s`.
pub open spec fn is_prefix(p: Seq<char>, s: Seq<char>) -> bool {
    p.len() <= s.len() && s.subrange(0, p.len() as int) == p
}

/// `p` is `root` itself or sits below it, judged segment-safely: a longer
/// path counts only when the boundary after `root` is a separator, so
/// `/a/bc` is not contained in root `/a/b`. Only `/` counts as the
/// boundary here: a backslash is an ordinary byte in a Unix file name, and
/// accepting it would let `root` appear to contain a sibling whose name
/// merely starts with `root` and a backslash.
pub open spec fn path_contained(root: Seq<char>, p: Seq<char>) -> bool {
    ||| p == root
    ||| (is_prefix(root, p) && root.len() < p.len() && ((root.len() > 0 && root[root.len() - 1]
        == '/') || p[root.len() as int] == '/'))
}

/// A path separator as a walked path may carry it: the forward slash
/// everywhere, the backslash where the platform writes one.
pub open spec fn is_sep_char(c: char) -> bool {
    c == '/' || c == '\\'
}

/// `abs` extends `root` by a separator and a non-empty remainder.
pub open spec fn has_root_prefix(root: Seq<char>, abs: Seq<char>) -> bool {
    root.len() < abs.len() && abs.subrange(0, root.len() as int) == root && is_sep_char(
        abs[root.len() as int],
    )
}

/// Index of the last occurrence of `c` at or after position `from`, scanning
/// the whole tail of `s`.
fn last_index_of_from(s: &str, c: char, from: usize) -> (r: Option<usize>)
    requires
        from <= s@.len(),
    ensures
        ({
            let li = last_index_of_char(s@.skip(from as int), c);
            match r {
                Some(i) => from <= i < s@.len() && li == i - from,
                None => li == -1,
            }
        }),
{
    let n = s.unicode_len();
    let mut i = n;
    while i > from
        invariant
            from <= i <= n,
            n == s@.len(),
            forall|j: int| i <= j < n ==> s@[j] != c,
        decreases i,
    {
        i -= 1;
        if s.get_char(i) == c {
            proof {
                let seg = s@.skip(from as int);
                lemma_last_index_of_char(seg, c);
                assert(seg[i - from] == s@[i as int]);
                assert forall|j: int| i - from < j < seg.len() implies seg[j] != c by {
                    assert(seg[j] == s@[from + j]);
                }
            }
            return Some(i);
        }
    }
    proof {
        let seg = s@.skip(from as int);
        lemma_last_index_of_char(seg, c);
        if last_index_of_char(seg, c) >= 0 {
            assert(seg[last_index_of_char(seg, c)] == s@[from + last_index_of_char(seg, c)]);
        }
    }
    None
}

/// The extension of `path`'s final segment, as [`extension_of`] describes it.
pub fn path_extension(path: &str) -> (r: Option<&str>)
    ensures
        ({
            match r {
                Some(e) => extension_of(path@) == Some(e@),
                None => extension_of(path@) is None,
            }
        }),
{
    let n = path.unicode_len();
    let seg_start: usize = match last_index_of_from(path, '/', 0) {
        Some(i) => i + 1,
        None => 0,
    };
    proof {
        assert(path@.skip(0) =~= path@);
        assert(final_segment(path@) == path@.skip(seg_start as int));
    }
    match last_index_of_from(path, '.', seg_start) {
        Some(d) => {
            if d == seg_start {
                None
            } else {
                let e = path.substring_char(d + 1, n);
                proof {
                    let seg = final_segment(path@);
                    assert(seg.skip(d - seg_start + 1) =~= path@.subrange(d + 1, n as int));
                }
                Some(e)
            }
        },
        None => None,
    }
}

/// Whether `p` is `root` or a descendant of it, per [`path_contained`].
pub fn path_is_contained(root: &str, p: &str) -> (r: bool)
    ensures
        r == path_contained(root@, p@),
{
    let rlen = root.unicode_len();
    let plen = p.unicode_len();
    if plen < rlen {
        return false;
    }
    let mut i: usize = 0;
    while i < rlen
        invariant
            i <= rlen,
            rlen == root@.len(),
            plen == p@.len(),
            rlen <= plen,
            forall|j: int| 0 <= j < i ==> root@[j] == p@[j],
        decreases rlen - i,
    {
        if root.get_char(i) != p.get_char(i) {
            proof {
                assert(p@.subrange(0, rlen as int)[i as int] == p@[i as int]);
                if p@ == root@ {
                    assert(false);
                }
            }
            return false;
        }
        i += 1;
    }
    proof {
        assert(p@.subrange(0, rlen as int) =~= root@);
    }
    if plen == rlen {
        proof {
            assert(p@ =~= root@);
        }
        return true;
    }
    if rlen > 0 && root.get_char(rlen - 1) == '/' {
        return true;
    }
    p.get_char(rlen) == '/'
}

/// `root`, a separator, then `rel`.
pub fn join_rel(root: &str, rel: &str) -> (r: String)
    ensures
        r@ == root@ + seq!['/'] + rel@,
{
    let mut s = root.to_owned();
    s.push('/');
    s.append(rel);
    proof {
        assert(root@.push('/') + rel@ =~= root@ + seq!['/'] + rel@);
    }
    s
}

/// The remainder of `abs` after `root` and one separator, when `abs` lies
/// below `root` textually.
pub fn strip_root_prefix(root: &str, abs: &str) -> (r: Option<String>)
    ensures
        r is Some <==> has_root_prefix(root@, abs@),
        r matches Some(rel) ==> rel@ == abs@.skip(root@.len() as int + 1),
{
    let rlen = root.unicode_len();
    let alen = abs.unicode_len();
    if alen <= rlen {
        proof {
            if has_root_prefix(root@, abs@) {
                assert(false);
            }
        }
        return None;
    }
    let mut i: usize = 0;
    while i < rlen
        invariant
            i <= rlen,
            rlen == root@.len(),
            alen == abs@.len(),
            rlen < alen,
            forall|j: int| 0 <= j < i ==> root@[j] == abs@[j],
        decreases rlen - i,
    {
        if root.get_char(i) != abs.get_char(i) {
            proof {
                if has_root_prefix(root@, abs@) {
                    assert(abs@.subrange(0, rlen as int)[i as int] == abs@[i as int]);
                }
            }
            return None;
        }
        i += 1;
    }
    proof {
        assert(abs@.subrange(0, rlen as int) =~= root@);
    }
    let boundary = abs.get_char(rlen);
    if boundary != '/' && boundary != '\\' {
        return None;
    }
    let rel = abs.substring_char(rlen + 1, alen);
    proof {
        assert(rel@ =~= abs@.skip(root@.len() as int + 1));
    }
    Some(rel.to_owned())
}

/// A copy of `s` with separators normalized to `/`.
pub fn normalize_seps(s: &str) -> (r: String)
    ensures
        r@ == normalize_seps_spec(s@),
{
    let n = s.unicode_len();
    let mut out = String::new();
    let mut i: usize = 0;
    while i < n
        invariant
            i <= n,
            n == s@.len(),
            out@ == normalize_seps_spec(s@.take(i as int)),
        decreases n - i,
    {
        let c = s.get_char(i);
        if c == '\\' {
            out.push('/');
        } else {
            out.push(c);
        }
        i += 1;
        proof {
            assert(normalize_seps_spec(s@.take(i as int)) =~= normalize_seps_spec(
                s@.take(i - 1),
            ).push(if s@[i - 1] == '\\' {
                '/'
            } else {
                s@[i - 1]
            }));
        }
    }
    proof {
        assert(s@.take(n as int) =~= s@);
    }
    out
}

} // verus!
