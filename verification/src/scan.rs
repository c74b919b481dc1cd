//! Deterministic ordering of directory scans.
//!
//! The caller enumerates a directory and hands in one [`ScanEntry`] per
//! entry it could read.  The engine keeps the regular files with the
//! expected extension and returns their paths in ascending lexicographic
//! order, so a directory always yields the same sequence of inputs.

use vstd::prelude::*;
use vstd::seq_lib::lemma_multiset_commutative;

use crate::paths::has_gpx_extension;
use crate::paths::path_has_gpx_extension;

verus! {

broadcast use vstd::seq_lib::group_to_multiset_ensures, vstd::multiset::group_multiset_axioms;

/// What the caller learned from one directory entry.
pub struct ScanEntry {
    pub path: String,
    pub is_file: bool,
}

/// An entry is kept when it is a regular file with the expected
/// extension.
pub open spec fn scan_keep(e: ScanEntry) -> bool {
    e.is_file && has_gpx_extension(e.path@)
}

/// The paths of the entries that are kept, in enumeration order.
pub open spec fn kept_paths(entries: Seq<ScanEntry>) -> Seq<String> {
    entries.filter(|e: ScanEntry| scan_keep(e)).map_values(|e: ScanEntry| e.path)
}

/// Ascending lexicographic order on character sequences, by code point.
pub open spec fn lex_le(a: Seq<char>, b: Seq<char>) -> bool
    decreases a.len(),
{
    if a.len() == 0 {
        true
    } else if b.len() == 0 {
        false
    } else if (a[0] as u32) != (b[0] as u32) {
        (a[0] as u32) < (b[0] as u32)
    } else {
        lex_le(a.drop_first(), b.drop_first())
    }
}

/// Any two sequences are ordered one way or the other.
pub proof fn lemma_lex_le_total(a: Seq<char>, b: Seq<char>)
    ensures
        lex_le(a, b) || lex_le(b, a),
    decreases a.len(),
{
    if a.len() > 0 && b.len() > 0 && (a[0] as u32) == (b[0] as u32) {
        lemma_lex_le_total(a.drop_first(), b.drop_first());
    }
}

/// The order is transitive.
pub proof fn lemma_lex_le_trans(a: Seq<char>, b: Seq<char>, c: Seq<char>)
    requires
        lex_le(a, b),
        lex_le(b, c),
    ensures
        lex_le(a, c),
    decreases a.len(),
{
    if a.len() > 0 && b.len() > 0 && c.len() > 0 && (a[0] as u32) == (b[0] as u32) && (b[0] as u32)
        == (c[0] as u32) {
        lemma_lex_le_trans(a.drop_first(), b.drop_first(), c.drop_first());
    }
}

/// Compare two strings in the lexicographic order.
#[verifier::loop_isolation(false)]
pub fn lex_le_strings(a: &str, b: &str) -> (r: bool)
    ensures
        r == lex_le(a@, b@),
{
    let alen: usize = a.unicode_len();
    let blen: usize = b.unicode_len();
    let mut i: usize = 0;
    proof {
        assert(a@.skip(0) =~= a@);
        assert(b@.skip(0) =~= b@);
    }
    while i < alen && i < blen
        invariant
            i <= alen,
            i <= blen,
            lex_le(a@, b@) == lex_le(a@.skip(i as int), b@.skip(i as int)),
        decreases alen - i,
    {
        let ca = a.get_char(i);
        let cb = b.get_char(i);
        if (ca as u32) != (cb as u32) {
            return (ca as u32) < (cb as u32);
        }
        proof {
            assert(a@.skip(i as int).drop_first() =~= a@.skip(i as int + 1));
            assert(b@.skip(i as int).drop_first() =~= b@.skip(i as int + 1));
        }
        i = i + 1;
    }
    i == alen
}

/// The result of a scan is in ascending lexicographic order.
pub open spec fn sorted_paths(r: Seq<String>) -> bool {
    forall|i: int, j: int| 0 <= i < j < r.len() ==> lex_le(#[trigger] r[i]@, #[trigger] r[j]@)
}

/// Sort paths into ascending lexicographic order, keeping every
/// occurrence.
#[verifier::loop_isolation(false)]
fn sort_paths(input: Vec<String>) -> (r: Vec<String>)
    ensures
        sorted_paths(r@),
        r@.to_multiset() == input@.to_multiset(),
{
    let mut rest = input;
    let mut out: Vec<String> = Vec::new();
    let ghost whole = rest@;
    proof {
        assert(out@.to_multiset().add(rest@.to_multiset()) =~= whole.to_multiset());
    }
    while rest.len() > 0
        invariant
            sorted_paths(out@),
            out@.to_multiset().add(rest@.to_multiset()) == whole.to_multiset(),
        decreases rest.len(),
    {
        let ghost out0 = out@;
        let ghost rest0 = rest@;
        let x = rest.remove(0);
        let mut p: usize = 0;
        while p < out.len() && !lex_le_strings(x.as_str(), out[p].as_str())
            invariant
                p <= out.len(),
                forall|q: int| 0 <= q < p ==> lex_le(#[trigger] out@[q]@, x@),
            decreases out.len() - p,
        {
            proof {
                lemma_lex_le_total(x@, out@[p as int]@);
            }
            p = p + 1;
        }
        let ghost pos = p as int;
        proof {
            // the new element is ordered against everything at and after
            // its insertion point, and after everything before it
            assert(forall|q: int| 0 <= q < pos ==> lex_le(#[trigger] out0[q]@, x@));
            assert forall|j: int| pos <= j < out0.len() implies lex_le(x@, out0[j]@) by {
                if j == pos {
                } else {
                    lemma_lex_le_trans(x@, out0[pos]@, out0[j]@);
                }
            }
        }
        out.insert(p, x);
        proof {
            assert(out@ == out0.insert(pos, x));
            assert forall|i: int, j: int| 0 <= i < j < out@.len() implies lex_le(
                #[trigger] out@[i]@,
                #[trigger] out@[j]@,
            ) by {
                out0.insert_ensures(pos, x);
            }
            // multiset bookkeeping: one occurrence moved from rest to out
            let pre = out0.subrange(0, pos);
            let post = out0.subrange(pos, out0.len() as int);
            assert(out0 =~= pre + post);
            lemma_multiset_commutative(pre, post);
            lemma_multiset_commutative(pre.push(x), post);
            assert(out@.to_multiset() =~= out0.to_multiset().insert(x));
            assert(rest@.to_multiset() =~= rest0.to_multiset().remove(x));
            assert(rest0.to_multiset().count(x) > 0);
            assert(out@.to_multiset().add(rest@.to_multiset()) =~= out0.to_multiset().add(
                rest0.to_multiset(),
            ));
        }
    }
    out
}

/// List the matching files among the entries of a directory scan: keep
/// the regular files with the expected extension and return their paths
/// in ascending lexicographic order.  No matches give an empty sequence,
/// not a failure.
#[verifier::loop_isolation(false)]
pub fn list_matching_files(entries: Vec<ScanEntry>) -> (r: Vec<String>)
    ensures
        sorted_paths(r@),
        r@.to_multiset() == kept_paths(entries@).to_multiset(),
        r@.len() == kept_paths(entries@).len(),
{
    let ghost all = entries@;
    let mut rest = entries;
    let mut kept: Vec<String> = Vec::new();
    proof {
        reveal(Seq::filter);
        assert(all.take(0) =~= Seq::<ScanEntry>::empty());
        assert(kept@ =~= kept_paths(all.take(0)));
    }
    while rest.len() > 0
        invariant
            rest@.len() <= all.len(),
            rest@ == all.skip(all.len() - rest@.len()),
            kept@ == kept_paths(all.take(all.len() - rest@.len())),
        decreases rest.len(),
    {
        let ghost k = all.len() - rest@.len();
        proof {
            assert(rest@[0] == all[k]);
        }
        let e = rest.remove(0);
        let keep = e.is_file && path_has_gpx_extension(e.path.as_str());
        proof {
            reveal(Seq::filter);
            let prefix = all.take(k);
            let next = all.take(k + 1);
            assert(next.drop_last() =~= prefix);
            assert(next.last() == all[k]);
            if scan_keep(all[k]) {
                assert(next.filter(|e: ScanEntry| scan_keep(e)) == prefix.filter(
                    |e: ScanEntry| scan_keep(e),
                ).push(all[k]));
                assert(kept_paths(next) =~= kept_paths(prefix).push(all[k].path));
            } else {
                assert(kept_paths(next) =~= kept_paths(prefix));
            }
            assert(rest@ =~= all.skip(k + 1));
        }
        if keep {
            kept.push(e.path);
        }
    }
    proof {
        assert(all.take(all.len() as int) =~= all);
    }
    let r = sort_paths(kept);
    proof {
        assert(r@.len() == r@.to_multiset().len());
        assert(kept_paths(all).len() == kept_paths(all).to_multiset().len());
    }
    r
}

} // verus!
