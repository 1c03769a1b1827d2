//! Upkeep of the configured scan roots: of a sorted, deduplicated list of
//! canonical paths, keep only the top-level ones — a root lying below an
//! already-kept root is redundant, since scanning the ancestor covers it.

use vstd::prelude::*;
use crate::strutil::is_under;

verus! {

/// Does some kept root lie strictly above `p`?
pub open spec fn has_kept_ancestor(kept: Seq<Seq<char>>, p: Seq<char>) -> bool {
    exists|k: int| 0 <= k < kept.len() && is_under(#[trigger] kept[k], p)
}

/// The top-level roots of a list, in order: each path is kept unless a path
/// kept before it lies strictly above it.
pub open spec fn keep_top_spec(paths: Seq<Seq<char>>) -> Seq<Seq<char>>
    decreases paths.len(),
{
    if paths.len() == 0 {
        Seq::empty()
    } else {
        let acc = keep_top_spec(paths.drop_last());
        if has_kept_ancestor(acc, paths.last()) {
            acc
        } else {
            acc.push(paths.last())
        }
    }
}

/// Executable [`keep_top_spec`]: expects its input sorted and deduplicated,
/// as the configuration upkeep prepares it, so ancestors precede descendants.
pub fn keep_top_level(paths: &Vec<String>) -> (r: Vec<String>)
    ensures
        r@.map_values(|s: String| s@) == keep_top_spec(paths@.map_values(|s: String| s@)),
{
    let ghost pv = paths@.map_values(|s: String| s@);
    let mut kept: Vec<String> = Vec::new();
    let n = paths.len();
    let mut i: usize = 0;
    proof {
        assert(pv.take(0) =~= Seq::<Seq<char>>::empty());
        assert(kept@.map_values(|s: String| s@) =~= keep_top_spec(pv.take(0)));
    }
    while i < n
        invariant
            n == paths@.len(),
            i <= n,
            pv == paths@.map_values(|s: String| s@),
            kept@.map_values(|s: String| s@) == keep_top_spec(pv.take(i as int)),
        decreases n - i,
    {
        proof {
            assert(pv.take(i + 1).drop_last() =~= pv.take(i as int));
            assert(pv.take(i + 1).last() == pv[i as int]);
        }
        let ghost kv = kept@.map_values(|s: String| s@);
        let m = kept.len();
        let mut j: usize = 0;
        let mut child = false;
        while j < m
            invariant
                m == kept@.len(),
                j <= m,
                kv == kept@.map_values(|s: String| s@),
                n == paths@.len(),
                i < n,
                pv == paths@.map_values(|s: String| s@),
                !child ==> forall|k: int| 0 <= k < j ==> !is_under(#[trigger] kv[k], pv[i as int]),
                child ==> has_kept_ancestor(kv, pv[i as int]),
            decreases m - j,
        {
            if crate::strutil::path_is_under(kept[j].as_str(), paths[i].as_str()) {
                proof {
                    assert(is_under(kv[j as int], pv[i as int]));
                }
                child = true;
                j = m;
            } else {
                j = j + 1;
            }
        }
        if !child {
            kept.push(paths[i].clone());
            proof {
                assert(kept@.map_values(|s: String| s@) =~= kv.push(pv[i as int]));
            }
        }
        i = i + 1;
    }
    proof {
        assert(pv.take(n as int) =~= pv);
    }
    kept
}

} // verus!
