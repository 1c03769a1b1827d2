//! String-keyed association lists. The scanners key folders, cache entries
//! and counters by path or id strings; a vector of pairs with an
//! update-in-place insert gives them map semantics that the proofs can see
//! all the way into.

use vstd::prelude::*;

verus! {

/// The view of an association vector: keys and values viewed pairwise.
pub open spec fn assoc_view<V: View>(s: Seq<(String, V)>) -> Seq<(Seq<char>, V::V)> {
    s.map_values(|p: (String, V)| (p.0@, p.1@))
}

/// The first index holding `key`, or `-1`.
pub open spec fn assoc_find<T>(s: Seq<(Seq<char>, T)>, key: Seq<char>) -> int
    decreases s.len(),
{
    if s.len() == 0 {
        -1
    } else if s[0].0 == key {
        0
    } else {
        let r = assoc_find(s.skip(1), key);
        if r == -1 {
            -1
        } else {
            r + 1
        }
    }
}

/// The value stored under `key`, if any.
pub open spec fn assoc_lookup<T>(s: Seq<(Seq<char>, T)>, key: Seq<char>) -> Option<T> {
    let i = assoc_find(s, key);
    if i == -1 {
        None
    } else {
        Some(s[i].1)
    }
}

/// Insert-or-update: a present key keeps its position, a new one goes to the
/// end.
pub open spec fn assoc_set<T>(s: Seq<(Seq<char>, T)>, key: Seq<char>, val: T) -> Seq<
    (Seq<char>, T),
> {
    let i = assoc_find(s, key);
    if i == -1 {
        s.push((key, val))
    } else {
        s.update(i, (key, val))
    }
}

/// What [`assoc_find`] returns: a position of `key` preceded by no other.
pub proof fn lemma_assoc_find_is<T>(s: Seq<(Seq<char>, T)>, key: Seq<char>, i: int)
    requires
        0 <= i < s.len(),
        s[i].0 == key,
        forall|j: int| 0 <= j < i ==> (#[trigger] s[j]).0 != key,
    ensures
        assoc_find(s, key) == i,
    decreases s.len(),
{
    if s[0].0 != key {
        assert(forall|j: int| 0 <= j < i - 1 ==> (#[trigger] s.skip(1)[j]).0 != key);
        lemma_assoc_find_is(s.skip(1), key, i - 1);
    }
}

/// A key that occurs nowhere is not found.
pub proof fn lemma_assoc_find_none<T>(s: Seq<(Seq<char>, T)>, key: Seq<char>)
    requires
        forall|j: int| 0 <= j < s.len() ==> (#[trigger] s[j]).0 != key,
    ensures
        assoc_find(s, key) == -1,
    decreases s.len(),
{
    if s.len() > 0 {
        assert(forall|j: int| 0 <= j < s.len() - 1 ==> (#[trigger] s.skip(1)[j]).0 != key);
        lemma_assoc_find_none(s.skip(1), key);
    }
}

/// Wherever [`assoc_find`] points, the key is there and nowhere earlier.
pub proof fn lemma_assoc_find_works<T>(s: Seq<(Seq<char>, T)>, key: Seq<char>)
    ensures
        assoc_find(s, key) == -1 ==> forall|j: int|
            0 <= j < s.len() ==> (#[trigger] s[j]).0 != key,
        assoc_find(s, key) != -1 ==> {
            &&& 0 <= assoc_find(s, key) < s.len()
            &&& s[assoc_find(s, key)].0 == key
            &&& forall|j: int| 0 <= j < assoc_find(s, key) ==> (#[trigger] s[j]).0 != key
        },
    decreases s.len(),
{
    if s.len() > 0 && s[0].0 != key {
        lemma_assoc_find_works(s.skip(1), key);
        assert(forall|j: int| 1 <= j < s.len() ==> s[j] == s.skip(1)[j - 1]);
    }
}

/// The first index whose key equals `key` up to ASCII case, or `-1`.
pub open spec fn assoc_find_ci<T>(s: Seq<(Seq<char>, T)>, key: Seq<char>) -> int
    decreases s.len(),
{
    if s.len() == 0 {
        -1
    } else if crate::strutil::lower_seq(s[0].0) == crate::strutil::lower_seq(key) {
        0
    } else {
        let r = assoc_find_ci(s.skip(1), key);
        if r == -1 {
            -1
        } else {
            r + 1
        }
    }
}

/// What [`assoc_find_ci`] returns, pinned down as for [`assoc_find`].
pub proof fn lemma_assoc_find_ci_is<T>(s: Seq<(Seq<char>, T)>, key: Seq<char>, i: int)
    requires
        0 <= i < s.len(),
        crate::strutil::lower_seq(s[i].0) == crate::strutil::lower_seq(key),
        forall|j: int|
            0 <= j < i ==> crate::strutil::lower_seq((#[trigger] s[j]).0)
                != crate::strutil::lower_seq(key),
    ensures
        assoc_find_ci(s, key) == i,
    decreases s.len(),
{
    if crate::strutil::lower_seq(s[0].0) != crate::strutil::lower_seq(key) {
        assert(forall|j: int|
            0 <= j < i - 1 ==> crate::strutil::lower_seq((#[trigger] s.skip(1)[j]).0)
                != crate::strutil::lower_seq(key));
        lemma_assoc_find_ci_is(s.skip(1), key, i - 1);
    }
}

/// And its absence.
pub proof fn lemma_assoc_find_ci_none<T>(s: Seq<(Seq<char>, T)>, key: Seq<char>)
    requires
        forall|j: int|
            0 <= j < s.len() ==> crate::strutil::lower_seq((#[trigger] s[j]).0)
                != crate::strutil::lower_seq(key),
    ensures
        assoc_find_ci(s, key) == -1,
    decreases s.len(),
{
    if s.len() > 0 {
        assert(forall|j: int|
            0 <= j < s.len() - 1 ==> crate::strutil::lower_seq((#[trigger] s.skip(1)[j]).0)
                != crate::strutil::lower_seq(key));
        lemma_assoc_find_ci_none(s.skip(1), key);
    }
}

/// [`assoc_find`] yields `-1` or a position.
pub proof fn lemma_assoc_find_range<T>(s: Seq<(Seq<char>, T)>, q: Seq<char>)
    ensures
        -1 <= assoc_find(s, q) < s.len(),
    decreases s.len(),
{
    if s.len() > 0 && s[0].0 != q {
        lemma_assoc_find_range(s.skip(1), q);
    }
}

/// Finding in a longer list: a hit stays a hit, a miss defers to the new
/// element.
pub proof fn lemma_assoc_find_push<T>(s: Seq<(Seq<char>, T)>, x: (Seq<char>, T), q: Seq<char>)
    ensures
        assoc_find(s, q) != -1 ==> assoc_find(s.push(x), q) == assoc_find(s, q),
        assoc_find(s, q) == -1 && x.0 == q ==> assoc_find(s.push(x), q) == s.len() as int,
        assoc_find(s, q) == -1 && x.0 != q ==> assoc_find(s.push(x), q) == -1,
    decreases s.len(),
{
    let sp = s.push(x);
    if s.len() == 0 {
        assert(sp[0] == x);
        assert(sp.skip(1) =~= Seq::<(Seq<char>, T)>::empty());
        assert(assoc_find(sp.skip(1), q) == -1);
        if x.0 == q {
            assert(assoc_find(sp, q) == 0);
        } else {
            assert(assoc_find(sp, q) == -1);
        }
    } else {
        assert(sp[0] == s[0]);
        lemma_assoc_find_push(s.skip(1), x, q);
        lemma_assoc_find_range(s.skip(1), q);
        assert(sp.skip(1) =~= s.skip(1).push(x));
        if s[0].0 == q {
            assert(assoc_find(sp, q) == 0);
            assert(assoc_find(s, q) == 0);
        } else {
            let r = assoc_find(sp.skip(1), q);
            assert(assoc_find(sp, q) == if r == -1 {
                -1int
            } else {
                r + 1
            });
            let r0 = assoc_find(s.skip(1), q);
            assert(assoc_find(s, q) == if r0 == -1 {
                -1int
            } else {
                r0 + 1
            });
            assert(r == assoc_find(s.skip(1).push(x), q));
            if r0 != -1 {
                assert(assoc_find(sp, q) == assoc_find(s, q));
            } else if x.0 == q {
                assert(r == s.skip(1).len() as int);
                assert(assoc_find(sp, q) == s.len() as int);
                assert(assoc_find(s, q) == -1);
            } else {
                assert(assoc_find(sp, q) == -1);
                assert(assoc_find(s, q) == -1);
            }
        }
    }
}

/// Two lists with the same keys position for position are searched alike.
pub proof fn lemma_assoc_find_same_keys<T, U>(
    s1: Seq<(Seq<char>, T)>,
    s2: Seq<(Seq<char>, U)>,
    q: Seq<char>,
)
    requires
        s1.len() == s2.len(),
        forall|j: int| 0 <= j < s1.len() ==> (#[trigger] s1[j]).0 == s2[j].0,
    ensures
        assoc_find(s1, q) == assoc_find(s2, q),
    decreases s1.len(),
{
    if s1.len() > 0 {
        assert(forall|j: int| 0 <= j < s1.len() - 1 ==> (#[trigger] s1.skip(1)[j]).0 == s1[j + 1].0);
        assert(forall|j: int| 0 <= j < s2.len() - 1 ==> (#[trigger] s2.skip(1)[j]).0 == s2[j + 1].0);
        lemma_assoc_find_same_keys(s1.skip(1), s2.skip(1), q);
    }
}

/// After an insert-or-update, the key maps to the new value.
pub proof fn lemma_assoc_set_same<T>(s: Seq<(Seq<char>, T)>, k: Seq<char>, v: T)
    ensures
        assoc_lookup(assoc_set(s, k, v), k) == Some(v),
{
    lemma_assoc_find_works(s, k);
    let i = assoc_find(s, k);
    if i == -1 {
        lemma_assoc_find_push(s, (k, v), k);
    } else {
        let s2 = s.update(i, (k, v));
        assert(forall|j: int| 0 <= j < s.len() ==> (#[trigger] s[j]).0 == s2[j].0);
        lemma_assoc_find_same_keys(s, s2, k);
    }
}

/// An insert-or-update leaves every other key's binding alone.
pub proof fn lemma_assoc_set_frame<T>(s: Seq<(Seq<char>, T)>, k: Seq<char>, v: T, q: Seq<char>)
    requires
        q != k,
    ensures
        assoc_lookup(assoc_set(s, k, v), q) == assoc_lookup(s, q),
{
    lemma_assoc_find_works(s, k);
    lemma_assoc_find_works(s, q);
    let i = assoc_find(s, k);
    if i == -1 {
        lemma_assoc_find_push(s, (k, v), q);
    } else {
        let s2 = s.update(i, (k, v));
        assert(forall|j: int| 0 <= j < s.len() ==> (#[trigger] s[j]).0 == s2[j].0);
        lemma_assoc_find_same_keys(s, s2, q);
        if assoc_find(s, q) != -1 {
            assert(assoc_find(s, q) != i);
        }
    }
}

/// The value stored under `key` up to ASCII case, if any.
pub open spec fn assoc_lookup_ci<T>(s: Seq<(Seq<char>, T)>, key: Seq<char>) -> Option<T> {
    let i = assoc_find_ci(s, key);
    if i == -1 {
        None
    } else {
        Some(s[i].1)
    }
}

/// Insert-or-update under a case-insensitive key; an update keeps the stored
/// key's spelling and position.
pub open spec fn assoc_set_ci<T>(s: Seq<(Seq<char>, T)>, key: Seq<char>, val: T) -> Seq<
    (Seq<char>, T),
> {
    let i = assoc_find_ci(s, key);
    if i == -1 {
        s.push((key, val))
    } else {
        s.update(i, (s[i].0, val))
    }
}

/// [`assoc_find_ci`] yields `-1` or a position.
pub proof fn lemma_assoc_find_ci_range<T>(s: Seq<(Seq<char>, T)>, q: Seq<char>)
    ensures
        -1 <= assoc_find_ci(s, q) < s.len(),
    decreases s.len(),
{
    if s.len() > 0 && crate::strutil::lower_seq(s[0].0) != crate::strutil::lower_seq(q) {
        lemma_assoc_find_ci_range(s.skip(1), q);
    }
}

/// Wherever [`assoc_find_ci`] points, a case-equal key is there and nowhere
/// earlier.
pub proof fn lemma_assoc_find_ci_works<T>(s: Seq<(Seq<char>, T)>, q: Seq<char>)
    ensures
        assoc_find_ci(s, q) == -1 ==> forall|j: int|
            0 <= j < s.len() ==> crate::strutil::lower_seq((#[trigger] s[j]).0)
                != crate::strutil::lower_seq(q),
        assoc_find_ci(s, q) != -1 ==> {
            &&& 0 <= assoc_find_ci(s, q) < s.len()
            &&& crate::strutil::lower_seq(s[assoc_find_ci(s, q)].0) == crate::strutil::lower_seq(q)
            &&& forall|j: int|
                0 <= j < assoc_find_ci(s, q) ==> crate::strutil::lower_seq((#[trigger] s[j]).0)
                    != crate::strutil::lower_seq(q)
        },
    decreases s.len(),
{
    if s.len() > 0 && crate::strutil::lower_seq(s[0].0) != crate::strutil::lower_seq(q) {
        lemma_assoc_find_ci_works(s.skip(1), q);
        assert(forall|j: int| 1 <= j < s.len() ==> s[j] == s.skip(1)[j - 1]);
    }
}

/// Case-insensitive finding in a longer list.
pub proof fn lemma_assoc_find_ci_push<T>(s: Seq<(Seq<char>, T)>, x: (Seq<char>, T), q: Seq<char>)
    ensures
        assoc_find_ci(s, q) != -1 ==> assoc_find_ci(s.push(x), q) == assoc_find_ci(s, q),
        assoc_find_ci(s, q) == -1 && crate::strutil::lower_seq(x.0) == crate::strutil::lower_seq(q)
            ==> assoc_find_ci(s.push(x), q) == s.len() as int,
        assoc_find_ci(s, q) == -1 && crate::strutil::lower_seq(x.0) != crate::strutil::lower_seq(q)
            ==> assoc_find_ci(s.push(x), q) == -1,
    decreases s.len(),
{
    let sp = s.push(x);
    if s.len() == 0 {
        assert(sp[0] == x);
        assert(sp.skip(1) =~= Seq::<(Seq<char>, T)>::empty());
        assert(assoc_find_ci(sp.skip(1), q) == -1);
    } else {
        assert(sp[0] == s[0]);
        lemma_assoc_find_ci_push(s.skip(1), x, q);
        lemma_assoc_find_ci_range(s.skip(1), q);
        assert(sp.skip(1) =~= s.skip(1).push(x));
    }
}

/// Two lists with case-equal keys position for position are searched alike.
pub proof fn lemma_assoc_find_ci_same_keys<T, U>(
    s1: Seq<(Seq<char>, T)>,
    s2: Seq<(Seq<char>, U)>,
    q: Seq<char>,
)
    requires
        s1.len() == s2.len(),
        forall|j: int|
            0 <= j < s1.len() ==> crate::strutil::lower_seq((#[trigger] s1[j]).0)
                == crate::strutil::lower_seq(s2[j].0),
    ensures
        assoc_find_ci(s1, q) == assoc_find_ci(s2, q),
    decreases s1.len(),
{
    if s1.len() > 0 {
        assert(forall|j: int| 0 <= j < s1.len() - 1 ==> (#[trigger] s1.skip(1)[j]) == s1[j + 1]);
        assert(forall|j: int| 0 <= j < s2.len() - 1 ==> (#[trigger] s2.skip(1)[j]) == s2[j + 1]);
        lemma_assoc_find_ci_same_keys(s1.skip(1), s2.skip(1), q);
    }
}

/// A case-insensitive insert-or-update keeps every found key findable.
pub proof fn lemma_assoc_set_ci_preserves_found<T>(
    s: Seq<(Seq<char>, T)>,
    k: Seq<char>,
    v: T,
    q: Seq<char>,
)
    requires
        assoc_find_ci(s, q) != -1,
    ensures
        assoc_find_ci(assoc_set_ci(s, k, v), q) != -1,
{
    let t = assoc_find_ci(s, k);
    if t == -1 {
        lemma_assoc_find_ci_push(s, (k, v), q);
    } else {
        lemma_assoc_find_ci_works(s, k);
        let s2 = s.update(t, (s[t].0, v));
        assert(s2.len() == s.len());
        assert(forall|j: int| 0 <= j < s.len() ==> (#[trigger] s2[j]).0 == s[j].0);
        lemma_assoc_find_ci_same_keys(s2, s, q);
    }
}

/// After a case-insensitive insert-or-update, the key is findable.
pub proof fn lemma_assoc_set_ci_registers<T>(s: Seq<(Seq<char>, T)>, k: Seq<char>, v: T)
    ensures
        assoc_find_ci(assoc_set_ci(s, k, v), k) != -1,
{
    let t = assoc_find_ci(s, k);
    lemma_assoc_find_ci_works(s, k);
    if t == -1 {
        lemma_assoc_find_ci_push(s, (k, v), k);
    } else {
        let s2 = s.update(t, (s[t].0, v));
        assert(s2.len() == s.len());
        assert(forall|j: int| 0 <= j < s.len() ==> (#[trigger] s2[j]).0 == s[j].0);
        lemma_assoc_find_ci_same_keys(s2, s, k);
    }
}

/// Executable case-insensitive lookup.
pub fn assoc_get_ci<'a, V: View>(v: &'a Vec<(String, V)>, key: &str) -> (r: Option<&'a V>)
    ensures
        match r {
            Some(x) => assoc_lookup_ci(assoc_view(v@), key@) == Some((*x)@),
            None => assoc_lookup_ci(assoc_view(v@), key@) is None,
        },
{
    let n = v.len();
    let mut i: usize = 0;
    while i < n
        invariant
            n == v@.len(),
            i <= n,
            forall|j: int|
                0 <= j < i ==> crate::strutil::lower_seq((#[trigger] assoc_view(v@)[j]).0)
                    != crate::strutil::lower_seq(key@),
        decreases n - i,
    {
        if crate::strutil::str_eq_ignore_case(v[i].0.as_str(), key) {
            proof {
                assert(assoc_view(v@)[i as int].0 == v@[i as int].0@);
                lemma_assoc_find_ci_is(assoc_view(v@), key@, i as int);
            }
            return Some(&v[i].1);
        }
        proof {
            assert(assoc_view(v@)[i as int].0 == v@[i as int].0@);
        }
        i = i + 1;
    }
    proof {
        lemma_assoc_find_ci_none(assoc_view(v@), key@);
    }
    None
}

/// Executable case-insensitive insert-or-update.
pub fn assoc_put_ci<V: View>(v: &mut Vec<(String, V)>, key: String, val: V)
    ensures
        assoc_view(final(v)@) == assoc_set_ci(assoc_view(old(v)@), key@, val@),
{
    let n = v.len();
    let mut i: usize = 0;
    while i < n
        invariant
            n == v@.len(),
            i <= n,
            v@ == old(v)@,
            forall|j: int|
                0 <= j < i ==> crate::strutil::lower_seq((#[trigger] assoc_view(v@)[j]).0)
                    != crate::strutil::lower_seq(key@),
        decreases n - i,
    {
        if crate::strutil::str_eq_ignore_case(v[i].0.as_str(), key.as_str()) {
            proof {
                assert(assoc_view(v@)[i as int].0 == v@[i as int].0@);
                lemma_assoc_find_ci_is(assoc_view(v@), key@, i as int);
            }
            let stored_key = v.remove(i).0;
            v.insert(i, (stored_key, val));
            proof {
                assert(assoc_view(v@) =~= assoc_set_ci(assoc_view(old(v)@), key@, val@));
            }
            return ;
        }
        proof {
            assert(assoc_view(v@)[i as int].0 == v@[i as int].0@);
        }
        i = i + 1;
    }
    proof {
        lemma_assoc_find_ci_none(assoc_view(v@), key@);
    }
    v.push((key, val));
    proof {
        assert(assoc_view(v@) =~= assoc_set_ci(assoc_view(old(v)@), key@, val@));
    }
}

/// Executable lookup in an association vector.
pub fn assoc_get<'a, V: View>(v: &'a Vec<(String, V)>, key: &str) -> (r: Option<&'a V>)
    ensures
        match r {
            Some(x) => assoc_lookup(assoc_view(v@), key@) == Some((*x)@),
            None => assoc_lookup(assoc_view(v@), key@) is None,
        },
{
    let n = v.len();
    let mut i: usize = 0;
    while i < n
        invariant
            n == v@.len(),
            i <= n,
            forall|j: int| 0 <= j < i ==> (#[trigger] assoc_view(v@)[j]).0 != key@,
        decreases n - i,
    {
        if crate::strutil::str_eq(v[i].0.as_str(), key) {
            proof {
                assert(assoc_view(v@)[i as int].0 == key@);
                lemma_assoc_find_is(assoc_view(v@), key@, i as int);
            }
            return Some(&v[i].1);
        }
        proof {
            assert(assoc_view(v@)[i as int].0 == v@[i as int].0@);
        }
        i = i + 1;
    }
    proof {
        lemma_assoc_find_none(assoc_view(v@), key@);
    }
    None
}

/// Executable insert-or-update.
pub fn assoc_put<V: View>(v: &mut Vec<(String, V)>, key: String, val: V)
    ensures
        assoc_view(final(v)@) == assoc_set(assoc_view(old(v)@), key@, val@),
{
    let n = v.len();
    let mut i: usize = 0;
    while i < n
        invariant
            n == v@.len(),
            i <= n,
            v@ == old(v)@,
            forall|j: int| 0 <= j < i ==> (#[trigger] assoc_view(v@)[j]).0 != key@,
        decreases n - i,
    {
        if crate::strutil::str_eq(v[i].0.as_str(), key.as_str()) {
            proof {
                assert(assoc_view(v@)[i as int].0 == key@);
                lemma_assoc_find_is(assoc_view(v@), key@, i as int);
            }
            v[i] = (key, val);
            proof {
                assert(assoc_view(v@) =~= assoc_set(assoc_view(old(v)@), key@, val@));
            }
            return ;
        }
        proof {
            assert(assoc_view(v@)[i as int].0 == v@[i as int].0@);
        }
        i = i + 1;
    }
    proof {
        lemma_assoc_find_none(assoc_view(v@), key@);
    }
    v.push((key, val));
    proof {
        assert(assoc_view(v@) =~= assoc_set(assoc_view(old(v)@), key@, val@));
    }
}

} // verus!
