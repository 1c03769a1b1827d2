//! String helpers shared by the scanners: ASCII case folding, path
//! decomposition (the library models paths as `/`-separated display strings)
//! and a few searching primitives that vstd does not provide directly.

use vstd::prelude::*;
use vstd::string::StrSliceExecFns;

verus! {

/// ASCII lower-casing of one character; everything outside `A`..`Z` is kept.
pub open spec fn lower_char(c: char) -> char {
    if 65 <= c as u32 && c as u32 <= 90 {
        (((c as u32) + 32) as u8) as char
    } else {
        c
    }
}

/// ASCII lower-casing of a whole character sequence.
pub open spec fn lower_seq(s: Seq<char>) -> Seq<char> {
    s.map_values(|c: char| lower_char(c))
}

/// Executable counterpart of [`lower_char`].
pub fn char_to_lower(c: char) -> (r: char)
    ensures
        r == lower_char(c),
{
    let u = c as u32;
    if 65 <= u && u <= 90 {
        ((u + 32) as u8) as char
    } else {
        c
    }
}

/// Character-wise string equality.
pub fn str_eq(a: &str, b: &str) -> (r: bool)
    ensures
        r == (a@ == b@),
{
    let na = a.unicode_len();
    let nb = b.unicode_len();
    if na != nb {
        return false;
    }
    let mut i: usize = 0;
    while i < na
        invariant
            na == a@.len(),
            na == b@.len(),
            i <= na,
            forall|j: int| 0 <= j < i ==> a@[j] == b@[j],
        decreases na - i,
    {
        if a.get_char(i) != b.get_char(i) {
            return false;
        }
        i = i + 1;
    }
    proof {
        assert(a@ =~= b@);
    }
    true
}

/// String equality up to ASCII case.
pub fn str_eq_ignore_case(a: &str, b: &str) -> (r: bool)
    ensures
        r == (lower_seq(a@) == lower_seq(b@)),
{
    let na = a.unicode_len();
    let nb = b.unicode_len();
    if na != nb {
        proof {
            assert(lower_seq(a@).len() != lower_seq(b@).len());
        }
        return false;
    }
    let mut i: usize = 0;
    while i < na
        invariant
            na == a@.len(),
            na == b@.len(),
            i <= na,
            forall|j: int| 0 <= j < i ==> lower_char(a@[j]) == lower_char(b@[j]),
        decreases na - i,
    {
        if char_to_lower(a.get_char(i)) != char_to_lower(b.get_char(i)) {
            proof {
                assert(lower_seq(a@)[i as int] != lower_seq(b@)[i as int]);
            }
            return false;
        }
        i = i + 1;
    }
    proof {
        assert(lower_seq(a@) =~= lower_seq(b@));
    }
    true
}

/// Index of the last occurrence of `c` in `s`, or `-1` when `c` is absent.
pub open spec fn last_index_of(s: Seq<char>, c: char) -> int
    decreases s.len(),
{
    if s.len() == 0 {
        -1
    } else if s[s.len() - 1] == c {
        s.len() - 1
    } else {
        last_index_of(s.drop_last(), c)
    }
}

/// What [`last_index_of`] returns: the position of `c` past which `c` does
/// not occur again, or `-1` with no occurrence at all.
pub proof fn lemma_last_index_of(s: Seq<char>, c: char)
    ensures
        last_index_of(s, c) == -1 ==> forall|j: int| 0 <= j < s.len() ==> s[j] != c,
        last_index_of(s, c) != -1 ==> {
            &&& 0 <= last_index_of(s, c) < s.len()
            &&& s[last_index_of(s, c)] == c
            &&& forall|j: int| last_index_of(s, c) < j < s.len() ==> s[j] != c
        },
    decreases s.len(),
{
    if s.len() > 0 && s[s.len() - 1] != c {
        lemma_last_index_of(s.drop_last(), c);
        assert(forall|j: int| 0 <= j < s.len() - 1 ==> s[j] == s.drop_last()[j]);
    }
}

/// The characterization pins the index down uniquely.
pub proof fn lemma_last_index_of_is(s: Seq<char>, c: char, i: int)
    requires
        0 <= i < s.len(),
        s[i] == c,
        forall|j: int| i < j < s.len() ==> s[j] != c,
    ensures
        last_index_of(s, c) == i,
    decreases s.len(),
{
    if s[s.len() - 1] != c {
        assert(i < s.len() - 1);
        assert(s.drop_last()[i] == c);
        lemma_last_index_of_is(s.drop_last(), c, i);
    }
}

/// And so does its absence.
pub proof fn lemma_last_index_of_none(s: Seq<char>, c: char)
    requires
        forall|j: int| 0 <= j < s.len() ==> s[j] != c,
    ensures
        last_index_of(s, c) == -1,
    decreases s.len(),
{
    if s.len() > 0 {
        assert(forall|j: int| 0 <= j < s.drop_last().len() ==> s.drop_last()[j] != c);
        lemma_last_index_of_none(s.drop_last(), c);
    }
}

/// Does `c` occur anywhere in `s`?
pub open spec fn contains_char(s: Seq<char>, c: char) -> bool {
    exists|j: int| 0 <= j < s.len() && s[j] == c
}

/// Executable search for one character.
pub fn str_contains_char(s: &str, c: char) -> (r: bool)
    ensures
        r == contains_char(s@, c),
{
    let n = s.unicode_len();
    let mut i: usize = 0;
    while i < n
        invariant
            n == s@.len(),
            i <= n,
            forall|j: int| 0 <= j < i ==> s@[j] != c,
        decreases n - i,
    {
        if s.get_char(i) == c {
            return true;
        }
        i = i + 1;
    }
    false
}

/// Executable last-occurrence search; `None` when `c` is absent.
pub fn str_last_index_of(s: &str, c: char) -> (r: Option<usize>)
    ensures
        match r {
            Some(i) => i == last_index_of(s@, c),
            None => last_index_of(s@, c) == -1,
        },
{
    let n = s.unicode_len();
    let mut i: usize = n;
    while i > 0
        invariant
            n == s@.len(),
            i <= n,
            forall|j: int| i <= j < n ==> s@[j] != c,
        decreases i,
    {
        i = i - 1;
        if s.get_char(i) == c {
            proof {
                lemma_last_index_of_is(s@, c, i as int);
            }
            return Some(i);
        }
    }
    proof {
        lemma_last_index_of_none(s@, c);
    }
    None
}

/// How often `c` occurs in `s`.
pub open spec fn count_char(s: Seq<char>, c: char) -> int
    decreases s.len(),
{
    if s.len() == 0 {
        0
    } else {
        count_char(s.drop_last(), c) + if s[s.len() - 1] == c {
            1int
        } else {
            0int
        }
    }
}

/// The count never exceeds the length.
pub proof fn lemma_count_char_le_len(s: Seq<char>, c: char)
    ensures
        0 <= count_char(s, c) <= s.len(),
    decreases s.len(),
{
    if s.len() > 0 {
        lemma_count_char_le_len(s.drop_last(), c);
    }
}

/// Does `s` begin with `pre`?
pub open spec fn starts_with(s: Seq<char>, pre: Seq<char>) -> bool {
    s.len() >= pre.len() && s.take(pre.len() as int) == pre
}

/// Does `s` end in `suf`?
pub open spec fn ends_with(s: Seq<char>, suf: Seq<char>) -> bool {
    s.len() >= suf.len() && s.skip(s.len() - suf.len()) == suf
}

/// Executable prefix test.
pub fn str_starts_with(s: &str, pre: &str) -> (r: bool)
    ensures
        r == starts_with(s@, pre@),
{
    let n = s.unicode_len();
    let m = pre.unicode_len();
    if n < m {
        return false;
    }
    let mut i: usize = 0;
    while i < m
        invariant
            n == s@.len(),
            m == pre@.len(),
            m <= n,
            i <= m,
            forall|j: int| 0 <= j < i ==> s@[j] == pre@[j],
        decreases m - i,
    {
        if s.get_char(i) != pre.get_char(i) {
            proof {
                assert(s@.take(m as int)[i as int] != pre@[i as int]);
            }
            return false;
        }
        i = i + 1;
    }
    proof {
        assert(s@.take(m as int) =~= pre@);
    }
    true
}

/// Executable suffix test.
pub fn str_ends_with(s: &str, suf: &str) -> (r: bool)
    ensures
        r == ends_with(s@, suf@),
{
    let n = s.unicode_len();
    let m = suf.unicode_len();
    if n < m {
        return false;
    }
    let off = n - m;
    let mut i: usize = 0;
    while i < m
        invariant
            n == s@.len(),
            m == suf@.len(),
            off == n - m,
            i <= m,
            forall|j: int| 0 <= j < i ==> s@[off + j] == suf@[j],
        decreases m - i,
    {
        if s.get_char(off + i) != suf.get_char(i) {
            proof {
                assert(s@.skip(off as int)[i as int] != suf@[i as int]);
            }
            return false;
        }
        i = i + 1;
    }
    proof {
        assert(s@.skip(off as int) =~= suf@);
    }
    true
}

/// The concatenation of two strings.
pub fn concat2(a: &str, b: &str) -> (r: String)
    ensures
        r@ == a@ + b@,
{
    let mut r = a.to_owned();
    r.append(b);
    r
}

/// A root path as a directory prefix: guaranteed to end in one `/`.
pub open spec fn dir_prefix(root: Seq<char>) -> Seq<char> {
    if root.len() > 0 && root[root.len() - 1] == '/' {
        root
    } else {
        root.push('/')
    }
}

/// Is `p` strictly below the directory `root`?
pub open spec fn is_under(root: Seq<char>, p: Seq<char>) -> bool {
    p.len() > dir_prefix(root).len() && p.take(dir_prefix(root).len() as int) == dir_prefix(root)
}

/// The part of `p` below `root`.
pub open spec fn rel_part(root: Seq<char>, p: Seq<char>) -> Seq<char> {
    p.skip(dir_prefix(root).len() as int)
}

/// How many path components lie between `root` and `p`, inclusive of `p`'s
/// own name: `1` for a direct child.
pub open spec fn depth_under(root: Seq<char>, p: Seq<char>) -> int {
    1 + count_char(rel_part(root, p), '/')
}

/// Executable test for [`is_under`].
pub fn path_is_under(root: &str, p: &str) -> (r: bool)
    ensures
        r == is_under(root@, p@),
{
    let nr = root.unicode_len();
    let np = p.unicode_len();
    let root_slashed = nr > 0 && root.get_char(nr - 1) == '/';
    let pre_len = if root_slashed {
        nr
    } else {
        if np <= nr {
            proof {
                assert(dir_prefix(root@).len() == nr + 1);
            }
            return false;
        }
        nr + 1
    };
    if np <= pre_len {
        return false;
    }
    let mut i: usize = 0;
    while i < nr
        invariant
            nr == root@.len(),
            np == p@.len(),
            pre_len == dir_prefix(root@).len(),
            pre_len <= np,
            nr <= pre_len,
            i <= nr,
            forall|j: int| 0 <= j < i ==> p@[j] == root@[j],
        decreases nr - i,
    {
        if p.get_char(i) != root.get_char(i) {
            proof {
                assert(p@.take(dir_prefix(root@).len() as int)[i as int] != dir_prefix(
                    root@,
                )[i as int]);
            }
            return false;
        }
        i = i + 1;
    }
    if root_slashed {
        proof {
            assert(p@.take(dir_prefix(root@).len() as int) =~= dir_prefix(root@));
        }
        true
    } else {
        if p.get_char(nr) == '/' {
            proof {
                assert(p@.take(dir_prefix(root@).len() as int) =~= dir_prefix(root@));
            }
            true
        } else {
            proof {
                assert(p@.take(dir_prefix(root@).len() as int)[nr as int] != dir_prefix(
                    root@,
                )[nr as int]);
            }
            false
        }
    }
}

/// Executable [`depth_under`]; meaningful when `is_under(root, p)` holds.
pub fn path_depth_under(root: &str, p: &str) -> (r: usize)
    requires
        is_under(root@, p@),
    ensures
        r == depth_under(root@, p@),
{
    let nr = root.unicode_len();
    let np = p.unicode_len();
    let root_slashed = nr > 0 && root.get_char(nr - 1) == '/';
    let pre_len = if root_slashed {
        nr
    } else {
        nr + 1
    };
    let mut i: usize = pre_len;
    let mut slashes: usize = 0;
    proof {
        assert(rel_part(root@, p@).take(0) =~= p@.subrange(pre_len as int, pre_len as int));
        assert(count_char(p@.subrange(pre_len as int, pre_len as int), '/') == 0);
    }
    while i < np
        invariant
            nr == root@.len(),
            np == p@.len(),
            pre_len == dir_prefix(root@).len(),
            pre_len <= i <= np,
            slashes == count_char(p@.subrange(pre_len as int, i as int), '/'),
            slashes <= i - pre_len,
        decreases np - i,
    {
        let ghost pref = p@.subrange(pre_len as int, i as int);
        if p.get_char(i) == '/' {
            slashes = slashes + 1;
        }
        i = i + 1;
        proof {
            let now = p@.subrange(pre_len as int, i as int);
            assert(now.drop_last() =~= pref);
        }
    }
    proof {
        assert(p@.subrange(pre_len as int, np as int) =~= rel_part(root@, p@));
        lemma_count_char_le_len(rel_part(root@, p@), '/');
    }
    slashes + 1
}

/// Everything before the last `/` of `p`; `None` when `p` holds none.
pub fn path_parent(p: &str) -> (r: Option<&str>)
    ensures
        match r {
            Some(q) => last_index_of(p@, '/') >= 0 && q@ == p@.take(last_index_of(p@, '/')),
            None => last_index_of(p@, '/') == -1,
        },
{
    match str_last_index_of(p, '/') {
        Some(i) => {
            proof {
                lemma_last_index_of(p@, '/');
            }
            Some(p.substring_char(0, i))
        },
        None => None,
    }
}

/// Everything past the last `/` of `p` (all of `p` when it holds none).
pub open spec fn base_name(p: Seq<char>) -> Seq<char> {
    p.skip(last_index_of(p, '/') + 1)
}

/// Executable [`base_name`].
pub fn path_base_name(p: &str) -> (r: &str)
    ensures
        r@ == base_name(p@),
{
    let n = p.unicode_len();
    match str_last_index_of(p, '/') {
        Some(i) => {
            proof {
                lemma_last_index_of(p@, '/');
            }
            p.substring_char(i + 1, n)
        },
        None => {
            proof {
                assert(p@.skip(0) =~= p@);
            }
            p
        },
    }
}

/// The stem of a file name: its base name up to the last `.`, except that a
/// leading `.` (a hidden file) or a missing `.` keeps the whole base name.
pub open spec fn file_stem(p: Seq<char>) -> Seq<char> {
    let b = base_name(p);
    let d = last_index_of(b, '.');
    if d <= 0 {
        b
    } else {
        b.take(d)
    }
}

/// The extension of a file name: its base name past the last `.`, absent when
/// the base name holds no `.` past its first character.
pub open spec fn file_extension(p: Seq<char>) -> Option<Seq<char>> {
    let b = base_name(p);
    let d = last_index_of(b, '.');
    if d <= 0 {
        None
    } else {
        Some(b.skip(d + 1))
    }
}

/// Executable [`file_stem`].
pub fn path_file_stem(p: &str) -> (r: &str)
    ensures
        r@ == file_stem(p@),
{
    let b = path_base_name(p);
    match str_last_index_of(b, '.') {
        Some(i) => {
            if i == 0 {
                b
            } else {
                proof {
                    lemma_last_index_of(b@, '.');
                }
                b.substring_char(0, i)
            }
        },
        None => b,
    }
}

/// Executable [`file_extension`].
pub fn path_extension(p: &str) -> (r: Option<&str>)
    ensures
        match r {
            Some(e) => file_extension(p@) == Some(e@),
            None => file_extension(p@) is None,
        },
{
    let b = path_base_name(p);
    let n = b.unicode_len();
    match str_last_index_of(b, '.') {
        Some(i) => {
            if i == 0 {
                None
            } else {
                proof {
                    lemma_last_index_of(b@, '.');
                }
                Some(b.substring_char(i + 1, n))
            }
        },
        None => None,
    }
}


/// `s` with every trailing `c` removed.
pub open spec fn trim_trailing(s: Seq<char>, c: char) -> Seq<char>
    decreases s.len(),
{
    if s.len() > 0 && s[s.len() - 1] == c {
        trim_trailing(s.drop_last(), c)
    } else {
        s
    }
}

/// `s` with every leading `c` removed.
pub open spec fn trim_leading(s: Seq<char>, c: char) -> Seq<char>
    decreases s.len(),
{
    if s.len() > 0 && s[0] == c {
        trim_leading(s.skip(1), c)
    } else {
        s
    }
}

/// Trimming keeps the prefix before the first trailing run of `c`.
pub proof fn lemma_trim_trailing_is(s: Seq<char>, c: char, i: int)
    requires
        0 <= i <= s.len(),
        forall|j: int| i <= j < s.len() ==> s[j] == c,
        i > 0 ==> s[i - 1] != c,
    ensures
        trim_trailing(s, c) == s.take(i),
    decreases s.len(),
{
    if i == s.len() {
        if s.len() > 0 {
            assert(s[s.len() - 1] != c);
        }
        assert(s.take(i) =~= s);
    } else {
        assert(s[s.len() - 1] == c);
        let d = s.drop_last();
        assert(forall|j: int| i <= j < d.len() ==> d[j] == c);
        lemma_trim_trailing_is(d, c, i);
        assert(d.take(i) =~= s.take(i));
    }
}

/// Trimming keeps the suffix past the leading run of `c`.
pub proof fn lemma_trim_leading_is(s: Seq<char>, c: char, i: int)
    requires
        0 <= i <= s.len(),
        forall|j: int| 0 <= j < i ==> s[j] == c,
        i < s.len() ==> s[i] != c,
    ensures
        trim_leading(s, c) == s.skip(i),
    decreases i,
{
    if i == 0 {
        if s.len() > 0 {
            assert(s[0] != c);
        }
        assert(s.skip(0) =~= s);
    } else {
        assert(s[0] == c);
        let d = s.skip(1);
        assert(forall|j: int| 0 <= j < i - 1 ==> d[j] == c);
        lemma_trim_leading_is(d, c, i - 1);
        assert(d.skip(i - 1) =~= s.skip(i));
    }
}

/// Executable [`trim_trailing`], as a borrowed slice.
pub fn str_trim_trailing<'a>(s: &'a str, c: char) -> (r: &'a str)
    ensures
        r@ == trim_trailing(s@, c),
{
    let n = s.unicode_len();
    let mut i: usize = n;
    while i > 0
        invariant
            n == s@.len(),
            i <= n,
            forall|j: int| i <= j < n ==> s@[j] == c,
        decreases i,
    {
        if s.get_char(i - 1) != c {
            proof {
                lemma_trim_trailing_is(s@, c, i as int);
            }
            return s.substring_char(0, i);
        }
        i = i - 1;
    }
    proof {
        lemma_trim_trailing_is(s@, c, 0);
    }
    s.substring_char(0, 0)
}

/// Executable [`trim_leading`], as a borrowed slice.
pub fn str_trim_leading<'a>(s: &'a str, c: char) -> (r: &'a str)
    ensures
        r@ == trim_leading(s@, c),
{
    let n = s.unicode_len();
    let mut i: usize = 0;
    while i < n
        invariant
            n == s@.len(),
            i <= n,
            forall|j: int| 0 <= j < i ==> s@[j] == c,
        decreases n - i,
    {
        if s.get_char(i) != c {
            proof {
                lemma_trim_leading_is(s@, c, i as int);
            }
            return s.substring_char(i, n);
        }
        i = i + 1;
    }
    proof {
        lemma_trim_leading_is(s@, c, n as int);
    }
    s.substring_char(n, n)
}

/// An ASCII whitespace character, as far as blank api keys are concerned.
pub open spec fn is_ascii_space(c: char) -> bool {
    c == ' ' || c == '\t' || c == '\n' || c == '\r'
}

/// A string that trims to nothing (up to ASCII whitespace).
pub open spec fn is_blank(s: Seq<char>) -> bool {
    forall|i: int| 0 <= i < s.len() ==> is_ascii_space(#[trigger] s[i])
}

/// Executable [`is_blank`].
pub fn str_is_blank(s: &str) -> (r: bool)
    ensures
        r == is_blank(s@),
{
    let n = s.unicode_len();
    let mut i: usize = 0;
    while i < n
        invariant
            n == s@.len(),
            i <= n,
            forall|j: int| 0 <= j < i ==> is_ascii_space(#[trigger] s@[j]),
        decreases n - i,
    {
        let c = s.get_char(i);
        if !(c == ' ' || c == '\t' || c == '\n' || c == '\r') {
            return false;
        }
        i = i + 1;
    }
    true
}


/// Index of the first occurrence of `c` in `s`, or `-1` when `c` is absent.
pub open spec fn first_index_of(s: Seq<char>, c: char) -> int
    decreases s.len(),
{
    if s.len() == 0 {
        -1
    } else if s[0] == c {
        0
    } else {
        let r = first_index_of(s.skip(1), c);
        if r == -1 {
            -1
        } else {
            r + 1
        }
    }
}

/// The first occurrence, pinned down.
pub proof fn lemma_first_index_of_is(s: Seq<char>, c: char, i: int)
    requires
        0 <= i < s.len(),
        s[i] == c,
        forall|j: int| 0 <= j < i ==> s[j] != c,
    ensures
        first_index_of(s, c) == i,
    decreases s.len(),
{
    if s[0] != c {
        assert(forall|j: int| 0 <= j < i - 1 ==> s.skip(1)[j] == s[j + 1]);
        lemma_first_index_of_is(s.skip(1), c, i - 1);
    }
}

/// And its absence.
pub proof fn lemma_first_index_of_none(s: Seq<char>, c: char)
    requires
        forall|j: int| 0 <= j < s.len() ==> s[j] != c,
    ensures
        first_index_of(s, c) == -1,
    decreases s.len(),
{
    if s.len() > 0 {
        assert(forall|j: int| 0 <= j < s.skip(1).len() ==> s.skip(1)[j] != c);
        lemma_first_index_of_none(s.skip(1), c);
    }
}

/// What [`first_index_of`] returns.
pub proof fn lemma_first_index_of(s: Seq<char>, c: char)
    ensures
        first_index_of(s, c) == -1 ==> forall|j: int| 0 <= j < s.len() ==> s[j] != c,
        first_index_of(s, c) != -1 ==> {
            &&& 0 <= first_index_of(s, c) < s.len()
            &&& s[first_index_of(s, c)] == c
            &&& forall|j: int| 0 <= j < first_index_of(s, c) ==> s[j] != c
        },
    decreases s.len(),
{
    if s.len() > 0 && s[0] != c {
        lemma_first_index_of(s.skip(1), c);
        assert(forall|j: int| 1 <= j < s.len() ==> s[j] == s.skip(1)[j - 1]);
    }
}

/// Executable first-occurrence search.
pub fn str_first_index_of(s: &str, c: char) -> (r: Option<usize>)
    ensures
        match r {
            Some(i) => i == first_index_of(s@, c),
            None => first_index_of(s@, c) == -1,
        },
{
    let n = s.unicode_len();
    let mut i: usize = 0;
    while i < n
        invariant
            n == s@.len(),
            i <= n,
            forall|j: int| 0 <= j < i ==> s@[j] != c,
        decreases n - i,
    {
        if s.get_char(i) == c {
            proof {
                lemma_first_index_of_is(s@, c, i as int);
            }
            return Some(i);
        }
        i = i + 1;
    }
    proof {
        lemma_first_index_of_none(s@, c);
    }
    None
}

/// `s` with its leading ASCII whitespace removed.
pub open spec fn trim_start_spaces(s: Seq<char>) -> Seq<char>
    decreases s.len(),
{
    if s.len() > 0 && is_ascii_space(s[0]) {
        trim_start_spaces(s.skip(1))
    } else {
        s
    }
}

/// `s` with its trailing ASCII whitespace removed.
pub open spec fn trim_end_spaces(s: Seq<char>) -> Seq<char>
    decreases s.len(),
{
    if s.len() > 0 && is_ascii_space(s[s.len() - 1]) {
        trim_end_spaces(s.drop_last())
    } else {
        s
    }
}

/// `s` with surrounding ASCII whitespace removed.
pub open spec fn trim_spaces(s: Seq<char>) -> Seq<char> {
    trim_end_spaces(trim_start_spaces(s))
}

/// The start trim keeps the suffix past the leading whitespace run.
pub proof fn lemma_trim_start_spaces_is(s: Seq<char>, i: int)
    requires
        0 <= i <= s.len(),
        forall|j: int| 0 <= j < i ==> is_ascii_space(#[trigger] s[j]),
        i < s.len() ==> !is_ascii_space(s[i]),
    ensures
        trim_start_spaces(s) == s.skip(i),
    decreases i,
{
    if i == 0 {
        if s.len() > 0 {
            assert(!is_ascii_space(s[0]));
        }
        assert(s.skip(0) =~= s);
    } else {
        assert(is_ascii_space(s[0]));
        let d = s.skip(1);
        assert(forall|j: int| 0 <= j < i - 1 ==> is_ascii_space(#[trigger] d[j]));
        lemma_trim_start_spaces_is(d, i - 1);
        assert(d.skip(i - 1) =~= s.skip(i));
    }
}

/// The end trim keeps the prefix before the trailing whitespace run.
pub proof fn lemma_trim_end_spaces_is(s: Seq<char>, i: int)
    requires
        0 <= i <= s.len(),
        forall|j: int| i <= j < s.len() ==> is_ascii_space(#[trigger] s[j]),
        i > 0 ==> !is_ascii_space(s[i - 1]),
    ensures
        trim_end_spaces(s) == s.take(i),
    decreases s.len(),
{
    if i == s.len() {
        if s.len() > 0 {
            assert(!is_ascii_space(s[s.len() - 1]));
        }
        assert(s.take(i) =~= s);
    } else {
        assert(is_ascii_space(s[s.len() - 1]));
        let d = s.drop_last();
        assert(forall|j: int| i <= j < d.len() ==> is_ascii_space(#[trigger] d[j]));
        lemma_trim_end_spaces_is(d, i);
        assert(d.take(i) =~= s.take(i));
    }
}

/// Executable [`trim_spaces`], as a borrowed slice.
pub fn str_trim_spaces<'a>(s: &'a str) -> (r: &'a str)
    ensures
        r@ == trim_spaces(s@),
{
    let n = s.unicode_len();
    let mut a: usize = 0;
    let mut front_done = false;
    while a < n && !front_done
        invariant
            n == s@.len(),
            a <= n,
            forall|j: int| 0 <= j < a ==> is_ascii_space(#[trigger] s@[j]),
            front_done ==> a < n && !is_ascii_space(s@[a as int]),
        decreases n - a + (if front_done { 0int } else { 1int }),
    {
        let c = s.get_char(a);
        if c == ' ' || c == '\t' || c == '\n' || c == '\r' {
            a = a + 1;
        } else {
            front_done = true;
        }
    }
    proof {
        lemma_trim_start_spaces_is(s@, a as int);
    }
    let ghost mid = s@.skip(a as int);
    let mut b: usize = n;
    let mut back_done = false;
    while b > a && !back_done
        invariant
            n == s@.len(),
            a <= b <= n,
            mid == s@.skip(a as int),
            forall|j: int| b <= j < n ==> is_ascii_space(#[trigger] s@[j]),
            back_done ==> b > a && !is_ascii_space(s@[b - 1]),
        decreases b + (if back_done { 0int } else { 1int }),
    {
        let c = s.get_char(b - 1);
        if c == ' ' || c == '\t' || c == '\n' || c == '\r' {
            b = b - 1;
        } else {
            back_done = true;
        }
    }
    proof {
        assert(forall|j: int| b - a <= j < mid.len() ==> is_ascii_space(#[trigger] mid[j]));
        if b > a {
            assert(mid[b - a - 1] == s@[b - 1]);
        }
        lemma_trim_end_spaces_is(mid, b - a);
        assert(mid.take(b - a) =~= s@.subrange(a as int, b as int));
    }
    s.substring_char(a, b)
}

} // verus!
