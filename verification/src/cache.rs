//! The staleness cache: per scan root, the last parsed track for every file
//! path together with the modification stamp it was parsed under. A rescan
//! reuses an entry exactly when the stamp still matches, and each scan
//! publishes a pruned map holding only the files it saw, so deleted files
//! evict their entries.

use vstd::prelude::*;
use vstd::string::StringExecFns;
use crate::assoc::{
    assoc_find_ci, assoc_get, assoc_lookup, assoc_put, assoc_set, assoc_view,
    lemma_assoc_find_ci_is, lemma_assoc_find_ci_none,
};
use crate::model::{Track, TrackV};
use crate::strutil::{lower_seq, str_eq_ignore_case};

verus! {

/// One cache entry: the parsed track and the stamp it was parsed under.
pub struct CachedTrack {
    pub track: Track,
    pub modified: u64,
    pub size: u64,
}

/// The mathematical view of a [`CachedTrack`].
pub ghost struct CachedTrackV {
    pub track: TrackV,
    pub modified: u64,
    pub size: u64,
}

impl View for CachedTrack {
    type V = CachedTrackV;

    open spec fn view(&self) -> CachedTrackV {
        CachedTrackV { track: self.track@, modified: self.modified, size: self.size }
    }
}

/// The cache of one root: file path (exact) to cached track.
pub struct RootCache {
    pub entries: Vec<(String, CachedTrack)>,
}

impl View for RootCache {
    type V = Seq<(Seq<char>, CachedTrackV)>;

    open spec fn view(&self) -> Seq<(Seq<char>, CachedTrackV)> {
        assoc_view(self.entries@)
    }
}

impl RootCache {
    /// An empty cache, as the first scan of a root starts from.
    pub fn new() -> (r: RootCache)
        ensures
            r@ =~= Seq::<(Seq<char>, CachedTrackV)>::empty(),
    {
        RootCache { entries: Vec::new() }
    }

    /// The entry stored under `path`, if any.
    pub fn get(&self, path: &str) -> (r: Option<&CachedTrack>)
        ensures
            match r {
                Some(c) => assoc_lookup(self@, path@) == Some((*c)@),
                None => assoc_lookup(self@, path@) is None,
            },
    {
        assoc_get(&self.entries, path)
    }

    /// Store (or refresh) the entry under `path`.
    pub fn put(&mut self, path: String, entry: CachedTrack)
        ensures
            final(self)@ == assoc_set(old(self)@, path@, entry@),
    {
        assoc_put(&mut self.entries, path, entry)
    }

    /// How many entries the cache holds.
    pub fn len(&self) -> (r: usize)
        ensures
            r == self@.len(),
    {
        self.entries.len()
    }
}

/// The shared cache over all scan roots, keyed by root path up to ASCII case
/// (tolerating platform path-case differences). The application owns one of
/// these for the process's lifetime, bracketing each scan with a take and a
/// publish.
pub struct ScanCache {
    pub roots: Vec<(String, RootCache)>,
}

impl View for ScanCache {
    type V = Seq<(Seq<char>, Seq<(Seq<char>, CachedTrackV)>)>;

    open spec fn view(&self) -> Seq<(Seq<char>, Seq<(Seq<char>, CachedTrackV)>)> {
        assoc_view(self.roots@)
    }
}

impl ScanCache {
    /// The empty cache a process starts with: every first scan is cold.
    pub fn new() -> (r: ScanCache)
        ensures
            r@ =~= Seq::<(Seq<char>, Seq<(Seq<char>, CachedTrackV)>)>::empty(),
    {
        ScanCache { roots: Vec::new() }
    }

    /// Swap the cache of `root_key` out for exclusive use by one scan,
    /// leaving an empty map in its place; an unknown root gets a fresh empty
    /// entry.
    pub fn take_root(&mut self, root_key: &str) -> (r: RootCache)
        ensures
            ({
                let i = assoc_find_ci(old(self)@, root_key@);
                if i == -1 {
                    r@ =~= Seq::<(Seq<char>, CachedTrackV)>::empty() && final(self)@ == old(
                        self,
                    )@.push((root_key@, Seq::<(Seq<char>, CachedTrackV)>::empty()))
                } else {
                    r@ == old(self)@[i].1 && final(self)@ == old(self)@.update(
                        i,
                        (old(self)@[i].0, Seq::<(Seq<char>, CachedTrackV)>::empty()),
                    )
                }
            }),
    {
        let n = self.roots.len();
        let mut i: usize = 0;
        while i < n
            invariant
                n == self.roots@.len(),
                i <= n,
                self == old(self),
                forall|j: int|
                    0 <= j < i ==> lower_seq((#[trigger] assoc_view(self.roots@)[j]).0)
                        != lower_seq(root_key@),
            decreases n - i,
        {
            if str_eq_ignore_case(self.roots[i].0.as_str(), root_key) {
                proof {
                    assert(assoc_view(self.roots@)[i as int].0 == self.roots@[i as int].0@);
                    lemma_assoc_find_ci_is(assoc_view(self.roots@), root_key@, i as int);
                }
                let (key, taken) = self.roots.remove(i);
                self.roots.insert(i, (key, RootCache::new()));
                proof {
                    assert(final(self)@ =~= old(self)@.update(
                        i as int,
                        (old(self)@[i as int].0, Seq::<(Seq<char>, CachedTrackV)>::empty()),
                    ));
                }
                return taken;
            }
            proof {
                assert(assoc_view(self.roots@)[i as int].0 == self.roots@[i as int].0@);
            }
            i = i + 1;
        }
        proof {
            lemma_assoc_find_ci_none(assoc_view(self.roots@), root_key@);
        }
        self.roots.push((root_key.to_owned(), RootCache::new()));
        proof {
            assert(final(self)@ =~= old(self)@.push(
                (root_key@, Seq::<(Seq<char>, CachedTrackV)>::empty()),
            ));
        }
        RootCache::new()
    }

    /// Publish the cache a finished scan built, last writer wins.
    pub fn publish_root(&mut self, root_key: &str, cache: RootCache)
        ensures
            ({
                let i = assoc_find_ci(old(self)@, root_key@);
                if i == -1 {
                    final(self)@ == old(self)@.push((root_key@, cache@))
                } else {
                    final(self)@ == old(self)@.update(i, (old(self)@[i].0, cache@))
                }
            }),
    {
        let n = self.roots.len();
        let mut i: usize = 0;
        while i < n
            invariant
                n == self.roots@.len(),
                i <= n,
                self == old(self),
                forall|j: int|
                    0 <= j < i ==> lower_seq((#[trigger] assoc_view(self.roots@)[j]).0)
                        != lower_seq(root_key@),
            decreases n - i,
        {
            if str_eq_ignore_case(self.roots[i].0.as_str(), root_key) {
                proof {
                    assert(assoc_view(self.roots@)[i as int].0 == self.roots@[i as int].0@);
                    lemma_assoc_find_ci_is(assoc_view(self.roots@), root_key@, i as int);
                }
                let (key, _) = self.roots.remove(i);
                self.roots.insert(i, (key, cache));
                proof {
                    assert(final(self)@ =~= old(self)@.update(
                        i as int,
                        (old(self)@[i as int].0, cache@),
                    ));
                }
                return ;
            }
            proof {
                assert(assoc_view(self.roots@)[i as int].0 == self.roots@[i as int].0@);
            }
            i = i + 1;
        }
        proof {
            lemma_assoc_find_ci_none(assoc_view(self.roots@), root_key@);
        }
        self.roots.push((root_key.to_owned(), cache));
        proof {
            assert(final(self)@ =~= old(self)@.push((root_key@, cache@)));
        }
    }
}

} // verus!
