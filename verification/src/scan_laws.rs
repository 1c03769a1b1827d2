//! Laws of the local scanner: the folder forest is well-formed, the cache a
//! scan publishes holds exactly the files it saw, a stale or missing entry is
//! re-probed, and rescanning an unchanged tree reproduces the result with
//! full cache reuse.

use vstd::prelude::*;
use crate::assoc::{
    assoc_find_ci, assoc_lookup, assoc_lookup_ci, lemma_assoc_find_ci_works,
    lemma_assoc_set_ci_preserves_found, lemma_assoc_set_ci_registers,
};
use crate::cache::CachedTrackV;
use crate::local::{
    accepted_dir, accepted_file, dir_parent_listed, distinct_file_paths, needs_probe, plan_spec,
    scan_fold, scan_init, scan_spec, scan_step, scan_step_dir, scan_step_file, ScanState, FsEntryV,
    walk_wf,
};
use crate::meta::ProbeV;
use crate::model::FolderV;
use crate::strutil::{
    depth_under, is_under, last_index_of, lemma_count_char_le_len, lower_seq, rel_part,
};

verus! {

/// One folder's place in a well-formed forest: it is a directory below the
/// root named by its own path; at depth one it is a root of the forest; any
/// deeper it points at a folder registered before it.
pub open spec fn folder_hierarchy_ok(root: Seq<char>, folders: Seq<FolderV>, k: int) -> bool {
    let f = folders[k];
    &&& f.id == f.path
    &&& is_under(root, f.path)
    &&& (depth_under(root, f.path) == 1 ==> f.parent_id is None)
    &&& (depth_under(root, f.path) >= 2 ==> f.parent_id is Some)
    &&& match f.parent_id {
        Some(pid) => exists|g: int| 0 <= g < k && (#[trigger] folders[g]).id == pid,
        None => true,
    }
}

/// Some registered folder carries this id.
pub open spec fn id_is_folder(folders: Seq<FolderV>, v: Seq<char>) -> bool {
    exists|g: int| 0 <= g < folders.len() && (#[trigger] folders[g]).id == v
}

/// The internal shape every state of a parents-first scan keeps: the root
/// stays the first registry entry, every other registry value is a registered
/// folder's id, and the folders form a well-formed forest.
pub open spec fn scan_forest_wf(root: Seq<char>, st: ScanState) -> bool {
    &&& st.fmap.len() >= 1
    &&& st.fmap[0].0 == root
    &&& (forall|k: int|
        1 <= k < st.fmap.len() ==> id_is_folder(st.folders, (#[trigger] st.fmap[k]).1))
    &&& (forall|k: int| 0 <= k < st.folders.len() ==> folder_hierarchy_ok(root, st.folders, k))
}

/// Every directory a walk registers stays findable in the final registry.
proof fn lemma_fold_registers_dirs(
    root: Seq<char>,
    old_cache: Seq<(Seq<char>, CachedTrackV)>,
    parsed: Seq<(Seq<char>, ProbeV)>,
    es: Seq<FsEntryV>,
    j: int,
)
    requires
        0 <= j < es.len(),
        accepted_dir(root, es[j]),
    ensures
        assoc_find_ci(scan_fold(root, old_cache, parsed, es).fmap, es[j].path) != -1,
    decreases es.len(),
{
    let pre = es.drop_last();
    let e = es.last();
    let st0 = scan_fold(root, old_cache, parsed, pre);
    let st1 = scan_fold(root, old_cache, parsed, es);
    assert(st1 == scan_step(root, old_cache, parsed, st0, e));
    if j == es.len() - 1 {
        assert(st1.fmap == crate::assoc::assoc_set_ci(st0.fmap, e.path, e.path));
        lemma_assoc_set_ci_registers(st0.fmap, e.path, e.path);
    } else {
        assert(pre[j] == es[j]);
        lemma_fold_registers_dirs(root, old_cache, parsed, pre, j);
        if e.is_dir {
            if !(e.path == root || !is_under(root, e.path) || last_index_of(e.path, '/') == -1) {
                lemma_assoc_set_ci_preserves_found(st0.fmap, e.path, e.path, es[j].path);
            }
        }
    }
}

/// One directory step preserves the forest shape, provided a deep
/// directory's parent was registered before it.
proof fn lemma_step_dir_forest_wf(root: Seq<char>, st0: ScanState, e: FsEntryV)
    requires
        scan_forest_wf(root, st0),
        e.is_dir,
        accepted_dir(root, e) && depth_under(root, e.path) >= 2 ==> {
            let parent = e.path.take(last_index_of(e.path, '/'));
            lower_seq(parent) != lower_seq(root) && assoc_find_ci(st0.fmap, parent) != -1
        },
    ensures
        scan_forest_wf(root, scan_step_dir(root, st0, e)),
{
    let st1 = scan_step_dir(root, st0, e);
    if e.path == root || !is_under(root, e.path) || last_index_of(e.path, '/') == -1 {
        assert(st1 == st0);
    } else {
        assert(accepted_dir(root, e));
        let depth = depth_under(root, e.path);
        let parent = e.path.take(last_index_of(e.path, '/'));
        lemma_count_char_le_len(rel_part(root, e.path), '/');
        assert(depth >= 1);
        let parent_id = if depth == 1 {
            None
        } else {
            assoc_lookup_ci(st0.fmap, parent)
        };
        let big_k = st0.folders.len() as int;
        lemma_assoc_find_ci_works(st0.fmap, parent);
        let t = assoc_find_ci(st0.fmap, parent);
        if depth >= 2 {
            assert(t != -1);
            assert(lower_seq(st0.fmap[t].0) == lower_seq(parent));
            assert(t != 0);
            assert(parent_id == Some(st0.fmap[t].1));
        }
        // the new folder and the untouched ones are well-placed
        assert forall|k: int| 0 <= k < st1.folders.len() implies folder_hierarchy_ok(
            root,
            st1.folders,
            k,
        ) by {
            if k < big_k {
                assert(folder_hierarchy_ok(root, st0.folders, k));
                assert(st1.folders[k] == st0.folders[k]);
                match st0.folders[k].parent_id {
                    Some(pid) => {
                        let g = choose|g: int| 0 <= g < k && (#[trigger] st0.folders[g]).id == pid;
                        assert(st1.folders[g] == st0.folders[g]);
                    },
                    None => {},
                }
            } else {
                if depth >= 2 {
                    let g = choose|g: int|
                        0 <= g < st0.folders.len() && (#[trigger] st0.folders[g]).id
                            == st0.fmap[t].1;
                    assert(st1.folders[g] == st0.folders[g]);
                }
            }
        }
        // the registry after insert-or-update still points at folders
        let t0 = assoc_find_ci(st0.fmap, e.path);
        lemma_assoc_find_ci_works(st0.fmap, e.path);
        if t0 == -1 {
            assert(st1.fmap == st0.fmap.push((e.path, e.path)));
            assert(st1.fmap[0] == st0.fmap[0]);
            assert forall|k: int| 1 <= k < st1.fmap.len() implies id_is_folder(
                st1.folders,
                (#[trigger] st1.fmap[k]).1,
            ) by {
                if k < st0.fmap.len() {
                    assert(id_is_folder(st0.folders, st0.fmap[k].1));
                    let g = choose|g: int|
                        0 <= g < st0.folders.len() && (#[trigger] st0.folders[g]).id
                            == st0.fmap[k].1;
                    assert(st1.folders[g] == st0.folders[g]);
                    assert(st1.fmap[k] == st0.fmap[k]);
                } else {
                    assert(st1.fmap[k].1 == e.path);
                    assert(st1.folders[big_k].id == e.path);
                }
            }
        } else {
            assert(st1.fmap == st0.fmap.update(t0, (st0.fmap[t0].0, e.path)));
            assert forall|k: int| 1 <= k < st1.fmap.len() implies id_is_folder(
                st1.folders,
                (#[trigger] st1.fmap[k]).1,
            ) by {
                if k != t0 {
                    assert(id_is_folder(st0.folders, st0.fmap[k].1));
                    let g = choose|g: int|
                        0 <= g < st0.folders.len() && (#[trigger] st0.folders[g]).id
                            == st0.fmap[k].1;
                    assert(st1.folders[g] == st0.folders[g]);
                    assert(st1.fmap[k] == st0.fmap[k]);
                } else {
                    assert(st1.fmap[k].1 == e.path);
                    assert(st1.folders[big_k].id == e.path);
                }
            }
        }
    }
}

/// One file step preserves the forest shape: it only grows a track count.
proof fn lemma_step_file_forest_wf(
    root: Seq<char>,
    old_cache: Seq<(Seq<char>, CachedTrackV)>,
    parsed: Seq<(Seq<char>, ProbeV)>,
    st0: ScanState,
    e: FsEntryV,
)
    requires
        scan_forest_wf(root, st0),
        !e.is_dir,
    ensures
        scan_forest_wf(root, scan_step_file(root, old_cache, parsed, st0, e)),
{
    let st1 = scan_step_file(root, old_cache, parsed, st0, e);
    assert(st1.fmap == st0.fmap);
    assert(st1.folders.len() == st0.folders.len());
    assert(forall|k: int|
        0 <= k < st0.folders.len() ==> (#[trigger] st1.folders[k]).id == st0.folders[k].id
            && st1.folders[k].path == st0.folders[k].path && st1.folders[k].parent_id
            == st0.folders[k].parent_id);
    assert forall|k: int| 0 <= k < st1.folders.len() implies folder_hierarchy_ok(
        root,
        st1.folders,
        k,
    ) by {
        assert(folder_hierarchy_ok(root, st0.folders, k));
        match st0.folders[k].parent_id {
            Some(pid) => {
                let g = choose|g: int| 0 <= g < k && (#[trigger] st0.folders[g]).id == pid;
                assert(st1.folders[g].id == st0.folders[g].id);
            },
            None => {},
        }
    }
    assert forall|k: int| 1 <= k < st1.fmap.len() implies id_is_folder(
        st1.folders,
        (#[trigger] st1.fmap[k]).1,
    ) by {
        assert(1 <= k < st0.fmap.len());
        assert(id_is_folder(st0.folders, st0.fmap[k].1));
        let g = choose|g: int|
            0 <= g < st0.folders.len() && (#[trigger] st0.folders[g]).id == st0.fmap[k].1;
        assert(st1.folders[g].id == st0.folders[g].id);
        assert(st1.fmap[k].1 == st0.fmap[k].1);
        assert(0 <= g < st1.folders.len() && st1.folders[g].id == st1.fmap[k].1);
    }
}

/// The forest shape holds after every prefix of a parents-first walk.
proof fn lemma_scan_fold_forest_wf(
    root: Seq<char>,
    old_cache: Seq<(Seq<char>, CachedTrackV)>,
    parsed: Seq<(Seq<char>, ProbeV)>,
    es: Seq<FsEntryV>,
)
    requires
        walk_wf(root, es),
    ensures
        scan_forest_wf(root, scan_fold(root, old_cache, parsed, es)),
    decreases es.len(),
{
    if es.len() == 0 {
        assert(scan_fold(root, old_cache, parsed, es) == scan_init(root));
        assert(scan_init(root).fmap.len() == 1);
        assert(scan_init(root).fmap[0].0 == root);
    } else {
        let pre = es.drop_last();
        let e = es.last();
        let n = es.len() - 1;
        assert(forall|j: int| 0 <= j < n ==> pre[j] == es[j]);
        assert forall|i: int|
            0 <= i < pre.len() && accepted_dir(root, #[trigger] pre[i]) && depth_under(
                root,
                pre[i].path,
            ) >= 2 implies dir_parent_listed(root, pre, i) by {
            assert(pre[i] == es[i]);
            assert(dir_parent_listed(root, es, i));
            let j = choose|j: int|
                0 <= j < i && accepted_dir(root, #[trigger] es[j]) && es[j].path == es[i].path.take(
                    last_index_of(es[i].path, '/'),
                );
            assert(pre[j] == es[j]);
        }
        lemma_scan_fold_forest_wf(root, old_cache, parsed, pre);
        let st0 = scan_fold(root, old_cache, parsed, pre);
        assert(scan_fold(root, old_cache, parsed, es) == scan_step(
            root,
            old_cache,
            parsed,
            st0,
            e,
        ));
        if e.is_dir {
            if accepted_dir(root, e) && depth_under(root, e.path) >= 2 {
                assert(dir_parent_listed(root, es, n));
                let parent = e.path.take(last_index_of(e.path, '/'));
                let j = choose|j: int|
                    0 <= j < n && accepted_dir(root, #[trigger] es[j]) && es[j].path == parent;
                assert(pre[j] == es[j]);
                lemma_fold_registers_dirs(root, old_cache, parsed, pre, j);
            }
            lemma_step_dir_forest_wf(root, st0, e);
        } else {
            lemma_step_file_forest_wf(root, old_cache, parsed, st0, e);
        }
    }
}

/// The folder hierarchy invariant: in the result of a scan over a walk that
/// lists parents before children, every folder at depth one is a forest root
/// (no parent id), and every deeper folder carries a parent id that resolves
/// to a folder registered earlier in the same result.
pub proof fn lemma_folder_hierarchy(
    root: Seq<char>,
    old_cache: Seq<(Seq<char>, CachedTrackV)>,
    parsed: Seq<(Seq<char>, ProbeV)>,
    es: Seq<FsEntryV>,
)
    requires
        walk_wf(root, es),
    ensures
        ({
            let folders = scan_spec(root, old_cache, parsed, es).0.folders;
            forall|k: int| 0 <= k < folders.len() ==> folder_hierarchy_ok(root, folders, k)
        }),
{
    lemma_scan_fold_forest_wf(root, old_cache, parsed, es);
}


/// Whatever the new cache holds was seen by this very scan: entries for
/// deleted files never survive.
pub proof fn lemma_cache_holds_only_seen(
    root: Seq<char>,
    old_cache: Seq<(Seq<char>, CachedTrackV)>,
    parsed: Seq<(Seq<char>, ProbeV)>,
    es: Seq<FsEntryV>,
    q: Seq<char>,
)
    requires
        assoc_lookup(scan_fold(root, old_cache, parsed, es).cache, q) is Some,
    ensures
        exists|i: int| 0 <= i < es.len() && accepted_file(#[trigger] es[i]) && es[i].path == q,
    decreases es.len(),
{
    if es.len() == 0 {
        assert(scan_fold(root, old_cache, parsed, es).cache =~= Seq::<
            (Seq<char>, CachedTrackV),
        >::empty());
        assert(false);
    } else {
        let pre = es.drop_last();
        let e = es.last();
        let n = es.len() - 1;
        let st0 = scan_fold(root, old_cache, parsed, pre);
        let st1 = scan_fold(root, old_cache, parsed, es);
        assert(st1 == scan_step(root, old_cache, parsed, st0, e));
        if !e.is_dir && accepted_file(e) {
            let stamp = e.meta->Some_0;
            let entry = st1.cache[crate::assoc::assoc_find(st1.cache, e.path)];
            if q == e.path {
                assert(es[n] == e);
            } else {
                let track = st1.tracks[st1.tracks.len() - 1];
                crate::assoc::lemma_assoc_set_frame(
                    st0.cache,
                    e.path,
                    CachedTrackV { track, modified: stamp.modified, size: stamp.size },
                    q,
                );
                lemma_cache_holds_only_seen(root, old_cache, parsed, pre, q);
                let i = choose|i: int|
                    0 <= i < pre.len() && accepted_file(#[trigger] pre[i]) && pre[i].path == q;
                assert(es[i] == pre[i]);
            }
        } else {
            assert(st1.cache == st0.cache);
            lemma_cache_holds_only_seen(root, old_cache, parsed, pre, q);
            let i = choose|i: int|
                0 <= i < pre.len() && accepted_file(#[trigger] pre[i]) && pre[i].path == q;
            assert(es[i] == pre[i]);
        }
    }
}

/// A cache whose every entry records the track of the file it is keyed by.
pub open spec fn cache_entries_wf(c: Seq<(Seq<char>, CachedTrackV)>) -> bool {
    forall|k: int| 0 <= k < c.len() ==> (#[trigger] c[k]).1.track.id == c[k].0
}

/// A published cache keeps its entries keyed by their tracks: scans preserve
/// the shape.
pub proof fn lemma_cache_entries_wf_preserved(
    root: Seq<char>,
    old_cache: Seq<(Seq<char>, CachedTrackV)>,
    parsed: Seq<(Seq<char>, ProbeV)>,
    es: Seq<FsEntryV>,
)
    requires
        cache_entries_wf(old_cache),
    ensures
        cache_entries_wf(scan_fold(root, old_cache, parsed, es).cache),
        forall|k: int|
            0 <= k < scan_fold(root, old_cache, parsed, es).tracks.len() ==> exists|i: int|
                0 <= i < es.len() && accepted_file(#[trigger] es[i]) && (#[trigger] scan_fold(
                    root,
                    old_cache,
                    parsed,
                    es,
                ).tracks[k]).id == es[i].path,
    decreases es.len(),
{
    if es.len() == 0 {
    } else {
        let pre = es.drop_last();
        let e = es.last();
        let n = es.len() - 1;
        lemma_cache_entries_wf_preserved(root, old_cache, parsed, pre);
        let st0 = scan_fold(root, old_cache, parsed, pre);
        let st1 = scan_fold(root, old_cache, parsed, es);
        assert(st1 == scan_step(root, old_cache, parsed, st0, e));
        assert(forall|j: int| 0 <= j < n ==> pre[j] == es[j]);
        if !e.is_dir && accepted_file(e) {
            let stamp = e.meta->Some_0;
            let track = st1.tracks[st1.tracks.len() - 1];
            // the pushed track records the file's own path as its id
            assert(track.id == e.path) by {
                match assoc_lookup(old_cache, e.path) {
                    Some(c) => {
                        crate::assoc::lemma_assoc_find_works(old_cache, e.path);
                        assert(c.track.id == e.path);
                    },
                    None => {},
                }
            }
            assert(st1.cache == crate::assoc::assoc_set(
                st0.cache,
                e.path,
                CachedTrackV { track, modified: stamp.modified, size: stamp.size },
            ));
            assert forall|k: int| 0 <= k < st1.cache.len() implies (#[trigger] st1.cache[k]).1.track.id
                == st1.cache[k].0 by {
                crate::assoc::lemma_assoc_find_works(st0.cache, e.path);
                let t = crate::assoc::assoc_find(st0.cache, e.path);
                if t == -1 {
                    if k < st0.cache.len() {
                        assert(st1.cache[k] == st0.cache[k]);
                    } else {
                        assert(st1.cache[k] == (e.path, CachedTrackV {
                            track,
                            modified: stamp.modified,
                            size: stamp.size,
                        }));
                    }
                } else {
                    if k != t {
                        assert(st1.cache[k] == st0.cache[k]);
                    }
                }
            }
            assert forall|k: int| 0 <= k < st1.tracks.len() implies exists|i: int|
                0 <= i < es.len() && accepted_file(#[trigger] es[i]) && (#[trigger] st1.tracks[k]).id
                    == es[i].path by {
                if k < st0.tracks.len() {
                    assert(st1.tracks[k] == st0.tracks[k]);
                    let i = choose|i: int|
                        0 <= i < pre.len() && accepted_file(#[trigger] pre[i]) && st0.tracks[k].id
                            == pre[i].path;
                    assert(es[i] == pre[i]);
                } else {
                    assert(st1.tracks[k] == track);
                    assert(accepted_file(es[n]) && track.id == es[n].path);
                }
            }
        } else {
            assert(st1.cache == st0.cache);
            assert(st1.tracks == st0.tracks);
            assert forall|k: int| 0 <= k < st1.tracks.len() implies exists|i: int|
                0 <= i < es.len() && accepted_file(#[trigger] es[i]) && (#[trigger] st1.tracks[k]).id
                    == es[i].path by {
                let i = choose|i: int|
                    0 <= i < pre.len() && accepted_file(#[trigger] pre[i]) && st0.tracks[k].id
                        == pre[i].path;
                assert(es[i] == pre[i]);
            }
        }
    }
}

/// Deletion pruning: rescanning after a file disappeared omits it from the
/// tracks and from the published cache, provided the incoming cache keys its
/// entries by their tracks (an empty cache or any published one does).
pub proof fn lemma_deletion_pruning(
    root: Seq<char>,
    old_cache: Seq<(Seq<char>, CachedTrackV)>,
    parsed: Seq<(Seq<char>, ProbeV)>,
    es: Seq<FsEntryV>,
    q: Seq<char>,
)
    requires
        cache_entries_wf(old_cache),
        forall|i: int| 0 <= i < es.len() && accepted_file(#[trigger] es[i]) ==> es[i].path != q,
    ensures
        ({
            let (r, c) = scan_spec(root, old_cache, parsed, es);
            &&& forall|k: int| 0 <= k < r.tracks.len() ==> (#[trigger] r.tracks[k]).id != q
            &&& assoc_lookup(c, q) is None
        }),
{
    lemma_cache_entries_wf_preserved(root, old_cache, parsed, es);
    let (r, c) = scan_spec(root, old_cache, parsed, es);
    assert forall|k: int| 0 <= k < r.tracks.len() implies (#[trigger] r.tracks[k]).id != q by {
        let i = choose|i: int|
            0 <= i < es.len() && accepted_file(#[trigger] es[i]) && r.tracks[k].id == es[i].path;
    }
    if assoc_lookup(c, q) is Some {
        lemma_cache_holds_only_seen(root, old_cache, parsed, es, q);
    }
}


/// The track the scan resolves for the accepted file at index `i`.
pub open spec fn track_at(
    root: Seq<char>,
    old_cache: Seq<(Seq<char>, CachedTrackV)>,
    parsed: Seq<(Seq<char>, ProbeV)>,
    es: Seq<FsEntryV>,
    i: int,
) -> crate::model::TrackV {
    scan_fold(root, old_cache, parsed, es.take(i + 1)).tracks.last()
}

/// In a walk without duplicate file paths, the published cache maps each
/// accepted file to exactly the track and stamp this scan resolved for it.
pub proof fn lemma_fold_cache_stamp(
    root: Seq<char>,
    old_cache: Seq<(Seq<char>, CachedTrackV)>,
    parsed: Seq<(Seq<char>, ProbeV)>,
    es: Seq<FsEntryV>,
    i: int,
)
    requires
        distinct_file_paths(es),
        0 <= i < es.len(),
        accepted_file(es[i]),
    ensures
        ({
            let c = scan_fold(root, old_cache, parsed, es).cache;
            match assoc_lookup(c, es[i].path) {
                Some(ce) => ce.modified == es[i].meta->Some_0.modified && ce.size
                    == es[i].meta->Some_0.size && ce.track == track_at(
                    root,
                    old_cache,
                    parsed,
                    es,
                    i,
                ),
                None => false,
            }
        }),
    decreases es.len(),
{
    let pre = es.drop_last();
    let e = es.last();
    let n = es.len() - 1;
    let st0 = scan_fold(root, old_cache, parsed, pre);
    let st1 = scan_fold(root, old_cache, parsed, es);
    assert(st1 == scan_step(root, old_cache, parsed, st0, e));
    assert(forall|j: int| 0 <= j < n ==> pre[j] == es[j]);
    assert(distinct_file_paths(pre)) by {
        assert(forall|a: int, b: int|
            0 <= a < b < pre.len() && accepted_file(#[trigger] pre[a]) && accepted_file(
                #[trigger] pre[b],
            ) ==> es[a].path != es[b].path);
    }
    if i == n {
        let stamp = e.meta->Some_0;
        let track = st1.tracks[st1.tracks.len() - 1];
        crate::assoc::lemma_assoc_set_same(
            st0.cache,
            e.path,
            CachedTrackV { track, modified: stamp.modified, size: stamp.size },
        );
        assert(es.take(n + 1) =~= es);
        assert(track_at(root, old_cache, parsed, es, n) == track);
    } else {
        lemma_fold_cache_stamp(root, old_cache, parsed, pre, i);
        assert(es.take(i + 1) =~= pre.take(i + 1));
        assert(track_at(root, old_cache, parsed, es, i) == track_at(
            root,
            old_cache,
            parsed,
            pre,
            i,
        ));
        if !e.is_dir && accepted_file(e) {
            let stamp = e.meta->Some_0;
            let track = st1.tracks[st1.tracks.len() - 1];
            assert(es[i].path != es[n].path);
            crate::assoc::lemma_assoc_set_frame(
                st0.cache,
                e.path,
                CachedTrackV { track, modified: stamp.modified, size: stamp.size },
                es[i].path,
            );
        } else {
            assert(st1.cache == st0.cache);
        }
    }
}

/// A plan over entries none of which needs a probe is empty.
proof fn lemma_plan_all_fresh(c: Seq<(Seq<char>, CachedTrackV)>, es: Seq<FsEntryV>)
    requires
        forall|i: int| 0 <= i < es.len() ==> !needs_probe(c, #[trigger] es[i]),
    ensures
        plan_spec(c, es) == Seq::<Seq<char>>::empty(),
    decreases es.len(),
{
    if es.len() > 0 {
        let pre = es.drop_last();
        assert(forall|i: int| 0 <= i < pre.len() ==> pre[i] == es[i]);
        lemma_plan_all_fresh(c, pre);
    }
}

/// A plan over entries of which exactly one needs a probe holds exactly its
/// path.
proof fn lemma_plan_single(c: Seq<(Seq<char>, CachedTrackV)>, es: Seq<FsEntryV>, i: int)
    requires
        0 <= i < es.len(),
        needs_probe(c, es[i]),
        forall|j: int| 0 <= j < es.len() && j != i ==> !needs_probe(c, #[trigger] es[j]),
    ensures
        plan_spec(c, es) == seq![es[i].path],
    decreases es.len(),
{
    let pre = es.drop_last();
    let n = es.len() - 1;
    assert(forall|j: int| 0 <= j < n ==> pre[j] == es[j]);
    if i == n {
        assert(forall|j: int| 0 <= j < pre.len() ==> !needs_probe(c, #[trigger] pre[j]));
        lemma_plan_all_fresh(c, pre);
        assert(plan_spec(c, es) =~= seq![es[i].path]);
    } else {
        lemma_plan_single(c, pre, i);
        assert(!needs_probe(c, es[n]));
        assert(plan_spec(c, es) == plan_spec(c, pre));
    }
}

/// An accepted audio file within the probe ceiling whose path the cache does
/// not hold is planned for a fresh probe — a re-added file is parsed anew,
/// never served from a stale entry.
pub proof fn lemma_fresh_path_is_probed(
    c: Seq<(Seq<char>, CachedTrackV)>,
    es: Seq<FsEntryV>,
    i: int,
)
    requires
        0 <= i < es.len(),
        accepted_file(es[i]),
        es[i].meta->Some_0.size <= crate::meta::MAX_METADATA_PARSE_FILE_SIZE_BYTES,
        assoc_lookup(c, es[i].path) is None,
    ensures
        plan_spec(c, es).contains(es[i].path),
    decreases es.len(),
{
    let pre = es.drop_last();
    let n = es.len() - 1;
    assert(needs_probe(c, es[i]));
    if i == n {
        assert(plan_spec(c, es) == plan_spec(c, pre).push(es[i].path));
        assert(plan_spec(c, es).last() == es[i].path);
    } else {
        assert(pre[i] == es[i]);
        lemma_fresh_path_is_probed(c, pre, i);
        let k = choose|k: int| 0 <= k < plan_spec(c, pre).len() && plan_spec(c, pre)[k] == es[i].path;
        if needs_probe(c, es[n]) {
            assert(plan_spec(c, es)[k] == es[i].path);
        } else {
            assert(plan_spec(c, es) == plan_spec(c, pre));
        }
    }
}

/// Rescanning the very same walk against the cache the first scan published
/// reproduces its state step for step, whatever probe outcomes are supplied.
proof fn lemma_refold(
    root: Seq<char>,
    old_cache: Seq<(Seq<char>, CachedTrackV)>,
    parsed: Seq<(Seq<char>, ProbeV)>,
    parsed2: Seq<(Seq<char>, ProbeV)>,
    es: Seq<FsEntryV>,
    m: int,
)
    requires
        distinct_file_paths(es),
        0 <= m <= es.len(),
    ensures
        ({
            let c1 = scan_fold(root, old_cache, parsed, es).cache;
            scan_fold(root, c1, parsed2, es.take(m)) == scan_fold(
                root,
                old_cache,
                parsed,
                es.take(m),
            )
        }),
    decreases m,
{
    let c1 = scan_fold(root, old_cache, parsed, es).cache;
    if m == 0 {
        assert(es.take(0) =~= Seq::<FsEntryV>::empty());
    } else {
        lemma_refold(root, old_cache, parsed, parsed2, es, m - 1);
        let e = es[m - 1];
        assert(es.take(m).drop_last() =~= es.take(m - 1));
        assert(es.take(m).last() == e);
        let stp = scan_fold(root, old_cache, parsed, es.take(m - 1));
        assert(scan_fold(root, old_cache, parsed, es.take(m)) == scan_step(
            root,
            old_cache,
            parsed,
            stp,
            e,
        ));
        assert(scan_fold(root, c1, parsed2, es.take(m)) == scan_step(root, c1, parsed2, stp, e));
        if e.is_dir {
            assert(scan_step(root, c1, parsed2, stp, e) == scan_step_dir(root, stp, e));
            assert(scan_step(root, old_cache, parsed, stp, e) == scan_step_dir(root, stp, e));
        } else {
            if accepted_file(e) {
                lemma_fold_cache_stamp(root, old_cache, parsed, es, m - 1);
                let stamp = e.meta->Some_0;
                let parent = e.path.take(last_index_of(e.path, '/'));
                let folder_id = crate::local::file_folder_id(root, stp.fmap, parent);
                let ce = assoc_lookup(c1, e.path)->Some_0;
                assert(ce.modified == stamp.modified && ce.size == stamp.size);
                let t1 = track_at(root, old_cache, parsed, es, m - 1);
                assert(ce.track == t1);
                // the first scan resolved this very track with the same
                // folder and no inline artwork, in both of its branches
                assert(t1 == scan_step_file(root, old_cache, parsed, stp, e).tracks.last());
                assert(t1.folder_id == folder_id && t1.cover_url is None);
                let t2 = crate::model::TrackV { folder_id, cover_url: None, ..ce.track };
                assert(t2 == t1);
                assert(scan_step_file(root, c1, parsed2, stp, e) == scan_step_file(
                    root,
                    old_cache,
                    parsed,
                    stp,
                    e,
                ));
            } else {
                assert(scan_step_file(root, c1, parsed2, stp, e) == scan_step_file(
                    root,
                    old_cache,
                    parsed,
                    stp,
                    e,
                ));
            }
        }
    }
}

/// Idempotence: rescanning an unchanged tree against the cache the first scan
/// published yields the identical result — same tracks, folders and revision —
/// republishes the identical cache, and plans no probe at all (full reuse).
pub proof fn lemma_rescan_idempotent(
    root: Seq<char>,
    old_cache: Seq<(Seq<char>, CachedTrackV)>,
    parsed: Seq<(Seq<char>, ProbeV)>,
    parsed2: Seq<(Seq<char>, ProbeV)>,
    es: Seq<FsEntryV>,
)
    requires
        distinct_file_paths(es),
    ensures
        ({
            let (r1, c1) = scan_spec(root, old_cache, parsed, es);
            let (r2, c2) = scan_spec(root, c1, parsed2, es);
            &&& r2 == r1
            &&& c2 == c1
            &&& plan_spec(c1, es) == Seq::<Seq<char>>::empty()
        }),
{
    lemma_refold(root, old_cache, parsed, parsed2, es, es.len() as int);
    assert(es.take(es.len() as int) =~= es);
    let c1 = scan_fold(root, old_cache, parsed, es).cache;
    assert forall|i: int| 0 <= i < es.len() implies !needs_probe(c1, #[trigger] es[i]) by {
        if accepted_file(es[i]) {
            lemma_fold_cache_stamp(root, old_cache, parsed, es, i);
        }
    }
    lemma_plan_all_fresh(c1, es);
}

/// Change sensitivity, the reuse half: after one file's stamp changes, a
/// rescan plans a fresh probe for exactly that file; every other cached entry
/// is reused untouched.
pub proof fn lemma_change_reparses_only_that_file(
    root: Seq<char>,
    old_cache: Seq<(Seq<char>, CachedTrackV)>,
    parsed: Seq<(Seq<char>, ProbeV)>,
    es: Seq<FsEntryV>,
    i: int,
    e2: FsEntryV,
)
    requires
        distinct_file_paths(es),
        0 <= i < es.len(),
        accepted_file(es[i]),
        !e2.is_dir,
        e2.path == es[i].path,
        e2.meta is Some,
        e2.meta->Some_0 != es[i].meta->Some_0,
        e2.meta->Some_0.size <= crate::meta::MAX_METADATA_PARSE_FILE_SIZE_BYTES,
    ensures
        plan_spec(scan_fold(root, old_cache, parsed, es).cache, es.update(i, e2)) == seq![
            e2.path,
        ],
{
    let c1 = scan_fold(root, old_cache, parsed, es).cache;
    let es2 = es.update(i, e2);
    assert(accepted_file(e2)) by {
        assert(crate::local::is_audio_path(e2.path) == crate::local::is_audio_path(es[i].path));
    }
    lemma_fold_cache_stamp(root, old_cache, parsed, es, i);
    let ce = assoc_lookup(c1, es[i].path)->Some_0;
    assert(needs_probe(c1, es2[i])) by {
        let s1 = es[i].meta->Some_0;
        let s2 = e2.meta->Some_0;
        assert(s1.modified != s2.modified || s1.size != s2.size);
    }
    assert forall|j: int| 0 <= j < es2.len() && j != i implies !needs_probe(c1, #[trigger] es2[j]) by {
        assert(es2[j] == es[j]);
        if accepted_file(es[j]) {
            lemma_fold_cache_stamp(root, old_cache, parsed, es, j);
        }
    }
    lemma_plan_single(c1, es2, i);
}

} // verus!
