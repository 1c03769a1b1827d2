//! The local scan orchestrator. The application walks the directory tree
//! (depth-first, name-sorted, parents before children) and probes the tags of
//! the files this module asks for; everything else — the audio allow-list,
//! the folder hierarchy, the cache reuse and pruning, and the revision
//! fingerprint — is computed and verified here.

use vstd::prelude::*;
use vstd::string::StringExecFns;
use crate::assoc::{
    assoc_get, assoc_get_ci, assoc_lookup, assoc_lookup_ci, assoc_put, assoc_put_ci, assoc_set,
    assoc_set_ci, assoc_view,
};
use crate::cache::{CachedTrack, CachedTrackV, RootCache};
use crate::fingerprint::{fold_str_ci, fold_u64, fp_fold_str_ci, fp_fold_u64, hex16, u64_to_hex16, FNV_OFFSET};
use crate::meta::{resolve_track, resolved_track, ProbeOutcome, ProbeV, MAX_METADATA_PARSE_FILE_SIZE_BYTES};
use crate::model::{opt_view, FolderV, MusicFolder, ScanResult, ScanResultV, Track, TrackV};
use crate::strutil::{
    base_name, depth_under, is_under, last_index_of, lower_seq, path_base_name, path_depth_under,
    path_extension, path_is_under, path_parent, str_eq, str_eq_ignore_case,
};

verus! {

/// A file's modification stamp: seconds since the epoch, and its size.
#[derive(Clone, Copy, PartialEq, Eq, Structural)]
pub struct Stamp {
    pub modified: u64,
    pub size: u64,
}

/// One entry of the walked tree, in walk order. `meta` is `None` when the
/// entry's metadata could not be read.
pub struct FsEntry {
    pub path: String,
    pub is_dir: bool,
    pub meta: Option<Stamp>,
}

/// The mathematical view of an [`FsEntry`].
pub ghost struct FsEntryV {
    pub path: Seq<char>,
    pub is_dir: bool,
    pub meta: Option<Stamp>,
}

impl View for FsEntry {
    type V = FsEntryV;

    open spec fn view(&self) -> FsEntryV {
        FsEntryV { path: self.path@, is_dir: self.is_dir, meta: self.meta }
    }
}

/// The views of a walked entry vector.
pub open spec fn entries_view(es: Seq<FsEntry>) -> Seq<FsEntryV> {
    es.map_values(|e: FsEntry| e@)
}

/// Is this a lower-cased member of the fixed audio extension allow-list?
pub open spec fn audio_ext(e: Seq<char>) -> bool {
    let l = lower_seq(e);
    l == "mp3"@ || l == "wav"@ || l == "ogg"@ || l == "flac"@ || l == "m4a"@ || l == "aac"@
}

/// Does the path carry an accepted audio extension (case-insensitively)?
pub open spec fn is_audio_path(p: Seq<char>) -> bool {
    match crate::strutil::file_extension(p) {
        Some(e) => audio_ext(e),
        None => false,
    }
}

/// Executable [`is_audio_path`].
pub fn path_is_audio(p: &str) -> (r: bool)
    ensures
        r == is_audio_path(p@),
{
    proof {
        reveal_strlit("mp3");
        reveal_strlit("wav");
        reveal_strlit("ogg");
        reveal_strlit("flac");
        reveal_strlit("m4a");
        reveal_strlit("aac");
        assert(lower_seq("mp3"@) =~= "mp3"@);
        assert(lower_seq("wav"@) =~= "wav"@);
        assert(lower_seq("ogg"@) =~= "ogg"@);
        assert(lower_seq("flac"@) =~= "flac"@);
        assert(lower_seq("m4a"@) =~= "m4a"@);
        assert(lower_seq("aac"@) =~= "aac"@);
    }
    match path_extension(p) {
        Some(e) => str_eq_ignore_case(e, "mp3") || str_eq_ignore_case(e, "wav")
            || str_eq_ignore_case(e, "ogg") || str_eq_ignore_case(e, "flac")
            || str_eq_ignore_case(e, "m4a") || str_eq_ignore_case(e, "aac"),
        None => false,
    }
}

/// The scan's accumulating state: the folders and tracks emitted so far, the
/// registry from folder path to folder id, the registry from folder id to its
/// position, the cache being rebuilt, and the fingerprint accumulator.
pub ghost struct ScanState {
    pub folders: Seq<FolderV>,
    pub tracks: Seq<TrackV>,
    pub fmap: Seq<(Seq<char>, Seq<char>)>,
    pub fidx: Seq<(Seq<char>, usize)>,
    pub cache: Seq<(Seq<char>, CachedTrackV)>,
    pub fp: u64,
}

/// The state a scan of `root` starts from: nothing emitted, the root path
/// pre-registered, the fingerprint at its offset.
pub open spec fn scan_init(root: Seq<char>) -> ScanState {
    ScanState {
        folders: Seq::empty(),
        tracks: Seq::empty(),
        fmap: seq![(root, root)],
        fidx: Seq::empty(),
        cache: Seq::empty(),
        fp: FNV_OFFSET,
    }
}

/// One directory, excluding the root itself: registered as a folder, its
/// parent resolved through the registry (absent at depth one), its path and
/// modification time folded into the fingerprint.
pub open spec fn scan_step_dir(root: Seq<char>, st: ScanState, e: FsEntryV) -> ScanState {
    if e.path == root || !is_under(root, e.path) || last_index_of(e.path, '/') == -1 {
        st
    } else {
        let depth = depth_under(root, e.path);
        let parent = e.path.take(last_index_of(e.path, '/'));
        let parent_id = if depth == 1 {
            None
        } else {
            assoc_lookup_ci(st.fmap, parent)
        };
        let folder = FolderV {
            id: e.path,
            parent_id,
            name: base_name(e.path),
            path: e.path,
            track_count: 0,
            source: "local"@,
        };
        let fp1 = fold_str_ci(st.fp, e.path);
        let fp2 = match e.meta {
            Some(m) => fold_u64(fp1, m.modified),
            None => fp1,
        };
        ScanState {
            folders: st.folders.push(folder),
            tracks: st.tracks,
            fmap: assoc_set_ci(st.fmap, e.path, e.path),
            fidx: assoc_set(st.fidx, e.path, st.folders.len() as usize),
            cache: st.cache,
            fp: fp2,
        }
    }
}

/// The folder a file attaches to: absent directly under the root or outside
/// it, otherwise the registered id of its parent directory.
pub open spec fn file_folder_id(
    root: Seq<char>,
    fmap: Seq<(Seq<char>, Seq<char>)>,
    parent: Seq<char>,
) -> Option<Seq<char>> {
    if parent == root {
        None
    } else if is_under(root, parent) {
        assoc_lookup_ci(fmap, parent)
    } else {
        None
    }
}

/// One file: filtered by the allow-list and a readable stamp, folded into the
/// fingerprint, attached to its folder (whose direct count grows by one), and
/// resolved against the cache — an exact stamp match reuses the parsed track,
/// anything else resolves the probe outcome supplied for the path.
pub open spec fn scan_step_file(
    root: Seq<char>,
    old_cache: Seq<(Seq<char>, CachedTrackV)>,
    parsed: Seq<(Seq<char>, ProbeV)>,
    st: ScanState,
    e: FsEntryV,
) -> ScanState {
    if !is_audio_path(e.path) || e.meta is None {
        st
    } else {
        let stamp = e.meta->Some_0;
        let fp1 = fold_u64(fold_u64(fold_str_ci(st.fp, e.path), stamp.modified), stamp.size);
        if last_index_of(e.path, '/') == -1 {
            ScanState { fp: fp1, ..st }
        } else {
            let parent = e.path.take(last_index_of(e.path, '/'));
            let folder_id = file_folder_id(root, st.fmap, parent);
            let folders = match folder_id {
                Some(fid) => match assoc_lookup(st.fidx, fid) {
                    Some(ix) => if ix < st.folders.len() {
                        st.folders.update(
                            ix as int,
                            FolderV {
                                track_count: st.folders[ix as int].track_count + 1,
                                ..st.folders[ix as int]
                            },
                        )
                    } else {
                        st.folders
                    },
                    None => st.folders,
                },
                None => st.folders,
            };
            let track = match assoc_lookup(old_cache, e.path) {
                Some(c) => if c.modified == stamp.modified && c.size == stamp.size {
                    TrackV { folder_id, cover_url: None, ..c.track }
                } else {
                    resolved_track(e.path, folder_id, stamp.size, assoc_lookup(parsed, e.path))
                },
                None => resolved_track(e.path, folder_id, stamp.size, assoc_lookup(parsed, e.path)),
            };
            ScanState {
                folders,
                tracks: st.tracks.push(track),
                fmap: st.fmap,
                fidx: st.fidx,
                cache: assoc_set(
                    st.cache,
                    e.path,
                    CachedTrackV { track, modified: stamp.modified, size: stamp.size },
                ),
                fp: fp1,
            }
        }
    }
}

/// One walked entry.
pub open spec fn scan_step(
    root: Seq<char>,
    old_cache: Seq<(Seq<char>, CachedTrackV)>,
    parsed: Seq<(Seq<char>, ProbeV)>,
    st: ScanState,
    e: FsEntryV,
) -> ScanState {
    if e.is_dir {
        scan_step_dir(root, st, e)
    } else {
        scan_step_file(root, old_cache, parsed, st, e)
    }
}

/// The whole walk, folded left to right.
pub open spec fn scan_fold(
    root: Seq<char>,
    old_cache: Seq<(Seq<char>, CachedTrackV)>,
    parsed: Seq<(Seq<char>, ProbeV)>,
    es: Seq<FsEntryV>,
) -> ScanState
    decreases es.len(),
{
    if es.len() == 0 {
        scan_init(root)
    } else {
        scan_step(
            root,
            old_cache,
            parsed,
            scan_fold(root, old_cache, parsed, es.drop_last()),
            es.last(),
        )
    }
}

/// Everything a finished scan publishes: the result and the pruned cache.
pub open spec fn scan_spec(
    root: Seq<char>,
    old_cache: Seq<(Seq<char>, CachedTrackV)>,
    parsed: Seq<(Seq<char>, ProbeV)>,
    es: Seq<FsEntryV>,
) -> (ScanResultV, Seq<(Seq<char>, CachedTrackV)>) {
    let st = scan_fold(root, old_cache, parsed, es);
    (
        ScanResultV { tracks: st.tracks, folders: st.folders, revision: hex16(st.fp) },
        st.cache,
    )
}

/// Does this entry call for a fresh tag probe? Exactly the accepted audio
/// files whose cache entry is missing or stale; files over the probe size
/// ceiling resolve to a placeholder without a probe.
pub open spec fn needs_probe(old_cache: Seq<(Seq<char>, CachedTrackV)>, e: FsEntryV) -> bool {
    &&& !e.is_dir
    &&& is_audio_path(e.path)
    &&& e.meta is Some
    &&& last_index_of(e.path, '/') != -1
    &&& e.meta->Some_0.size <= MAX_METADATA_PARSE_FILE_SIZE_BYTES
    &&& match assoc_lookup(old_cache, e.path) {
        Some(c) => !(c.modified == e.meta->Some_0.modified && c.size == e.meta->Some_0.size),
        None => true,
    }
}

/// The paths [`scan_build`] will ask the probe outcomes for.
pub open spec fn plan_spec(
    old_cache: Seq<(Seq<char>, CachedTrackV)>,
    es: Seq<FsEntryV>,
) -> Seq<Seq<char>>
    decreases es.len(),
{
    if es.len() == 0 {
        Seq::empty()
    } else {
        let p = plan_spec(old_cache, es.drop_last());
        if needs_probe(old_cache, es.last()) {
            p.push(es.last().path)
        } else {
            p
        }
    }
}

/// A file entry that produces a track: an accepted audio file with a
/// readable stamp somewhere below a directory.
pub open spec fn accepted_file(e: FsEntryV) -> bool {
    &&& !e.is_dir
    &&& is_audio_path(e.path)
    &&& e.meta is Some
    &&& last_index_of(e.path, '/') != -1
}

/// A directory entry that registers a folder.
pub open spec fn accepted_dir(root: Seq<char>, e: FsEntryV) -> bool {
    &&& e.is_dir
    &&& e.path != root
    &&& is_under(root, e.path)
    &&& last_index_of(e.path, '/') != -1
}

/// No two track-producing entries share a path — true of any real directory
/// walk, which visits each file once.
pub open spec fn distinct_file_paths(es: Seq<FsEntryV>) -> bool {
    forall|i: int, j: int|
        0 <= i < j < es.len() && accepted_file(#[trigger] es[i]) && accepted_file(
            #[trigger] es[j],
        ) ==> es[i].path != es[j].path
}

/// A depth-first walk registers a directory's parent before the directory:
/// every registered directory deeper than one component is preceded by its
/// parent directory, and that parent is a real directory below the root, not
/// a respelling of the root itself.
pub open spec fn walk_wf(root: Seq<char>, es: Seq<FsEntryV>) -> bool {
    forall|i: int|
        0 <= i < es.len() && accepted_dir(root, #[trigger] es[i]) && depth_under(root, es[i].path)
            >= 2 ==> dir_parent_listed(root, es, i)
}

/// The parent of the directory entry at `i` stands earlier in the walk.
pub open spec fn dir_parent_listed(root: Seq<char>, es: Seq<FsEntryV>, i: int) -> bool {
    let parent = es[i].path.take(last_index_of(es[i].path, '/'));
    &&& lower_seq(parent) != lower_seq(root)
    &&& exists|j: int|
        0 <= j < i && accepted_dir(root, #[trigger] es[j]) && es[j].path == parent
}

/// The probe plan for one walk: which files the application must probe
/// before calling [`scan_build`].
pub fn scan_plan(entries: &Vec<FsEntry>, cache: &RootCache) -> (r: Vec<String>)
    ensures
        r@.map_values(|s: String| s@) == plan_spec(cache@, entries_view(entries@)),
{
    let mut r: Vec<String> = Vec::new();
    let n = entries.len();
    let mut i: usize = 0;
    while i < n
        invariant
            n == entries@.len(),
            i <= n,
            r@.map_values(|s: String| s@) == plan_spec(cache@, entries_view(entries@).take(i as int)),
        decreases n - i,
    {
        let e = &entries[i];
        let ghost pre = entries_view(entries@).take(i as int);
        proof {
            assert(entries_view(entries@).take(i + 1).drop_last() =~= pre);
            assert(entries_view(entries@).take(i + 1).last() == entries@[i as int]@);
        }
        if !e.is_dir && path_is_audio(e.path.as_str()) {
            if let Some(stamp) = e.meta {
                if crate::strutil::str_last_index_of(e.path.as_str(), '/').is_some()
                    && stamp.size <= MAX_METADATA_PARSE_FILE_SIZE_BYTES {
                    let fresh = match cache.get(e.path.as_str()) {
                        Some(c) => c.modified == stamp.modified && c.size == stamp.size,
                        None => false,
                    };
                    if !fresh {
                        r.push(e.path.clone());
                        proof {
                            assert(r@.map_values(|s: String| s@) =~= plan_spec(
                                cache@,
                                entries_view(entries@).take(i + 1),
                            ));
                        }
                    }
                }
            }
        }
        i = i + 1;
        proof {
            assert(r@.map_values(|s: String| s@) =~= plan_spec(
                cache@,
                entries_view(entries@).take(i as int),
            ));
        }
    }
    proof {
        assert(entries_view(entries@).take(n as int) =~= entries_view(entries@));
    }
    r
}

/// One local scan, over the walked entries the application supplies and the
/// probe outcomes it gathered for [`scan_plan`]'s paths. Returns the scan
/// result and the pruned cache to publish for this root; no individual bad
/// entry can fail it.
pub fn scan_build(
    root: &str,
    entries: &Vec<FsEntry>,
    cache: &RootCache,
    parsed: &Vec<(String, ProbeOutcome)>,
) -> (r: (ScanResult, RootCache))
    ensures
        r.0@ == scan_spec(root@, cache@, assoc_view(parsed@), entries_view(entries@)).0,
        r.1@ == scan_spec(root@, cache@, assoc_view(parsed@), entries_view(entries@)).1,
{
    let ghost ev = entries_view(entries@);
    let ghost parsedv = assoc_view(parsed@);
    let mut folders: Vec<MusicFolder> = Vec::new();
    let mut tracks: Vec<Track> = Vec::new();
    let mut fmap: Vec<(String, String)> = Vec::new();
    let mut fidx: Vec<(String, usize)> = Vec::new();
    let mut new_cache = RootCache::new();
    let mut fp: u64 = FNV_OFFSET;
    fmap.push((root.to_owned(), root.to_owned()));
    proof {
        assert(assoc_view(fmap@) =~= seq![(root@, root@)]);
        assert(folders@.map_values(|f: MusicFolder| f@) =~= scan_init(root@).folders);
        assert(tracks@.map_values(|t: Track| t@) =~= scan_init(root@).tracks);
        assert(assoc_view(fidx@) =~= scan_init(root@).fidx);
        assert(ev.take(0) =~= Seq::<FsEntryV>::empty());
    }
    let n = entries.len();
    let mut i: usize = 0;
    while i < n
        invariant
            n == entries@.len(),
            i <= n,
            ev == entries_view(entries@),
            parsedv == assoc_view(parsed@),
            folders@.map_values(|f: MusicFolder| f@) == scan_fold(
                root@,
                cache@,
                parsedv,
                ev.take(i as int),
            ).folders,
            tracks@.map_values(|t: Track| t@) == scan_fold(
                root@,
                cache@,
                parsedv,
                ev.take(i as int),
            ).tracks,
            assoc_view(fmap@) == scan_fold(root@, cache@, parsedv, ev.take(i as int)).fmap,
            assoc_view(fidx@) == scan_fold(root@, cache@, parsedv, ev.take(i as int)).fidx,
            new_cache@ == scan_fold(root@, cache@, parsedv, ev.take(i as int)).cache,
            fp == scan_fold(root@, cache@, parsedv, ev.take(i as int)).fp,
            tracks@.len() <= i,
            forall|j: int|
                0 <= j < folders@.len() ==> (#[trigger] folders@[j]).track_count <= tracks@.len(),
        decreases n - i,
    {
        let ghost st = scan_fold(root@, cache@, parsedv, ev.take(i as int));
        let ghost st_next = scan_fold(root@, cache@, parsedv, ev.take(i + 1));
        proof {
            assert(ev.take(i + 1).drop_last() =~= ev.take(i as int));
            assert(ev.take(i + 1).last() == entries@[i as int]@);
            assert(st_next == scan_step(root@, cache@, parsedv, st, entries@[i as int]@));
        }
        let e = &entries[i];
        if e.is_dir {
            if !str_eq(e.path.as_str(), root) && path_is_under(root, e.path.as_str()) {
                match path_parent(e.path.as_str()) {
                    Some(parent) => {
                        let depth = path_depth_under(root, e.path.as_str());
                        let parent_id: Option<String> = if depth == 1 {
                            None
                        } else {
                            match assoc_get_ci(&fmap, parent) {
                                Some(s) => Some(s.clone()),
                                None => None,
                            }
                        };
                        let name = path_base_name(e.path.as_str()).to_owned();
                        let ghost folder_v = FolderV {
                            id: e.path@,
                            parent_id: opt_view(parent_id),
                            name: base_name(e.path@),
                            path: e.path@,
                            track_count: 0,
                            source: "local"@,
                        };
                        let ix = folders.len();
                        folders.push(
                            MusicFolder {
                                id: e.path.clone(),
                                parent_id,
                                name,
                                path: e.path.clone(),
                                track_count: 0,
                                source: "local".to_owned(),
                            },
                        );
                        assoc_put(&mut fidx, e.path.clone(), ix);
                        assoc_put_ci(&mut fmap, e.path.clone(), e.path.clone());
                        fp = fp_fold_str_ci(fp, e.path.as_str());
                        if let Some(m) = e.meta {
                            fp = fp_fold_u64(fp, m.modified);
                        }
                        proof {
                            assert(folders@.map_values(|f: MusicFolder| f@) =~= st.folders.push(
                                folder_v,
                            ));
                            assert(st_next.folders == st.folders.push(folder_v));
                        }
                    },
                    None => {
                        proof {
                            crate::strutil::lemma_last_index_of(e.path@, '/');
                        }
                    },
                }
            }
        } else {
            if path_is_audio(e.path.as_str()) {
                if let Some(stamp) = e.meta {
                    fp = fp_fold_u64(fp_fold_u64(fp_fold_str_ci(fp, e.path.as_str()), stamp.modified), stamp.size);
                    match path_parent(e.path.as_str()) {
                        Some(parent) => {
                            let folder_id: Option<String> = if str_eq(parent, root) {
                                None
                            } else if path_is_under(root, parent) {
                                match assoc_get_ci(&fmap, parent) {
                                    Some(s) => Some(s.clone()),
                                    None => None,
                                }
                            } else {
                                None
                            };
                            proof {
                                assert(opt_view(folder_id) == file_folder_id(
                                    root@,
                                    st.fmap,
                                    e.path@.take(last_index_of(e.path@, '/')),
                                ));
                            }
                            if let Some(fid) = &folder_id {
                                if let Some(ixr) = assoc_get(&fidx, fid.as_str()) {
                                    let ix = *ixr;
                                    if ix < folders.len() {
                                        let tc = folders[ix].track_count;
                                        proof {
                                            assert(folders@[ix as int].track_count <= tracks@.len());
                                        }
                                        folders[ix].track_count = tc + 1;
                                        proof {
                                            assert(folders@.map_values(|f: MusicFolder| f@)
                                                =~= st.folders.update(
                                                ix as int,
                                                FolderV {
                                                    track_count: st.folders[ix as int].track_count
                                                        + 1,
                                                    ..st.folders[ix as int]
                                                },
                                            ));
                                        }
                                    }
                                }
                            }
                            let track: Track = {
                                let hit: Option<Track> = match cache.get(e.path.as_str()) {
                                    Some(c) => {
                                        if c.modified == stamp.modified && c.size == stamp.size {
                                            let mut t = c.track.duplicate();
                                            t.folder_id = crate::model::clone_opt_string(
                                                &folder_id,
                                            );
                                            t.cover_url = None;
                                            Some(t)
                                        } else {
                                            None
                                        }
                                    },
                                    None => None,
                                };
                                match hit {
                                    Some(t) => t,
                                    None => {
                                        let probed = assoc_get(parsed, e.path.as_str());
                                        resolve_track(
                                            e.path.as_str(),
                                            crate::model::clone_opt_string(&folder_id),
                                            stamp.size,
                                            probed,
                                        )
                                    },
                                }
                            };
                            new_cache.put(
                                e.path.clone(),
                                CachedTrack {
                                    track: track.duplicate(),
                                    modified: stamp.modified,
                                    size: stamp.size,
                                },
                            );
                            tracks.push(track);
                            proof {
                                assert(tracks@.map_values(|t: Track| t@) =~= st.tracks.push(
                                    tracks@[tracks@.len() - 1]@,
                                ));
                            }
                        },
                        None => {
                            proof {
                                crate::strutil::lemma_last_index_of(e.path@, '/');
                            }
                        },
                    }
                }
            }
        }
        i = i + 1;
    }
    proof {
        assert(ev.take(n as int) =~= ev);
    }
    let revision = u64_to_hex16(fp);
    (ScanResult { tracks, folders, revision }, new_cache)
}

} // verus!
