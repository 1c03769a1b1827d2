use saxon_core::cache::{RootCache, ScanCache};
use saxon_core::local::{scan_build, scan_plan, FsEntry, Stamp};
use saxon_core::meta::{ProbeOutcome, TagData};

fn dir(path: &str, modified: u64) -> FsEntry {
    FsEntry {
        path: path.to_string(),
        is_dir: true,
        meta: Some(Stamp { modified, size: 0 }),
    }
}

fn file(path: &str, modified: u64, size: u64) -> FsEntry {
    FsEntry {
        path: path.to_string(),
        is_dir: false,
        meta: Some(Stamp { modified, size }),
    }
}

fn tagged(artist: &str, album: &str, duration: u64) -> ProbeOutcome {
    ProbeOutcome::Tagged(TagData {
        artist: Some(artist.to_string()),
        album: Some(album.to_string()),
        duration,
    })
}

fn example_entries() -> Vec<FsEntry> {
    vec![
        dir("/root", 1),
        file("/root/a.mp3", 10, 1000),
        dir("/root/sub", 2),
        file("/root/sub/b.flac", 20, 2000),
    ]
}

fn example_parsed() -> Vec<(String, ProbeOutcome)> {
    vec![
        ("/root/a.mp3".to_string(), tagged("X", "Y", 180)),
        ("/root/sub/b.flac".to_string(), ProbeOutcome::Failed),
    ]
}

#[test]
fn end_to_end_example() {
    let cache = RootCache::new();
    let entries = example_entries();
    let plan = scan_plan(&entries, &cache);
    assert_eq!(plan, vec!["/root/a.mp3".to_string(), "/root/sub/b.flac".to_string()]);

    let (result, new_cache) = scan_build("/root", &entries, &cache, &example_parsed());

    assert_eq!(result.folders.len(), 1);
    let sub = &result.folders[0];
    assert_eq!(sub.id, "/root/sub");
    assert_eq!(sub.path, "/root/sub");
    assert_eq!(sub.name, "sub");
    assert_eq!(sub.parent_id, None);
    assert_eq!(sub.track_count, 1);
    assert_eq!(sub.source, "local");

    assert_eq!(result.tracks.len(), 2);
    let a = &result.tracks[0];
    assert_eq!(a.id, "/root/a.mp3");
    assert_eq!(a.canonical_id, "/root/a.mp3");
    assert_eq!(a.title, "a");
    assert_eq!(a.artist, "X");
    assert_eq!(a.album, "Y");
    assert_eq!(a.duration, 180);
    assert_eq!(a.folder_id, None);
    assert_eq!(a.cover_url, None);
    assert_eq!(a.audio_url, "/root/a.mp3");
    assert_eq!(a.source, "local");

    let b = &result.tracks[1];
    assert_eq!(b.id, "/root/sub/b.flac");
    assert_eq!(b.title, "b");
    assert_eq!(b.artist, "Unknown");
    assert_eq!(b.album, "Unknown");
    assert_eq!(b.duration, 0);
    assert_eq!(b.folder_id, Some("/root/sub".to_string()));

    assert_eq!(result.revision.len(), 16);
    assert_eq!(new_cache.len(), 2);
}

#[test]
fn rescan_is_idempotent_with_full_reuse() {
    let entries = example_entries();
    let (r1, c1) = scan_build("/root", &entries, &RootCache::new(), &example_parsed());

    // the second pass needs no probe at all
    let plan2 = scan_plan(&entries, &c1);
    assert!(plan2.is_empty());

    // and reproduces the result without any probe outcomes supplied
    let (r2, c2) = scan_build("/root", &entries, &c1, &Vec::new());
    assert_eq!(r1.revision, r2.revision);
    assert_eq!(r1.tracks.len(), r2.tracks.len());
    for (t1, t2) in r1.tracks.iter().zip(r2.tracks.iter()) {
        assert_eq!(t1.id, t2.id);
        assert_eq!(t1.title, t2.title);
        assert_eq!(t1.artist, t2.artist);
        assert_eq!(t1.album, t2.album);
        assert_eq!(t1.duration, t2.duration);
        assert_eq!(t1.folder_id, t2.folder_id);
    }
    assert_eq!(r1.folders.len(), r2.folders.len());
    for (f1, f2) in r1.folders.iter().zip(r2.folders.iter()) {
        assert_eq!(f1.id, f2.id);
        assert_eq!(f1.parent_id, f2.parent_id);
        assert_eq!(f1.track_count, f2.track_count);
    }
    assert_eq!(c2.len(), c1.len());
}

#[test]
fn stamp_change_reparses_only_that_file() {
    let entries = example_entries();
    let (r1, c1) = scan_build("/root", &entries, &RootCache::new(), &example_parsed());

    // touch a.mp3: new modification time
    let mut entries2 = example_entries();
    entries2[1] = file("/root/a.mp3", 11, 1000);

    let plan = scan_plan(&entries2, &c1);
    assert_eq!(plan, vec!["/root/a.mp3".to_string()]);

    let parsed2 = vec![("/root/a.mp3".to_string(), tagged("X2", "Y2", 200))];
    let (r2, _) = scan_build("/root", &entries2, &c1, &parsed2);

    // the revision moved, the changed file was reparsed, the other reused
    assert_ne!(r1.revision, r2.revision);
    assert_eq!(r2.tracks[0].artist, "X2");
    assert_eq!(r2.tracks[1].artist, "Unknown");

    // a size change alone forces the reparse too
    let mut entries3 = example_entries();
    entries3[1] = file("/root/a.mp3", 10, 1001);
    let plan3 = scan_plan(&entries3, &c1);
    assert_eq!(plan3, vec!["/root/a.mp3".to_string()]);
    let (r3, _) = scan_build("/root", &entries3, &c1, &parsed2);
    assert_ne!(r1.revision, r3.revision);
}

#[test]
fn deletion_prunes_result_and_cache() {
    let entries = example_entries();
    let (_, c1) = scan_build("/root", &entries, &RootCache::new(), &example_parsed());
    assert!(c1.get("/root/a.mp3").is_some());

    // the file disappears
    let entries2 = vec![dir("/root", 1), dir("/root/sub", 2), file("/root/sub/b.flac", 20, 2000)];
    let (r2, c2) = scan_build("/root", &entries2, &c1, &Vec::new());
    assert!(r2.tracks.iter().all(|t| t.id != "/root/a.mp3"));
    assert!(c2.get("/root/a.mp3").is_none());

    // re-added under the same path, it is parsed fresh, not reused
    let entries3 = example_entries();
    let plan3 = scan_plan(&entries3, &c2);
    assert_eq!(plan3, vec!["/root/a.mp3".to_string()]);
}

#[test]
fn extension_filter_is_case_insensitive() {
    let entries = vec![
        dir("/root", 1),
        file("/root/track.MP3", 1, 10),
        file("/root/track.TXT", 1, 10),
        file("/root/noext", 1, 10),
        file("/root/track.wav", 1, 10),
        file("/root/track.FLAC", 1, 10),
    ];
    let (result, _) = scan_build("/root", &entries, &RootCache::new(), &Vec::new());
    let ids: Vec<&str> = result.tracks.iter().map(|t| t.id.as_str()).collect();
    assert_eq!(ids, vec!["/root/track.MP3", "/root/track.wav", "/root/track.FLAC"]);
}

#[test]
fn unreadable_stamp_is_skipped_silently() {
    let entries = vec![
        dir("/root", 1),
        FsEntry { path: "/root/a.mp3".to_string(), is_dir: false, meta: None },
        file("/root/b.mp3", 1, 10),
    ];
    let (result, _) = scan_build("/root", &entries, &RootCache::new(), &Vec::new());
    assert_eq!(result.tracks.len(), 1);
    assert_eq!(result.tracks[0].id, "/root/b.mp3");
}

#[test]
fn oversized_file_gets_placeholder_without_probe() {
    let big = 2 * 1024 * 1024 * 1024 + 1;
    let entries = vec![dir("/root", 1), file("/root/huge.mp3", 1, big)];
    let cache = RootCache::new();
    // the plan never asks for a probe of an oversized file
    assert!(scan_plan(&entries, &cache).is_empty());
    // and even a supplied outcome is ignored
    let parsed = vec![("/root/huge.mp3".to_string(), tagged("A", "B", 1))];
    let (result, _) = scan_build("/root", &entries, &cache, &parsed);
    assert_eq!(result.tracks[0].artist, "Unknown");
    assert_eq!(result.tracks[0].album, "Unknown");
    assert_eq!(result.tracks[0].duration, 0);
    assert_eq!(result.tracks[0].title, "huge");
}

#[test]
fn tag_fallbacks_use_unknown_markers() {
    let entries = vec![dir("/root", 1), file("/root/a.mp3", 1, 10)];
    let parsed = vec![(
        "/root/a.mp3".to_string(),
        ProbeOutcome::Tagged(TagData { artist: None, album: None, duration: 42 }),
    )];
    let (result, _) = scan_build("/root", &entries, &RootCache::new(), &parsed);
    assert_eq!(result.tracks[0].artist, "Unknown Artist");
    assert_eq!(result.tracks[0].album, "Unknown Album");
    assert_eq!(result.tracks[0].duration, 42);
}

#[test]
fn deeper_folders_resolve_their_parents() {
    let entries = vec![
        dir("/root", 1),
        dir("/root/a", 2),
        dir("/root/a/b", 3),
        file("/root/a/b/song.ogg", 4, 10),
    ];
    let (result, _) = scan_build("/root", &entries, &RootCache::new(), &Vec::new());
    assert_eq!(result.folders.len(), 2);
    assert_eq!(result.folders[0].id, "/root/a");
    assert_eq!(result.folders[0].parent_id, None);
    assert_eq!(result.folders[1].id, "/root/a/b");
    assert_eq!(result.folders[1].parent_id, Some("/root/a".to_string()));
    assert_eq!(result.folders[1].track_count, 1);
    assert_eq!(result.folders[0].track_count, 0);
    assert_eq!(result.tracks[0].folder_id, Some("/root/a/b".to_string()));
}

#[test]
fn revision_is_independent_of_tag_contents() {
    // the fingerprint covers identity and stamps, not parsed tags
    let entries = example_entries();
    let (r1, _) = scan_build("/root", &entries, &RootCache::new(), &example_parsed());
    let parsed2 = vec![("/root/a.mp3".to_string(), tagged("Other", "Tags", 5))];
    let (r2, _) = scan_build("/root", &entries, &RootCache::new(), &parsed2);
    assert_eq!(r1.revision, r2.revision);
}

#[test]
fn shared_cache_is_keyed_case_insensitively() {
    let mut shared = ScanCache::new();
    let entries = example_entries();
    let baseline = shared.take_root("/root");
    let (_, c1) = scan_build("/root", &entries, &baseline, &example_parsed());
    shared.publish_root("/root", c1);

    // the same root under different case finds the published cache
    let again = shared.take_root("/ROOT");
    assert!(again.get("/root/a.mp3").is_some());

    // taking swapped an empty map in
    let empty = shared.take_root("/root");
    assert_eq!(empty.len(), 0);
}

#[test]
fn empty_walk_yields_empty_result_with_a_revision() {
    let (result, cache) = scan_build("/root", &vec![dir("/root", 1)], &RootCache::new(), &Vec::new());
    assert!(result.tracks.is_empty());
    assert!(result.folders.is_empty());
    assert_eq!(result.revision.len(), 16);
    assert_eq!(cache.len(), 0);
}

#[test]
fn a_directory_without_a_walked_parent_still_registers() {
    // not a well-formed depth-first walk; the scan stays total and simply
    // leaves the orphan without a parent
    let entries = vec![dir("/root", 1), dir("/root/a/b", 2)];
    let (result, _) = scan_build("/root", &entries, &RootCache::new(), &Vec::new());
    assert_eq!(result.folders.len(), 1);
    assert_eq!(result.folders[0].id, "/root/a/b");
    assert_eq!(result.folders[0].parent_id, None);
}
