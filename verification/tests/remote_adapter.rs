use saxon_core::model::NavidromeServerConfig;
use saxon_core::remote::{
    auth_query, client_query, cover_art_url, create_server, endpoint_url, find_server,
    normalize_endpoint, remote_scan_gate, rest_base, scan_library, stream_url, subsonic_outcome,
    RemoteAlbum, RemoteArtist, RemoteGate, RemoteLibrary, RemotePlaylist, RemoteSong,
};

fn server() -> NavidromeServerConfig {
    NavidromeServerConfig {
        id: "srv".to_string(),
        name: "Home".to_string(),
        base_url: "http://h".to_string(),
        username: "u".to_string(),
        token: "t".to_string(),
        salt: "s".to_string(),
        api_key: None,
        enabled: true,
    }
}

fn song(id: &str, title: &str) -> RemoteSong {
    RemoteSong {
        id: Some(id.to_string()),
        title: Some(title.to_string()),
        artist: None,
        album: None,
        duration: Some(100),
        cover_art: None,
    }
}

fn library() -> RemoteLibrary {
    RemoteLibrary {
        artists: vec![RemoteArtist {
            id: Some("ar1".to_string()),
            name: Some("Artist A".to_string()),
            albums: vec![RemoteAlbum {
                id: Some("al1".to_string()),
                name: Some("Album B".to_string()),
                cover_art: Some("cov1".to_string()),
                songs: vec![song("s1", "One"), song("s2", "Two")],
            }],
        }],
        playlists: vec![RemotePlaylist {
            id: Some("p1".to_string()),
            name: Some("Mix".to_string()),
            entries: vec![song("s1", "One")],
        }],
    }
}

#[test]
fn rest_base_normalizes_slashes_and_suffix() {
    assert_eq!(rest_base("http://h"), "http://h/rest");
    assert_eq!(rest_base("http://h/"), "http://h/rest");
    assert_eq!(rest_base("http://h/rest"), "http://h/rest");
    assert_eq!(rest_base("http://h/rest/"), "http://h/rest");
}

#[test]
fn endpoint_names_get_one_view_suffix() {
    assert_eq!(normalize_endpoint("ping"), "ping.view");
    assert_eq!(normalize_endpoint("/ping"), "ping.view");
    assert_eq!(normalize_endpoint("ping.view"), "ping.view");
    assert_eq!(endpoint_url("http://h/", "getArtists"), "http://h/rest/getArtists.view");
}

#[test]
fn client_query_identifies_the_client() {
    let q = client_query();
    assert_eq!(
        q,
        vec![
            ("v".to_string(), "1.16.1".to_string()),
            ("c".to_string(), "Saxon".to_string()),
            ("f".to_string(), "json".to_string()),
        ]
    );
}

#[test]
fn auth_prefers_a_usable_api_key() {
    let mut s = server();
    assert_eq!(
        auth_query(&s),
        vec![
            ("u".to_string(), "u".to_string()),
            ("t".to_string(), "t".to_string()),
            ("s".to_string(), "s".to_string()),
        ]
    );
    s.api_key = Some("  ".to_string());
    assert_eq!(auth_query(&s).len(), 3);
    s.api_key = Some("k1".to_string());
    assert_eq!(auth_query(&s), vec![("apiKey".to_string(), "k1".to_string())]);
}

#[test]
fn stream_and_cover_urls_carry_the_whole_query() {
    let s = server();
    assert_eq!(
        stream_url(&s, "123"),
        "http://h/rest/stream.view?v=1.16.1&c=Saxon&f=json&u=u&t=t&s=s&id=123"
    );
    assert_eq!(
        cover_art_url(&s, "c9"),
        "http://h/rest/getCoverArt.view?v=1.16.1&c=Saxon&f=json&u=u&t=t&s=s&id=c9&size=300"
    );
    // escaping happens: a space becomes a plus
    let mut s2 = server();
    s2.username = "a b".to_string();
    assert!(stream_url(&s2, "1").contains("u=a+b"));
}

#[test]
fn envelope_outcomes() {
    assert!(subsonic_outcome(Some("ok".to_string()), None).is_ok());
    assert_eq!(
        subsonic_outcome(Some("failed".to_string()), Some("boom".to_string())),
        Err("boom".to_string())
    );
    assert_eq!(subsonic_outcome(Some("failed".to_string()), None), Err("Request failed".to_string()));
    assert_eq!(subsonic_outcome(None, None), Err("Request failed".to_string()));
}

#[test]
fn create_server_generates_salted_legacy_credentials() {
    let r = create_server(
        "n".to_string(),
        "http://h".to_string(),
        "u".to_string(),
        Some("sesame".to_string()),
        None,
    )
    .unwrap();
    assert_eq!(r.id.len(), 36);
    assert_eq!(r.salt.len(), 32);
    assert_eq!(r.token.len(), 32);
    assert!(r.enabled);
    assert_eq!(r.token, saxon_core::codec::legacy_token("sesame", &r.salt));
}

#[test]
fn create_server_with_api_key_stores_no_token() {
    let r = create_server(
        "n".to_string(),
        "http://h".to_string(),
        "u".to_string(),
        None,
        Some("key".to_string()),
    )
    .unwrap();
    assert_eq!(r.token, "");
    assert_eq!(r.salt, "");
    assert_eq!(r.api_key, Some("key".to_string()));
}

#[test]
fn create_server_requires_a_password_without_key() {
    let r = create_server("n".to_string(), "h".to_string(), "u".to_string(), None, None);
    assert_eq!(r.err(), Some("Password is required".to_string()));
    // a blank api key does not count
    let r2 = create_server(
        "n".to_string(),
        "h".to_string(),
        "u".to_string(),
        None,
        Some(" ".to_string()),
    );
    assert!(r2.is_err());
}

#[test]
fn legacy_token_matches_md5_of_password_and_salt() {
    assert_eq!(saxon_core::codec::legacy_token("sesame", "c19b2d"), "26719a1196d2a940705a59634eb18eab");
    assert_eq!(saxon_core::codec::legacy_token("", ""), "d41d8cd98f00b204e9800998ecf8427e");
}

#[test]
fn gate_decides_before_any_transport() {
    let mut s = server();
    s.enabled = false;
    let servers = vec![s];
    match remote_scan_gate(&servers, "srv") {
        RemoteGate::Disabled(empty) => {
            assert!(empty.tracks.is_empty());
            assert!(empty.folders.is_empty());
            assert_eq!(empty.revision, "disabled");
        },
        _ => panic!("a disabled server must short-circuit"),
    }
    assert!(matches!(remote_scan_gate(&servers, "nope"), RemoteGate::NotFound));
    let mut s2 = server();
    s2.enabled = true;
    let servers2 = vec![s2];
    assert!(matches!(remote_scan_gate(&servers2, "srv"), RemoteGate::Proceed(0)));
    assert!(find_server(&servers2, "srv").is_some());
    assert!(find_server(&servers2, "other").is_none());
}

#[test]
fn remote_scan_builds_the_synthetic_tree() {
    let s = server();
    let result = scan_library(&s, &library());

    let names: Vec<&str> = result.folders.iter().map(|f| f.name.as_str()).collect();
    assert_eq!(
        names,
        vec!["Home", "All Tracks", "Artists", "Playlists", "Artist A", "Album B", "Mix"]
    );
    let root = &result.folders[0];
    assert_eq!(root.id, "navidrome:srv");
    assert_eq!(root.parent_id, None);
    assert_eq!(root.track_count, 2);
    assert_eq!(root.source, "navidrome");

    assert_eq!(result.folders[1].id, "navidrome:srv:alltracks");
    assert_eq!(result.folders[1].parent_id, Some("navidrome:srv".to_string()));
    assert_eq!(result.folders[1].track_count, 2);
    assert_eq!(result.folders[2].track_count, 2);
    assert_eq!(result.folders[3].id, "navidrome:srv:playlists");
    assert_eq!(result.folders[3].track_count, 1);

    let artist = &result.folders[4];
    assert_eq!(artist.id, "navidrome:srv:artist:ar1");
    assert_eq!(artist.parent_id, Some("navidrome:srv:artists".to_string()));
    assert_eq!(artist.track_count, 2);

    let album = &result.folders[5];
    assert_eq!(album.id, "navidrome:srv:album:al1");
    assert_eq!(album.parent_id, Some("navidrome:srv:artist:ar1".to_string()));
    assert_eq!(album.track_count, 2);

    let pl = &result.folders[6];
    assert_eq!(pl.id, "navidrome:srv:playlist:p1");
    assert_eq!(pl.parent_id, Some("navidrome:srv:playlists".to_string()));
    assert_eq!(pl.track_count, 1);

    assert_eq!(result.tracks.len(), 3);
    assert_eq!(result.revision.len(), 16);
}

#[test]
fn canonical_identity_spans_album_and_playlist() {
    let result = scan_library(&server(), &library());
    let in_album = &result.tracks[0];
    let in_playlist = &result.tracks[2];
    assert_eq!(in_album.id, "navidrome:srv:track:s1");
    assert_eq!(in_album.canonical_id, "navidrome:srv:track:s1");
    assert_eq!(in_playlist.id, "navidrome:srv:playlist:p1:track:s1");
    assert_ne!(in_album.id, in_playlist.id);
    assert_eq!(in_album.canonical_id, in_playlist.canonical_id);
    assert_eq!(in_playlist.folder_id, Some("navidrome:srv:playlist:p1".to_string()));
}

#[test]
fn song_tags_fall_back_to_their_context() {
    let result = scan_library(&server(), &library());
    // album songs inherit artist and album names
    assert_eq!(result.tracks[0].artist, "Artist A");
    assert_eq!(result.tracks[0].album, "Album B");
    // and the album cover when they carry none
    let cover = result.tracks[0].cover_url.as_ref().unwrap();
    assert!(cover.contains("id=cov1"));
    assert!(cover.contains("size=300"));
    // playlist entries fall back to the unknown markers
    assert_eq!(result.tracks[2].artist, "Unknown Artist");
    assert_eq!(result.tracks[2].album, "Unknown Album");
    assert_eq!(result.tracks[2].cover_url, None);
}

#[test]
fn records_without_ids_are_skipped() {
    let mut lib = library();
    lib.artists[0].albums[0].songs.push(RemoteSong {
        id: None,
        title: Some("ghost".to_string()),
        artist: None,
        album: None,
        duration: None,
        cover_art: None,
    });
    let result = scan_library(&server(), &lib);
    assert_eq!(result.tracks.len(), 3);
    assert_eq!(result.folders[5].track_count, 2);
}

#[test]
fn remote_revision_is_deterministic_and_change_sensitive() {
    let s = server();
    let r1 = scan_library(&s, &library());
    let r2 = scan_library(&s, &library());
    assert_eq!(r1.revision, r2.revision);

    let mut lib = library();
    lib.artists[0].albums[0].songs[0].title = Some("Renamed".to_string());
    let r3 = scan_library(&s, &lib);
    assert_ne!(r1.revision, r3.revision);
}

#[test]
fn empty_remote_library_keeps_zero_counts() {
    let result = scan_library(&server(), &RemoteLibrary { artists: vec![], playlists: vec![] });
    assert_eq!(result.folders.len(), 4);
    assert!(result.folders.iter().all(|f| f.track_count == 0));
    assert!(result.tracks.is_empty());
    assert_eq!(result.revision.len(), 16);
}
