//! The remote adapter: a Subsonic-compatible protocol client's verified
//! half. It builds every REST URL and query string, decides what a response
//! envelope means, generates server credentials, and maps the fetched
//! artists, albums, songs and playlists onto the unified track and folder
//! shape with a deterministic fingerprint. The application only performs the
//! HTTP round trips and hands the decoded records in as plain values.

use vstd::prelude::*;
use vstd::string::StringExecFns;
use crate::assoc::assoc_view;
use crate::codec::{legacy_token, legacy_token_of, new_uuid_hyphenated, new_uuid_simple, urlencode_pairs, urlencoded_of};
use crate::assoc::{assoc_get, assoc_lookup, assoc_put, assoc_set, lemma_assoc_find_works, lemma_assoc_set_frame};
use crate::fingerprint::{fold_str, fold_u64, hex16, FNV_OFFSET};
use crate::model::{opt_view, FolderV, MusicFolder, NavidromeServerConfig, ScanResult, ScanResultV, ServerConfigV, Track, TrackV};
use crate::strutil::{
    concat2, ends_with, is_blank, str_ends_with, str_eq, str_is_blank, str_trim_leading,
    str_trim_trailing, trim_leading, trim_trailing,
};

verus! {

/// The REST base of a server URL: trailing slashes dropped, one `/rest`
/// segment guaranteed.
pub open spec fn rest_base_of(base_url: Seq<char>) -> Seq<char> {
    let t = trim_trailing(base_url, '/');
    if ends_with(t, "/rest"@) {
        t
    } else {
        t + "/rest"@
    }
}

/// Executable [`rest_base_of`].
pub fn rest_base(base_url: &str) -> (r: String)
    ensures
        r@ == rest_base_of(base_url@),
{
    let t = str_trim_trailing(base_url, '/');
    if str_ends_with(t, "/rest") {
        t.to_owned()
    } else {
        concat2(t, "/rest")
    }
}

/// An endpoint name: leading slashes dropped, one `.view` suffix guaranteed.
pub open spec fn normalize_endpoint_of(endpoint: Seq<char>) -> Seq<char> {
    let t = trim_leading(endpoint, '/');
    if ends_with(t, ".view"@) {
        t
    } else {
        t + ".view"@
    }
}

/// Executable [`normalize_endpoint_of`].
pub fn normalize_endpoint(endpoint: &str) -> (r: String)
    ensures
        r@ == normalize_endpoint_of(endpoint@),
{
    let t = str_trim_leading(endpoint, '/');
    if str_ends_with(t, ".view") {
        t.to_owned()
    } else {
        concat2(t, ".view")
    }
}

/// The full URL of one REST endpoint.
pub open spec fn endpoint_url_of(base_url: Seq<char>, endpoint: Seq<char>) -> Seq<char> {
    rest_base_of(base_url) + "/"@ + normalize_endpoint_of(endpoint)
}

/// Executable [`endpoint_url_of`].
pub fn endpoint_url(base_url: &str, endpoint: &str) -> (r: String)
    ensures
        r@ == endpoint_url_of(base_url@, endpoint@),
{
    let mut r = rest_base(base_url);
    r.append("/");
    r.append(normalize_endpoint(endpoint).as_str());
    r
}

/// The standard client-identification parameters every call carries.
pub open spec fn client_query_of() -> Seq<(Seq<char>, Seq<char>)> {
    seq![("v"@, "1.16.1"@), ("c"@, "Saxon"@), ("f"@, "json"@)]
}

/// Executable [`client_query_of`].
pub fn client_query() -> (r: Vec<(String, String)>)
    ensures
        assoc_view(r@) == client_query_of(),
{
    let mut r: Vec<(String, String)> = Vec::new();
    r.push(("v".to_owned(), "1.16.1".to_owned()));
    r.push(("c".to_owned(), "Saxon".to_owned()));
    r.push(("f".to_owned(), "json".to_owned()));
    proof {
        assert(assoc_view(r@) =~= client_query_of());
    }
    r
}

/// Does the configured server authenticate by api key (present, not blank)?
pub open spec fn uses_api_key(s: ServerConfigV) -> bool {
    match s.api_key {
        Some(k) => !is_blank(k),
        None => false,
    }
}

/// The authentication parameters: the api key when one is set, else the
/// legacy username, token and salt triple.
pub open spec fn auth_query_of(s: ServerConfigV) -> Seq<(Seq<char>, Seq<char>)> {
    if uses_api_key(s) {
        seq![("apiKey"@, s.api_key->Some_0)]
    } else {
        seq![("u"@, s.username), ("t"@, s.token), ("s"@, s.salt)]
    }
}

/// Executable [`auth_query_of`].
pub fn auth_query(server: &NavidromeServerConfig) -> (r: Vec<(String, String)>)
    ensures
        assoc_view(r@) == auth_query_of(server@),
{
    let mut r: Vec<(String, String)> = Vec::new();
    match &server.api_key {
        Some(k) if !str_is_blank(k.as_str()) => {
            r.push(("apiKey".to_owned(), k.clone()));
            proof {
                assert(assoc_view(r@) =~= auth_query_of(server@));
            }
        },
        _ => {
            r.push(("u".to_owned(), server.username.clone()));
            r.push(("t".to_owned(), server.token.clone()));
            r.push(("s".to_owned(), server.salt.clone()));
            proof {
                assert(assoc_view(r@) =~= auth_query_of(server@));
            }
        },
    }
    r
}

/// Client identification followed by authentication: the base query of every
/// call.
pub open spec fn request_query_of(s: ServerConfigV) -> Seq<(Seq<char>, Seq<char>)> {
    client_query_of() + auth_query_of(s)
}

/// Executable [`request_query_of`].
pub fn request_query(server: &NavidromeServerConfig) -> (r: Vec<(String, String)>)
    ensures
        assoc_view(r@) == request_query_of(server@),
{
    let mut r = client_query();
    let mut auth = auth_query(server);
    r.append(&mut auth);
    proof {
        assert(assoc_view(r@) =~= request_query_of(server@));
    }
    r
}

/// The cover art URL for one remote cover id, sized for display.
pub open spec fn cover_art_url_of(s: ServerConfigV, cover_id: Seq<char>) -> Seq<char> {
    endpoint_url_of(s.base_url, "getCoverArt"@) + "?"@ + urlencoded_of(
        request_query_of(s) + seq![("id"@, cover_id), ("size"@, "300"@)],
    )
}

/// Executable [`cover_art_url_of`].
pub fn cover_art_url(server: &NavidromeServerConfig, cover_id: &str) -> (r: String)
    ensures
        r@ == cover_art_url_of(server@, cover_id@),
{
    let mut query = request_query(server);
    query.push(("id".to_owned(), cover_id.to_owned()));
    query.push(("size".to_owned(), "300".to_owned()));
    proof {
        assert(assoc_view(query@) =~= request_query_of(server@) + seq![
            ("id"@, cover_id@),
            ("size"@, "300"@),
        ]);
    }
    let qs = urlencode_pairs(&query);
    let mut r = endpoint_url(server.base_url.as_str(), "getCoverArt");
    r.append("?");
    r.append(qs.as_str());
    r
}

/// The streaming URL for one remote song id.
pub open spec fn stream_url_of(s: ServerConfigV, track_id: Seq<char>) -> Seq<char> {
    endpoint_url_of(s.base_url, "stream"@) + "?"@ + urlencoded_of(
        request_query_of(s) + seq![("id"@, track_id)],
    )
}

/// Executable [`stream_url_of`].
pub fn stream_url(server: &NavidromeServerConfig, track_id: &str) -> (r: String)
    ensures
        r@ == stream_url_of(server@, track_id@),
{
    let mut query = request_query(server);
    query.push(("id".to_owned(), track_id.to_owned()));
    proof {
        assert(assoc_view(query@) =~= request_query_of(server@) + seq![("id"@, track_id@)]);
    }
    let qs = urlencode_pairs(&query);
    let mut r = endpoint_url(server.base_url.as_str(), "stream");
    r.append("?");
    r.append(qs.as_str());
    r
}

/// What a response envelope means: an `ok` status accepts the call, any
/// other (or missing) status fails it with the embedded error message, or
/// the fixed fallback message when none was sent.
pub open spec fn envelope_outcome(
    status: Option<Seq<char>>,
    error_message: Option<Seq<char>>,
) -> Result<(), Seq<char>> {
    let st = match status {
        Some(s) => s,
        None => "failed"@,
    };
    if st == "ok"@ {
        Ok(())
    } else {
        Err(
            match error_message {
                Some(m) => m,
                None => "Request failed"@,
            },
        )
    }
}

/// Executable [`envelope_outcome`]: the one decision the transport layer
/// defers to after each call.
pub fn subsonic_outcome(status: Option<String>, error_message: Option<String>) -> (r: Result<
    (),
    String,
>)
    ensures
        ({
            let spec_r = envelope_outcome(opt_view(status), opt_view(error_message));
            match r {
                Ok(()) => spec_r == Ok::<(), Seq<char>>(()),
                Err(m) => spec_r == Err::<(), Seq<char>>(m@),
            }
        }),
{
    let ok = match &status {
        Some(s) => str_eq(s.as_str(), "ok"),
        None => {
            proof {
                reveal_strlit("ok");
                reveal_strlit("failed");
                assert("failed"@.len() != "ok"@.len());
            }
            false
        },
    };
    if ok {
        Ok(())
    } else {
        match error_message {
            Some(m) => Err(m),
            None => Err("Request failed".to_owned()),
        }
    }
}

/// The index of the configured server with this id, or the distinct
/// "not found" failure.
pub open spec fn find_server_spec(servers: Seq<ServerConfigV>, id: Seq<char>) -> Result<int, ()> {
    if exists|i: int| 0 <= i < servers.len() && (#[trigger] servers[i]).id == id {
        Ok(choose|i: int| 0 <= i < servers.len() && (#[trigger] servers[i]).id == id)
    } else {
        Err(())
    }
}

/// The first configured server carrying `server_id`.
pub fn find_server<'a>(servers: &'a Vec<NavidromeServerConfig>, server_id: &str) -> (r: Option<
    &'a NavidromeServerConfig,
>)
    ensures
        match r {
            Some(s) => exists|i: int|
                0 <= i < servers@.len() && (#[trigger] servers@[i])@ == (*s)@ && servers@[i]@.id
                    == server_id@,
            None => forall|i: int|
                0 <= i < servers@.len() ==> (#[trigger] servers@[i])@.id != server_id@,
        },
{
    let n = servers.len();
    let mut i: usize = 0;
    while i < n
        invariant
            n == servers@.len(),
            i <= n,
            forall|j: int| 0 <= j < i ==> (#[trigger] servers@[j])@.id != server_id@,
        decreases n - i,
    {
        if str_eq(servers[i].id.as_str(), server_id) {
            return Some(&servers[i]);
        }
        i = i + 1;
    }
    None
}

/// What a remote scan request resolves to before any network traffic: an
/// unknown id is the "not found" failure, a disabled server short-circuits to
/// the empty sentinel result, an enabled one proceeds to the fetch.
pub enum RemoteGate {
    NotFound,
    Disabled(ScanResult),
    Proceed(usize),
}

/// Resolve a server id against the configuration: decides, without any
/// transport, whether a scan fails, short-circuits or proceeds (and where).
pub fn remote_scan_gate(servers: &Vec<NavidromeServerConfig>, server_id: &str) -> (r: RemoteGate)
    ensures
        match r {
            RemoteGate::NotFound => forall|i: int|
                0 <= i < servers@.len() ==> (#[trigger] servers@[i])@.id != server_id@,
            RemoteGate::Disabled(empty) => {
                &&& exists|i: int|
                    0 <= i < servers@.len() && (#[trigger] servers@[i])@.id == server_id@
                        && !servers@[i]@.enabled
                &&& empty@.tracks =~= Seq::<crate::model::TrackV>::empty()
                &&& empty@.folders =~= Seq::<crate::model::FolderV>::empty()
                &&& empty@.revision == "disabled"@
            },
            RemoteGate::Proceed(i) => i < servers@.len() && servers@[i as int]@.id == server_id@
                && servers@[i as int]@.enabled,
        },
{
    let n = servers.len();
    let mut i: usize = 0;
    while i < n
        invariant
            n == servers@.len(),
            i <= n,
            forall|j: int| 0 <= j < i ==> (#[trigger] servers@[j])@.id != server_id@,
        decreases n - i,
    {
        if str_eq(servers[i].id.as_str(), server_id) {
            if servers[i].enabled {
                return RemoteGate::Proceed(i);
            } else {
                return RemoteGate::Disabled(crate::model::disabled_scan_result());
            }
        }
        i = i + 1;
    }
    RemoteGate::NotFound
}

/// Build the configuration of a new remote server: a fresh random id; either
/// the api key as handed in, or — password given — a fresh random salt and
/// the salted legacy token, so the raw password is never stored. A missing
/// password without an api key is the one failure. The caller still
/// validates the new server with a ping before persisting it.
pub fn create_server(
    name: String,
    base_url: String,
    username: String,
    password: Option<String>,
    api_key: Option<String>,
) -> (r: Result<NavidromeServerConfig, String>)
    ensures
        ({
            let has_key = match opt_view(api_key) {
                Some(k) => !is_blank(k),
                None => false,
            };
            match r {
                Ok(s) => {
                    &&& s@.name == name@
                    &&& s@.base_url == base_url@
                    &&& s@.username == username@
                    &&& s@.enabled
                    &&& s@.id.len() == 36
                    &&& s@.api_key == opt_view(api_key)
                    &&& has_key ==> s@.token.len() == 0 && s@.salt.len() == 0
                    &&& !has_key ==> {
                        &&& password is Some
                        &&& s@.salt.len() == 32
                        &&& s@.token == legacy_token_of(password->Some_0@, s@.salt)
                    }
                },
                Err(m) => !has_key && password is None && m@ == "Password is required"@,
            }
        }),
{
    let id = new_uuid_hyphenated();
    let has_key = match &api_key {
        Some(k) => !str_is_blank(k.as_str()),
        None => false,
    };
    let (token, salt): (String, String) = if has_key {
        (String::new(), String::new())
    } else {
        match &password {
            None => {
                return Err("Password is required".to_owned());
            },
            Some(p) => {
                let salt = new_uuid_simple();
                let token = legacy_token(p.as_str(), salt.as_str());
                (token, salt)
            },
        }
    };
    Ok(
        NavidromeServerConfig {
            id,
            name,
            base_url,
            username,
            token,
            salt,
            api_key,
            enabled: true,
        },
    )
}


/// One song as the protocol reports it; every field may be missing.
pub struct RemoteSong {
    pub id: Option<String>,
    pub title: Option<String>,
    pub artist: Option<String>,
    pub album: Option<String>,
    pub duration: Option<u64>,
    pub cover_art: Option<String>,
}

/// The mathematical view of a [`RemoteSong`].
pub ghost struct SongV {
    pub id: Option<Seq<char>>,
    pub title: Option<Seq<char>>,
    pub artist: Option<Seq<char>>,
    pub album: Option<Seq<char>>,
    pub duration: Option<u64>,
    pub cover_art: Option<Seq<char>>,
}

impl View for RemoteSong {
    type V = SongV;

    open spec fn view(&self) -> SongV {
        SongV {
            id: opt_view(self.id),
            title: opt_view(self.title),
            artist: opt_view(self.artist),
            album: opt_view(self.album),
            duration: self.duration,
            cover_art: opt_view(self.cover_art),
        }
    }
}

/// One album under an artist, with the songs fetched for it.
pub struct RemoteAlbum {
    pub id: Option<String>,
    pub name: Option<String>,
    pub cover_art: Option<String>,
    pub songs: Vec<RemoteSong>,
}

/// The mathematical view of a [`RemoteAlbum`].
pub ghost struct AlbumV {
    pub id: Option<Seq<char>>,
    pub name: Option<Seq<char>>,
    pub cover_art: Option<Seq<char>>,
    pub songs: Seq<SongV>,
}

impl View for RemoteAlbum {
    type V = AlbumV;

    open spec fn view(&self) -> AlbumV {
        AlbumV {
            id: opt_view(self.id),
            name: opt_view(self.name),
            cover_art: opt_view(self.cover_art),
            songs: self.songs@.map_values(|x: RemoteSong| x@),
        }
    }
}

/// One artist with the albums fetched for it.
pub struct RemoteArtist {
    pub id: Option<String>,
    pub name: Option<String>,
    pub albums: Vec<RemoteAlbum>,
}

/// The mathematical view of a [`RemoteArtist`].
pub ghost struct ArtistV {
    pub id: Option<Seq<char>>,
    pub name: Option<Seq<char>>,
    pub albums: Seq<AlbumV>,
}

impl View for RemoteArtist {
    type V = ArtistV;

    open spec fn view(&self) -> ArtistV {
        ArtistV {
            id: opt_view(self.id),
            name: opt_view(self.name),
            albums: self.albums@.map_values(|x: RemoteAlbum| x@),
        }
    }
}

/// One playlist with its entries.
pub struct RemotePlaylist {
    pub id: Option<String>,
    pub name: Option<String>,
    pub entries: Vec<RemoteSong>,
}

/// The mathematical view of a [`RemotePlaylist`].
pub ghost struct PlaylistV {
    pub id: Option<Seq<char>>,
    pub name: Option<Seq<char>>,
    pub entries: Seq<SongV>,
}

impl View for RemotePlaylist {
    type V = PlaylistV;

    open spec fn view(&self) -> PlaylistV {
        PlaylistV {
            id: opt_view(self.id),
            name: opt_view(self.name),
            entries: self.entries@.map_values(|x: RemoteSong| x@),
        }
    }
}

/// Everything one remote scan fetched, in fetch order.
pub struct RemoteLibrary {
    pub artists: Vec<RemoteArtist>,
    pub playlists: Vec<RemotePlaylist>,
}

/// The mathematical view of a [`RemoteLibrary`].
pub ghost struct LibraryV {
    pub artists: Seq<ArtistV>,
    pub playlists: Seq<PlaylistV>,
}

impl View for RemoteLibrary {
    type V = LibraryV;

    open spec fn view(&self) -> LibraryV {
        LibraryV {
            artists: self.artists@.map_values(|x: RemoteArtist| x@),
            playlists: self.playlists@.map_values(|x: RemotePlaylist| x@),
        }
    }
}

/// The synthetic folder id of the server itself.
pub open spec fn remote_root_id_of(sid: Seq<char>) -> Seq<char> {
    "navidrome:"@ + sid
}

/// The synthetic id of the virtual container of all tracks.
pub open spec fn all_tracks_id_of(sid: Seq<char>) -> Seq<char> {
    remote_root_id_of(sid) + ":alltracks"@
}

/// The synthetic id of the virtual container of artists.
pub open spec fn artists_root_id_of(sid: Seq<char>) -> Seq<char> {
    remote_root_id_of(sid) + ":artists"@
}

/// The synthetic id of the virtual container of playlists.
pub open spec fn playlists_root_id_of(sid: Seq<char>) -> Seq<char> {
    remote_root_id_of(sid) + ":playlists"@
}

/// The synthetic folder id of one artist, namespaced by server and entity.
pub open spec fn artist_folder_id_of(sid: Seq<char>, aid: Seq<char>) -> Seq<char> {
    remote_root_id_of(sid) + ":artist:"@ + aid
}

/// The synthetic folder id of one album.
pub open spec fn album_folder_id_of(sid: Seq<char>, alid: Seq<char>) -> Seq<char> {
    remote_root_id_of(sid) + ":album:"@ + alid
}

/// The canonical id of one song: independent of how it was surfaced.
pub open spec fn track_canonical_of(sid: Seq<char>, song_id: Seq<char>) -> Seq<char> {
    remote_root_id_of(sid) + ":track:"@ + song_id
}

/// The synthetic folder id of one playlist.
pub open spec fn playlist_folder_id_of(sid: Seq<char>, pid: Seq<char>) -> Seq<char> {
    remote_root_id_of(sid) + ":playlist:"@ + pid
}

/// The contextual id of a song surfaced through a playlist.
pub open spec fn playlist_track_id_of(sid: Seq<char>, pid: Seq<char>, song_id: Seq<char>) -> Seq<
    char,
> {
    playlist_folder_id_of(sid, pid) + ":track:"@ + song_id
}

/// A string fallback.
pub open spec fn or_str(o: Option<Seq<char>>, d: Seq<char>) -> Seq<char> {
    match o {
        Some(s) => s,
        None => d,
    }
}

/// A numeric fallback.
pub open spec fn or_u64(o: Option<u64>, d: u64) -> u64 {
    match o {
        Some(v) => v,
        None => d,
    }
}

/// The first present of two optional strings.
pub open spec fn or_opt(a: Option<Seq<char>>, b: Option<Seq<char>>) -> Option<Seq<char>> {
    if a is Some {
        a
    } else {
        b
    }
}

/// How many of these songs carry an id, and so become tracks.
pub open spec fn accepted_songs(songs: Seq<SongV>) -> int
    decreases songs.len(),
{
    if songs.len() == 0 {
        0
    } else {
        accepted_songs(songs.drop_last()) + if songs.last().id is Some {
            1int
        } else {
            0int
        }
    }
}

/// How many tracks one artist's albums contribute.
pub open spec fn artist_album_songs(albums: Seq<AlbumV>) -> int
    decreases albums.len(),
{
    if albums.len() == 0 {
        0
    } else {
        artist_album_songs(albums.drop_last()) + if albums.last().id is Some {
            accepted_songs(albums.last().songs)
        } else {
            0int
        }
    }
}

/// How many tracks the album walk contributes in all.
pub open spec fn total_album_songs(artists: Seq<ArtistV>) -> int
    decreases artists.len(),
{
    if artists.len() == 0 {
        0
    } else {
        total_album_songs(artists.drop_last()) + if artists.last().id is Some {
            artist_album_songs(artists.last().albums)
        } else {
            0int
        }
    }
}

/// How many tracks the playlist walk contributes in all.
pub open spec fn total_playlist_entries(playlists: Seq<PlaylistV>) -> int
    decreases playlists.len(),
{
    if playlists.len() == 0 {
        0
    } else {
        total_playlist_entries(playlists.drop_last()) + if playlists.last().id is Some {
            accepted_songs(playlists.last().entries)
        } else {
            0int
        }
    }
}


/// A partial-walk count never exceeds the whole walk's.
pub proof fn lemma_accepted_songs_bounds(songs: Seq<SongV>, j: int)
    requires
        0 <= j <= songs.len(),
    ensures
        0 <= accepted_songs(songs.take(j)) <= accepted_songs(songs) <= songs.len(),
    decreases songs.len(),
{
    if songs.len() == 0 {
        assert(songs.take(j) =~= songs);
    } else if j == songs.len() {
        assert(songs.take(j) =~= songs);
        lemma_accepted_songs_bounds(songs.drop_last(), songs.len() - 1);
        assert(songs.drop_last().take(songs.len() - 1) =~= songs.drop_last());
    } else {
        lemma_accepted_songs_bounds(songs.drop_last(), j);
        assert(songs.drop_last().take(j) =~= songs.take(j));
    }
}

/// The same for one artist's albums.
pub proof fn lemma_artist_album_songs_bounds(albums: Seq<AlbumV>, j: int)
    requires
        0 <= j <= albums.len(),
    ensures
        0 <= artist_album_songs(albums.take(j)) <= artist_album_songs(albums),
    decreases albums.len(),
{
    if albums.len() == 0 {
        assert(albums.take(j) =~= albums);
    } else if j == albums.len() {
        assert(albums.take(j) =~= albums);
        lemma_artist_album_songs_bounds(albums.drop_last(), albums.len() - 1);
        assert(albums.drop_last().take(albums.len() - 1) =~= albums.drop_last());
        lemma_accepted_songs_bounds(albums.last().songs, albums.last().songs.len() as int);
    } else {
        lemma_artist_album_songs_bounds(albums.drop_last(), j);
        assert(albums.drop_last().take(j) =~= albums.take(j));
        lemma_accepted_songs_bounds(albums.last().songs, albums.last().songs.len() as int);
    }
}

/// The same over all artists.
pub proof fn lemma_total_album_songs_bounds(artists: Seq<ArtistV>, j: int)
    requires
        0 <= j <= artists.len(),
    ensures
        0 <= total_album_songs(artists.take(j)) <= total_album_songs(artists),
    decreases artists.len(),
{
    if artists.len() == 0 {
        assert(artists.take(j) =~= artists);
    } else if j == artists.len() {
        assert(artists.take(j) =~= artists);
        lemma_total_album_songs_bounds(artists.drop_last(), artists.len() - 1);
        assert(artists.drop_last().take(artists.len() - 1) =~= artists.drop_last());
        lemma_artist_album_songs_bounds(artists.last().albums, artists.last().albums.len() as int);
    } else {
        lemma_total_album_songs_bounds(artists.drop_last(), j);
        assert(artists.drop_last().take(j) =~= artists.take(j));
        lemma_artist_album_songs_bounds(artists.last().albums, artists.last().albums.len() as int);
    }
}

/// The same over all playlists.
pub proof fn lemma_total_playlist_entries_bounds(playlists: Seq<PlaylistV>, j: int)
    requires
        0 <= j <= playlists.len(),
    ensures
        0 <= total_playlist_entries(playlists.take(j)) <= total_playlist_entries(playlists),
    decreases playlists.len(),
{
    if playlists.len() == 0 {
        assert(playlists.take(j) =~= playlists);
    } else if j == playlists.len() {
        assert(playlists.take(j) =~= playlists);
        lemma_total_playlist_entries_bounds(playlists.drop_last(), playlists.len() - 1);
        assert(playlists.drop_last().take(playlists.len() - 1) =~= playlists.drop_last());
        lemma_accepted_songs_bounds(playlists.last().entries, playlists.last().entries.len() as int);
    } else {
        lemma_total_playlist_entries_bounds(playlists.drop_last(), j);
        assert(playlists.drop_last().take(j) =~= playlists.take(j));
        lemma_accepted_songs_bounds(playlists.last().entries, playlists.last().entries.len() as int);
    }
}

/// The remote scan's accumulating state: folders and tracks in emission
/// order, the per-container count registry for the second pass, and the
/// fingerprint accumulator.
pub struct RemoteScanState {
    pub folders: Vec<MusicFolder>,
    pub tracks: Vec<Track>,
    pub counts: Vec<(String, usize)>,
    pub fp: u64,
}

/// The mathematical view of a [`RemoteScanState`].
pub ghost struct RemoteStateV {
    pub folders: Seq<FolderV>,
    pub tracks: Seq<TrackV>,
    pub counts: Seq<(Seq<char>, usize)>,
    pub fp: u64,
}

impl View for RemoteScanState {
    type V = RemoteStateV;

    open spec fn view(&self) -> RemoteStateV {
        RemoteStateV {
            folders: self.folders@.map_values(|f: MusicFolder| f@),
            tracks: self.tracks@.map_values(|t: Track| t@),
            counts: assoc_view(self.counts@),
            fp: self.fp,
        }
    }
}

/// Add to a counter in the registry, creating it at zero first.
pub open spec fn counts_add(s: Seq<(Seq<char>, usize)>, k: Seq<char>, dv: usize) -> Seq<
    (Seq<char>, usize),
> {
    let cur = match assoc_lookup(s, k) {
        Some(v) => v,
        None => 0usize,
    };
    assoc_set(s, k, ((cur + dv) as usize))
}

/// One song of an album: skipped without an id, otherwise emitted as a track
/// attached to the album folder, with tag fallbacks to its context and its
/// identity folded into the fingerprint.
pub open spec fn album_song_step(
    sv: ServerConfigV,
    artist_name: Seq<char>,
    album_name: Seq<char>,
    album_cover: Option<Seq<char>>,
    album_fid: Seq<char>,
    st: RemoteStateV,
    song: SongV,
) -> RemoteStateV {
    match song.id {
        None => st,
        Some(song_id) => {
            let title = or_str(song.title, "Unknown Title"@);
            let duration = or_u64(song.duration, 0);
            let s_artist = or_str(song.artist, artist_name);
            let s_album = or_str(song.album, album_name);
            let cover_id = or_opt(song.cover_art, album_cover);
            let cover_url = match cover_id {
                Some(cid) => Some(cover_art_url_of(sv, cid)),
                None => None,
            };
            let id = track_canonical_of(sv.id, song_id);
            let fp = fold_u64(
                fold_str(fold_str(fold_str(fold_str(fold_str(st.fp, id), album_fid), title), s_artist), s_album),
                duration,
            );
            RemoteStateV {
                tracks: st.tracks.push(
                    TrackV {
                        id,
                        canonical_id: id,
                        title,
                        artist: s_artist,
                        album: s_album,
                        duration,
                        cover_url,
                        audio_url: stream_url_of(sv, song_id),
                        folder_id: Some(album_fid),
                        source: "navidrome"@,
                    },
                ),
                fp,
                ..st
            }
        },
    }
}

/// An album's songs, in order.
pub open spec fn album_songs_fold(
    sv: ServerConfigV,
    artist_name: Seq<char>,
    album_name: Seq<char>,
    album_cover: Option<Seq<char>>,
    album_fid: Seq<char>,
    st: RemoteStateV,
    songs: Seq<SongV>,
) -> RemoteStateV
    decreases songs.len(),
{
    if songs.len() == 0 {
        st
    } else {
        album_song_step(
            sv,
            artist_name,
            album_name,
            album_cover,
            album_fid,
            album_songs_fold(sv, artist_name, album_name, album_cover, album_fid, st, songs.drop_last()),
            songs.last(),
        )
    }
}

/// One album: skipped without an id, otherwise registered as a folder under
/// its artist, its songs emitted, its exact count recorded and added to the
/// artist's subtree sum.
pub open spec fn album_step(
    sv: ServerConfigV,
    artist_fid: Seq<char>,
    artist_name: Seq<char>,
    st: RemoteStateV,
    album: AlbumV,
) -> RemoteStateV {
    match album.id {
        None => st,
        Some(alid) => {
            let album_name = or_str(album.name, "Unknown Album"@);
            let album_fid = album_folder_id_of(sv.id, alid);
            let folder = FolderV {
                id: album_fid,
                parent_id: Some(artist_fid),
                name: album_name,
                path: album_fid,
                track_count: 0,
                source: "navidrome"@,
            };
            let st1 = RemoteStateV { folders: st.folders.push(folder), ..st };
            let st2 = album_songs_fold(
                sv,
                artist_name,
                album_name,
                album.cover_art,
                album_fid,
                st1,
                album.songs,
            );
            let cnt = accepted_songs(album.songs) as usize;
            RemoteStateV {
                counts: counts_add(assoc_set(st2.counts, album_fid, cnt), artist_fid, cnt),
                ..st2
            }
        },
    }
}

/// An artist's albums, in order.
pub open spec fn artist_albums_fold(
    sv: ServerConfigV,
    artist_fid: Seq<char>,
    artist_name: Seq<char>,
    st: RemoteStateV,
    albums: Seq<AlbumV>,
) -> RemoteStateV
    decreases albums.len(),
{
    if albums.len() == 0 {
        st
    } else {
        album_step(
            sv,
            artist_fid,
            artist_name,
            artist_albums_fold(sv, artist_fid, artist_name, st, albums.drop_last()),
            albums.last(),
        )
    }
}

/// One artist: skipped without an id, otherwise registered as a folder under
/// the artists container, with all albums walked.
pub open spec fn artist_step(sv: ServerConfigV, st: RemoteStateV, artist: ArtistV) -> RemoteStateV {
    match artist.id {
        None => st,
        Some(aid) => {
            let artist_name = or_str(artist.name, "Unknown Artist"@);
            let artist_fid = artist_folder_id_of(sv.id, aid);
            let folder = FolderV {
                id: artist_fid,
                parent_id: Some(artists_root_id_of(sv.id)),
                name: artist_name,
                path: artist_fid,
                track_count: 0,
                source: "navidrome"@,
            };
            let st1 = RemoteStateV { folders: st.folders.push(folder), ..st };
            artist_albums_fold(sv, artist_fid, artist_name, st1, artist.albums)
        },
    }
}

/// All artists, in fetch order.
pub open spec fn artists_fold(sv: ServerConfigV, st: RemoteStateV, artists: Seq<ArtistV>) -> RemoteStateV
    decreases artists.len(),
{
    if artists.len() == 0 {
        st
    } else {
        artist_step(sv, artists_fold(sv, st, artists.drop_last()), artists.last())
    }
}

/// One playlist entry: like an album song, but the id carries the playlist
/// context while the canonical id stays the bare song's — the same asset
/// surfaced twice stays one canonical asset.
pub open spec fn playlist_entry_step(
    sv: ServerConfigV,
    playlist_fid: Seq<char>,
    st: RemoteStateV,
    song: SongV,
) -> RemoteStateV {
    match song.id {
        None => st,
        Some(song_id) => {
            let base_id = track_canonical_of(sv.id, song_id);
            let id = playlist_fid + ":track:"@ + song_id;
            let title = or_str(song.title, "Unknown Title"@);
            let duration = or_u64(song.duration, 0);
            let s_artist = or_str(song.artist, "Unknown Artist"@);
            let s_album = or_str(song.album, "Unknown Album"@);
            let cover_url = match song.cover_art {
                Some(cid) => Some(cover_art_url_of(sv, cid)),
                None => None,
            };
            let fp = fold_u64(
                fold_str(
                    fold_str(
                        fold_str(fold_str(fold_str(fold_str(st.fp, id), base_id), playlist_fid), title),
                        s_artist,
                    ),
                    s_album,
                ),
                duration,
            );
            RemoteStateV {
                tracks: st.tracks.push(
                    TrackV {
                        id,
                        canonical_id: base_id,
                        title,
                        artist: s_artist,
                        album: s_album,
                        duration,
                        cover_url,
                        audio_url: stream_url_of(sv, song_id),
                        folder_id: Some(playlist_fid),
                        source: "navidrome"@,
                    },
                ),
                fp,
                ..st
            }
        },
    }
}

/// A playlist's entries, in order.
pub open spec fn playlist_entries_fold(
    sv: ServerConfigV,
    playlist_fid: Seq<char>,
    st: RemoteStateV,
    entries: Seq<SongV>,
) -> RemoteStateV
    decreases entries.len(),
{
    if entries.len() == 0 {
        st
    } else {
        playlist_entry_step(
            sv,
            playlist_fid,
            playlist_entries_fold(sv, playlist_fid, st, entries.drop_last()),
            entries.last(),
        )
    }
}

/// One playlist: skipped without an id, otherwise registered as a folder
/// under the playlists container, its entries emitted and its exact count
/// recorded.
pub open spec fn playlist_step(sv: ServerConfigV, st: RemoteStateV, pl: PlaylistV) -> RemoteStateV {
    match pl.id {
        None => st,
        Some(pid) => {
            let name = or_str(pl.name, "Playlist"@);
            let playlist_fid = playlist_folder_id_of(sv.id, pid);
            let folder = FolderV {
                id: playlist_fid,
                parent_id: Some(playlists_root_id_of(sv.id)),
                name,
                path: playlist_fid,
                track_count: 0,
                source: "navidrome"@,
            };
            let st1 = RemoteStateV { folders: st.folders.push(folder), ..st };
            let st2 = playlist_entries_fold(sv, playlist_fid, st1, pl.entries);
            RemoteStateV {
                counts: assoc_set(st2.counts, playlist_fid, accepted_songs(pl.entries) as usize),
                ..st2
            }
        },
    }
}

/// All playlists, in fetch order.
pub open spec fn playlists_fold(
    sv: ServerConfigV,
    st: RemoteStateV,
    playlists: Seq<PlaylistV>,
) -> RemoteStateV
    decreases playlists.len(),
{
    if playlists.len() == 0 {
        st
    } else {
        playlist_step(sv, playlists_fold(sv, st, playlists.drop_last()), playlists.last())
    }
}

/// The four synthetic containers every remote scan starts from: the server
/// root, and under it the all-tracks, artists and playlists containers.
pub open spec fn remote_scan_init(sv: ServerConfigV) -> RemoteStateV {
    let root = remote_root_id_of(sv.id);
    RemoteStateV {
        folders: seq![
            FolderV {
                id: root,
                parent_id: None,
                name: sv.name,
                path: root,
                track_count: 0,
                source: "navidrome"@,
            },
            FolderV {
                id: all_tracks_id_of(sv.id),
                parent_id: Some(root),
                name: "All Tracks"@,
                path: all_tracks_id_of(sv.id),
                track_count: 0,
                source: "navidrome"@,
            },
            FolderV {
                id: artists_root_id_of(sv.id),
                parent_id: Some(root),
                name: "Artists"@,
                path: artists_root_id_of(sv.id),
                track_count: 0,
                source: "navidrome"@,
            },
            FolderV {
                id: playlists_root_id_of(sv.id),
                parent_id: Some(root),
                name: "Playlists"@,
                path: playlists_root_id_of(sv.id),
                track_count: 0,
                source: "navidrome"@,
            },
        ],
        tracks: Seq::empty(),
        counts: Seq::empty(),
        fp: FNV_OFFSET,
    }
}

/// The counts registry after the library totals are recorded: virtual
/// containers carry subtree sums, and only when anything was found at all.
pub open spec fn remote_final_counts(sv: ServerConfigV, lib: LibraryV, st: RemoteStateV) -> Seq<
    (Seq<char>, usize),
> {
    let t = total_album_songs(lib.artists);
    let c1 = if t > 0 {
        assoc_set(
            assoc_set(
                assoc_set(st.counts, all_tracks_id_of(sv.id), t as usize),
                artists_root_id_of(sv.id),
                t as usize,
            ),
            remote_root_id_of(sv.id),
            t as usize,
        )
    } else {
        st.counts
    };
    c1
}

/// Every folder with a recorded count takes it; the rest keep their zero.
pub open spec fn apply_counts(folders: Seq<FolderV>, counts: Seq<(Seq<char>, usize)>) -> Seq<
    FolderV,
> {
    folders.map_values(
        |f: FolderV|
            match assoc_lookup(counts, f.id) {
                Some(c) => FolderV { track_count: c as int, ..f },
                None => f,
            },
    )
}

/// The whole remote scan: the synthetic roots, the artist walk, the library
/// totals, the playlist walk, the playlist total, the count application and
/// the fingerprint rendering.
pub open spec fn remote_scan_spec(sv: ServerConfigV, lib: LibraryV) -> ScanResultV {
    let st1 = artists_fold(sv, remote_scan_init(sv), lib.artists);
    let st2 = RemoteStateV { counts: remote_final_counts(sv, lib, st1), ..st1 };
    let st3 = playlists_fold(sv, st2, lib.playlists);
    let pt = total_playlist_entries(lib.playlists);
    let final_counts = if pt > 0 {
        assoc_set(st3.counts, playlists_root_id_of(sv.id), pt as usize)
    } else {
        st3.counts
    };
    ScanResultV {
        tracks: st3.tracks,
        folders: apply_counts(st3.folders, final_counts),
        revision: hex16(st3.fp),
    }
}


/// Executable [`remote_root_id_of`].
pub fn remote_root_id(sid: &str) -> (r: String)
    ensures
        r@ == remote_root_id_of(sid@),
{
    concat2("navidrome:", sid)
}

/// Executable [`all_tracks_id_of`].
pub fn all_tracks_id(sid: &str) -> (r: String)
    ensures
        r@ == all_tracks_id_of(sid@),
{
    let mut r = remote_root_id(sid);
    r.append(":alltracks");
    r
}

/// Executable [`artists_root_id_of`].
pub fn artists_root_id(sid: &str) -> (r: String)
    ensures
        r@ == artists_root_id_of(sid@),
{
    let mut r = remote_root_id(sid);
    r.append(":artists");
    r
}

/// Executable [`playlists_root_id_of`].
pub fn playlists_root_id(sid: &str) -> (r: String)
    ensures
        r@ == playlists_root_id_of(sid@),
{
    let mut r = remote_root_id(sid);
    r.append(":playlists");
    r
}

/// Executable [`artist_folder_id_of`].
pub fn artist_folder_id(sid: &str, aid: &str) -> (r: String)
    ensures
        r@ == artist_folder_id_of(sid@, aid@),
{
    let mut r = remote_root_id(sid);
    r.append(":artist:");
    r.append(aid);
    r
}

/// Executable [`album_folder_id_of`].
pub fn album_folder_id(sid: &str, alid: &str) -> (r: String)
    ensures
        r@ == album_folder_id_of(sid@, alid@),
{
    let mut r = remote_root_id(sid);
    r.append(":album:");
    r.append(alid);
    r
}

/// Executable [`track_canonical_of`].
pub fn track_canonical(sid: &str, song_id: &str) -> (r: String)
    ensures
        r@ == track_canonical_of(sid@, song_id@),
{
    let mut r = remote_root_id(sid);
    r.append(":track:");
    r.append(song_id);
    r
}

/// Executable [`playlist_folder_id_of`].
pub fn playlist_folder_id(sid: &str, pid: &str) -> (r: String)
    ensures
        r@ == playlist_folder_id_of(sid@, pid@),
{
    let mut r = remote_root_id(sid);
    r.append(":playlist:");
    r.append(pid);
    r
}

/// A copy of the option's string, or the fallback.
fn clone_or(o: &Option<String>, d: &str) -> (r: String)
    ensures
        r@ == or_str(opt_view(*o), d@),
{
    match o {
        Some(v) => v.clone(),
        None => d.to_owned(),
    }
}

/// An album folder id and an artist folder id can never collide: past the
/// shared server prefix one reads `:album:`, the other `:artist:`.
proof fn lemma_album_artist_fid_distinct(sid: Seq<char>, alid: Seq<char>, aid: Seq<char>)
    ensures
        album_folder_id_of(sid, alid) != artist_folder_id_of(sid, aid),
{
    reveal_strlit(":album:");
    reveal_strlit(":artist:");
    let r = remote_root_id_of(sid);
    let al = album_folder_id_of(sid, alid);
    let ar = artist_folder_id_of(sid, aid);
    assert(al[r.len() as int + 2] == ":album:"@[2]);
    assert(ar[r.len() as int + 2] == ":artist:"@[2]);
    assert(":album:"@[2] == 'l' && ":artist:"@[2] == 'r');
}

/// Executable [`counts_add`], guarded against overflow by its caller's
/// running bound.
fn add_count(counts: &mut Vec<(String, usize)>, key: String, dv: usize)
    requires
        (match assoc_lookup(assoc_view(old(counts)@), key@) {
            Some(v) => v as int,
            None => 0int,
        }) + dv <= usize::MAX,
    ensures
        assoc_view(final(counts)@) == counts_add(assoc_view(old(counts)@), key@, dv),
{
    let cur: usize = match assoc_get(counts, key.as_str()) {
        Some(c) => *c,
        None => 0,
    };
    assoc_put(counts, key, cur + dv);
}


/// Emit one album's songs; returns how many were accepted.
fn scan_album_songs(
    st: &mut RemoteScanState,
    server: &NavidromeServerConfig,
    artist_name: &String,
    album_name: &String,
    album_cover: &Option<String>,
    album_fid: &String,
    songs: &Vec<RemoteSong>,
) -> (cnt: usize)
    ensures
        final(st)@ == album_songs_fold(
            server@,
            artist_name@,
            album_name@,
            opt_view(*album_cover),
            album_fid@,
            old(st)@,
            songs@.map_values(|x: RemoteSong| x@),
        ),
        cnt == accepted_songs(songs@.map_values(|x: RemoteSong| x@)),
{
    let ghost sv = songs@.map_values(|x: RemoteSong| x@);
    let n = songs.len();
    let mut cnt: usize = 0;
    let mut j: usize = 0;
    proof {
        assert(sv.take(0) =~= Seq::<SongV>::empty());
    }
    while j < n
        invariant
            n == songs@.len(),
            j <= n,
            cnt <= j,
            sv == songs@.map_values(|x: RemoteSong| x@),
            st@ == album_songs_fold(
                server@,
                artist_name@,
                album_name@,
                opt_view(*album_cover),
                album_fid@,
                old(st)@,
                sv.take(j as int),
            ),
            cnt == accepted_songs(sv.take(j as int)),
        decreases n - j,
    {
        let ghost st_pre = st@;
        proof {
            assert(sv.take(j + 1).drop_last() =~= sv.take(j as int));
            assert(sv.take(j + 1).last() == songs@[j as int]@);
        }
        let song = &songs[j];
        if let Some(song_id) = &song.id {
            let title = clone_or(&song.title, "Unknown Title");
            let duration: u64 = match song.duration {
                Some(d) => d,
                None => 0,
            };
            let s_artist = clone_or(&song.artist, artist_name.as_str());
            let s_album = clone_or(&song.album, album_name.as_str());
            let cover_id: Option<String> = match &song.cover_art {
                Some(c) => Some(c.clone()),
                None => crate::model::clone_opt_string(album_cover),
            };
            let cover_url: Option<String> = match &cover_id {
                Some(cid) => Some(cover_art_url(server, cid.as_str())),
                None => None,
            };
            let audio_url = stream_url(server, song_id.as_str());
            let id = track_canonical(server.id.as_str(), song_id.as_str());
            let mut fp = crate::fingerprint::fp_fold_str(st.fp, id.as_str());
            fp = crate::fingerprint::fp_fold_str(fp, album_fid.as_str());
            fp = crate::fingerprint::fp_fold_str(fp, title.as_str());
            fp = crate::fingerprint::fp_fold_str(fp, s_artist.as_str());
            fp = crate::fingerprint::fp_fold_str(fp, s_album.as_str());
            st.fp = crate::fingerprint::fp_fold_u64(fp, duration);
            st.tracks.push(
                Track {
                    id: id.clone(),
                    canonical_id: id,
                    title,
                    artist: s_artist,
                    album: s_album,
                    duration,
                    cover_url,
                    audio_url,
                    folder_id: Some(album_fid.clone()),
                    source: "navidrome".to_owned(),
                },
            );
            cnt = cnt + 1;
            proof {
                assert(st@.tracks =~= album_song_step(
                    server@,
                    artist_name@,
                    album_name@,
                    opt_view(*album_cover),
                    album_fid@,
                    st_pre,
                    songs@[j as int]@,
                ).tracks);
            }
        }
        j = j + 1;
    }
    proof {
        assert(sv.take(n as int) =~= sv);
    }
    cnt
}


/// Emit one playlist's entries; returns how many were accepted.
fn scan_playlist_entries(
    st: &mut RemoteScanState,
    server: &NavidromeServerConfig,
    playlist_fid: &String,
    entries: &Vec<RemoteSong>,
) -> (cnt: usize)
    ensures
        final(st)@ == playlist_entries_fold(
            server@,
            playlist_fid@,
            old(st)@,
            entries@.map_values(|x: RemoteSong| x@),
        ),
        cnt == accepted_songs(entries@.map_values(|x: RemoteSong| x@)),
{
    let ghost ev = entries@.map_values(|x: RemoteSong| x@);
    let n = entries.len();
    let mut cnt: usize = 0;
    let mut j: usize = 0;
    proof {
        assert(ev.take(0) =~= Seq::<SongV>::empty());
    }
    while j < n
        invariant
            n == entries@.len(),
            j <= n,
            cnt <= j,
            ev == entries@.map_values(|x: RemoteSong| x@),
            st@ == playlist_entries_fold(server@, playlist_fid@, old(st)@, ev.take(j as int)),
            cnt == accepted_songs(ev.take(j as int)),
        decreases n - j,
    {
        let ghost st_pre = st@;
        proof {
            assert(ev.take(j + 1).drop_last() =~= ev.take(j as int));
            assert(ev.take(j + 1).last() == entries@[j as int]@);
        }
        let song = &entries[j];
        if let Some(song_id) = &song.id {
            let base_id = track_canonical(server.id.as_str(), song_id.as_str());
            let mut id = concat2(playlist_fid.as_str(), ":track:");
            id.append(song_id.as_str());
            let title = clone_or(&song.title, "Unknown Title");
            let duration: u64 = match song.duration {
                Some(d) => d,
                None => 0,
            };
            let s_artist = clone_or(&song.artist, "Unknown Artist");
            let s_album = clone_or(&song.album, "Unknown Album");
            let cover_url: Option<String> = match &song.cover_art {
                Some(cid) => Some(cover_art_url(server, cid.as_str())),
                None => None,
            };
            let audio_url = stream_url(server, song_id.as_str());
            let mut fp = crate::fingerprint::fp_fold_str(st.fp, id.as_str());
            fp = crate::fingerprint::fp_fold_str(fp, base_id.as_str());
            fp = crate::fingerprint::fp_fold_str(fp, playlist_fid.as_str());
            fp = crate::fingerprint::fp_fold_str(fp, title.as_str());
            fp = crate::fingerprint::fp_fold_str(fp, s_artist.as_str());
            fp = crate::fingerprint::fp_fold_str(fp, s_album.as_str());
            st.fp = crate::fingerprint::fp_fold_u64(fp, duration);
            st.tracks.push(
                Track {
                    id,
                    canonical_id: base_id,
                    title,
                    artist: s_artist,
                    album: s_album,
                    duration,
                    cover_url,
                    audio_url,
                    folder_id: Some(playlist_fid.clone()),
                    source: "navidrome".to_owned(),
                },
            );
            cnt = cnt + 1;
            proof {
                assert(st@.tracks =~= playlist_entry_step(
                    server@,
                    playlist_fid@,
                    st_pre,
                    entries@[j as int]@,
                ).tracks);
            }
        }
        j = j + 1;
    }
    proof {
        assert(ev.take(n as int) =~= ev);
    }
    cnt
}


/// A song walk touches only the tracks and the fingerprint.
proof fn lemma_songs_fold_frame(
    sv: ServerConfigV,
    artist_name: Seq<char>,
    album_name: Seq<char>,
    album_cover: Option<Seq<char>>,
    album_fid: Seq<char>,
    st: RemoteStateV,
    songs: Seq<SongV>,
)
    ensures
        album_songs_fold(sv, artist_name, album_name, album_cover, album_fid, st, songs).counts
            == st.counts,
        album_songs_fold(sv, artist_name, album_name, album_cover, album_fid, st, songs).folders
            == st.folders,
    decreases songs.len(),
{
    if songs.len() > 0 {
        lemma_songs_fold_frame(
            sv,
            artist_name,
            album_name,
            album_cover,
            album_fid,
            st,
            songs.drop_last(),
        );
    }
}

/// An entry walk touches only the tracks and the fingerprint.
proof fn lemma_entries_fold_frame(
    sv: ServerConfigV,
    playlist_fid: Seq<char>,
    st: RemoteStateV,
    entries: Seq<SongV>,
)
    ensures
        playlist_entries_fold(sv, playlist_fid, st, entries).counts == st.counts,
        playlist_entries_fold(sv, playlist_fid, st, entries).folders == st.folders,
    decreases entries.len(),
{
    if entries.len() > 0 {
        lemma_entries_fold_frame(sv, playlist_fid, st, entries.drop_last());
    }
}

/// Every counter in the registry stays at or below the bound.
pub open spec fn counts_le(counts: Seq<(Seq<char>, usize)>, b: int) -> bool {
    forall|k: int| 0 <= k < counts.len() ==> (#[trigger] counts[k]).1 <= b
}

/// An insert-or-update of a bounded value keeps the registry bounded.
proof fn lemma_counts_le_set(s: Seq<(Seq<char>, usize)>, k: Seq<char>, v: usize, b: int)
    requires
        counts_le(s, b),
        v <= b,
    ensures
        counts_le(assoc_set(s, k, v), b),
{
    lemma_assoc_find_works(s, k);
    let i = crate::assoc::assoc_find(s, k);
    let s2 = assoc_set(s, k, v);
    if i == -1 {
        assert forall|j: int| 0 <= j < s2.len() implies (#[trigger] s2[j]).1 <= b by {
            if j < s.len() {
                assert(s2[j] == s[j]);
            } else {
                assert(s2[j] == (k, v));
            }
        }
    } else {
        assert forall|j: int| 0 <= j < s2.len() implies (#[trigger] s2[j]).1 <= b by {
            if j != i {
                assert(s2[j] == s[j]);
            } else {
                assert(s2[j] == (k, v));
            }
        }
    }
}

/// Walk one artist's albums. `b` bounds every counter on entry; on exit the
/// bound has grown by this artist's contribution, which keeps the subtree
/// accumulation below the total the caller guards.
fn scan_artist_albums(
    st: &mut RemoteScanState,
    server: &NavidromeServerConfig,
    artist_fid: &String,
    artist_name: &String,
    albums: &Vec<RemoteAlbum>,
    Ghost(aid): Ghost<Seq<char>>,
    Ghost(b): Ghost<int>,
) -> (tot: usize)
    requires
        0 <= b,
        artist_fid@ == artist_folder_id_of(server@.id, aid),
        counts_le(old(st)@.counts, b),
        b + artist_album_songs(albums@.map_values(|x: RemoteAlbum| x@)) <= usize::MAX,
    ensures
        final(st)@ == artist_albums_fold(
            server@,
            artist_fid@,
            artist_name@,
            old(st)@,
            albums@.map_values(|x: RemoteAlbum| x@),
        ),
        tot == artist_album_songs(albums@.map_values(|x: RemoteAlbum| x@)),
        counts_le(final(st)@.counts, b + tot),
{
    let ghost av = albums@.map_values(|x: RemoteAlbum| x@);
    let n = albums.len();
    let mut tot: usize = 0;
    let mut j: usize = 0;
    proof {
        assert(av.take(0) =~= Seq::<AlbumV>::empty());
    }
    while j < n
        invariant
            n == albums@.len(),
            j <= n,
            av == albums@.map_values(|x: RemoteAlbum| x@),
            0 <= b,
            artist_fid@ == artist_folder_id_of(server@.id, aid),
            b + artist_album_songs(av) <= usize::MAX,
            st@ == artist_albums_fold(server@, artist_fid@, artist_name@, old(st)@, av.take(j as int)),
            tot == artist_album_songs(av.take(j as int)),
            counts_le(st@.counts, b + tot),
        decreases n - j,
    {
        let ghost st_pre = st@;
        proof {
            assert(av.take(j + 1).drop_last() =~= av.take(j as int));
            assert(av.take(j + 1).last() == albums@[j as int]@);
            lemma_artist_album_songs_bounds(av, j + 1);
            lemma_accepted_songs_bounds(albums@[j as int]@.songs, albums@[j as int]@.songs.len() as int);
        }
        let album = &albums[j];
        if let Some(alid) = &album.id {
            let album_name = clone_or(&album.name, "Unknown Album");
            let album_fid = album_folder_id(server.id.as_str(), alid.as_str());
            st.folders.push(
                MusicFolder {
                    id: album_fid.clone(),
                    parent_id: Some(artist_fid.clone()),
                    name: album_name.clone(),
                    path: album_fid.clone(),
                    track_count: 0,
                    source: "navidrome".to_owned(),
                },
            );
            proof {
                assert(st@.folders =~= st_pre.folders.push(FolderV {
                    id: album_fid@,
                    parent_id: Some(artist_fid@),
                    name: album_name@,
                    path: album_fid@,
                    track_count: 0,
                    source: "navidrome"@,
                }));
            }
            let ghost st_pushed = st@;
            let cnt = scan_album_songs(
                st,
                server,
                artist_name,
                &album_name,
                &album.cover_art,
                &album_fid,
                &album.songs,
            );
            let ghost counts2 = st@.counts;
            proof {
                lemma_songs_fold_frame(
                    server@,
                    artist_name@,
                    album_name@,
                    opt_view(album.cover_art),
                    album_fid@,
                    st_pushed,
                    album.songs@.map_values(|x: RemoteSong| x@),
                );
                assert(counts2 == st_pre.counts);
                assert(counts_le(counts2, b + tot));
                assert(counts_le(counts2, b + tot + cnt)) by {
                    assert(forall|k: int|
                        0 <= k < counts2.len() ==> (#[trigger] counts2[k]).1 <= b + tot);
                }
                lemma_album_artist_fid_distinct(server@.id, alid@, aid);
                lemma_counts_le_set(counts2, album_fid@, cnt, b + tot + cnt);
                lemma_assoc_set_frame(counts2, album_fid@, cnt, artist_fid@);
                lemma_assoc_find_works(counts2, artist_fid@);
            }
            crate::assoc::assoc_put(&mut st.counts, album_fid.clone(), cnt);
            let ghost before_add = assoc_view(st.counts@);
            proof {
                assert(before_add == assoc_set(counts2, album_fid@, cnt));
                assert(assoc_lookup(before_add, artist_fid@) == assoc_lookup(counts2, artist_fid@));
                match assoc_lookup(counts2, artist_fid@) {
                    Some(v) => {
                        assert(v <= b + tot);
                    },
                    None => {},
                }
            }
            add_count(&mut st.counts, artist_fid.clone(), cnt);
            proof {
                let cur = match assoc_lookup(before_add, artist_fid@) {
                    Some(v) => v,
                    None => 0usize,
                };
                assert(cur + cnt <= b + tot + cnt);
                assert(((cur + cnt) as usize) as int == cur + cnt);
                lemma_counts_le_set(before_add, artist_fid@, ((cur + cnt) as usize), b + tot + cnt);
            }
            tot = tot + cnt;
        }
        j = j + 1;
        proof {
            assert(counts_le(st@.counts, b + tot));
        }
    }
    proof {
        assert(av.take(n as int) =~= av);
    }
    tot
}


/// Walk all artists; returns the library-wide track total for the virtual
/// containers.
fn scan_artists(
    st: &mut RemoteScanState,
    server: &NavidromeServerConfig,
    artists: &Vec<RemoteArtist>,
) -> (tot: usize)
    requires
        counts_le(old(st)@.counts, 0),
        total_album_songs(artists@.map_values(|x: RemoteArtist| x@)) <= usize::MAX,
    ensures
        final(st)@ == artists_fold(server@, old(st)@, artists@.map_values(|x: RemoteArtist| x@)),
        tot == total_album_songs(artists@.map_values(|x: RemoteArtist| x@)),
{
    let ghost av = artists@.map_values(|x: RemoteArtist| x@);
    let n = artists.len();
    let mut tot: usize = 0;
    let mut i: usize = 0;
    proof {
        assert(av.take(0) =~= Seq::<ArtistV>::empty());
    }
    while i < n
        invariant
            n == artists@.len(),
            i <= n,
            av == artists@.map_values(|x: RemoteArtist| x@),
            total_album_songs(av) <= usize::MAX,
            st@ == artists_fold(server@, old(st)@, av.take(i as int)),
            tot == total_album_songs(av.take(i as int)),
            counts_le(st@.counts, tot as int),
        decreases n - i,
    {
        let ghost st_pre = st@;
        proof {
            assert(av.take(i + 1).drop_last() =~= av.take(i as int));
            assert(av.take(i + 1).last() == artists@[i as int]@);
            lemma_total_album_songs_bounds(av, i + 1);
        }
        let artist = &artists[i];
        if let Some(aid) = &artist.id {
            let artist_name = clone_or(&artist.name, "Unknown Artist");
            let artist_fid = artist_folder_id(server.id.as_str(), aid.as_str());
            st.folders.push(
                MusicFolder {
                    id: artist_fid.clone(),
                    parent_id: Some(artists_root_id(server.id.as_str())),
                    name: artist_name.clone(),
                    path: artist_fid.clone(),
                    track_count: 0,
                    source: "navidrome".to_owned(),
                },
            );
            proof {
                assert(st@.folders =~= st_pre.folders.push(FolderV {
                    id: artist_fid@,
                    parent_id: Some(artists_root_id_of(server@.id)),
                    name: artist_name@,
                    path: artist_fid@,
                    track_count: 0,
                    source: "navidrome"@,
                }));
            }
            let contribution = scan_artist_albums(
                st,
                server,
                &artist_fid,
                &artist_name,
                &artist.albums,
                Ghost(aid@),
                Ghost(tot as int),
            );
            tot = tot + contribution;
        }
        i = i + 1;
    }
    proof {
        assert(av.take(n as int) =~= av);
    }
    tot
}

/// Walk all playlists; returns the playlist-wide track total.
fn scan_playlists(
    st: &mut RemoteScanState,
    server: &NavidromeServerConfig,
    playlists: &Vec<RemotePlaylist>,
) -> (tot: usize)
    requires
        total_playlist_entries(playlists@.map_values(|x: RemotePlaylist| x@)) <= usize::MAX,
    ensures
        final(st)@ == playlists_fold(
            server@,
            old(st)@,
            playlists@.map_values(|x: RemotePlaylist| x@),
        ),
        tot == total_playlist_entries(playlists@.map_values(|x: RemotePlaylist| x@)),
{
    let ghost pv = playlists@.map_values(|x: RemotePlaylist| x@);
    let n = playlists.len();
    let mut tot: usize = 0;
    let mut i: usize = 0;
    proof {
        assert(pv.take(0) =~= Seq::<PlaylistV>::empty());
    }
    while i < n
        invariant
            n == playlists@.len(),
            i <= n,
            pv == playlists@.map_values(|x: RemotePlaylist| x@),
            total_playlist_entries(pv) <= usize::MAX,
            st@ == playlists_fold(server@, old(st)@, pv.take(i as int)),
            tot == total_playlist_entries(pv.take(i as int)),
        decreases n - i,
    {
        let ghost st_pre = st@;
        proof {
            assert(pv.take(i + 1).drop_last() =~= pv.take(i as int));
            assert(pv.take(i + 1).last() == playlists@[i as int]@);
            lemma_total_playlist_entries_bounds(pv, i + 1);
            lemma_accepted_songs_bounds(
                playlists@[i as int]@.entries,
                playlists@[i as int]@.entries.len() as int,
            );
        }
        let pl = &playlists[i];
        if let Some(pid) = &pl.id {
            let name = clone_or(&pl.name, "Playlist");
            let playlist_fid = playlist_folder_id(server.id.as_str(), pid.as_str());
            st.folders.push(
                MusicFolder {
                    id: playlist_fid.clone(),
                    parent_id: Some(playlists_root_id(server.id.as_str())),
                    name: name.clone(),
                    path: playlist_fid.clone(),
                    track_count: 0,
                    source: "navidrome".to_owned(),
                },
            );
            let ghost st_pushed = st@;
            proof {
                assert(st_pushed.folders =~= st_pre.folders.push(FolderV {
                    id: playlist_fid@,
                    parent_id: Some(playlists_root_id_of(server@.id)),
                    name: name@,
                    path: playlist_fid@,
                    track_count: 0,
                    source: "navidrome"@,
                }));
            }
            let cnt = scan_playlist_entries(st, server, &playlist_fid, &pl.entries);
            crate::assoc::assoc_put(&mut st.counts, playlist_fid.clone(), cnt);
            tot = tot + cnt;
        }
        i = i + 1;
    }
    proof {
        assert(pv.take(n as int) =~= pv);
    }
    tot
}


/// Give every folder with a recorded count its count, in place.
fn apply_folder_counts(folders: &mut Vec<MusicFolder>, counts: &Vec<(String, usize)>)
    ensures
        final(folders)@.map_values(|f: MusicFolder| f@) == apply_counts(
            old(folders)@.map_values(|f: MusicFolder| f@),
            assoc_view(counts@),
        ),
{
    let ghost fv = old(folders)@.map_values(|f: MusicFolder| f@);
    let ghost target = apply_counts(fv, assoc_view(counts@));
    let n = folders.len();
    let mut i: usize = 0;
    while i < n
        invariant
            n == folders@.len(),
            n == fv.len(),
            target == apply_counts(fv, assoc_view(counts@)),
            target.len() == n,
            i <= n,
            forall|k: int| 0 <= k < i ==> (#[trigger] folders@[k])@ == target[k],
            forall|k: int| i <= k < n ==> (#[trigger] folders@[k])@ == fv[k],
        decreases n - i,
    {
        let id = folders[i].id.clone();
        match assoc_get(counts, id.as_str()) {
            Some(c) => {
                let c: usize = *c;
                folders[i].track_count = c;
                proof {
                    assert(folders@[i as int]@ == target[i as int]);
                }
            },
            None => {
                proof {
                    assert(folders@[i as int]@ == target[i as int]);
                }
            },
        }
        i = i + 1;
    }
    proof {
        assert(folders@.map_values(|f: MusicFolder| f@) =~= target);
    }
}

/// One remote scan over the records the application fetched: the synthetic
/// folder tree, every song surfaced through its album and every playlist
/// entry through its playlist, exact leaf counts and subtree sums for the
/// virtual containers, and the revision fingerprint over every emitted
/// track's identity, in fetch order.
pub fn scan_library(server: &NavidromeServerConfig, library: &RemoteLibrary) -> (r: ScanResult)
    requires
        total_album_songs(library@.artists) <= usize::MAX,
        total_playlist_entries(library@.playlists) <= usize::MAX,
    ensures
        r@ == remote_scan_spec(server@, library@),
{
    let sid = server.id.as_str();
    let root_id = remote_root_id(sid);
    let at_id = all_tracks_id(sid);
    let ar_id = artists_root_id(sid);
    let pr_id = playlists_root_id(sid);
    let mut folders: Vec<MusicFolder> = Vec::new();
    folders.push(
        MusicFolder {
            id: root_id.clone(),
            parent_id: None,
            name: server.name.clone(),
            path: root_id.clone(),
            track_count: 0,
            source: "navidrome".to_owned(),
        },
    );
    folders.push(
        MusicFolder {
            id: at_id.clone(),
            parent_id: Some(root_id.clone()),
            name: "All Tracks".to_owned(),
            path: at_id.clone(),
            track_count: 0,
            source: "navidrome".to_owned(),
        },
    );
    folders.push(
        MusicFolder {
            id: ar_id.clone(),
            parent_id: Some(root_id.clone()),
            name: "Artists".to_owned(),
            path: ar_id.clone(),
            track_count: 0,
            source: "navidrome".to_owned(),
        },
    );
    folders.push(
        MusicFolder {
            id: pr_id.clone(),
            parent_id: Some(root_id.clone()),
            name: "Playlists".to_owned(),
            path: pr_id.clone(),
            track_count: 0,
            source: "navidrome".to_owned(),
        },
    );
    let mut st = RemoteScanState {
        folders,
        tracks: Vec::new(),
        counts: Vec::new(),
        fp: crate::fingerprint::FNV_OFFSET,
    };
    proof {
        assert(st@.folders =~= remote_scan_init(server@).folders);
        assert(st@.tracks =~= remote_scan_init(server@).tracks);
        assert(st@.counts =~= remote_scan_init(server@).counts);
        assert(st@ == remote_scan_init(server@));
    }
    let ghost st0 = st@;
    let lib_total = scan_artists(&mut st, server, &library.artists);
    let ghost st1 = st@;
    if lib_total > 0 {
        crate::assoc::assoc_put(&mut st.counts, at_id, lib_total);
        crate::assoc::assoc_put(&mut st.counts, ar_id, lib_total);
        crate::assoc::assoc_put(&mut st.counts, root_id, lib_total);
    }
    proof {
        assert(st@.counts == remote_final_counts(server@, library@, st1));
        assert(st@ == RemoteStateV { counts: remote_final_counts(server@, library@, st1), ..st1 });
    }
    let pl_total = scan_playlists(&mut st, server, &library.playlists);
    if pl_total > 0 {
        let pr_key = playlists_root_id(sid);
        crate::assoc::assoc_put(&mut st.counts, pr_key, pl_total);
    }
    apply_folder_counts(&mut st.folders, &st.counts);
    let revision = crate::fingerprint::u64_to_hex16(st.fp);
    let r = ScanResult { tracks: st.tracks, folders: st.folders, revision };
    proof {
        assert(r@.tracks =~= remote_scan_spec(server@, library@).tracks);
        assert(r@.folders =~= remote_scan_spec(server@, library@).folders);
    }
    r
}


/// Remote canonical identity: a song surfaced through a playlist carries a
/// different track id than the same song surfaced through its album — the
/// playlist context is part of the id — while both contexts share the one
/// canonical id, [`track_canonical_of`]; an album track's id IS its canonical
/// id. So the same asset reached twice is two tracks but one canonical asset.
pub proof fn lemma_remote_canonical_identity(sid: Seq<char>, pid: Seq<char>, song_id: Seq<char>)
    ensures
        playlist_track_id_of(sid, pid, song_id) != track_canonical_of(sid, song_id),
        playlist_track_id_of(sid, pid, song_id).len() == track_canonical_of(sid, song_id).len()
            + ":playlist:"@.len() + pid.len(),
{
    reveal_strlit(":playlist:");
    reveal_strlit(":track:");
    assert(playlist_track_id_of(sid, pid, song_id).len() != track_canonical_of(
        sid,
        song_id,
    ).len());
}


/// Does any registered folder carry this id?
pub open spec fn folder_id_present(folders: Seq<FolderV>, x: Seq<char>) -> bool {
    exists|g: int| 0 <= g < folders.len() && (#[trigger] folders[g]).id == x
}

/// Every folder's parent, when it has one, was registered before it: the
/// folders form a forest.
pub open spec fn parents_resolve(folders: Seq<FolderV>) -> bool {
    forall|k: int|
        0 <= k < folders.len() ==> match (#[trigger] folders[k]).parent_id {
            Some(pid) => exists|g: int| 0 <= g < k && (#[trigger] folders[g]).id == pid,
            None => true,
        }
}

/// Pushing a folder whose parent is already present keeps the forest shape.
proof fn lemma_parents_resolve_push(folders: Seq<FolderV>, f: FolderV)
    requires
        parents_resolve(folders),
        match f.parent_id {
            Some(pid) => folder_id_present(folders, pid),
            None => true,
        },
    ensures
        parents_resolve(folders.push(f)),
        forall|x: Seq<char>|
            folder_id_present(folders, x) ==> #[trigger] folder_id_present(folders.push(f), x),
{
    let fs2 = folders.push(f);
    assert forall|k: int| 0 <= k < fs2.len() implies match (#[trigger] fs2[k]).parent_id {
        Some(pid) => exists|g: int| 0 <= g < k && (#[trigger] fs2[g]).id == pid,
        None => true,
    } by {
        if k < folders.len() {
            assert(fs2[k] == folders[k]);
            match folders[k].parent_id {
                Some(pid) => {
                    let g = choose|g: int| 0 <= g < k && (#[trigger] folders[g]).id == pid;
                    assert(fs2[g] == folders[g]);
                },
                None => {},
            }
        } else {
            assert(fs2[k] == f);
            match f.parent_id {
                Some(pid) => {
                    let g = choose|g: int|
                        0 <= g < folders.len() && (#[trigger] folders[g]).id == pid;
                    assert(fs2[g] == folders[g]);
                },
                None => {},
            }
        }
    }
    assert forall|x: Seq<char>| folder_id_present(folders, x) implies #[trigger] folder_id_present(
        fs2,
        x,
    ) by {
        let g = choose|g: int| 0 <= g < folders.len() && (#[trigger] folders[g]).id == x;
        assert(fs2[g] == folders[g]);
    }
}

/// One artist's albums keep the forest shape and lose no registered id.
proof fn lemma_albums_fold_forest(
    sv: ServerConfigV,
    artist_fid: Seq<char>,
    artist_name: Seq<char>,
    st: RemoteStateV,
    albums: Seq<AlbumV>,
)
    requires
        parents_resolve(st.folders),
        folder_id_present(st.folders, artist_fid),
    ensures
        ({
            let r = artist_albums_fold(sv, artist_fid, artist_name, st, albums);
            &&& parents_resolve(r.folders)
            &&& r.folders.len() >= st.folders.len()
            &&& (forall|k: int|
                0 <= k < st.folders.len() ==> (#[trigger] r.folders[k]) == st.folders[k])
            &&& (forall|x: Seq<char>|
                folder_id_present(st.folders, x) ==> #[trigger] folder_id_present(r.folders, x))
        }),
    decreases albums.len(),
{
    if albums.len() > 0 {
        lemma_albums_fold_forest(sv, artist_fid, artist_name, st, albums.drop_last());
        let st0 = artist_albums_fold(sv, artist_fid, artist_name, st, albums.drop_last());
        let album = albums.last();
        match album.id {
            None => {},
            Some(alid) => {
                let album_name = or_str(album.name, "Unknown Album"@);
                let album_fid = album_folder_id_of(sv.id, alid);
                let folder = FolderV {
                    id: album_fid,
                    parent_id: Some(artist_fid),
                    name: album_name,
                    path: album_fid,
                    track_count: 0,
                    source: "navidrome"@,
                };
                lemma_parents_resolve_push(st0.folders, folder);
                let st1 = RemoteStateV { folders: st0.folders.push(folder), ..st0 };
                lemma_songs_fold_frame(
                    sv,
                    artist_name,
                    album_name,
                    album.cover_art,
                    album_fid,
                    st1,
                    album.songs,
                );
            },
        }
    }
}

/// The artist walk keeps the forest shape and loses no registered id.
proof fn lemma_artists_fold_forest(sv: ServerConfigV, st: RemoteStateV, artists: Seq<ArtistV>)
    requires
        parents_resolve(st.folders),
        folder_id_present(st.folders, artists_root_id_of(sv.id)),
    ensures
        ({
            let r = artists_fold(sv, st, artists);
            &&& parents_resolve(r.folders)
            &&& r.folders.len() >= st.folders.len()
            &&& (forall|k: int|
                0 <= k < st.folders.len() ==> (#[trigger] r.folders[k]) == st.folders[k])
            &&& (forall|x: Seq<char>|
                folder_id_present(st.folders, x) ==> #[trigger] folder_id_present(r.folders, x))
        }),
    decreases artists.len(),
{
    if artists.len() > 0 {
        lemma_artists_fold_forest(sv, st, artists.drop_last());
        let st0 = artists_fold(sv, st, artists.drop_last());
        let artist = artists.last();
        match artist.id {
            None => {},
            Some(aid) => {
                let artist_name = or_str(artist.name, "Unknown Artist"@);
                let artist_fid = artist_folder_id_of(sv.id, aid);
                let folder = FolderV {
                    id: artist_fid,
                    parent_id: Some(artists_root_id_of(sv.id)),
                    name: artist_name,
                    path: artist_fid,
                    track_count: 0,
                    source: "navidrome"@,
                };
                lemma_parents_resolve_push(st0.folders, folder);
                let st1 = RemoteStateV { folders: st0.folders.push(folder), ..st0 };
                assert(st1.folders[st1.folders.len() - 1].id == artist_fid);
                lemma_albums_fold_forest(sv, artist_fid, artist_name, st1, artist.albums);
            },
        }
    }
}

/// The playlist walk keeps the forest shape.
proof fn lemma_playlists_fold_forest(sv: ServerConfigV, st: RemoteStateV, playlists: Seq<PlaylistV>)
    requires
        parents_resolve(st.folders),
        folder_id_present(st.folders, playlists_root_id_of(sv.id)),
    ensures
        ({
            let r = playlists_fold(sv, st, playlists);
            &&& parents_resolve(r.folders)
            &&& r.folders.len() >= st.folders.len()
            &&& (forall|k: int|
                0 <= k < st.folders.len() ==> (#[trigger] r.folders[k]) == st.folders[k])
            &&& (forall|x: Seq<char>|
                folder_id_present(st.folders, x) ==> #[trigger] folder_id_present(r.folders, x))
        }),
    decreases playlists.len(),
{
    if playlists.len() > 0 {
        lemma_playlists_fold_forest(sv, st, playlists.drop_last());
        let st0 = playlists_fold(sv, st, playlists.drop_last());
        let pl = playlists.last();
        match pl.id {
            None => {},
            Some(pid) => {
                let name = or_str(pl.name, "Playlist"@);
                let playlist_fid = playlist_folder_id_of(sv.id, pid);
                let folder = FolderV {
                    id: playlist_fid,
                    parent_id: Some(playlists_root_id_of(sv.id)),
                    name,
                    path: playlist_fid,
                    track_count: 0,
                    source: "navidrome"@,
                };
                lemma_parents_resolve_push(st0.folders, folder);
                let st1 = RemoteStateV { folders: st0.folders.push(folder), ..st0 };
                lemma_entries_fold_frame(sv, playlist_fid, st1, pl.entries);
            },
        }
    }
}

/// The synthetic folders of a remote scan form a forest: the server root has
/// no parent, and every other folder's parent id resolves to a folder
/// registered before it in the same result — whatever the server sent.
pub proof fn lemma_remote_forest(sv: ServerConfigV, lib: LibraryV)
    ensures
        ({
            let folders = remote_scan_spec(sv, lib).folders;
            &&& parents_resolve(folders)
            &&& folders.len() >= 4
            &&& folders[0].parent_id is None
        }),
{
    let st_init = remote_scan_init(sv);
    assert(parents_resolve(st_init.folders)) by {
        assert(st_init.folders[1].parent_id == Some(remote_root_id_of(sv.id)));
        assert(st_init.folders[0].id == remote_root_id_of(sv.id));
    }
    assert(folder_id_present(st_init.folders, artists_root_id_of(sv.id))) by {
        assert(st_init.folders[2].id == artists_root_id_of(sv.id));
    }
    assert(folder_id_present(st_init.folders, playlists_root_id_of(sv.id))) by {
        assert(st_init.folders[3].id == playlists_root_id_of(sv.id));
    }
    lemma_artists_fold_forest(sv, st_init, lib.artists);
    let st1 = artists_fold(sv, st_init, lib.artists);
    let st2 = RemoteStateV { counts: remote_final_counts(sv, lib, st1), ..st1 };
    assert(st2.folders == st1.folders);
    lemma_playlists_fold_forest(sv, st2, lib.playlists);
    let st3 = playlists_fold(sv, st2, lib.playlists);
    // the count application changes no id and no parent
    let pt = total_playlist_entries(lib.playlists);
    let final_counts = if pt > 0 {
        assoc_set(st3.counts, playlists_root_id_of(sv.id), pt as usize)
    } else {
        st3.counts
    };
    let folders = apply_counts(st3.folders, final_counts);
    assert(folders.len() == st3.folders.len());
    assert(forall|k: int|
        0 <= k < folders.len() ==> (#[trigger] folders[k]).id == st3.folders[k].id
            && folders[k].parent_id == st3.folders[k].parent_id);
    assert forall|k: int| 0 <= k < folders.len() implies match (#[trigger] folders[k]).parent_id {
        Some(pid) => exists|g: int| 0 <= g < k && (#[trigger] folders[g]).id == pid,
        None => true,
    } by {
        match st3.folders[k].parent_id {
            Some(pid) => {
                let g = choose|g: int| 0 <= g < k && (#[trigger] st3.folders[g]).id == pid;
                assert(folders[g].id == st3.folders[g].id);
            },
            None => {},
        }
    }
    assert(st1.folders[0] == st_init.folders[0]);
    assert(st3.folders[0] == st1.folders[0]);
    assert(folders[0].parent_id == st3.folders[0].parent_id);
}

} // verus!
