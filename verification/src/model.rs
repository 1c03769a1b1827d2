//! The unified data model: tracks, folders and scan results, shared by the
//! local scanner and the remote adapter, together with their mathematical
//! views.

use vstd::prelude::*;
use vstd::string::StringExecFns;

verus! {

/// The view of an optional string.
pub open spec fn opt_view(o: Option<String>) -> Option<Seq<char>> {
    match o {
        Some(s) => Some(s@),
        None => None,
    }
}

/// A field-wise copy of an optional string.
pub fn clone_opt_string(o: &Option<String>) -> (r: Option<String>)
    ensures
        opt_view(r) == opt_view(*o),
{
    match o {
        Some(s) => Some(s.clone()),
        None => None,
    }
}

/// One playable track.
///
/// `id` is unique within one scan result and carries the surfacing context;
/// `canonical_id` names the underlying asset independently of how it was
/// reached, so the same song listed under an album and under a playlist
/// shares it. `duration` is integer seconds.
pub struct Track {
    pub id: String,
    pub canonical_id: String,
    pub title: String,
    pub artist: String,
    pub album: String,
    pub duration: u64,
    pub cover_url: Option<String>,
    pub audio_url: String,
    pub folder_id: Option<String>,
    pub source: String,
}

/// The mathematical view of a [`Track`].
pub ghost struct TrackV {
    pub id: Seq<char>,
    pub canonical_id: Seq<char>,
    pub title: Seq<char>,
    pub artist: Seq<char>,
    pub album: Seq<char>,
    pub duration: u64,
    pub cover_url: Option<Seq<char>>,
    pub audio_url: Seq<char>,
    pub folder_id: Option<Seq<char>>,
    pub source: Seq<char>,
}

impl View for Track {
    type V = TrackV;

    open spec fn view(&self) -> TrackV {
        TrackV {
            id: self.id@,
            canonical_id: self.canonical_id@,
            title: self.title@,
            artist: self.artist@,
            album: self.album@,
            duration: self.duration,
            cover_url: opt_view(self.cover_url),
            audio_url: self.audio_url@,
            folder_id: opt_view(self.folder_id),
            source: self.source@,
        }
    }
}

impl Track {
    /// A field-wise copy.
    pub fn duplicate(&self) -> (r: Track)
        ensures
            r@ == self@,
    {
        Track {
            id: self.id.clone(),
            canonical_id: self.canonical_id.clone(),
            title: self.title.clone(),
            artist: self.artist.clone(),
            album: self.album.clone(),
            duration: self.duration,
            cover_url: clone_opt_string(&self.cover_url),
            audio_url: self.audio_url.clone(),
            folder_id: clone_opt_string(&self.folder_id),
            source: self.source.clone(),
        }
    }
}

/// One folder of the hierarchy a scan result presents.
///
/// Folders form a forest: a folder without a `parent_id` is a root. For
/// local scans `track_count` counts the direct children only; the remote
/// adapter's virtual containers carry subtree sums instead.
pub struct MusicFolder {
    pub id: String,
    pub parent_id: Option<String>,
    pub name: String,
    pub path: String,
    pub track_count: usize,
    pub source: String,
}

/// The mathematical view of a [`MusicFolder`].
pub ghost struct FolderV {
    pub id: Seq<char>,
    pub parent_id: Option<Seq<char>>,
    pub name: Seq<char>,
    pub path: Seq<char>,
    pub track_count: int,
    pub source: Seq<char>,
}

impl View for MusicFolder {
    type V = FolderV;

    open spec fn view(&self) -> FolderV {
        FolderV {
            id: self.id@,
            parent_id: opt_view(self.parent_id),
            name: self.name@,
            path: self.path@,
            track_count: self.track_count as int,
            source: self.source@,
        }
    }
}

/// What one scan produces: the tracks, the folder forest, and a revision
/// fingerprint that changes whenever the observed tree or metadata changes.
pub struct ScanResult {
    pub tracks: Vec<Track>,
    pub folders: Vec<MusicFolder>,
    pub revision: String,
}

/// The mathematical view of a [`ScanResult`].
pub ghost struct ScanResultV {
    pub tracks: Seq<TrackV>,
    pub folders: Seq<FolderV>,
    pub revision: Seq<char>,
}

impl View for ScanResult {
    type V = ScanResultV;

    open spec fn view(&self) -> ScanResultV {
        ScanResultV {
            tracks: self.tracks@.map_values(|t: Track| t@),
            folders: self.folders@.map_values(|f: MusicFolder| f@),
            revision: self.revision@,
        }
    }
}

/// One configured remote server. `token` and `salt` carry the legacy salted
/// credentials; `api_key`, when present and non-blank, replaces them.
pub struct NavidromeServerConfig {
    pub id: String,
    pub name: String,
    pub base_url: String,
    pub username: String,
    pub token: String,
    pub salt: String,
    pub api_key: Option<String>,
    pub enabled: bool,
}

/// The mathematical view of a [`NavidromeServerConfig`].
pub ghost struct ServerConfigV {
    pub id: Seq<char>,
    pub name: Seq<char>,
    pub base_url: Seq<char>,
    pub username: Seq<char>,
    pub token: Seq<char>,
    pub salt: Seq<char>,
    pub api_key: Option<Seq<char>>,
    pub enabled: bool,
}

impl View for NavidromeServerConfig {
    type V = ServerConfigV;

    open spec fn view(&self) -> ServerConfigV {
        ServerConfigV {
            id: self.id@,
            name: self.name@,
            base_url: self.base_url@,
            username: self.username@,
            token: self.token@,
            salt: self.salt@,
            api_key: opt_view(self.api_key),
            enabled: self.enabled,
        }
    }
}

/// The scan result a disabled remote server short-circuits to: empty, under
/// the fixed sentinel revision, with no network traffic at all.
pub fn disabled_scan_result() -> (r: ScanResult)
    ensures
        r@.tracks =~= Seq::<TrackV>::empty(),
        r@.folders =~= Seq::<FolderV>::empty(),
        r@.revision == "disabled"@,
{
    ScanResult { tracks: Vec::new(), folders: Vec::new(), revision: "disabled".to_owned() }
}

} // verus!
