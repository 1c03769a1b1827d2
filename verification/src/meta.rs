//! Track metadata resolution. The application probes an audio file's tags
//! with its decoding facility and hands the outcome in; this module turns any
//! outcome — tags, a failed or crashed probe, or a file too large to probe at
//! all — into a usable [`Track`], so that one corrupt file can never abort a
//! scan.

use vstd::prelude::*;
use crate::model::{Track, TrackV};
use crate::strutil::{file_stem, path_file_stem};
use crate::model::opt_view;

verus! {

/// Files above this size are never probed; they get a placeholder track.
pub const MAX_METADATA_PARSE_FILE_SIZE_BYTES: u64 = 2 * 1024 * 1024 * 1024;

/// What a successful tag probe yields: the optional tag fields the library
/// reads, and the duration in whole seconds (0 when unavailable).
pub struct TagData {
    pub artist: Option<String>,
    pub album: Option<String>,
    pub duration: u64,
}

/// The mathematical view of [`TagData`].
pub ghost struct TagV {
    pub artist: Option<Seq<char>>,
    pub album: Option<Seq<char>>,
    pub duration: u64,
}

impl View for TagData {
    type V = TagV;

    open spec fn view(&self) -> TagV {
        TagV { artist: opt_view(self.artist), album: opt_view(self.album), duration: self.duration }
    }
}

/// How probing one file went. `Failed` covers both a decoding error and a
/// crash inside the decoder that the application caught.
pub enum ProbeOutcome {
    Tagged(TagData),
    Failed,
}

/// The mathematical view of a [`ProbeOutcome`].
pub ghost enum ProbeV {
    Tagged(TagV),
    Failed,
}

impl View for ProbeOutcome {
    type V = ProbeV;

    open spec fn view(&self) -> ProbeV {
        match self {
            ProbeOutcome::Tagged(t) => ProbeV::Tagged(t@),
            ProbeOutcome::Failed => ProbeV::Failed,
        }
    }
}

/// The placeholder for a file whose metadata could not be read: the filename
/// stem as title, zero duration, and no tag data at all.
pub open spec fn placeholder_track(path: Seq<char>, folder_id: Option<Seq<char>>) -> TrackV {
    TrackV {
        id: path,
        canonical_id: path,
        title: file_stem(path),
        artist: "Unknown"@,
        album: "Unknown"@,
        duration: 0,
        cover_url: None,
        audio_url: path,
        folder_id,
        source: "local"@,
    }
}

/// The track for a successfully probed file. The title is always the
/// filename stem, never a tag field; absent tags fall back to the unknown
/// markers.
pub open spec fn tagged_track(path: Seq<char>, folder_id: Option<Seq<char>>, tag: TagV) -> TrackV {
    TrackV {
        id: path,
        canonical_id: path,
        title: file_stem(path),
        artist: match tag.artist {
            Some(a) => a,
            None => "Unknown Artist"@,
        },
        album: match tag.album {
            Some(a) => a,
            None => "Unknown Album"@,
        },
        duration: tag.duration,
        cover_url: None,
        audio_url: path,
        folder_id,
        source: "local"@,
    }
}

/// The track any freshly scanned file resolves to: oversized files and failed
/// or missing probes degrade to the placeholder, successful probes carry
/// their tags.
pub open spec fn resolved_track(
    path: Seq<char>,
    folder_id: Option<Seq<char>>,
    size: u64,
    probed: Option<ProbeV>,
) -> TrackV {
    if size > MAX_METADATA_PARSE_FILE_SIZE_BYTES {
        placeholder_track(path, folder_id)
    } else {
        match probed {
            Some(ProbeV::Tagged(tag)) => tagged_track(path, folder_id, tag),
            _ => placeholder_track(path, folder_id),
        }
    }
}

/// Executable [`resolved_track`]: never fails, whatever the probe did.
pub fn resolve_track(
    path: &str,
    folder_id: Option<String>,
    size: u64,
    probed: Option<&ProbeOutcome>,
) -> (r: Track)
    ensures
        r@ == resolved_track(
            path@,
            opt_view(folder_id),
            size,
            match probed {
                Some(p) => Some((*p)@),
                None => None,
            },
        ),
{
    let title = path_file_stem(path).to_owned();
    let path_owned = path.to_owned();
    if size <= MAX_METADATA_PARSE_FILE_SIZE_BYTES {
        if let Some(ProbeOutcome::Tagged(tag)) = probed {
            let artist = match &tag.artist {
                Some(a) => a.clone(),
                None => "Unknown Artist".to_owned(),
            };
            let album = match &tag.album {
                Some(a) => a.clone(),
                None => "Unknown Album".to_owned(),
            };
            return Track {
                id: path_owned.clone(),
                canonical_id: path_owned.clone(),
                title,
                artist,
                album,
                duration: tag.duration,
                cover_url: None,
                audio_url: path_owned,
                folder_id,
                source: "local".to_owned(),
            };
        }
    }
    Track {
        id: path_owned.clone(),
        canonical_id: path_owned.clone(),
        title,
        artist: "Unknown".to_owned(),
        album: "Unknown".to_owned(),
        duration: 0,
        cover_url: None,
        audio_url: path_owned,
        folder_id,
        source: "local".to_owned(),
    }
}

} // verus!
