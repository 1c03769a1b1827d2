//! The cover art service: the byte ceiling that turns an oversized embedded
//! picture into "no cover", the inline data-URI rendering, and the registry
//! behind the loopback listener — keys derived from the source path, lookups
//! by a single sanitized path segment, so no request can traverse anywhere.
//! The application extracts the raw picture and runs the listener loop; every
//! decision about what to accept, store and serve is made here.

use vstd::prelude::*;
use vstd::string::StringExecFns;
use crate::assoc::{assoc_get, assoc_lookup, assoc_put, assoc_set, assoc_view};
use crate::codec::{b64_of, b64_standard, cover_key, cover_key_of};
use crate::strutil::{contains_char, starts_with, str_contains_char, str_eq, str_starts_with};

verus! {

/// Embedded pictures above this many bytes are treated as "no cover".
pub const MAX_COVER_ART_BYTES: usize = 5 * 1024 * 1024;

/// One stored cover: its media type and its raw bytes.
pub struct CoverEntry {
    pub mime: String,
    pub bytes: Vec<u8>,
}

/// The mathematical view of a [`CoverEntry`].
pub ghost struct CoverEntryV {
    pub mime: Seq<char>,
    pub bytes: Seq<u8>,
}

impl View for CoverEntry {
    type V = CoverEntryV;

    open spec fn view(&self) -> CoverEntryV {
        CoverEntryV { mime: self.mime@, bytes: self.bytes@ }
    }
}

/// The cover ceiling: a picture within the byte ceiling is accepted as it
/// is; one byte over yields no cover — silently, never an error.
pub fn cover_from_picture(mime: String, bytes: Vec<u8>) -> (r: Option<CoverEntry>)
    ensures
        match r {
            Some(c) => bytes@.len() <= MAX_COVER_ART_BYTES && c@.mime == mime@ && c@.bytes
                == bytes@,
            None => bytes@.len() > MAX_COVER_ART_BYTES,
        },
{
    if bytes.len() > MAX_COVER_ART_BYTES {
        None
    } else {
        Some(CoverEntry { mime, bytes })
    }
}

/// The inline delivery form: a base64 data URI carrying the cover's own
/// media type.
pub open spec fn data_uri_of(mime: Seq<char>, bytes: Seq<u8>) -> Seq<char> {
    "data:"@ + mime + ";base64,"@ + b64_of(bytes)
}

/// Executable [`data_uri_of`].
pub fn cover_data_uri(cover: &CoverEntry) -> (r: String)
    requires
        cover@.bytes.len() <= MAX_COVER_ART_BYTES,
    ensures
        r@ == data_uri_of(cover@.mime, cover@.bytes),
{
    let mut r = "data:".to_owned();
    r.append(cover.mime.as_str());
    r.append(";base64,");
    let encoded = b64_standard(&cover.bytes);
    r.append(encoded.as_str());
    r
}

/// Is this path worth probing for a cover at all? Blank paths are not.
pub fn cover_path_usable(path: &str) -> (r: bool)
    ensures
        r == !crate::strutil::is_blank(path@),
{
    !crate::strutil::str_is_blank(path)
}

/// The registry behind the loopback cover endpoint: process-lifetime,
/// keyed by a digest of the source file path, never evicted. The listener's
/// base URL is fixed when the application starts it.
pub struct CoverStore {
    pub base_url: String,
    pub entries: Vec<(String, CoverEntry)>,
}

/// The mathematical view of a [`CoverStore`].
pub ghost struct CoverStoreV {
    pub base_url: Seq<char>,
    pub entries: Seq<(Seq<char>, CoverEntryV)>,
}

impl View for CoverStore {
    type V = CoverStoreV;

    open spec fn view(&self) -> CoverStoreV {
        CoverStoreV { base_url: self.base_url@, entries: assoc_view(self.entries@) }
    }
}

/// How the listener answers one request: anything but GET is refused, a
/// missing or unsanitary id (empty, or holding a path separator) is unknown,
/// and a known id serves its stored cover.
pub ghost enum CoverRouteV {
    MethodNotAllowed,
    NotFound,
    Found(CoverEntryV),
}

/// The routing decision over the store's contents.
pub open spec fn route_of(
    entries: Seq<(Seq<char>, CoverEntryV)>,
    method: Seq<char>,
    url: Seq<char>,
) -> CoverRouteV {
    if method != "GET"@ {
        CoverRouteV::MethodNotAllowed
    } else {
        let id = if starts_with(url, "/cover/"@) {
            url.skip("/cover/"@.len() as int)
        } else {
            Seq::<char>::empty()
        };
        if id.len() == 0 || contains_char(id, '/') {
            CoverRouteV::NotFound
        } else {
            match assoc_lookup(entries, id) {
                Some(e) => CoverRouteV::Found(e),
                None => CoverRouteV::NotFound,
            }
        }
    }
}

/// The executable answer to one request against the store.
pub enum CoverResponse<'a> {
    MethodNotAllowed,
    NotFound,
    Found(&'a CoverEntry),
}

impl CoverStore {
    /// A fresh registry for the listener at `base_url`.
    pub fn new(base_url: String) -> (r: CoverStore)
        ensures
            r@.base_url == base_url@,
            r@.entries =~= Seq::<(Seq<char>, CoverEntryV)>::empty(),
    {
        CoverStore { base_url, entries: Vec::new() }
    }

    /// Register a cover under its path's digest key and hand back the URL it
    /// is now served at; re-registering a path replaces its cover. The
    /// returned URL always routes back to this very cover: the key is a
    /// single non-empty segment without separators.
    pub fn register(&mut self, path: &str, cover: CoverEntry) -> (url: String)
        ensures
            final(self)@.base_url == old(self)@.base_url,
            final(self)@.entries == assoc_set(old(self)@.entries, cover_key_of(path@), cover@),
            url@ == old(self)@.base_url + "/cover/"@ + cover_key_of(path@),
            route_of(final(self)@.entries, "GET"@, "/cover/"@ + cover_key_of(path@))
                == CoverRouteV::Found(cover@),
    {
        let key = cover_key(path);
        let ghost coverv = cover@;
        proof {
            crate::assoc::lemma_assoc_set_same(old(self)@.entries, key@, coverv);
            assert(("/cover/"@ + key@).skip("/cover/"@.len() as int) =~= key@);
            reveal_strlit("/cover/");
            reveal_strlit("GET");
            assert(starts_with("/cover/"@ + key@, "/cover/"@)) by {
                assert(("/cover/"@ + key@).take("/cover/"@.len() as int) =~= "/cover/"@);
            }
        }
        assoc_put(&mut self.entries, key.clone(), cover);
        let mut url = self.base_url.clone();
        url.append("/cover/");
        url.append(key.as_str());
        url
    }

    /// Answer one request: the verified routing behind the listener.
    pub fn respond<'a>(&'a self, method: &str, url: &str) -> (r: CoverResponse<'a>)
        ensures
            match r {
                CoverResponse::MethodNotAllowed => route_of(self@.entries, method@, url@)
                    == CoverRouteV::MethodNotAllowed,
                CoverResponse::NotFound => route_of(self@.entries, method@, url@)
                    == CoverRouteV::NotFound,
                CoverResponse::Found(e) => route_of(self@.entries, method@, url@)
                    == CoverRouteV::Found((*e)@),
            },
    {
        if !str_eq(method, "GET") {
            return CoverResponse::MethodNotAllowed;
        }
        if !str_starts_with(url, "/cover/") {
            return CoverResponse::NotFound;
        }
        let m = "/cover/".unicode_len();
        let n = url.unicode_len();
        let id = url.substring_char(m, n);
        proof {
            assert(id@ =~= url@.skip("/cover/"@.len() as int));
        }
        if id.unicode_len() == 0 || str_contains_char(id, '/') {
            return CoverResponse::NotFound;
        }
        match assoc_get(&self.entries, id) {
            Some(e) => CoverResponse::Found(e),
            None => CoverResponse::NotFound,
        }
    }
}

} // verus!
