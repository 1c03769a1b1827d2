use saxon_core::cover::{
    cover_data_uri, cover_from_picture, cover_path_usable, CoverEntry, CoverResponse, CoverStore,
    MAX_COVER_ART_BYTES,
};

#[test]
fn ceiling_accepts_exactly_the_limit() {
    let at_limit = vec![7u8; MAX_COVER_ART_BYTES];
    let c = cover_from_picture("image/png".to_string(), at_limit).expect("at the ceiling");
    assert_eq!(c.bytes.len(), MAX_COVER_ART_BYTES);

    let over = vec![7u8; MAX_COVER_ART_BYTES + 1];
    assert!(cover_from_picture("image/png".to_string(), over).is_none());
}

#[test]
fn data_uri_carries_mime_and_base64_payload() {
    let c = cover_from_picture("image/png".to_string(), b"Man".to_vec()).unwrap();
    assert_eq!(cover_data_uri(&c), "data:image/png;base64,TWFu");
}

#[test]
fn blank_paths_are_not_usable() {
    assert!(!cover_path_usable(""));
    assert!(!cover_path_usable("  \t"));
    assert!(cover_path_usable("/music/a.mp3"));
}

#[test]
fn registration_returns_a_servable_url() {
    let mut store = CoverStore::new("http://127.0.0.1:9".to_string());
    let cover = CoverEntry { mime: "image/jpeg".to_string(), bytes: vec![1, 2, 3] };
    let url = store.register("/music/a.mp3", cover);

    assert!(url.starts_with("http://127.0.0.1:9/cover/"));
    let id = &url["http://127.0.0.1:9/cover/".len()..];
    assert_eq!(id.len(), 43);
    assert!(!id.contains('/'));

    let path = format!("/cover/{}", id);
    match store.respond("GET", &path) {
        CoverResponse::Found(e) => {
            assert_eq!(e.mime, "image/jpeg");
            assert_eq!(e.bytes, vec![1, 2, 3]);
        },
        _ => panic!("a registered cover must be served"),
    }
}

#[test]
fn registration_is_deterministic_per_path() {
    let mut store = CoverStore::new("http://b".to_string());
    let c1 = CoverEntry { mime: "a".to_string(), bytes: vec![1] };
    let c2 = CoverEntry { mime: "b".to_string(), bytes: vec![2] };
    let u1 = store.register("/p", c1);
    let u2 = store.register("/p", c2);
    assert_eq!(u1, u2);
    let u3 = store.register("/q", CoverEntry { mime: "c".to_string(), bytes: vec![3] });
    assert_ne!(u1, u3);

    // re-registration replaced the stored cover
    let id = u1.strip_prefix("http://b/cover/").unwrap();
    match store.respond("GET", &format!("/cover/{}", id)) {
        CoverResponse::Found(e) => assert_eq!(e.mime, "b"),
        _ => panic!("still served"),
    }
}

#[test]
fn routing_refuses_everything_but_clean_gets() {
    let store = CoverStore::new("http://b".to_string());
    assert!(matches!(store.respond("POST", "/cover/x"), CoverResponse::MethodNotAllowed));
    assert!(matches!(store.respond("PUT", "/cover/x"), CoverResponse::MethodNotAllowed));
    assert!(matches!(store.respond("GET", "/cover/"), CoverResponse::NotFound));
    assert!(matches!(store.respond("GET", "/cover/a/b"), CoverResponse::NotFound));
    assert!(matches!(store.respond("GET", "/elsewhere"), CoverResponse::NotFound));
    assert!(matches!(store.respond("GET", "/cover/unknown"), CoverResponse::NotFound));
}
