use saxon_core::fingerprint::u64_to_hex16;
use saxon_core::roots::keep_top_level;
use saxon_core::strutil::{
    path_base_name, path_depth_under, path_extension, path_file_stem, path_is_under, path_parent,
    str_eq_ignore_case,
};

#[test]
fn path_decomposition() {
    assert_eq!(path_parent("/a/b/c.mp3"), Some("/a/b"));
    assert_eq!(path_parent("plain"), None);
    assert_eq!(path_base_name("/a/b/c.mp3"), "c.mp3");
    assert_eq!(path_file_stem("/a/b/c.mp3"), "c");
    assert_eq!(path_extension("/a/b/c.mp3"), Some("mp3"));
    assert_eq!(path_extension("/a/b/noext"), None);
    // a leading dot is a hidden file, not an extension
    assert_eq!(path_extension("/a/.bashrc"), None);
    assert_eq!(path_file_stem("/a/.bashrc"), ".bashrc");
}

#[test]
fn containment_and_depth() {
    assert!(path_is_under("/root", "/root/a"));
    assert!(path_is_under("/root/", "/root/a"));
    assert!(!path_is_under("/root", "/rootx/a"));
    assert!(!path_is_under("/root", "/root"));
    assert_eq!(path_depth_under("/root", "/root/a"), 1);
    assert_eq!(path_depth_under("/root", "/root/a/b"), 2);
    assert_eq!(path_depth_under("/", "/a"), 1);
}

#[test]
fn case_insensitive_equality_is_ascii_only() {
    assert!(str_eq_ignore_case("MP3", "mp3"));
    assert!(str_eq_ignore_case("/Music", "/music"));
    assert!(!str_eq_ignore_case("mp3", "mp4"));
}

#[test]
fn nested_roots_collapse_to_their_ancestors() {
    let paths = vec![
        "/a".to_string(),
        "/a/b".to_string(),
        "/a/b/c".to_string(),
        "/c".to_string(),
    ];
    assert_eq!(keep_top_level(&paths), vec!["/a".to_string(), "/c".to_string()]);
    assert!(keep_top_level(&Vec::new()).is_empty());
}

#[test]
fn hex_rendering_is_fixed_width_lowercase() {
    assert_eq!(u64_to_hex16(0xdeadbeef), "00000000deadbeef");
    assert_eq!(u64_to_hex16(0), "0000000000000000");
    assert_eq!(u64_to_hex16(u64::MAX), "ffffffffffffffff");
}
