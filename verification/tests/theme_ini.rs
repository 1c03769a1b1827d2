use saxon_core::ini::{parse_color_ini, parse_color_ini_themes};

const SAMPLE: &str = "\
# a comment\n\
background=#0f0f0f\n\
foreground = #f2f2f2 \n\
\n\
[ light ]\n\
; another comment\n\
background=#ffffff\n\
background=#fefefe\n\
broken-line\n\
empty=\n\
=value\n\
";

#[test]
fn sections_keep_appearance_order_and_overwrite_keys() {
    let themes = parse_color_ini_themes(SAMPLE);
    let names: Vec<&str> = themes.sections.iter().map(|s| s.0.as_str()).collect();
    assert_eq!(names, vec!["default", "light"]);

    let default = &themes.sections[0].1;
    assert_eq!(
        default,
        &vec![
            ("background".to_string(), "#0f0f0f".to_string()),
            ("foreground".to_string(), "#f2f2f2".to_string()),
        ]
    );

    // the later value for the same key won, in place
    let light = &themes.sections[1].1;
    assert_eq!(light, &vec![("background".to_string(), "#fefefe".to_string())]);
}

#[test]
fn crlf_lines_and_empty_headers_are_tolerated() {
    let themes = parse_color_ini_themes("[]\r\nkey=value\r\n[ok]\r\na=b\r\n");
    let names: Vec<&str> = themes.sections.iter().map(|s| s.0.as_str()).collect();
    // the empty header is skipped, its settings land in the default section
    assert_eq!(names, vec!["default", "ok"]);
    assert_eq!(themes.sections[0].1, vec![("key".to_string(), "value".to_string())]);
    assert_eq!(themes.sections[1].1, vec![("a".to_string(), "b".to_string())]);
}

#[test]
fn a_header_alone_registers_an_empty_section() {
    let themes = parse_color_ini_themes("[solo]");
    assert_eq!(themes.sections.len(), 1);
    assert_eq!(themes.sections[0].0, "solo");
    assert!(themes.sections[0].1.is_empty());
}

#[test]
fn active_theme_prefers_default_then_first() {
    let m = parse_color_ini(SAMPLE);
    assert_eq!(m[0].0, "background");
    assert_eq!(m[0].1, "#0f0f0f");

    let only_named = parse_color_ini("[dark]\nbackground=#000000\n");
    assert_eq!(only_named, vec![("background".to_string(), "#000000".to_string())]);

    assert!(parse_color_ini("").is_empty());
    assert!(parse_color_ini("# nothing\n").is_empty());
}
