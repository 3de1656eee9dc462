//! Tests of the surfaces around the engine: the per-file summary fold, the
//! command-surface decisions, and the braced-reference extraction.

use markdang::context::Context;
use markdang::filter::Matcher;
use markdang::options::{
    frame_write_items, parse_format, parse_write_options, OutputFormat,
};
use markdang::summary::{
    frame_flags, head_flags, summarize, v1_keys, v1_props, FrameFlagKind, FrameFlagSet,
    HeadFlagKind, UnitView, V1Record,
};
use markdang::urlref::extract_url;

fn v1(album: &str, artist: &str, title: &str) -> V1Record {
    V1Record {
        album: album.to_string(),
        artist: artist.to_string(),
        comment: String::new(),
        genre: String::new(),
        title: title.to_string(),
        track: String::new(),
        year: String::new(),
    }
}

#[test]
fn v1_keys_lists_nonempty_fields_in_order() {
    let r = v1("Holy Diver", "", "Dio");
    assert_eq!(v1_keys(&r), vec!["album".to_string(), "title".to_string()]);
    let empty = v1("", "", "");
    assert_eq!(v1_keys(&empty), Vec::<String>::new());
}

#[test]
fn v1_props_maps_nonempty_fields() {
    let r = v1("Holy Diver", "Dio", "");
    let pm = v1_props(&r);
    assert_eq!(pm.get("album"), Some(&"Holy Diver".to_string()));
    assert_eq!(pm.get("artist"), Some(&"Dio".to_string()));
    assert_eq!(pm.get("title"), None);
    assert_eq!(pm.get("comment"), None);
}

#[test]
fn summarize_collects_version_frames_and_legacy() {
    let units = vec![
        UnitView::Header("3".to_string()),
        UnitView::Frame(
            "TIT2".to_string(),
            vec![("text".to_string(), "Holy Diver".to_string())],
        ),
        UnitView::Header("4".to_string()),
        UnitView::Frame(
            "TALB".to_string(),
            vec![("text".to_string(), "Dio Live".to_string())],
        ),
        UnitView::Legacy(v1("Holy Diver", "", "Dio")),
        UnitView::Other,
    ];
    let (summary, container) = summarize("a.mp3".to_string(), &units);
    assert_eq!(summary.file, "a.mp3");
    assert_eq!(summary.version, Some("4".to_string()));
    assert_eq!(
        summary.frames,
        Some(vec!["TIT2".to_string(), "TALB".to_string()])
    );
    assert_eq!(
        summary.frame1,
        Some(vec!["album".to_string(), "title".to_string()])
    );
    let m = Matcher::new(Some("TALB.text~'Dio'")).unwrap();
    assert!(m.accepts(&Context::Whole(container)));
}

#[test]
fn summarize_of_nothing_is_empty() {
    let (summary, container) = summarize("b.mp3".to_string(), &Vec::new());
    assert_eq!(summary.version, None);
    assert_eq!(summary.frames, None);
    assert_eq!(summary.frame1, None);
    let m = Matcher::new(Some("TIT2")).unwrap();
    assert!(!m.accepts(&Context::Whole(container)));
}

#[test]
fn head_flags_keep_order_or_vanish() {
    assert_eq!(head_flags(false, false), None);
    assert_eq!(
        head_flags(true, true),
        Some(vec![
            HeadFlagKind::Compression,
            HeadFlagKind::Unsynchronisation
        ])
    );
    assert_eq!(
        head_flags(false, true),
        Some(vec![HeadFlagKind::Unsynchronisation])
    );
}

#[test]
fn frame_flags_keep_order_or_vanish() {
    let none = FrameFlagSet {
        compression: false,
        encryption: false,
        file_alter: false,
        group_identity: false,
        read_only: false,
        tag_alter: false,
        data_length: false,
        unsynchronisation: false,
    };
    assert_eq!(frame_flags(&none), None);
    let some = FrameFlagSet { encryption: true, read_only: true, ..none };
    assert_eq!(
        frame_flags(&some),
        Some(vec![FrameFlagKind::Encryption, FrameFlagKind::ReadOnly])
    );
}

#[test]
fn format_option_selects_output_shape() {
    assert_eq!(parse_format(Some("t")), OutputFormat::SimpleText);
    assert_eq!(parse_format(Some("tt")), OutputFormat::FullText);
    assert_eq!(parse_format(Some("j")), OutputFormat::SimpleJson);
    assert_eq!(parse_format(Some("jj")), OutputFormat::FullJson);
    assert_eq!(parse_format(Some("f")), OutputFormat::FileName);
    assert_eq!(parse_format(Some("x")), OutputFormat::Silent);
    assert_eq!(parse_format(None), OutputFormat::Silent);
}

#[test]
fn write_options_lowercase_to_clean() {
    assert!(parse_write_options("//< CLEAN").clean);
    assert!(parse_write_options("//< Clean").clean);
    assert!(parse_write_options("//< other clean").clean);
    assert!(!parse_write_options("//<").clean);
    assert!(!parse_write_options("//< cleanly").clean);
}

#[test]
fn frame_items_accumulate_between_markers() {
    let lines = vec![
        "//< clean".to_string(),
        "{".to_string(),
        "}".to_string(),
        "//>".to_string(),
        "//<".to_string(),
        "x".to_string(),
        "//>".to_string(),
    ];
    let items = frame_write_items(&lines);
    assert_eq!(items.len(), 2);
    assert_eq!(items[0].0, "{\n}\n");
    assert!(items[0].1.clean);
    assert_eq!(items[1].0, "x\n");
    assert!(!items[1].1.clean);
}

#[test]
fn extract_url_removes_braced_reference() {
    let r = extract_url("cover #{http://example.net/a.jpg} art");
    assert_eq!(
        r,
        Some((
            "cover  art".to_string(),
            "http://example.net/a.jpg".to_string()
        ))
    );
}

#[test]
fn extract_url_without_reference_is_nothing() {
    assert_eq!(extract_url("plain description"), None);
    assert_eq!(extract_url("open #{brace only"), None);
}
