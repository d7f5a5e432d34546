use pastepaw::clipboard_formats::describe_files;
use pastepaw::ingest::{
    calculate_hash, choose_capture, extra_formats, image_metadata, set_ignore_hash,
    source_is_ignored, store_action, evaluates_retention, captured_image, CapturedImage, ChangeDebouncer, ClipKind, HashGate,
    StoreAction, IMAGE_PREVIEW,
};
use pastepaw::models::AppSettings;

#[test]
fn content_hashes_are_lowercase_sha256() {
    assert_eq!(
        calculate_hash(b"abc"),
        "ba7816bf8f01cfea414140de5dae2223b00361a396177a9cb410ff61f20015ad"
    );
    assert_eq!(
        calculate_hash(b""),
        "e3b0c44298fc1c149afbf4c8996fb92427ae41e4649b934ca495991b7852b855"
    );
}

#[test]
fn an_image_wins_over_files_and_text() {
    let image = CapturedImage {
        png_bytes: vec![1, 2, 3],
        width: 4,
        height: 5,
        raw_hash: "raw".to_string(),
    };
    let files = vec![r"C:\a.txt".to_string()];
    let clip = choose_capture(Some(image), &files, Some("text".to_string())).expect("clip");
    assert_eq!(clip.kind, ClipKind::Image);
    assert_eq!(clip.kind.name(), "image");
    assert!(clip.content.is_empty());
    assert_eq!(clip.full_image, Some(vec![1, 2, 3]));
    assert_eq!(clip.preview, IMAGE_PREVIEW);
    assert_eq!(clip.hash, "raw");
    assert_eq!(
        clip.metadata.as_deref(),
        Some(r#"{"format":"png","height":5,"size_bytes":3,"width":4}"#)
    );
}

#[test]
fn image_metadata_is_json_with_sorted_keys() {
    let json = image_metadata(640, 480, 12345);
    let value: serde_json::Value = serde_json::from_str(&json).expect("json");
    assert_eq!(value["width"], 640);
    assert_eq!(value["height"], 480);
    assert_eq!(value["size_bytes"], 12345);
    assert_eq!(value["format"], "png");
    assert_eq!(json, value.to_string());
}

#[test]
fn files_win_over_text() {
    let files = vec![r"C:\a\one.txt".to_string(), r"C:\a\two.txt".to_string()];
    let clip = choose_capture(None, &files, Some("one.txt".to_string())).expect("clip");
    assert_eq!(clip.kind, ClipKind::File);
    assert_eq!(clip.content, b"C:\\a\\one.txt\nC:\\a\\two.txt".to_vec());
    assert_eq!(clip.preview, describe_files(&files));
    assert_eq!(clip.preview, "one.txt +1");
    assert_eq!(clip.hash, calculate_hash(&clip.content));
    assert!(clip.metadata.is_none());
}

#[test]
fn text_is_trimmed_and_previewed_in_two_hundred_characters() {
    let long = format!("  {}  ", "x".repeat(250));
    let clip = choose_capture(None, &vec![], Some(long)).expect("clip");
    assert_eq!(clip.kind, ClipKind::Text);
    assert_eq!(clip.content, "x".repeat(250).into_bytes());
    assert_eq!(clip.preview, "x".repeat(200));
    assert_eq!(clip.hash, calculate_hash(&"x".repeat(250).into_bytes()));

    let short = choose_capture(None, &vec![], Some("\t héllo \n".to_string())).expect("clip");
    assert_eq!(short.preview, "héllo");
    assert_eq!(short.content, "héllo".as_bytes().to_vec());
}

#[test]
fn blank_text_or_nothing_records_nothing() {
    assert!(choose_capture(None, &vec![], Some(" \r\n\t ".to_string())).is_none());
    assert!(choose_capture(None, &vec![], None).is_none());
}

#[test]
fn the_same_change_twice_is_recorded_once() {
    let mut gate = HashGate::new();
    let hash = "h1".to_string();
    assert!(gate.record_change(&hash));
    assert!(!gate.record_change(&hash));
    assert!(gate.record_change(&"h2".to_string()));
    assert!(gate.record_change(&hash));
}

#[test]
fn a_self_paste_is_remembered_until_the_next_recorded_change() {
    let mut gate = HashGate::new();
    assert!(gate.record_change(&"a".to_string()));
    set_ignore_hash(&mut gate, "b".to_string());
    assert_eq!(gate.ignore_hash.as_deref(), Some("b"));
    assert!(!gate.record_change(&"a".to_string()));
    assert_eq!(gate.ignore_hash.as_deref(), Some("b"));
    assert!(gate.record_change(&"b".to_string()));
    assert!(gate.ignore_hash.is_none());
    assert_eq!(gate.last_stable_hash.as_deref(), Some("b"));
}

fn settings_ignoring(apps: &[&str], ghosts: bool) -> AppSettings {
    let mut settings = AppSettings::default();
    settings.ignored_apps = apps.iter().map(|a| a.to_string()).collect();
    settings.ignore_ghost_clips = ghosts;
    settings
}

#[test]
fn ignored_applications_match_without_regard_to_case() {
    let settings = settings_ignoring(&["KeePass.exe"], false);
    assert!(source_is_ignored(&settings, &Some("keepass.EXE".to_string()), &None, true));
    assert!(!source_is_ignored(&settings, &Some("notepad.exe".to_string()), &None, true));
    let by_path = settings_ignoring(&[r"C:\Tools\KeePass.exe"], false);
    assert!(source_is_ignored(
        &by_path,
        &Some("KeePass.exe".to_string()),
        &Some(r"c:\tools\keepass.exe".to_string()),
        true
    ));
}

#[test]
fn ghost_clips_are_dropped_only_when_asked() {
    let settings = settings_ignoring(&[], true);
    assert!(source_is_ignored(&settings, &None, &None, false));
    assert!(!source_is_ignored(&settings, &None, &None, true));
    let lenient = settings_ignoring(&[], false);
    assert!(!source_is_ignored(&lenient, &None, &None, false));
}

#[test]
fn rich_formats_ride_only_with_text() {
    let files = vec![r"C:\a.txt".to_string()];
    let formats = extra_formats(
        ClipKind::Text,
        &files,
        Some("<b>x</b>".to_string()),
        Some(vec![9]),
    );
    let names: Vec<&str> = formats.iter().map(|f| f.0).collect();
    assert_eq!(names, vec!["file", "html", "rtf"]);
    let list: Vec<String> = serde_json::from_slice(&formats[0].1).expect("json");
    assert_eq!(list, files);
    assert_eq!(formats[1].1, b"<b>x</b>".to_vec());

    let image = extra_formats(ClipKind::Image, &vec![], Some("<b>x</b>".to_string()), Some(vec![9]));
    assert!(image.is_empty());
}

#[test]
fn known_content_refreshes_the_stored_clip() {
    assert_eq!(
        store_action(Some("u".to_string()), ClipKind::Image),
        StoreAction::Refresh { uuid: "u".to_string(), replace_image: true }
    );
    assert_eq!(
        store_action(Some("u".to_string()), ClipKind::Text),
        StoreAction::Refresh { uuid: "u".to_string(), replace_image: false }
    );
    assert_eq!(store_action(None, ClipKind::File), StoreAction::Insert);
}

#[test]
fn only_the_last_change_of_a_burst_is_read() {
    let mut d = ChangeDebouncer::new();
    let first = d.arrive();
    assert!(d.is_latest(first));
    let second = d.arrive();
    assert!(!d.is_latest(first));
    assert!(d.is_latest(second));
    assert_eq!(second, first + 1);
}

#[test]
fn the_change_counter_wraps_around() {
    let mut d = ChangeDebouncer { count: u64::MAX };
    let ticket = d.arrive();
    assert_eq!(ticket, 0);
    assert!(!d.is_latest(u64::MAX));
}

#[test]
fn retention_runs_only_for_a_new_clip() {
    assert!(evaluates_retention(&StoreAction::Insert));
    assert!(!evaluates_retention(&StoreAction::Refresh { uuid: "u".to_string(), replace_image: false }));
}

#[test]
fn a_captured_image_is_known_by_its_pixels() {
    let image = captured_image(vec![1, 2, 3], 1, 1, &[9, 9, 9, 255]);
    assert_eq!(image.raw_hash, calculate_hash(&[9, 9, 9, 255]));
    assert_eq!(image.png_bytes, vec![1, 2, 3]);
    assert_eq!((image.width, image.height), (1, 1));
}
