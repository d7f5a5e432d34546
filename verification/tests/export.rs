use base64::Engine;
use pastepaw::export::{
    bundle_folder, export_clip, image_outcome, import_created_at, import_metadata, import_report,
    make_bundle, mark_missing_image, ImageOutcome,
    plan_import, stored_formats_for, suggested_file_name, Bundle, BundleClip, BundleFolder,
    ClipStep, ExportClipRow, FolderStep, ImportReport, BUNDLE_VERSION, MISSING_IMAGE_KEY,
};

fn folder(name: &str) -> BundleFolder {
    BundleFolder { name: name.to_string(), icon: None, color: None, is_system: false }
}

fn bundle_clip(hash: &str, clip_type: &str, content: &str, folder: Option<&str>) -> BundleClip {
    BundleClip {
        clip_type: clip_type.to_string(),
        content: content.to_string(),
        text_preview: content.to_string(),
        content_hash: hash.to_string(),
        folder: folder.map(str::to_string),
        source_app: None,
        metadata: None,
        created_at: "2024-05-06T07:08:09+00:00".to_string(),
        html: None,
        rtf_base64: None,
        image_path: None,
        title: None,
    }
}

fn bundle(folders: Vec<BundleFolder>, clips: Vec<BundleClip>) -> Bundle {
    make_bundle("2024-05-06T00:00:00+00:00".to_string(), folders, clips)
}

#[test]
fn a_bundle_is_written_in_the_current_version() {
    let b = bundle(vec![], vec![]);
    assert_eq!(b.version, BUNDLE_VERSION);
    assert_eq!(b.app, "PastePaw");
    assert_eq!(suggested_file_name("2024-05-06"), "pastepaw-folders-2024-05-06.json");
    let f = bundle_folder("work".to_string(), None, Some("red".to_string()), 1);
    assert!(f.is_system);
    assert_eq!(f.color.as_deref(), Some("red"));
}

#[test]
fn an_unsupported_version_is_rejected() {
    let mut b = bundle(vec![], vec![]);
    b.version = 99;
    let error = plan_import(&b, &vec![], &vec![]).err().expect("rejected");
    assert_eq!(
        error,
        "bundle version 99 is not supported (this build reads version 1)"
    );
    assert!(error.contains("version"));
}

#[test]
fn an_empty_bundle_is_valid_and_does_nothing() {
    let plan = plan_import(&bundle(vec![], vec![]), &vec![], &vec![]).expect("plan");
    assert!(plan.folders.is_empty());
    assert!(plan.clips.is_empty());
    assert_eq!(import_report(&plan, &Vec::new()), ImportReport::default());
}

#[test]
fn importing_the_same_plan_twice_changes_nothing() {
    let b = bundle(
        vec![folder("work")],
        vec![bundle_clip("h1", "text", "kept", Some("work"))],
    );
    let first = plan_import(&b, &vec![], &vec![]).expect("plan");
    assert_eq!(first.folders, vec![FolderStep::Create]);
    assert_eq!(first.clips, vec![ClipStep::Import]);
    assert_eq!(first.clip_folders, vec![Some("work".to_string())]);
    let report = import_report(&first, &Vec::new());
    assert_eq!(report.folders_created, 1);
    assert_eq!(report.clips_imported, 1);

    let second =
        plan_import(&b, &vec!["work".to_string()], &vec!["h1".to_string()]).expect("plan");
    assert_eq!(second.folders, vec![FolderStep::Reuse]);
    assert_eq!(second.clips, vec![ClipStep::Skip]);
    let report = import_report(&second, &Vec::new());
    assert_eq!(report.clips_imported, 0);
    assert_eq!(report.clips_skipped, 1);
    assert_eq!(report.folders_created, 0);
    assert_eq!(report.folders_reused, 1);
}

#[test]
fn a_folder_that_already_exists_is_merged_not_duplicated() {
    let b = bundle(vec![folder("work"), folder("work"), folder("new")], vec![]);
    let plan = plan_import(&b, &vec!["work".to_string()], &vec![]).expect("plan");
    assert_eq!(
        plan.folders,
        vec![FolderStep::Reuse, FolderStep::Reuse, FolderStep::Create]
    );
    let repeated = bundle(vec![folder("a"), folder("a")], vec![]);
    let plan = plan_import(&repeated, &vec![], &vec![]).expect("plan");
    assert_eq!(plan.folders, vec![FolderStep::Create, FolderStep::Reuse]);
}

#[test]
fn a_clip_repeated_in_a_bundle_is_imported_once() {
    let b = bundle(
        vec![],
        vec![
            bundle_clip("same", "text", "one", None),
            bundle_clip("same", "text", "one", None),
            bundle_clip("other", "text", "two", Some("elsewhere")),
        ],
    );
    let plan = plan_import(&b, &vec![], &vec![]).expect("plan");
    assert_eq!(plan.clips, vec![ClipStep::Import, ClipStep::Skip, ClipStep::Import]);
    assert_eq!(plan.clip_folders, vec![None, None, None]);
}

#[test]
fn a_file_clip_rebuilds_its_list_from_its_content() {
    let mut clip = bundle_clip("f", "file", "C:\\a.txt\n\nD:\\b.txt\n", None);
    clip.html = Some("<b>x</b>".to_string());
    clip.rtf_base64 = Some(base64::engine::general_purpose::STANDARD.encode(b"{\\rtf1}"));
    let formats = stored_formats_for(&clip);
    let names: Vec<&str> = formats.iter().map(|f| f.0).collect();
    assert_eq!(names, vec!["file", "html", "rtf"]);
    let paths: Vec<String> = serde_json::from_slice(&formats[0].1).expect("json");
    assert_eq!(paths, vec!["C:\\a.txt".to_string(), "D:\\b.txt".to_string()]);
    assert_eq!(formats[1].1, b"<b>x</b>".to_vec());
    assert_eq!(formats[2].1, b"{\\rtf1}".to_vec());

    let mut broken = bundle_clip("g", "text", "x", None);
    broken.rtf_base64 = Some("not base64!".to_string());
    assert!(stored_formats_for(&broken).is_empty());
}

#[test]
fn an_export_carries_the_formats_of_its_own_clip() {
    let row = ExportClipRow {
        uuid: "u1".to_string(),
        clip_type: "text".to_string(),
        content: b"kept".to_vec(),
        text_preview: "kept".to_string(),
        content_hash: "h".to_string(),
        source_app: Some("app".to_string()),
        metadata: None,
        title: Some("Email signature".to_string()),
        created_at: "2024-01-01T00:00:00+00:00".to_string(),
        folder_name: Some("work".to_string()),
        image_path: Some(String::new()),
    };
    let format_rows = vec![
        ("u1".to_string(), "html".to_string(), b"<b>hello</b>".to_vec()),
        ("u2".to_string(), "html".to_string(), b"<i>other</i>".to_vec()),
        ("u1".to_string(), "rtf".to_string(), b"{\\rtf1\\ansi}".to_vec()),
    ];
    let clip = export_clip(&row, &format_rows);
    assert_eq!(clip.content, "kept");
    assert_eq!(clip.folder.as_deref(), Some("work"));
    assert_eq!(clip.html.as_deref(), Some("<b>hello</b>"));
    let rtf = base64::engine::general_purpose::STANDARD
        .decode(clip.rtf_base64.expect("rtf"))
        .expect("base64");
    assert_eq!(rtf, b"{\\rtf1\\ansi}".to_vec());
    assert!(clip.image_path.is_none());
    assert_eq!(clip.title.as_deref(), Some("Email signature"));
}

#[test]
fn an_unreadable_created_at_falls_back_to_now() {
    assert_eq!(
        import_created_at("2024-05-06T07:08:09+02:00", (1, 2)),
        (1714972089, 0)
    );
    assert_eq!(import_created_at("yesterday", (1, 2)), (1, 2));
}

#[test]
fn an_unreadable_image_is_marked_missing() {
    let mut clip = bundle_clip("i", "image", "", None);
    clip.image_path = Some("/nonexistent/pastepaw-import-test.png".to_string());
    clip.metadata = Some("{\"width\":2,\"height\":3}".to_string());
    assert_eq!(image_outcome(&clip, false), ImageOutcome::Missing);
    assert_eq!(image_outcome(&clip, true), ImageOutcome::Restored);
    let marked = import_metadata(&clip, ImageOutcome::Missing).expect("metadata");
    let value: serde_json::Value = serde_json::from_str(&marked).expect("json");
    assert_eq!(value[MISSING_IMAGE_KEY], serde_json::Value::Bool(true));
    assert_eq!(value["original_path"], "/nonexistent/pastepaw-import-test.png");
    assert_eq!(value["width"], 2);
    assert_eq!(value["height"], 3);
    assert_eq!(
        import_metadata(&clip, ImageOutcome::Restored).as_deref(),
        Some("{\"width\":2,\"height\":3}")
    );
    let mut text = bundle_clip("t", "text", "x", None);
    text.metadata = Some("{}".to_string());
    assert_eq!(image_outcome(&text, false), ImageOutcome::NotAnImage);
    assert_eq!(import_metadata(&text, ImageOutcome::NotAnImage).as_deref(), Some("{}"));
}

#[test]
fn marking_works_without_metadata_or_path() {
    assert_eq!(mark_missing_image(None, None), "{\"missing_image\":true,\"original_path\":null}");
    assert_eq!(
        mark_missing_image(Some("not json"), Some("C:\\p.png")),
        "{\"missing_image\":true,\"original_path\":\"C:\\\\p.png\"}"
    );
    // Metadata holding some other JSON value is kept as it is.
    assert_eq!(mark_missing_image(Some("[1, 2]"), Some("p")), "[1,2]");
}

#[test]
fn unreadable_images_are_counted_as_missing() {
    let bundle = make_bundle(String::new(), Vec::new(), vec![bundle_clip("i", "image", "", None), bundle_clip("t", "text", "x", None)]);
    let plan = plan_import(&bundle, &Vec::new(), &Vec::new()).expect("plan");
    let outcomes = vec![ImageOutcome::Missing, ImageOutcome::NotAnImage];
    let report = import_report(&plan, &outcomes);
    assert_eq!(report.clips_imported, 2);
    assert_eq!(report.images_missing, 1);
    assert_eq!(report.images_restored, 0);
}

#[test]
fn a_bundle_survives_a_round_trip_into_an_empty_database() {
    let text_row = ExportClipRow {
        uuid: "u1".to_string(),
        clip_type: "text".to_string(),
        content: b"hello".to_vec(),
        text_preview: "hello".to_string(),
        content_hash: "h1".to_string(),
        source_app: None,
        metadata: None,
        title: None,
        created_at: "2024-01-01T00:00:00+00:00".to_string(),
        folder_name: Some("work".to_string()),
        image_path: None,
    };
    let mut file_row = ExportClipRow { uuid: "u2".to_string(), ..text_row_clone(&text_row) };
    file_row.clip_type = "file".to_string();
    file_row.content = b"C:\\a.txt\nC:\\b.txt".to_vec();
    file_row.content_hash = "h2".to_string();
    let format_rows = vec![
        ("u1".to_string(), "html".to_string(), b"<b>hello</b>".to_vec()),
        ("u1".to_string(), "rtf".to_string(), b"{\\rtf1\\ansi}".to_vec()),
    ];
    let clips = vec![export_clip(&text_row, &format_rows), export_clip(&file_row, &format_rows)];
    let bundle = make_bundle("now".to_string(), vec![bundle_folder("work".to_string(), None, None, 0)], clips);
    let plan = plan_import(&bundle, &vec![], &vec![]).expect("plan");
    let report = import_report(&plan, &vec![ImageOutcome::NotAnImage, ImageOutcome::NotAnImage]);
    assert_eq!(report.folders_created, 1);
    assert_eq!(report.clips_imported, 2);
    assert_eq!(plan.clip_folders, vec![Some("work".to_string()), Some("work".to_string())]);

    let text_formats = stored_formats_for(&bundle.clips[0]);
    assert_eq!(text_formats[0], ("html", b"<b>hello</b>".to_vec()));
    assert_eq!(text_formats[1], ("rtf", b"{\\rtf1\\ansi}".to_vec()));
    let file_formats = stored_formats_for(&bundle.clips[1]);
    let paths: Vec<String> = serde_json::from_slice(&file_formats[0].1).expect("json");
    assert_eq!(paths, vec!["C:\\a.txt".to_string(), "C:\\b.txt".to_string()]);
}

fn text_row_clone(r: &ExportClipRow) -> ExportClipRow {
    ExportClipRow {
        uuid: r.uuid.clone(),
        clip_type: r.clip_type.clone(),
        content: r.content.clone(),
        text_preview: r.text_preview.clone(),
        content_hash: r.content_hash.clone(),
        source_app: r.source_app.clone(),
        metadata: r.metadata.clone(),
        title: r.title.clone(),
        created_at: r.created_at.clone(),
        folder_name: r.folder_name.clone(),
        image_path: r.image_path.clone(),
    }
}
