use pastepaw::commands::{
    ai_input_text, ai_request, ai_result_key, parse_ai_action, AiAction, AiPrompts,
    check_folder_deletable, clip_to_detail_item, clip_to_list_item, folder_items,
    full_image_content, i64_to_string, image_uuids, list_items, new_folder_item,
    normalise_clip_types, normalise_source_apps, parse_folder_id, parse_i64_text, paste_payload,
    pasted_content, resolve_folder_filter, search_pattern, source_app_counts, CLIP_TYPES,
};
use pastepaw::models::{Clip, Folder};

/// A type name is never interpolated into SQL, so a hostile value can only ever be
/// dropped.
#[test]
fn unknown_type_names_are_dropped_rather_than_reaching_sql() {
    let kept = normalise_clip_types(Some(vec![
        "image".to_string(),
        "'; DROP TABLE clips; --".to_string(),
        "nonsense".to_string(),
    ]));

    assert_eq!(kept, vec!["image".to_string()]);
    assert!(normalise_clip_types(None).is_empty());
}

#[test]
fn an_unparseable_folder_id_is_reported() {
    assert_eq!(resolve_folder_filter(None), Ok(None));
    assert_eq!(resolve_folder_filter(Some("7")), Ok(Some(7)));
    assert!(resolve_folder_filter(Some("not-a-number")).is_err());
}

/// A source application name is arbitrary text, so it is never validated and never
/// interpolated: it only ever reaches the query as a bound parameter.
#[test]
fn source_app_values_are_kept_verbatim_and_bound() {
    let kept = normalise_source_apps(Some(vec![
        "chrome.exe".to_string(),
        "   ".to_string(),
        "'; DROP TABLE clips; --".to_string(),
    ]));

    assert_eq!(
        kept,
        vec!["chrome.exe", "'; DROP TABLE clips; --"],
        "only blank values are dropped"
    );
    assert!(normalise_source_apps(None).is_empty());
}

#[test]
fn the_source_app_filter_is_capped() {
    let many: Vec<String> = (0..200).map(|index| format!("app-{index}.exe")).collect();

    assert_eq!(normalise_source_apps(Some(many)).len(), 64);
}

#[test]
fn the_cap_keeps_the_first_names_after_dropping_blank_ones() {
    let mut names: Vec<String> = vec![" ".to_string(), "\t".to_string()];
    names.extend((0..70).map(|index| format!("app-{index}.exe")));
    let kept = normalise_source_apps(Some(names));
    assert_eq!(kept.len(), 64);
    assert_eq!(kept[0], "app-0.exe");
    assert_eq!(kept[63], "app-63.exe");
}

#[test]
fn every_clip_type_is_kept_in_the_order_given() {
    assert_eq!(CLIP_TYPES, ["text", "image", "file"]);
    let kept = normalise_clip_types(Some(vec![
        "file".to_string(),
        "text".to_string(),
        "Text".to_string(),
        "image".to_string(),
    ]));
    assert_eq!(kept, vec!["file", "text", "image"]);
}

#[test]
fn the_folder_error_names_the_id() {
    assert_eq!(
        resolve_folder_filter(Some("x7")),
        Err("Unknown folder id: x7".to_string())
    );
}

#[test]
fn folder_ids_parse_like_str_parse() {
    assert_eq!(parse_i64_text("42"), Some(42));
    assert_eq!(parse_i64_text("+42"), Some(42));
    assert_eq!(parse_i64_text("-42"), Some(-42));
    assert_eq!(parse_i64_text("-9223372036854775808"), Some(i64::MIN));
    assert_eq!(parse_i64_text("9223372036854775807"), Some(i64::MAX));
    assert_eq!(parse_i64_text("9223372036854775808"), None);
    assert_eq!(parse_i64_text("-9223372036854775809"), None);
    assert_eq!(parse_i64_text(""), None);
    assert_eq!(parse_i64_text("-"), None);
    assert_eq!(parse_i64_text("+"), None);
    assert_eq!(parse_i64_text(" 1"), None);
    assert_eq!(parse_i64_text("1a"), None);
    for text in ["0", "-0", "17", "-1234567890123"] {
        assert_eq!(parse_i64_text(text), text.parse::<i64>().ok(), "{text}");
    }
    assert_eq!(parse_folder_id("12"), Ok(12));
    assert_eq!(parse_folder_id("twelve"), Err("Invalid folder ID".to_string()));
}

#[test]
fn integers_print_like_to_string() {
    for n in [0i64, 7, -7, 1234567890, i64::MAX, i64::MIN] {
        assert_eq!(i64_to_string(n), n.to_string());
    }
}

#[test]
fn the_search_pattern_matches_anywhere() {
    assert_eq!(search_pattern("abc"), "%abc%");
    assert_eq!(search_pattern(""), "%%");
}

fn clip(uuid: &str, clip_type: &str, content: &[u8], folder_id: Option<i64>) -> Clip {
    Clip {
        id: 1,
        uuid: uuid.to_string(),
        clip_type: clip_type.to_string(),
        content: content.to_vec(),
        text_preview: "preview".to_string(),
        content_hash: format!("hash-{uuid}"),
        folder_id,
        is_deleted: false,
        is_thumbnail: false,
        source_app: Some("app.exe".to_string()),
        source_icon: None,
        metadata: Some("{}".to_string()),
        title: Some("named".to_string()),
        created_at: "2024-01-02T03:04:05+00:00".to_string(),
        last_accessed: "2024-01-02T03:04:05+00:00".to_string(),
    }
}

#[test]
fn list_items_show_text_and_image_paths() {
    let text = clip("t", "text", b"hello", Some(-3));
    let item = clip_to_list_item(&text, None);
    assert_eq!(item.id, "t");
    assert_eq!(item.content, "hello");
    assert_eq!(item.folder_id.as_deref(), Some("-3"));
    assert_eq!(item.title.as_deref(), Some("named"));
    assert_eq!(item.created_at, "2024-01-02T03:04:05+00:00");

    let image = clip("i", "image", b"", None);
    assert_eq!(clip_to_list_item(&image, Some("C:/img/i.png")).content, "C:/img/i.png");
    assert_eq!(clip_to_list_item(&image, None).content, "");

    let invalid = clip("b", "text", &[0x66, 0xFF], None);
    assert_eq!(clip_to_list_item(&invalid, None).content, "f\u{FFFD}");
}

#[test]
fn the_detail_of_an_image_is_base64() {
    let image = clip("i", "image", b"thumb", None);
    assert_eq!(clip_to_detail_item(&image, Some(b"full")).content, "ZnVsbA==");
    assert_eq!(clip_to_detail_item(&image, None).content, "dGh1bWI=");
    let text = clip("t", "text", b"words", None);
    assert_eq!(clip_to_detail_item(&text, None).content, "words");
}

#[test]
fn images_get_the_last_non_empty_path_recorded_for_them() {
    let clips = vec![
        clip("a", "image", b"", None),
        clip("b", "text", b"x", None),
        clip("c", "image", b"", None),
    ];
    assert_eq!(image_uuids(&clips), vec!["a".to_string(), "c".to_string()]);
    let rows = vec![
        ("a".to_string(), Some("first".to_string())),
        ("a".to_string(), Some("second".to_string())),
        ("c".to_string(), Some(String::new())),
        ("c".to_string(), None),
    ];
    let items = list_items(&clips, &rows);
    assert_eq!(items.len(), 3);
    assert_eq!(items[0].content, "second");
    assert_eq!(items[1].content, "x");
    assert_eq!(items[2].content, "");
}

#[test]
fn folders_are_listed_with_their_counts() {
    let folders = vec![
        Folder {
            id: 1,
            name: "Pinned".to_string(),
            icon: None,
            color: None,
            is_system: true,
            created_at: String::new(),
        },
        Folder {
            id: 2,
            name: "work".to_string(),
            icon: Some("star".to_string()),
            color: Some("red".to_string()),
            is_system: false,
            created_at: String::new(),
        },
    ];
    let items = folder_items(&folders, &vec![(2, 5)]);
    assert_eq!(items[0].id, "1");
    assert_eq!(items[0].item_count, 0);
    assert!(items[0].is_system);
    assert_eq!(items[1].item_count, 5);
    assert_eq!(items[1].icon.as_deref(), Some("star"));

    let created = new_folder_item(9, "new".to_string(), None, Some("blue".to_string()));
    assert_eq!(created.id, "9");
    assert_eq!(created.item_count, 0);
    assert!(!created.is_system);
}

#[test]
fn the_builtin_folder_cannot_be_deleted() {
    assert_eq!(check_folder_deletable(None), Err("Folder not found".to_string()));
    assert_eq!(
        check_folder_deletable(Some(1)),
        Err("The built-in folder cannot be deleted".to_string())
    );
    assert_eq!(check_folder_deletable(Some(0)), Ok(()));
}

#[test]
fn pasting_a_text_clip_carries_its_stored_formats() {
    let text = clip("t", "text", b"plain", None);
    let stored = vec![
        ("html".to_string(), b"<b>plain</b>".to_vec()),
        ("rtf".to_string(), b"{\\rtf1 plain}".to_vec()),
        ("unknown".to_string(), b"ignored".to_vec()),
    ];
    let payload = paste_payload(&text, &stored, None).expect("payload");
    assert_eq!(payload.text.as_deref(), Some("plain"));
    assert_eq!(payload.html.as_deref(), Some("<b>plain</b>"));
    assert_eq!(payload.rtf, Some(b"{\\rtf1 plain}".to_vec()));
    assert!(payload.files.is_none());
    assert!(payload.image_png.is_none());
}

#[test]
fn a_file_clip_needs_its_stored_list() {
    let file = clip("f", "file", b"C:\\a.txt", None);
    let missing = paste_payload(&file, &vec![], None);
    assert_eq!(
        missing.err(),
        Some("This file clip has no stored file list".to_string())
    );
    let bad = vec![("file".to_string(), b"[]".to_vec())];
    assert!(paste_payload(&file, &bad, None).is_err());
    let good = vec![("file".to_string(), br#"["C:\\a.txt"]"#.to_vec())];
    let payload = paste_payload(&file, &good, None).expect("payload");
    assert_eq!(payload.files, Some(vec!["C:\\a.txt".to_string()]));
    assert!(payload.text.is_none());
}

#[test]
fn an_image_clip_pastes_its_full_image_or_fails_as_loading_did() {
    let image = clip("i", "image", b"", None);
    let payload = paste_payload(&image, &vec![], Some(Ok(vec![1, 2]))).expect("payload");
    assert_eq!(payload.image_png, Some(vec![1, 2]));
    assert!(payload.text.is_none());
    assert_eq!(
        paste_payload(&image, &vec![], Some(Err("Image content missing".to_string()))).err(),
        Some("Image content missing".to_string())
    );
    assert_eq!(pasted_content(&image), "[Image]");
    assert_eq!(pasted_content(&clip("t", "text", b"abc", None)), "abc");
}

#[test]
fn full_image_content_falls_back_in_order() {
    let image = clip("i", "image", b"legacy", None);
    assert_eq!(full_image_content(&image, Some(vec![1]), Some(vec![2])), Ok(vec![1]));
    assert_eq!(full_image_content(&image, None, Some(vec![2])), Ok(vec![2]));
    assert_eq!(full_image_content(&image, None, Some(vec![])), Ok(b"legacy".to_vec()));
    let bare = clip("j", "image", b"", None);
    assert_eq!(
        full_image_content(&bare, None, None),
        Err("Image content missing".to_string())
    );
    let text = clip("t", "text", b"x", None);
    assert_eq!(
        full_image_content(&text, None, None),
        Err("Clip is not an image".to_string())
    );
}

#[test]
fn source_apps_are_offered_in_query_order() {
    let apps = source_app_counts(vec![("chrome.exe".to_string(), 2), ("winword.exe".to_string(), 1)]);
    assert_eq!(apps.len(), 2);
    assert_eq!(apps[0].name, "chrome.exe");
    assert_eq!(apps[0].count, 2);
    assert_eq!(apps[1].name, "winword.exe");
}

#[test]
fn ai_actions_are_named_and_stored_under_their_keys() {
    assert_eq!(parse_ai_action("summarize"), Ok(AiAction::Summarize));
    assert_eq!(parse_ai_action("fix_grammar"), Ok(AiAction::FixGrammar));
    assert_eq!(parse_ai_action("dance"), Err("Invalid AI action".to_string()));
    assert_eq!(ai_result_key(AiAction::Translate), "ai_translation");
    assert_eq!(ai_result_key(AiAction::ExplainCode), "ai_explanation");
    assert_eq!(ai_input_text(&clip("t", "url", b"https://a", None)), Ok("https://a".to_string()));
    assert_eq!(
        ai_input_text(&clip("i", "image", b"", None)),
        Err("AI processing only supported for text content".to_string())
    );
}

#[test]
fn an_ai_request_checks_the_clip_the_key_and_the_action_in_turn() {
    let prompts = || AiPrompts {
        summarize: "s".to_string(),
        translate: "t".to_string(),
        explain_code: "e".to_string(),
        fix_grammar: "g".to_string(),
    };
    let text = clip("t", "text", b"hello", None);
    let request = ai_request(&text, "translate", "key", String::new(), prompts()).expect("request");
    assert_eq!(request.action, AiAction::Translate);
    assert_eq!(request.text, "hello");
    assert_eq!(request.base_url, None);
    assert_eq!(request.prompt, "t");
    let with_url = ai_request(&text, "fix_grammar", "key", "https://x".to_string(), prompts()).expect("request");
    assert_eq!(with_url.base_url.as_deref(), Some("https://x"));
    assert_eq!(with_url.prompt, "g");
    assert_eq!(
        ai_request(&clip("i", "image", b"", None), "dance", "", String::new(), prompts()).err(),
        Some("AI processing only supported for text content".to_string())
    );
    assert_eq!(
        ai_request(&text, "dance", "", String::new(), prompts()).err(),
        Some("AI API Key is missing in settings".to_string())
    );
    assert_eq!(
        ai_request(&text, "dance", "key", String::new(), prompts()).err(),
        Some("Invalid AI action".to_string())
    );
}

#[test]
fn a_stored_text_clip_pastes_back_with_its_formatting() {
    let stored: Vec<(String, Vec<u8>)> = pastepaw::ingest::extra_formats(
        pastepaw::ingest::ClipKind::Text,
        &Vec::new(),
        Some("<b>héllo</b>".to_string()),
        Some(b"{\\rtf1}".to_vec()),
    )
    .into_iter()
    .map(|(format, bytes)| (format.to_string(), bytes))
    .collect();
    let text = clip("t", "text", "héllo".as_bytes(), None);
    let payload = paste_payload(&text, &stored, None).expect("payload");
    assert_eq!(payload.text.as_deref(), Some("héllo"));
    assert_eq!(payload.html.as_deref(), Some("<b>héllo</b>"));
    assert_eq!(payload.rtf, Some(b"{\\rtf1}".to_vec()));
}
