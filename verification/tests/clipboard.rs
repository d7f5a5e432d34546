use base64::Engine;
use pastepaw::clipboard::{
    captured_formats, clipboard_plan, dib_formats, icon_png_base64, image_formats,
    owner_app_info, paste_keystrokes, preferred_translation, swap_red_blue, to_utf16_bytes,
    version_info_query, version_info_text, ClipboardPayload, ClipboardSlot, KeyStroke, VK_CONTROL,
    VK_INSERT, VK_SHIFT, VK_V, paste_follow_up, PasteFollowUp, WriteRetry, WriteStep,
};
use pastepaw::clipboard_formats::{
    build_cf_html, build_dib, build_dibv5, build_hdrop, BITMAPINFOHEADER_SIZE,
    DROPFILES_HEADER_SIZE,
};

#[test]
fn utf16_bytes_are_little_endian_and_nul_terminated() {
    assert_eq!(to_utf16_bytes("A"), vec![0x41, 0x00, 0x00, 0x00]);
}

/// Anything above U+FFFF has to become a surrogate pair, or the text pastes back
/// mangled.
#[test]
fn utf16_bytes_encode_non_bmp_characters_as_surrogate_pairs() {
    // U+1F600 -> D83D DE00
    assert_eq!(
        to_utf16_bytes("\u{1F600}"),
        vec![0x3D, 0xD8, 0x00, 0xDE, 0x00, 0x00]
    );
}

#[test]
fn utf16_bytes_of_empty_text_is_just_the_terminator() {
    assert_eq!(to_utf16_bytes(""), vec![0x00, 0x00]);
}

#[test]
fn a_payload_counts_as_empty_only_when_it_has_nothing_to_write() {
    assert!(ClipboardPayload::default().is_empty());
    assert!(ClipboardPayload {
        files: Some(Vec::new()),
        ..Default::default()
    }
    .is_empty());
    assert!(!ClipboardPayload {
        text: Some(String::new()),
        ..Default::default()
    }
    .is_empty());
    assert!(!ClipboardPayload {
        files: Some(vec![r"C:\a.txt".to_string()]),
        ..Default::default()
    }
    .is_empty());
    assert!(!ClipboardPayload {
        image_png: Some(vec![1, 2, 3]),
        ..Default::default()
    }
    .is_empty());
    assert!(!ClipboardPayload {
        html: Some("<b>x</b>".to_string()),
        ..Default::default()
    }
    .is_empty());
    assert!(!ClipboardPayload {
        rtf: Some(b"{\\rtf1}".to_vec()),
        ..Default::default()
    }
    .is_empty());
}

/// A 2x1 image, red then half transparent blue, as PNG.
fn tiny_png() -> Vec<u8> {
    let pixels = vec![0xFF, 0x00, 0x00, 0xFF, 0x00, 0x00, 0xFF, 0x80];
    let mut png = Vec::new();
    image::ImageEncoder::write_image(
        image::codecs::png::PngEncoder::new(&mut png),
        &pixels,
        2,
        1,
        image::ExtendedColorType::Rgba8,
    )
    .expect("encode png");
    png
}

#[test]
fn an_empty_payload_is_refused_before_anything_is_written() {
    let plan = clipboard_plan(&ClipboardPayload::default());
    assert!(plan.writes.is_empty());
    assert_eq!(
        plan.error.as_deref(),
        Some("clip has no clipboard formats to write")
    );
}

#[test]
fn a_text_clip_with_rich_formats_writes_rich_text_before_plain_text() {
    let payload = ClipboardPayload {
        text: Some("hi".to_string()),
        html: Some("<b>hi</b>".to_string()),
        rtf: Some(b"{\\rtf1 hi}".to_vec()),
        ..Default::default()
    };
    let plan = clipboard_plan(&payload);
    assert!(plan.error.is_none());
    let slots: Vec<ClipboardSlot> = plan.writes.iter().map(|w| w.slot).collect();
    assert_eq!(
        slots,
        vec![ClipboardSlot::Html, ClipboardSlot::Rtf, ClipboardSlot::UnicodeText]
    );
    assert_eq!(plan.writes[0].bytes, build_cf_html("<b>hi</b>", None));
    assert_eq!(plan.writes[1].bytes, b"{\\rtf1 hi}".to_vec());
    assert_eq!(plan.writes[2].bytes, to_utf16_bytes("hi"));
}

#[test]
fn a_file_clip_writes_its_list_as_hdrop() {
    let files = vec![r"C:\a.txt".to_string()];
    let payload = ClipboardPayload {
        files: Some(files.clone()),
        ..Default::default()
    };
    let plan = clipboard_plan(&payload);
    assert!(plan.error.is_none());
    assert_eq!(plan.writes.len(), 1);
    assert_eq!(plan.writes[0].slot, ClipboardSlot::Hdrop);
    assert_eq!(plan.writes[0].bytes, build_hdrop(&files));
}

#[test]
fn an_image_clip_writes_both_bitmaps_and_the_png() {
    let png = tiny_png();
    let payload = ClipboardPayload {
        image_png: Some(png.clone()),
        ..Default::default()
    };
    let plan = clipboard_plan(&payload);
    assert!(plan.error.is_none());
    let slots: Vec<ClipboardSlot> = plan.writes.iter().map(|w| w.slot).collect();
    assert_eq!(
        slots,
        vec![ClipboardSlot::DibV5, ClipboardSlot::Dib, ClipboardSlot::Png]
    );
    let rgba = vec![0xFF, 0x00, 0x00, 0xFF, 0x00, 0x00, 0xFF, 0x80];
    assert_eq!(plan.writes[0].bytes, build_dibv5(&rgba, 2, 1).unwrap());
    assert_eq!(plan.writes[1].bytes, build_dib(&rgba, 2, 1).unwrap());
    assert_eq!(plan.writes[2].bytes, png);
}

#[test]
fn an_unreadable_image_stops_the_write_after_the_files() {
    let payload = ClipboardPayload {
        files: Some(vec![r"C:\a.txt".to_string()]),
        image_png: Some(vec![1, 2, 3]),
        text: Some("x".to_string()),
        ..Default::default()
    };
    let plan = clipboard_plan(&payload);
    assert_eq!(plan.writes.len(), 1);
    assert_eq!(plan.writes[0].slot, ClipboardSlot::Hdrop);
    let error = plan.error.expect("an error");
    assert!(
        error.starts_with("decoding the stored image failed: "),
        "unexpected error: {error}"
    );
}

#[test]
fn image_formats_report_a_decoding_failure() {
    let error = image_formats(&[0, 1, 2]).err().expect("not a png");
    assert!(error.starts_with("decoding the stored image failed: "));
}

#[test]
fn dib_formats_name_the_bitmap_that_failed() {
    match dib_formats(&[0u8; 8], 2, 2) {
        Err(message) => assert_eq!(
            message,
            "building CF_DIBV5 failed: WrongPixelBuffer { expected: 16, actual: 8 }"
        ),
        Ok(_) => panic!("a short buffer must be refused"),
    }
    match dib_formats(&[], 0, 1) {
        Err(message) => assert_eq!(message, "building CF_DIBV5 failed: EmptyImage"),
        Ok(_) => panic!("an empty image must be refused"),
    }
}

#[test]
fn captured_formats_keep_what_parses() {
    let hdrop = build_hdrop(&[r"C:\x.png".to_string()]);
    let html = build_cf_html("<i>y</i>", None);
    let captured = captured_formats(Some(&hdrop), Some(&html), Some(vec![7, 8]));
    assert_eq!(captured.files, vec![r"C:\x.png".to_string()]);
    assert_eq!(captured.html.as_deref(), Some("<i>y</i>"));
    assert_eq!(captured.rtf, Some(vec![7, 8]));

    let broken = vec![0u8; 4];
    let captured = captured_formats(Some(&broken), None, None);
    assert!(captured.files.is_empty());
    assert!(captured.html.is_none());
    assert!(captured.rtf.is_none());
    assert_eq!(DROPFILES_HEADER_SIZE, 20);
}

#[test]
fn ctrl_v_is_pressed_and_released_in_mirror_order() {
    assert_eq!(
        paste_keystrokes("ctrl_v"),
        vec![
            KeyStroke { virtual_key: VK_CONTROL, key_up: false, extended: false },
            KeyStroke { virtual_key: VK_V, key_up: false, extended: false },
            KeyStroke { virtual_key: VK_V, key_up: true, extended: false },
            KeyStroke { virtual_key: VK_CONTROL, key_up: true, extended: false },
        ]
    );
}

#[test]
fn any_other_method_pastes_with_shift_insert() {
    let expected = vec![
        KeyStroke { virtual_key: VK_SHIFT, key_up: false, extended: false },
        KeyStroke { virtual_key: VK_INSERT, key_up: false, extended: true },
        KeyStroke { virtual_key: VK_INSERT, key_up: true, extended: true },
        KeyStroke { virtual_key: VK_SHIFT, key_up: true, extended: false },
    ];
    assert_eq!(paste_keystrokes("shift_insert"), expected);
    assert_eq!(paste_keystrokes(""), expected);
}

#[test]
fn the_owner_name_prefers_the_file_description() {
    let info = owner_app_info(
        "chrome.exe".to_string(),
        Some(r"C:\chrome.exe".to_string()),
        Some("Google Chrome".to_string()),
        Some("icon".to_string()),
        true,
    );
    assert_eq!(info.source_app.as_deref(), Some("Google Chrome"));
    assert_eq!(info.source_icon.as_deref(), Some("icon"));
    assert_eq!(info.exe_name.as_deref(), Some("chrome.exe"));
    assert_eq!(info.full_path.as_deref(), Some(r"C:\chrome.exe"));
    assert!(info.is_explicit_owner);

    let info = owner_app_info(
        "notepad.exe".to_string(),
        Some(r"C:\notepad.exe".to_string()),
        None,
        None,
        false,
    );
    assert_eq!(info.source_app.as_deref(), Some("notepad.exe"));

    let info = owner_app_info(String::new(), None, None, Some("icon".to_string()), false);
    assert!(info.source_app.is_none());
    assert!(info.source_icon.is_none());
    assert!(info.exe_name.is_none());
}

#[test]
fn the_simplified_chinese_translation_is_preferred() {
    assert_eq!(preferred_translation(&[0x0409, 0x04B0]), (0x0409, 0x04B0));
    assert_eq!(
        preferred_translation(&[0x0409, 0x04B0, 0x0804, 0x04B0]),
        (0x0804, 0x04B0)
    );
    assert_eq!(
        preferred_translation(&[0x0804, 0x0001, 0x0409, 0x04B0, 0x0804, 0x0002]),
        (0x0804, 0x0002)
    );
}

#[test]
fn version_queries_name_the_translation_in_hex() {
    assert_eq!(
        version_info_query(0x0409, 0x04B0, "FileDescription"),
        "\\StringFileInfo\\040904b0\\FileDescription"
    );
}

#[test]
fn a_version_string_drops_its_terminator() {
    let units: Vec<u16> = "Notepad\0".encode_utf16().collect();
    assert_eq!(version_info_text(&units).as_deref(), Some("Notepad"));
    assert_eq!(version_info_text(&[0]), None);
    assert_eq!(version_info_text(&[]), None);
}

#[test]
fn red_and_blue_are_swapped_in_whole_pixels_only() {
    let mut pixels = vec![1, 2, 3, 4, 5, 6, 7, 8, 9, 10];
    swap_red_blue(&mut pixels);
    assert_eq!(pixels, vec![3, 2, 1, 4, 7, 6, 5, 8, 9, 10]);
}

#[test]
fn an_icon_becomes_base64_png() {
    let icon = icon_png_base64(vec![0x00, 0x00, 0xFF, 0xFF], 1, 1).expect("icon");
    let png = base64::engine::general_purpose::STANDARD
        .decode(icon)
        .expect("base64");
    let decoded = image::load_from_memory(&png).expect("png").to_rgba8();
    assert_eq!(decoded.into_raw(), vec![0xFF, 0x00, 0x00, 0xFF]);
    assert_eq!(BITMAPINFOHEADER_SIZE, 40);
}

#[test]
fn a_clipboard_write_is_tried_five_times() {
    let mut retry = WriteRetry::new();
    for _ in 0..4 {
        assert_eq!(retry.after_attempt(Err("busy".to_string())), WriteStep::Retry { wait_ms: 100 });
    }
    assert_eq!(
        retry.after_attempt(Err("busy".to_string())),
        WriteStep::GiveUp { wait_ms: 100, result: Err("Failed to write clip to clipboard: busy".to_string()) }
    );
    let mut lucky = WriteRetry::new();
    assert_eq!(lucky.after_attempt(Err("busy".to_string())), WriteStep::Retry { wait_ms: 100 });
    assert_eq!(lucky.after_attempt(Ok(())), WriteStep::Written);
}

#[test]
fn auto_paste_sends_keys_after_hiding() {
    assert_eq!(paste_follow_up(true), PasteFollowUp::HideThenPaste);
    assert_eq!(paste_follow_up(false), PasteFollowUp::Hide);
}
