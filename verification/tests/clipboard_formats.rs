use pastepaw::clipboard_formats::{
    build_cf_html, build_dib, build_dibv5, build_hdrop, cf_html_header_len, describe_files,
    file_name_of, find_offset, find_subslice, is_header_line, parse_cf_html, parse_hdrop,
    DibError, HdropError, BITMAPINFOHEADER_SIZE, BITMAPV5HEADER_SIZE, BI_BITFIELDS, BI_RGB,
    CF_HTML_BODY_CLOSE, CF_HTML_BODY_OPEN, CF_HTML_END_MARKER, CF_HTML_START_MARKER,
    DROPFILES_HEADER_SIZE, FORMAT_FILE, FORMAT_HTML, FORMAT_RTF, FORMAT_TEXT, LCS_SRGB,
};

fn paths() -> Vec<String> {
    vec![
        r"C:\Users\Mechrevo\报告.txt".to_string(),
        r"D:\a b\c.png".to_string(),
    ]
}

// -- DROPFILES ---------------------------------------------------------

#[test]
fn hdrop_round_trips_unicode_paths() {
    let original = paths();
    let parsed = parse_hdrop(&build_hdrop(&original)).expect("parse");
    assert_eq!(parsed, original);
}

#[test]
fn hdrop_writes_wide_flag_and_header_size() {
    let data = build_hdrop(&[r"C:\x".to_string()]);
    assert_eq!(
        u32::from_le_bytes(data[0..4].try_into().unwrap()) as usize,
        DROPFILES_HEADER_SIZE
    );
    assert_ne!(i32::from_le_bytes(data[16..20].try_into().unwrap()), 0);
}

#[test]
fn hdrop_empty_list_is_just_the_header_plus_terminator() {
    let data = build_hdrop(&[]);
    assert_eq!(data.len(), DROPFILES_HEADER_SIZE + 2);
    assert_eq!(parse_hdrop(&data).unwrap(), Vec::<String>::new());
}

#[test]
fn hdrop_rejects_short_payload() {
    assert_eq!(parse_hdrop(&[0u8; 4]), Err(HdropError::TooShort));
}

#[test]
fn hdrop_rejects_offset_past_end() {
    let mut data = build_hdrop(&[r"C:\x".to_string()]);
    data[0..4].copy_from_slice(&9999u32.to_le_bytes());
    assert_eq!(parse_hdrop(&data), Err(HdropError::BadOffset(9999)));
}

#[test]
fn hdrop_rejects_offset_inside_the_header() {
    let mut data = build_hdrop(&[r"C:\x".to_string()]);
    data[0..4].copy_from_slice(&8u32.to_le_bytes());
    assert_eq!(parse_hdrop(&data), Err(HdropError::BadOffset(8)));
}

/// Real payloads do not always use pFiles == 20, so the offset must be obeyed.
#[test]
fn hdrop_honours_a_non_standard_pfiles_offset() {
    let mut data = vec![0u8; DROPFILES_HEADER_SIZE + 4]; // 4 bytes of padding
    data[0..4].copy_from_slice(&((DROPFILES_HEADER_SIZE + 4) as u32).to_le_bytes());
    data[16..20].copy_from_slice(&1i32.to_le_bytes());
    for unit in r"C:\x".encode_utf16() {
        data.extend_from_slice(&unit.to_le_bytes());
    }
    data.extend_from_slice(&0u16.to_le_bytes());
    data.extend_from_slice(&0u16.to_le_bytes());

    assert_eq!(parse_hdrop(&data).unwrap(), vec![r"C:\x".to_string()]);
}

#[test]
fn hdrop_decodes_ansi_when_f_wide_is_false() {
    let mut data = vec![0u8; DROPFILES_HEADER_SIZE];
    data[0..4].copy_from_slice(&(DROPFILES_HEADER_SIZE as u32).to_le_bytes());
    data.extend_from_slice(b"C:\\a.txt\0D:\\b.txt\0\0");

    assert_eq!(
        parse_hdrop(&data).unwrap(),
        vec!["C:\\a.txt".to_string(), "D:\\b.txt".to_string()]
    );
}

// -- CF_HTML -----------------------------------------------------------

#[test]
fn cf_html_offsets_point_at_the_real_substrings() {
    let fragment = "<b>Hello 世界</b>";
    let data = build_cf_html(fragment, None);

    let header_len = cf_html_header_len(&data).expect("header");
    let start_fragment = find_offset(&data[..header_len], b"StartFragment:").unwrap();
    let end_fragment = find_offset(&data[..header_len], b"EndFragment:").unwrap();
    let start_html = find_offset(&data[..header_len], b"StartHTML:").unwrap();
    let end_html = find_offset(&data[..header_len], b"EndHTML:").unwrap();

    assert_eq!(start_html, header_len);
    assert_eq!(&data[start_fragment..end_fragment], fragment.as_bytes());
    assert_eq!(end_html, data.len());
    assert_eq!(
        std::str::from_utf8(&data[start_html..]).unwrap().len() + start_html,
        data.len()
    );
}

#[test]
fn cf_html_round_trips() {
    let fragment = "<p>line one</p>\r\n<p>line two</p>";
    let data = build_cf_html(fragment, None);
    assert_eq!(parse_cf_html(&data).as_deref(), Some(fragment));
}

/// A multi-byte fragment must shift the offsets by bytes, not characters.
#[test]
fn cf_html_counts_bytes_not_characters() {
    let data = build_cf_html("中文中文中文", None);
    let header_len = cf_html_header_len(&data).unwrap();
    let start = find_offset(&data[..header_len], b"StartFragment:").unwrap();
    let end = find_offset(&data[..header_len], b"EndFragment:").unwrap();
    assert_eq!(end - start, "中文中文中文".len());
    assert_eq!(end - start, 18);
}

#[test]
fn cf_html_header_length_is_stable_with_source_url() {
    let with_url = build_cf_html("<i>x</i>", Some("https://example.com/a"));
    let header_len = cf_html_header_len(&with_url).unwrap();
    let header = std::str::from_utf8(&with_url[..header_len]).unwrap();
    assert!(header.contains("SourceURL:https://example.com/a"));
    assert_eq!(parse_cf_html(&with_url).as_deref(), Some("<i>x</i>"));
}

/// Chrome, Word and Outlook emit a UTF-8 BOM and count its three bytes in
/// every offset, so the payload must be parsed without stripping it first.
#[test]
fn cf_html_counts_a_leading_bom_in_its_offsets() {
    let fragment = "<b>bom</b>";
    let probe = format!(
        "Version:0.9\r\nStartHTML:{:010}\r\nEndHTML:{:010}\r\nStartFragment:{:010}\r\nEndFragment:{:010}\r\n",
        0, 0, 0, 0
    );

    let start_html = 3 + probe.len(); // BOM + header
    let start_fragment = start_html + CF_HTML_BODY_OPEN.len() + CF_HTML_START_MARKER.len();
    let end_fragment = start_fragment + fragment.len();
    let end_html = end_fragment + CF_HTML_END_MARKER.len() + CF_HTML_BODY_CLOSE.len();
    let header = format!(
        "Version:0.9\r\nStartHTML:{:010}\r\nEndHTML:{:010}\r\nStartFragment:{:010}\r\nEndFragment:{:010}\r\n",
        start_html, end_html, start_fragment, end_fragment
    );
    assert_eq!(header.len(), probe.len(), "header width must be stable");

    let mut data = vec![0xEF, 0xBB, 0xBF];
    data.extend_from_slice(header.as_bytes());
    data.extend_from_slice(CF_HTML_BODY_OPEN.as_bytes());
    data.extend_from_slice(CF_HTML_START_MARKER.as_bytes());
    data.extend_from_slice(fragment.as_bytes());
    data.extend_from_slice(CF_HTML_END_MARKER.as_bytes());
    data.extend_from_slice(CF_HTML_BODY_CLOSE.as_bytes());

    assert_eq!(cf_html_header_len(&data), Some(start_html));
    assert_eq!(parse_cf_html(&data).as_deref(), Some(fragment));
}

/// Some producers write only `StartHTML`/`EndHTML`. The whole document is
/// then used, with the fragment markers stripped off.
#[test]
fn cf_html_falls_back_to_the_whole_document() {
    let html = "<!--StartFragment--><p>only</p><!--EndFragment-->";
    let start_html = format!(
        "Version:0.9\r\nStartHTML:{:010}\r\nEndHTML:{:010}\r\n",
        0, 0
    )
    .len();
    let header = format!(
        "Version:0.9\r\nStartHTML:{:010}\r\nEndHTML:{:010}\r\n",
        start_html,
        start_html + html.len()
    );
    assert_eq!(header.len(), start_html);

    let mut data = header.into_bytes();
    data.extend_from_slice(html.as_bytes());

    assert_eq!(parse_cf_html(&data).as_deref(), Some("<p>only</p>"));
}

/// The document body is not required to contain a CRLF. `build_cf_html`
/// always emits one, so the payload is assembled by hand here.
#[test]
fn cf_html_parses_a_single_line_document() {
    let fragment = "<span>one-liner</span>";
    let body = format!(
        "<html><body>{CF_HTML_START_MARKER}{fragment}{CF_HTML_END_MARKER}</body></html>"
    );
    assert!(
        !body.contains("\r\n"),
        "payload must have no CRLF in the body"
    );

    let probe = format!(
        "Version:0.9\r\nStartHTML:{:010}\r\nEndHTML:{:010}\r\nStartFragment:{:010}\r\nEndFragment:{:010}\r\n",
        0, 0, 0, 0
    );
    let start_html = probe.len();
    let start_fragment = start_html + "<html><body>".len() + CF_HTML_START_MARKER.len();
    let end_fragment = start_fragment + fragment.len();
    let end_html = start_html + body.len();
    let header = format!(
        "Version:0.9\r\nStartHTML:{:010}\r\nEndHTML:{:010}\r\nStartFragment:{:010}\r\nEndFragment:{:010}\r\n",
        start_html, end_html, start_fragment, end_fragment
    );

    let mut data = header.into_bytes();
    data.extend_from_slice(body.as_bytes());

    assert_eq!(parse_cf_html(&data).as_deref(), Some(fragment));
}

#[test]
fn cf_html_rejects_a_payload_without_a_header() {
    assert_eq!(parse_cf_html(b"<html><body>no header</body></html>"), None);
}

#[test]
fn header_line_detection_stops_at_the_document() {
    assert!(is_header_line(b"Version:0.9"));
    assert!(is_header_line(b"SourceURL:https://a/b?c=d"));
    assert!(!is_header_line(b"<html><body>"));
    assert!(!is_header_line(b":novalue"));
    assert!(!is_header_line(b"<!--StartFragment-->"));
}

// -- helpers -----------------------------------------------------------

#[test]
fn find_subslice_locates_and_reports_missing() {
    assert_eq!(find_subslice(b"abcdef", b"cd"), Some(2));
    assert_eq!(find_subslice(b"abcdef", b"zz"), None);
    assert_eq!(find_subslice(b"abc", b""), None);
}

#[test]
fn file_name_of_handles_separators_and_trailing_slashes() {
    assert_eq!(file_name_of(r"C:\Users\a\report.txt"), "report.txt");
    assert_eq!(file_name_of("C:/Users/a/report.txt"), "report.txt");
    assert_eq!(file_name_of(r"C:\Users\a\"), "a");
    assert_eq!(file_name_of("report.txt"), "report.txt");
    assert_eq!(file_name_of(""), "");
}

#[test]
fn describe_files_is_short_for_long_lists() {
    let one = vec![r"C:\a\report.txt".to_string()];
    assert_eq!(describe_files(&one), "report.txt");

    let three = vec![
        r"C:\a\report.txt".to_string(),
        r"C:\a\b.png".to_string(),
        r"C:\a\c.doc".to_string(),
    ];
    assert_eq!(describe_files(&three), "report.txt +2");

    assert_eq!(describe_files(&[]), "");
}

#[test]
fn format_names_are_stable() {
    // These strings are persisted in the `clip_formats.format` column and
    // read back by the frontend, so renaming one is a breaking change.
    assert_eq!(
        [FORMAT_TEXT, FORMAT_HTML, FORMAT_RTF, FORMAT_FILE],
        ["text", "html", "rtf", "file"]
    );
}

// -- CF_DIB / CF_DIBV5 -------------------------------------------------

/// 2x2: top row red then green, bottom row blue then white.
fn two_by_two() -> Vec<u8> {
    vec![
        0xFF, 0x00, 0x00, 0xFF, // red
        0x00, 0xFF, 0x00, 0xFF, // green
        0x00, 0x00, 0xFF, 0xFF, // blue
        0xFF, 0xFF, 0xFF, 0xFF, // white
    ]
}

#[test]
fn dib_rows_are_flipped_and_channels_swapped() {
    let dib = build_dib(&two_by_two(), 2, 2).unwrap();
    let pixels = &dib[BITMAPINFOHEADER_SIZE..];

    // The bottom row comes first and every pixel is stored BGRA.
    assert_eq!(&pixels[0..4], &[0xFF, 0x00, 0x00, 0xFF]); // blue
    assert_eq!(&pixels[4..8], &[0xFF, 0xFF, 0xFF, 0xFF]); // white
    assert_eq!(&pixels[8..12], &[0x00, 0x00, 0xFF, 0xFF]); // red
    assert_eq!(&pixels[12..16], &[0x00, 0xFF, 0x00, 0xFF]); // green
}

#[test]
fn dib_header_declares_a_bottom_up_32bpp_image() {
    let dib = build_dib(&two_by_two(), 2, 2).unwrap();

    assert_eq!(u32::from_le_bytes(dib[0..4].try_into().unwrap()), 40);
    assert_eq!(i32::from_le_bytes(dib[4..8].try_into().unwrap()), 2); // width
    assert_eq!(i32::from_le_bytes(dib[8..12].try_into().unwrap()), 2); // +height
    assert_eq!(u16::from_le_bytes(dib[12..14].try_into().unwrap()), 1); // planes
    assert_eq!(u16::from_le_bytes(dib[14..16].try_into().unwrap()), 32); // bpp
    assert_eq!(u32::from_le_bytes(dib[16..20].try_into().unwrap()), BI_RGB);
    assert_eq!(u32::from_le_bytes(dib[20..24].try_into().unwrap()), 16); // image size
}

#[test]
fn dibv5_header_is_124_bytes_and_declares_an_alpha_mask() {
    let dib = build_dibv5(&two_by_two(), 2, 2).unwrap();

    assert_eq!(u32::from_le_bytes(dib[0..4].try_into().unwrap()), 124);
    assert_eq!(
        u32::from_le_bytes(dib[16..20].try_into().unwrap()),
        BI_BITFIELDS
    );
    assert_eq!(
        u32::from_le_bytes(dib[40..44].try_into().unwrap()),
        0x00FF_0000
    );
    assert_eq!(
        u32::from_le_bytes(dib[44..48].try_into().unwrap()),
        0x0000_FF00
    );
    assert_eq!(
        u32::from_le_bytes(dib[48..52].try_into().unwrap()),
        0x0000_00FF
    );
    assert_eq!(
        u32::from_le_bytes(dib[52..56].try_into().unwrap()),
        0xFF00_0000
    );
    assert_eq!(
        u32::from_le_bytes(dib[56..60].try_into().unwrap()),
        LCS_SRGB
    );
    assert_eq!(dib.len(), BITMAPV5HEADER_SIZE + 16);
}

#[test]
fn dib_and_dibv5_carry_identical_pixels() {
    let rgba = two_by_two();
    let dib = build_dib(&rgba, 2, 2).unwrap();
    let dibv5 = build_dibv5(&rgba, 2, 2).unwrap();

    assert_eq!(
        &dib[BITMAPINFOHEADER_SIZE..],
        &dibv5[BITMAPV5HEADER_SIZE..],
        "the two DIB variants must not disagree about the pixels"
    );
}

#[test]
fn dib_keeps_the_alpha_channel() {
    let rgba = vec![0x10, 0x20, 0x30, 0x40];
    let dib = build_dib(&rgba, 1, 1).unwrap();
    assert_eq!(&dib[BITMAPINFOHEADER_SIZE..], &[0x30, 0x20, 0x10, 0x40]);
}

#[test]
fn dib_rejects_a_pixel_buffer_of_the_wrong_length() {
    assert_eq!(
        build_dib(&[0u8; 8], 2, 2),
        Err(DibError::WrongPixelBuffer {
            expected: 16,
            actual: 8
        })
    );
}

#[test]
fn dib_rejects_a_zero_sized_image() {
    assert_eq!(build_dib(&[], 0, 0), Err(DibError::EmptyImage));
    assert_eq!(build_dib(&[], 4, 0), Err(DibError::EmptyImage));
    assert_eq!(build_dibv5(&[], 0, 4), Err(DibError::EmptyImage));
}

#[test]
fn a_document_said_to_start_past_the_end_gives_nothing() {
    assert_eq!(parse_cf_html(b"StartHTML:99\r\n<x>"), None);
    assert_eq!(parse_cf_html(b"StartHTML:14\r\n<x>"), Some("<x>".to_string()));
}

#[test]
fn a_built_payload_is_173_bytes_plus_fragment_and_source_line() {
    assert_eq!(build_cf_html("<b>x</b>", None).len(), 173 + 8);
    assert_eq!(build_cf_html("<b>x</b>", Some("https://a")).len(), 173 + 8 + 12 + 9);
}
