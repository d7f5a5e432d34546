use pastepaw::clipboard_formats::{build_cf_html, build_hdrop, parse_cf_html, parse_hdrop};

#[test]
fn cf_html_round_trips_with_a_source_url() {
    for fragment in ["x", "<p>a</p>\r\n<p>b</p>", "日本語 🙂"] {
        for url in [None, Some("https://example.com/"), Some("a\r\nStartFragment:9\r\n")] {
            let data = build_cf_html(fragment, url);
            assert_eq!(parse_cf_html(&data).as_deref(), Some(fragment), "{fragment:?} {url:?}");
        }
    }
}

#[test]
fn an_empty_fragment_falls_back_to_the_whole_document() {
    let data = build_cf_html("", None);
    assert_eq!(
        parse_cf_html(&data).as_deref(),
        Some("<html><body>\r\n<!--StartFragment--><!--EndFragment-->\r\n</body></html>")
    );
}

#[test]
fn hdrop_round_trips_paths_without_nul() {
    let paths = vec!["a".to_string(), "路径\\b c".to_string(), "🙂".to_string()];
    assert_eq!(parse_hdrop(&build_hdrop(&paths)).unwrap(), paths);
}
