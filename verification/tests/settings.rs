use pastepaw::models::AppSettings;
use pastepaw::window::{
    base_window_height, begin_animation, docks_flush, drops_behind_taskbar, frame_deadline_ms,
    hide_slide, monitor_at_cursor, on_hotkey_press, on_main_window_blur, show_slide,
    slide_duration_ms, theme_choice, tray_menu_action, BlurAction, HotkeyAction, MonitorRect,
    ThemeChoice, TrayAction, SLIDE_FRAMES, window_backdrop, rounds_corners, Backdrop, SLIDE_FRAME_INTERVAL_MS,
};

/// The defaults have to leave the interface looking exactly as it did before the
/// font settings existed.
#[test]
fn the_default_typography_is_the_existing_look() {
    let settings = AppSettings::default();

    assert_eq!(settings.ui_font_family, "");
    assert_eq!(settings.content_font_family, "");
    assert_eq!(settings.ui_font_weight, "400");
    assert_eq!(settings.font_scale, "default");
}

#[test]
fn the_other_defaults_are_a_fresh_install() {
    let settings = AppSettings::default();
    assert_eq!(settings.theme, "system");
    assert_eq!(settings.mica_effect, "clear");
    assert_eq!(settings.language, "en");
    assert_eq!(settings.max_items, 1000);
    assert_eq!(settings.auto_delete_days, 30);
    assert_eq!(settings.hotkey, "Ctrl+Shift+V");
    assert!(!settings.auto_paste);
    assert_eq!(settings.paste_method, "shift_insert");
    assert!(settings.float_above_taskbar);
    assert_eq!(settings.card_size, "large");
    assert!(settings.ignored_apps.is_empty());
}

#[test]
fn a_slide_lasts_about_180_ms() {
    let total = std::time::Duration::from_millis(SLIDE_FRAME_INTERVAL_MS) * SLIDE_FRAMES as u32;
    assert_eq!(total.as_millis(), 180);
    assert_eq!(slide_duration_ms(), 180);
    assert_eq!(frame_deadline_ms(1), 15);
    assert_eq!(frame_deadline_ms(SLIDE_FRAMES), 180);
}

#[test]
fn the_window_slides_between_the_bottom_edge_and_its_dock() {
    let shown = show_slide(1080, 0, 1920, 1040, false, 266, 10, 10);
    assert_eq!(shown.x, 10);
    assert_eq!(shown.width, 1900);
    assert_eq!(shown.height, 266);
    assert_eq!(shown.start_y, 1040);
    assert_eq!(shown.end_y, 1040 - 266 - 10);

    let floating = show_slide(1080, 0, 1920, 1040, true, 266, 0, 0);
    assert_eq!(floating.start_y, 1080);
    assert_eq!(floating.end_y, 1080 - 266);

    let hidden = hide_slide(1080, 0, 1920, 1040, false, 266, 10, 10);
    assert_eq!(hidden.start_y, shown.end_y);
    assert_eq!(hidden.end_y, shown.start_y);

    let narrow = show_slide(100, 0, 10, 100, false, 50, 10, 0);
    assert_eq!(narrow.width, 1);
}

#[test]
fn the_window_drops_behind_the_taskbar_once() {
    assert!(drops_behind_taskbar(false, false, 900, 266, 1040));
    assert!(!drops_behind_taskbar(false, true, 900, 266, 1040));
    assert!(!drops_behind_taskbar(true, false, 900, 266, 1040));
    assert!(!drops_behind_taskbar(false, false, 700, 266, 1040));
}

#[test]
fn only_one_slide_runs_at_a_time() {
    let mut animating = false;
    assert!(begin_animation(&mut animating));
    assert!(animating);
    assert!(!begin_animation(&mut animating));
}

#[test]
fn medium_cards_make_a_shorter_window() {
    assert_eq!(base_window_height("medium"), 236);
    assert_eq!(base_window_height("large"), 266);
    assert_eq!(base_window_height(""), 266);
}

#[test]
fn a_backdrop_with_square_corners_docks_flush() {
    assert!(docks_flush("mica", false));
    assert!(!docks_flush("mica", true));
    assert!(!docks_flush("clear", false));
}

#[test]
fn the_theme_setting_picks_a_theme_or_follows_the_system() {
    assert_eq!(theme_choice("dark"), ThemeChoice::Dark);
    assert_eq!(theme_choice("light"), ThemeChoice::Light);
    assert_eq!(theme_choice("system"), ThemeChoice::FollowSystem);
}

#[test]
fn the_cursor_monitor_prefers_the_reported_corner() {
    let monitors = vec![
        MonitorRect { x: 0, y: 0, width: 1920, height: 1080 },
        MonitorRect { x: 1920, y: 0, width: 1280, height: 1024 },
    ];
    assert_eq!(monitor_at_cursor(&monitors, 10, 10, 1920, 0), Some(1));
    assert_eq!(monitor_at_cursor(&monitors, 2000, 10, -5, -5), Some(1));
    assert_eq!(monitor_at_cursor(&monitors, 1919, 1079, -5, -5), Some(0));
    assert_eq!(monitor_at_cursor(&monitors, 5000, 10, -5, -5), None);
}

#[test]
fn losing_focus_hides_the_window_unless_something_holds_it() {
    let here = Some((0, 0));
    assert_eq!(on_main_window_blur(false, 10_000, 1_000, false, true, here, here), BlurAction::Hide);
    // The settings window keeps the main window up.
    assert_eq!(on_main_window_blur(true, 10_000, 1_000, false, true, here, here), BlurAction::Stay);
    // Within half a second of being shown, a blur is ignored; at exactly 500 ms it is not.
    assert_eq!(on_main_window_blur(false, 1_499, 1_000, false, true, here, here), BlurAction::Stay);
    assert_eq!(on_main_window_blur(false, 1_500, 1_000, false, true, here, here), BlurAction::Hide);
    // A running slide and a hidden window are left alone.
    assert_eq!(on_main_window_blur(false, 10_000, 1_000, true, true, here, here), BlurAction::Stay);
    assert_eq!(on_main_window_blur(false, 10_000, 1_000, false, false, here, here), BlurAction::Stay);
}

#[test]
fn a_click_on_another_screen_moves_the_window_there() {
    assert_eq!(
        on_main_window_blur(false, 10_000, 0, false, true, Some((0, 0)), Some((1920, 0))),
        BlurAction::MoveToCursorScreen
    );
    // Without both monitors known, the window hides.
    assert_eq!(on_main_window_blur(false, 10_000, 0, false, true, None, Some((1920, 0))), BlurAction::Hide);
    // Extreme clocks do not overflow.
    assert_eq!(
        on_main_window_blur(false, i64::MIN, i64::MAX, false, true, None, None),
        BlurAction::Stay
    );
}

#[test]
fn the_hotkey_toggles_the_window() {
    assert_eq!(on_hotkey_press(true, true), HotkeyAction::Hide);
    assert_eq!(on_hotkey_press(true, false), HotkeyAction::Show);
    assert_eq!(on_hotkey_press(false, false), HotkeyAction::Show);
}

#[test]
fn the_tray_menu_quits_or_shows() {
    assert_eq!(tray_menu_action("quit"), Some(TrayAction::Quit));
    assert_eq!(tray_menu_action("show"), Some(TrayAction::Show));
    assert_eq!(tray_menu_action("title"), None);
}

#[test]
fn each_effect_setting_picks_its_backdrop() {
    assert_eq!(window_backdrop("clear", true), Backdrop::Cleared);
    assert_eq!(window_backdrop("mica", true), Backdrop::Mica { dark: true });
    assert_eq!(window_backdrop("dark", false), Backdrop::Mica { dark: false });
    assert_eq!(window_backdrop("mica_alt", false), Backdrop::Tabbed { dark: false });
    assert_eq!(window_backdrop("auto", true), Backdrop::Tabbed { dark: true });
    // A window without a backdrop is always rounded; the others follow the setting.
    assert!(rounds_corners("clear", false));
    assert!(!rounds_corners("mica", false));
    assert!(rounds_corners("mica_alt", true));
}
