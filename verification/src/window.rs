//! Where the clipboard window slides to and from, and how long a slide takes.
//!
//! The easing curve works in floating point and stays with the application;
//! this module holds the integer geometry and timing.

use vstd::prelude::*;
use crate::unicode::str_eq;

verus! {

/// How many frames a window slide is drawn in.
pub const SLIDE_FRAMES: i32 = 12;

/// The interval between slide frames, in milliseconds. Windows' default timer
/// granularity is about 15.6 ms, so one frame per 15 ms is honest about that
/// floor; twelve frames put the slide at about 180 ms.
pub const SLIDE_FRAME_INTERVAL_MS: u64 = 15;

/// How long a whole slide takes, in milliseconds.
pub fn slide_duration_ms() -> (ms: u64)
    ensures
        ms == SLIDE_FRAME_INTERVAL_MS * SLIDE_FRAMES,
        ms == 180,
{
    SLIDE_FRAME_INTERVAL_MS * (SLIDE_FRAMES as u64)
}

/// When frame `frame` of a slide is due, in milliseconds after it started.
pub fn frame_deadline_ms(frame: i32) -> (ms: u64)
    requires
        1 <= frame <= SLIDE_FRAMES,
    ensures
        ms == SLIDE_FRAME_INTERVAL_MS * frame,
{
    SLIDE_FRAME_INTERVAL_MS * (frame as u64)
}

/// Where a slide puts the window, in physical pixels.
#[derive(Debug, Clone, Copy, PartialEq, Eq, Structural)]
pub struct SlideGeometry {
    pub x: i32,
    pub width: i32,
    pub height: i32,
    /// Where the slide starts.
    pub start_y: i32,
    /// Where it ends.
    pub end_y: i32,
}

/// The bottom edge the window sits against: the monitor's when it floats
/// above the taskbar, otherwise the work area's.
pub open spec fn reference_bottom(
    monitor_bottom: i32,
    work_bottom: i32,
    float_above_taskbar: bool,
) -> int {
    if float_above_taskbar {
        monitor_bottom as int
    } else {
        work_bottom as int
    }
}

/// The window docked at the bottom of the work area, inset by the margins, at
/// least one pixel wide.
pub open spec fn docked(
    monitor_bottom: i32,
    work_x: i32,
    work_width: i32,
    work_bottom: i32,
    float_above_taskbar: bool,
    height: i32,
    side_margin: i32,
    bottom_margin: i32,
) -> (int, int, int) {
    let x = work_x + side_margin;
    let width = if work_width - 2 * side_margin >= 1 {
        work_width - 2 * side_margin
    } else {
        1
    };
    let y = reference_bottom(monitor_bottom, work_bottom, float_above_taskbar) - height
        - bottom_margin;
    (x, width, y)
}

pub open spec fn fits_i32(v: int) -> bool {
    i32::MIN <= v <= i32::MAX
}

/// The slide that shows the window: from just below the reference bottom up
/// to its docked place.
pub fn show_slide(
    monitor_bottom: i32,
    work_x: i32,
    work_width: i32,
    work_bottom: i32,
    float_above_taskbar: bool,
    height: i32,
    side_margin: i32,
    bottom_margin: i32,
) -> (g: SlideGeometry)
    requires
        fits_i32(work_x + side_margin),
        fits_i32(work_width - 2 * side_margin),
        fits_i32(
            reference_bottom(monitor_bottom, work_bottom, float_above_taskbar) - height
                - bottom_margin,
        ),
        fits_i32(reference_bottom(monitor_bottom, work_bottom, float_above_taskbar) - height),
        fits_i32(2 * side_margin),
    ensures
        (g.x as int, g.width as int, g.end_y as int) == docked(
            monitor_bottom,
            work_x,
            work_width,
            work_bottom,
            float_above_taskbar,
            height,
            side_margin,
            bottom_margin,
        ),
        g.height == height,
        g.start_y == reference_bottom(monitor_bottom, work_bottom, float_above_taskbar),
{
    let bottom = if float_above_taskbar {
        monitor_bottom
    } else {
        work_bottom
    };
    let inner = work_width - side_margin * 2;
    let width = if inner >= 1 {
        inner
    } else {
        1
    };
    SlideGeometry {
        x: work_x + side_margin,
        width,
        height,
        start_y: bottom,
        end_y: bottom - height - bottom_margin,
    }
}

/// The slide that hides the window: from its docked place down to the
/// reference bottom, out of view.
pub fn hide_slide(
    monitor_bottom: i32,
    work_x: i32,
    work_width: i32,
    work_bottom: i32,
    float_above_taskbar: bool,
    height: i32,
    side_margin: i32,
    bottom_margin: i32,
) -> (g: SlideGeometry)
    requires
        fits_i32(work_x + side_margin),
        fits_i32(work_width - 2 * side_margin),
        fits_i32(
            reference_bottom(monitor_bottom, work_bottom, float_above_taskbar) - height
                - bottom_margin,
        ),
        fits_i32(reference_bottom(monitor_bottom, work_bottom, float_above_taskbar) - height),
        fits_i32(2 * side_margin),
    ensures
        (g.x as int, g.width as int, g.start_y as int) == docked(
            monitor_bottom,
            work_x,
            work_width,
            work_bottom,
            float_above_taskbar,
            height,
            side_margin,
            bottom_margin,
        ),
        g.height == height,
        g.end_y == reference_bottom(monitor_bottom, work_bottom, float_above_taskbar),
{
    let shown = show_slide(
        monitor_bottom,
        work_x,
        work_width,
        work_bottom,
        float_above_taskbar,
        height,
        side_margin,
        bottom_margin,
    );
    SlideGeometry { start_y: shown.end_y, end_y: shown.start_y, ..shown }
}

/// While hiding a window that does not float above the taskbar, it drops
/// behind the taskbar once, on the first frame its bottom edge passes the
/// taskbar's top.
pub fn drops_behind_taskbar(
    float_above_taskbar: bool,
    already_dropped: bool,
    frame_y: i32,
    height: i32,
    taskbar_top: i32,
) -> (drop: bool)
    requires
        fits_i32(frame_y + height),
    ensures
        drop == (!float_above_taskbar && !already_dropped && frame_y + height > taskbar_top),
{
    !float_above_taskbar && !already_dropped && frame_y + height > taskbar_top
}

/// Whether a slide may start: not while another one is running. Starting one
/// marks the window as animating; `false` leaves the state alone.
pub fn begin_animation(animating: &mut bool) -> (started: bool)
    ensures
        started == !*old(animating),
        *final(animating),
{
    if *animating {
        return false;
    }
    *animating = true;
    true
}

/// The window's height in logical pixels for a card size: `medium` cards
/// make a shorter window than the default large ones.
pub fn base_window_height(card_size: &str) -> (height: u32)
    ensures
        height == if card_size@ == "medium"@ {
            236u32
        } else {
            266u32
        },
{
    if str_eq(card_size, "medium") {
        236
    } else {
        266
    }
}

/// Whether the window sits flush against the screen edges, without margins:
/// it does with a Mica or Acrylic backdrop and square corners.
pub fn docks_flush(mica_effect: &str, round_corners: bool) -> (flush: bool)
    ensures
        flush == (mica_effect@ != "clear"@ && !round_corners),
{
    !str_eq(mica_effect, "clear") && !round_corners
}

/// The theme a theme setting asks for.
#[derive(Debug, Clone, Copy, PartialEq, Eq, Structural)]
pub enum ThemeChoice {
    Dark,
    Light,
    /// Whatever the system uses.
    FollowSystem,
}

pub fn theme_choice(setting: &str) -> (choice: ThemeChoice)
    ensures
        choice == if setting@ == "dark"@ {
            ThemeChoice::Dark
        } else if setting@ == "light"@ {
            ThemeChoice::Light
        } else {
            ThemeChoice::FollowSystem
        },
{
    if str_eq(setting, "dark") {
        ThemeChoice::Dark
    } else if str_eq(setting, "light") {
        ThemeChoice::Light
    } else {
        ThemeChoice::FollowSystem
    }
}

/// A monitor's rectangle, in physical pixels.
#[derive(Debug, Clone, Copy, PartialEq, Eq, Structural)]
pub struct MonitorRect {
    pub x: i32,
    pub y: i32,
    pub width: u32,
    pub height: u32,
}

/// Whether the point lies inside the rectangle (left and top edges included).
pub open spec fn contains_point(m: MonitorRect, px: i32, py: i32) -> bool {
    m.x <= px < m.x + m.width && m.y <= py < m.y + m.height
}

/// The first monitor whose top-left corner is `(left, top)`.
pub open spec fn first_at_corner(ms: Seq<MonitorRect>, left: i32, top: i32, n: int) -> Option<int>
    decreases n,
{
    if n <= 0 {
        None
    } else {
        match first_at_corner(ms, left, top, n - 1) {
            Some(i) => Some(i),
            None => if ms[n - 1].x == left && ms[n - 1].y == top {
                Some(n - 1)
            } else {
                None
            },
        }
    }
}

/// The first monitor containing the point.
pub open spec fn first_containing(ms: Seq<MonitorRect>, px: i32, py: i32, n: int) -> Option<int>
    decreases n,
{
    if n <= 0 {
        None
    } else {
        match first_containing(ms, px, py, n - 1) {
            Some(i) => Some(i),
            None => if contains_point(ms[n - 1], px, py) {
                Some(n - 1)
            } else {
                None
            },
        }
    }
}

/// Which monitor the cursor is on: the one whose corner matches the monitor
/// Windows reports for the cursor, or else the first one containing the
/// cursor.
pub fn monitor_at_cursor(
    monitors: &Vec<MonitorRect>,
    cursor_x: i32,
    cursor_y: i32,
    reported_left: i32,
    reported_top: i32,
) -> (index: Option<usize>)
    ensures
        index == match first_at_corner(
            monitors@,
            reported_left,
            reported_top,
            monitors@.len() as int,
        ) {
            Some(i) => Some(i as usize),
            None => match first_containing(monitors@, cursor_x, cursor_y, monitors@.len() as int) {
                Some(i) => Some(i as usize),
                None => None,
            },
        },
{
    let n = monitors.len();
    let mut i: usize = 0;
    while i < n
        invariant
            n == monitors@.len(),
            i <= n,
            first_at_corner(monitors@, reported_left, reported_top, i as int) is None,
        decreases n - i,
    {
        let m = monitors[i];
        if m.x == reported_left && m.y == reported_top {
            proof {
                lemma_first_at_corner_prefix(monitors@, reported_left, reported_top, i as int + 1, n as int);
            }
            return Some(i);
        }
        i = i + 1;
    }
    let mut j: usize = 0;
    while j < n
        invariant
            n == monitors@.len(),
            j <= n,
            first_at_corner(monitors@, reported_left, reported_top, n as int) is None,
            first_containing(monitors@, cursor_x, cursor_y, j as int) is None,
        decreases n - j,
    {
        let m = monitors[j];
        let right = m.x as i64 + m.width as i64;
        let bottom = m.y as i64 + m.height as i64;
        if m.x <= cursor_x && (cursor_x as i64) < right && m.y <= cursor_y && (cursor_y as i64)
            < bottom {
            proof {
                lemma_first_containing_prefix(monitors@, cursor_x, cursor_y, j as int + 1, n as int);
            }
            return Some(j);
        }
        j = j + 1;
    }
    None
}

proof fn lemma_first_at_corner_prefix(ms: Seq<MonitorRect>, left: i32, top: i32, m: int, n: int)
    requires
        0 <= m <= n <= ms.len(),
        first_at_corner(ms, left, top, m) is Some,
    ensures
        first_at_corner(ms, left, top, n) == first_at_corner(ms, left, top, m),
    decreases n - m,
{
    if m < n {
        lemma_first_at_corner_prefix(ms, left, top, m, n - 1);
    }
}

proof fn lemma_first_containing_prefix(ms: Seq<MonitorRect>, px: i32, py: i32, m: int, n: int)
    requires
        0 <= m <= n <= ms.len(),
        first_containing(ms, px, py, m) is Some,
    ensures
        first_containing(ms, px, py, n) == first_containing(ms, px, py, m),
    decreases n - m,
{
    if m < n {
        lemma_first_containing_prefix(ms, px, py, m, n - 1);
    }
}

// ---------------------------------------------------------------------------
// Reacting to the window, the hotkey and the tray
// ---------------------------------------------------------------------------

/// How long after the window is shown a loss of focus is ignored, in
/// milliseconds: showing it can itself steal and return focus.
pub const BLUR_DEBOUNCE_MS: i64 = 500;

/// What the main window does when it loses focus.
#[derive(Debug, Clone, Copy, PartialEq, Eq, Structural)]
pub enum BlurAction {
    /// Nothing: the settings window is open, the window was only just shown,
    /// a slide is running, or the window is not visible.
    Stay,
    /// The user clicked on another screen: dock the window there.
    MoveToCursorScreen,
    /// Slide the window out of view.
    Hide,
}

/// The top-left corners of two monitors differ, when both are known.
pub open spec fn on_other_screen(window_monitor: Option<(i32, i32)>, cursor_monitor: Option<(i32, i32)>) -> bool {
    &&& window_monitor is Some
    &&& cursor_monitor is Some
    &&& window_monitor != cursor_monitor
}

/// Decides what losing focus does to the main window. `now_ms` and
/// `last_show_ms` are wall-clock milliseconds; the monitors are given by their
/// top-left corners.
pub fn on_main_window_blur(
    settings_open: bool,
    now_ms: i64,
    last_show_ms: i64,
    animating: bool,
    visible: bool,
    window_monitor: Option<(i32, i32)>,
    cursor_monitor: Option<(i32, i32)>,
) -> (action: BlurAction)
    ensures
        action == if settings_open || now_ms - last_show_ms < BLUR_DEBOUNCE_MS || animating
            || !visible {
            BlurAction::Stay
        } else if on_other_screen(window_monitor, cursor_monitor) {
            BlurAction::MoveToCursorScreen
        } else {
            BlurAction::Hide
        },
{
    if settings_open {
        return BlurAction::Stay;
    }
    if (now_ms as i128) - (last_show_ms as i128) < BLUR_DEBOUNCE_MS as i128 {
        return BlurAction::Stay;
    }
    if animating || !visible {
        return BlurAction::Stay;
    }
    let moved = match (window_monitor, cursor_monitor) {
        (Some(w), Some(c)) => w.0 != c.0 || w.1 != c.1,
        _ => false,
    };
    if moved {
        BlurAction::MoveToCursorScreen
    } else {
        BlurAction::Hide
    }
}

/// What the global hotkey does.
#[derive(Debug, Clone, Copy, PartialEq, Eq, Structural)]
pub enum HotkeyAction {
    /// Slide the window out of view.
    Hide,
    /// Dock the window at the bottom of the screen the cursor is on and show it.
    Show,
}

/// The hotkey hides a window that is visible and focused, and shows it in
/// every other case.
pub fn on_hotkey_press(visible: bool, focused: bool) -> (action: HotkeyAction)
    ensures
        action == if visible && focused {
            HotkeyAction::Hide
        } else {
            HotkeyAction::Show
        },
{
    if visible && focused {
        HotkeyAction::Hide
    } else {
        HotkeyAction::Show
    }
}

/// What an entry of the tray menu does.
#[derive(Debug, Clone, Copy, PartialEq, Eq, Structural)]
pub enum TrayAction {
    Quit,
    Show,
}

/// The action of the tray menu entry with id `id`; the title entry and any
/// other id do nothing.
pub fn tray_menu_action(id: &str) -> (action: Option<TrayAction>)
    ensures
        action == if id@ == "quit"@ {
            Some(TrayAction::Quit)
        } else if id@ == "show"@ {
            Some(TrayAction::Show)
        } else {
            None::<TrayAction>
        },
{
    if str_eq(id, "quit") {
        Some(TrayAction::Quit)
    } else if str_eq(id, "show") {
        Some(TrayAction::Show)
    } else {
        None
    }
}

/// The backdrop a window effect setting asks for.
#[derive(Debug, Clone, Copy, PartialEq, Eq, Structural)]
pub enum Backdrop {
    /// No backdrop material.
    Cleared,
    /// Mica, drawn dark or light.
    Mica { dark: bool },
    /// Mica Alt (the tabbed material), drawn dark or light.
    Tabbed { dark: bool },
}

/// The backdrop for an effect setting under a dark or light theme: `clear`
/// removes it, `mica` and `dark` ask for Mica, and anything else for Mica Alt.
pub fn window_backdrop(effect: &str, dark: bool) -> (backdrop: Backdrop)
    ensures
        backdrop == if effect@ == "clear"@ {
            Backdrop::Cleared
        } else if effect@ == "mica"@ || effect@ == "dark"@ {
            Backdrop::Mica { dark }
        } else {
            Backdrop::Tabbed { dark }
        },
{
    if str_eq(effect, "clear") {
        Backdrop::Cleared
    } else if str_eq(effect, "mica") || str_eq(effect, "dark") {
        Backdrop::Mica { dark }
    } else {
        Backdrop::Tabbed { dark }
    }
}

/// Whether the window gets rounded corners: always without a backdrop,
/// otherwise as the setting says.
pub fn rounds_corners(effect: &str, round_corners: bool) -> (rounded: bool)
    ensures
        rounded == (effect@ == "clear"@ || round_corners),
{
    str_eq(effect, "clear") || round_corners
}

} // verus!
