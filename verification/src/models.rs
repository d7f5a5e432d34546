//! The settings the window edits and the records it shows.

use vstd::prelude::*;

verus! {

/// What the user has chosen in the settings window.
#[derive(Debug, Clone)]
pub struct AppSettings {
    pub theme: String,
    pub mica_effect: String,
    pub language: String,
    pub max_items: i64,
    pub auto_delete_days: i64,
    pub hotkey: String,
    pub auto_paste: bool,
    pub paste_method: String,
    pub ignore_ghost_clips: bool,
    pub startup_with_windows: bool,
    pub round_corners: bool,
    pub float_above_taskbar: bool,
    pub card_size: String,
    /// Typography. An empty family means "keep what the stylesheet already
    /// uses", so the default look is exactly the one without these settings.
    /// Interface and content are separate because clip text is monospaced.
    pub ui_font_family: String,
    pub ui_font_weight: String,
    pub content_font_family: String,
    pub content_font_weight: String,
    /// One of `small`, `default`, `large`. Applied to the whole interface.
    pub font_scale: String,
    /// Applications whose clipboard changes are not recorded, compared without
    /// regard to case. A set: no name occurs twice.
    pub ignored_apps: Vec<String>,
}

impl AppSettings {
    /// The ignore list holds no name twice.
    pub open spec fn wf(&self) -> bool {
        forall|i: int, j: int|
            0 <= i < j < self.ignored_apps@.len() ==> self.ignored_apps@[i]@
                != self.ignored_apps@[j]@
    }
}

impl Default for AppSettings {
    fn default() -> (s: Self)
        ensures
            s.wf(),
            s.theme@ == "system"@,
            s.mica_effect@ == "clear"@,
            s.language@ == "en"@,
            s.max_items == 1000,
            s.auto_delete_days == 30,
            s.hotkey@ == "Ctrl+Shift+V"@,
            !s.auto_paste,
            s.paste_method@ == "shift_insert"@,
            !s.ignore_ghost_clips,
            !s.startup_with_windows,
            !s.round_corners,
            s.float_above_taskbar,
            s.card_size@ == "large"@,
            s.ui_font_family@ == ""@,
            s.ui_font_weight@ == "400"@,
            s.content_font_family@ == ""@,
            s.content_font_weight@ == "400"@,
            s.font_scale@ == "default"@,
            s.ignored_apps@.len() == 0,
    {
        AppSettings {
            theme: "system".to_owned(),
            mica_effect: "clear".to_owned(),
            language: "en".to_owned(),
            max_items: 1000,
            auto_delete_days: 30,
            hotkey: "Ctrl+Shift+V".to_owned(),
            auto_paste: false,
            paste_method: "shift_insert".to_owned(),
            ignore_ghost_clips: false,
            startup_with_windows: false,
            round_corners: false,
            float_above_taskbar: true,
            card_size: "large".to_owned(),
            ui_font_family: "".to_owned(),
            ui_font_weight: "400".to_owned(),
            content_font_family: "".to_owned(),
            content_font_weight: "400".to_owned(),
            font_scale: "default".to_owned(),
            ignored_apps: Vec::new(),
        }
    }
}

/// A stored clip, as the database holds it. Times are RFC 3339 text.
#[derive(Debug, Clone)]
pub struct Clip {
    pub id: i64,
    pub uuid: String,
    pub clip_type: String,
    pub content: Vec<u8>,
    pub text_preview: String,
    pub content_hash: String,
    pub folder_id: Option<i64>,
    pub is_deleted: bool,
    pub is_thumbnail: bool,
    pub source_app: Option<String>,
    pub source_icon: Option<String>,
    pub metadata: Option<String>,
    /// A name the user gave this clip. `None` means fall back to the source
    /// application.
    pub title: Option<String>,
    pub created_at: String,
    pub last_accessed: String,
}

/// A stored folder. Its creation time is RFC 3339 text.
#[derive(Debug, Clone)]
pub struct Folder {
    pub id: i64,
    pub name: String,
    pub icon: Option<String>,
    pub color: Option<String>,
    pub is_system: bool,
    pub created_at: String,
}

/// A clip as the window lists it.
#[derive(Debug, Clone)]
pub struct ClipboardItem {
    pub id: String,
    pub clip_type: String,
    pub content: String,
    pub preview: String,
    pub folder_id: Option<String>,
    pub created_at: String,
    pub source_app: Option<String>,
    pub source_icon: Option<String>,
    pub metadata: Option<String>,
    pub title: Option<String>,
}

/// A folder as the sidebar lists it.
#[derive(Debug, Clone)]
pub struct FolderItem {
    pub id: String,
    pub name: String,
    pub icon: Option<String>,
    pub color: Option<String>,
    pub is_system: bool,
    pub item_count: i64,
}

} // verus!
