//! The built-in folder that pinning saves a clip into.
//!
//! Folders double as pinboards: a clip inside one is exempt from retention,
//! which is what makes pinning mean "keep this".

use vstd::prelude::*;

verus! {

/// Name stored for the built-in folder. The window shows a localised label for
/// system folders, so this value only has to stay stable.
pub const PINNED_FOLDER_NAME: &'static str = "Pinned";

/// The built-in folder's id once the conditional insert has run: the id it
/// returned, or, when another caller won the race and nothing was inserted,
/// the id read back afterwards.
pub fn pinned_folder_after_insert(inserted: Option<i64>, reread: Option<i64>) -> (r: Result<
    i64,
    String,
>)
    ensures
        match inserted {
            Some(id) => r == Ok::<i64, String>(id),
            None => match reread {
                Some(id) => r == Ok::<i64, String>(id),
                None => r matches Err(e) && e@
                    == "the built-in folder disappeared while being created"@,
            },
        },
{
    match inserted {
        Some(id) => Ok(id),
        None => match reread {
            Some(id) => Ok(id),
            None => Err("the built-in folder disappeared while being created".to_owned()),
        },
    }
}

/// What toggling a pin does to a clip.
#[derive(Debug, Clone, Copy, PartialEq, Eq, Structural)]
pub struct PinToggle {
    /// The folder the clip is filed under afterwards.
    pub folder_id: Option<i64>,
    /// Whether the clip is pinned afterwards.
    pub pinned: bool,
}

/// The folder a clip in `current` moves to when its pin is toggled: out of the
/// built-in folder into plain history, or from anywhere else into the
/// built-in folder.
pub open spec fn toggled(current: Option<i64>, pinned_id: i64) -> PinToggle {
    if current == Some(pinned_id) {
        PinToggle { folder_id: None, pinned: false }
    } else {
        PinToggle { folder_id: Some(pinned_id), pinned: true }
    }
}

/// The message for a pin toggle on a clip that does not exist.
pub open spec fn unknown_clip_message(clip_uuid: Seq<char>) -> Seq<char> {
    "clip "@ + clip_uuid + " does not exist"@
}

/// The first step of a pin toggle, taken before anything is written.
#[derive(Debug, PartialEq, Eq)]
pub enum PinStep {
    /// The clip does not exist: the toggle fails with this message, and the
    /// built-in folder is not resolved, so a bad id creates nothing.
    Unknown(String),
    /// The clip exists and is filed under `folder`: resolve the built-in
    /// folder, then `toggle_pin` decides.
    Resolve { folder: Option<i64> },
}

/// Looks at the clip before the built-in folder is resolved: only a clip that
/// exists goes on to the folder.
pub fn begin_pin_toggle(clip_uuid: &str, current: Option<Option<i64>>) -> (step: PinStep)
    ensures
        match current {
            Some(folder) => step == PinStep::Resolve { folder },
            None => step matches PinStep::Unknown(e) && e@ == unknown_clip_message(clip_uuid@),
        },
{
    match current {
        Some(folder) => PinStep::Resolve { folder },
        None => {
            let mut message = "clip ".to_owned();
            message.append(clip_uuid);
            message.append(" does not exist");
            PinStep::Unknown(message)
        },
    }
}

/// Decides a pin toggle. `current` is the clip's folder if the clip exists; a
/// clip that does not exist is reported rather than pinned.
pub fn toggle_pin(clip_uuid: &str, current: Option<Option<i64>>, pinned_id: i64) -> (r: Result<
    PinToggle,
    String,
>)
    ensures
        match current {
            Some(folder) => r == Ok::<PinToggle, String>(toggled(folder, pinned_id)),
            None => r matches Err(e) && e@ == unknown_clip_message(clip_uuid@),
        },
{
    match current {
        Some(folder) => {
            let was_pinned = match folder {
                Some(id) => id == pinned_id,
                None => false,
            };
            if was_pinned {
                Ok(PinToggle { folder_id: None, pinned: false })
            } else {
                Ok(PinToggle { folder_id: Some(pinned_id), pinned: true })
            }
        },
        None => {
            let mut message = "clip ".to_owned();
            message.append(clip_uuid);
            message.append(" does not exist");
            Err(message)
        },
    }
}

/// The state a toggle reports is the state it leaves: pinned exactly when the
/// clip ends up in the built-in folder.
pub proof fn lemma_toggle_reports_its_result(current: Option<i64>, pinned_id: i64)
    ensures
        toggled(current, pinned_id).pinned == (toggled(current, pinned_id).folder_id == Some(
            pinned_id,
        )),
{
}

/// Toggling twice undoes the first toggle for a clip that was pinned or in
/// plain history; a clip from another folder ends up in plain history.
pub proof fn lemma_toggle_twice(current: Option<i64>, pinned_id: i64)
    ensures
        current is None || current == Some(pinned_id) ==> toggled(
            toggled(current, pinned_id).folder_id,
            pinned_id,
        ).folder_id == current,
        current matches Some(f) && f != pinned_id ==> toggled(
            toggled(current, pinned_id).folder_id,
            pinned_id,
        ).folder_id is None,
{
}

} // verus!
