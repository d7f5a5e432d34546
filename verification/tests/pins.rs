use pastepaw::pins::{
    begin_pin_toggle, pinned_folder_after_insert, toggle_pin, PinStep, PinToggle, PINNED_FOLDER_NAME,
};

#[test]
fn toggling_moves_a_clip_in_and_back_out() {
    let pinned = 5;
    let first = toggle_pin("c", Some(None), pinned).expect("toggle");
    assert_eq!(first, PinToggle { folder_id: Some(pinned), pinned: true });
    let second = toggle_pin("c", Some(first.folder_id), pinned).expect("toggle");
    assert_eq!(second, PinToggle { folder_id: None, pinned: false });
}

#[test]
fn a_clip_in_another_folder_moves_into_the_builtin_one() {
    let toggled = toggle_pin("c", Some(Some(9)), 5).expect("toggle");
    assert_eq!(toggled, PinToggle { folder_id: Some(5), pinned: true });
}

#[test]
fn toggling_an_unknown_clip_is_reported() {
    assert_eq!(
        toggle_pin("nope", None, 5),
        Err("clip nope does not exist".to_string())
    );
}

#[test]
fn the_builtin_folder_id_survives_a_lost_race() {
    assert_eq!(pinned_folder_after_insert(Some(3), None), Ok(3));
    assert_eq!(pinned_folder_after_insert(None, Some(4)), Ok(4));
    assert_eq!(
        pinned_folder_after_insert(None, None),
        Err("the built-in folder disappeared while being created".to_string())
    );
    assert_eq!(PINNED_FOLDER_NAME, "Pinned");
}

#[test]
fn an_unknown_clip_stops_before_the_builtin_folder_is_resolved() {
    assert_eq!(
        begin_pin_toggle("nope", None),
        PinStep::Unknown("clip nope does not exist".to_string())
    );
    assert_eq!(begin_pin_toggle("c", Some(Some(9))), PinStep::Resolve { folder: Some(9) });
    assert_eq!(begin_pin_toggle("c", Some(None)), PinStep::Resolve { folder: None });
}
