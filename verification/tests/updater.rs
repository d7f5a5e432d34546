use pastepaw::updater::{CheckOutcome, UpdateState};

#[test]
fn a_found_update_is_cached_and_returned() {
    let mut state = UpdateState::new();
    assert!(state.begin_check().is_none());
    let found = state
        .finish_check(CheckOutcome::Found { version: "2.0.0".to_string(), body: None })
        .expect("ok")
        .expect("update");
    assert_eq!(found.version, "2.0.0");
    assert_eq!(found.body, "");
    assert!(!state.checking);
    assert_eq!(state.cached_update().expect("cached").version, "2.0.0");
}

#[test]
fn a_second_request_during_a_check_gets_the_cache() {
    let mut state = UpdateState::new();
    assert!(state.begin_check().is_none());
    let cached = state.begin_check().expect("already checking");
    assert!(cached.is_none());
}

#[test]
fn a_failed_check_keeps_the_cache_and_up_to_date_clears_it() {
    let mut state = UpdateState::new();
    state.begin_check();
    state
        .finish_check(CheckOutcome::Found { version: "1.1".to_string(), body: Some("notes".to_string()) })
        .expect("ok");
    state.begin_check();
    let error = state.finish_check(CheckOutcome::Failed("offline".to_string()));
    assert_eq!(error.err(), Some("offline".to_string()));
    assert_eq!(state.cached_update().expect("kept").body, "notes");
    state.begin_check();
    assert!(state.finish_check(CheckOutcome::UpToDate).expect("ok").is_none());
    assert!(state.cached_update().is_none());
}
