use pastepaw::retention::{plan_prune, PruneReport, RetentionRow};

const DAY: i64 = 86400;
const NOW: i64 = 1_700_000_000;

fn row(uuid: &str, id: i64, folder_id: Option<i64>, age_days: i64) -> RetentionRow {
    RetentionRow {
        uuid: uuid.to_string(),
        id,
        folder_id,
        created_at: NOW - age_days * DAY,
    }
}

#[test]
fn the_report_adds_both_limits() {
    let report = PruneReport { by_age: 1, by_count: 2 };
    assert_eq!(report.total(), 3);
    assert_eq!(PruneReport::default().total(), 0);
}

#[test]
fn history_older_than_the_window_is_planned_away() {
    let rows = vec![row("old", 1, None, 40), row("fresh", 2, None, 2)];
    let plan = plan_prune(&rows, NOW, 30, 0);
    assert_eq!(plan.expired, vec!["old".to_string()]);
    assert!(plan.excess.is_empty());
    assert_eq!(plan.report(), PruneReport { by_age: 1, by_count: 0 });
}

#[test]
fn folder_clips_never_expire_in_the_plan() {
    let rows = vec![row("pinned", 1, Some(7), 400), row("history", 2, None, 400)];
    let plan = plan_prune(&rows, NOW, 30, 0);
    assert_eq!(plan.expired, vec!["history".to_string()]);
}

#[test]
fn a_zero_window_and_no_limit_keep_everything() {
    let rows = vec![row("ancient", 1, None, 4000)];
    let plan = plan_prune(&rows, NOW, 0, 0);
    assert!(plan.expired.is_empty());
    assert!(plan.excess.is_empty());
    assert_eq!(plan.report(), PruneReport::default());
}

#[test]
fn the_item_limit_plans_away_the_oldest_beyond_it() {
    let rows: Vec<RetentionRow> =
        (0..5).map(|index| row(&format!("clip-{index}"), index + 1, None, index)).collect();
    let plan = plan_prune(&rows, NOW, 0, 3);
    assert_eq!(plan.excess, vec!["clip-3".to_string(), "clip-4".to_string()]);
}

#[test]
fn the_item_limit_ignores_folder_clips() {
    let mut rows: Vec<RetentionRow> =
        (0..3).map(|index| row(&format!("pinned-{index}"), index + 1, Some(1), 1)).collect();
    rows.push(row("history", 10, None, 1));
    let plan = plan_prune(&rows, NOW, 0, 1);
    assert!(plan.excess.is_empty());
}

#[test]
fn a_limit_at_the_history_length_plans_nothing() {
    let rows = vec![row("a", 1, None, 1), row("b", 2, None, 2)];
    let plan = plan_prune(&rows, NOW, 0, 2);
    assert!(plan.excess.is_empty());
}

#[test]
fn both_limits_apply_in_one_plan() {
    let rows = vec![
        row("expired", 1, None, 40),
        row("keep-1", 2, None, 2),
        row("keep-2", 3, None, 1),
    ];
    let plan = plan_prune(&rows, NOW, 30, 2);
    assert_eq!(plan.expired, vec!["expired".to_string()]);
    assert!(plan.excess.is_empty());
    assert_eq!(plan.report().total(), 1);
}

#[test]
fn ties_in_time_are_broken_by_id() {
    let rows = vec![row("low", 1, None, 1), row("high", 2, None, 1)];
    let plan = plan_prune(&rows, NOW, 0, 1);
    assert_eq!(plan.excess, vec!["low".to_string()]);
}

#[test]
fn no_limits_keep_everything() {
    let rows = vec![row("old", 1, None, 4000), row("new", 2, None, 0), row("kept", 3, Some(1), 9000)];
    let plan = plan_prune(&rows, NOW, 0, 0);
    assert!(plan.expired.is_empty());
    assert!(plan.excess.is_empty());
    assert_eq!(plan.report(), PruneReport::default());
    let negative = plan_prune(&rows, NOW, -5, -1);
    assert!(negative.expired.is_empty() && negative.excess.is_empty());
}
