use sortery::config::{date_type_from_flags, DateType, SortConfig};
use sortery::engine::{finish, plan_run, FailureCause, SourceEntry};
use sortery::progress::ProgressTracker;
use sortery::timestamp::Timestamp;

fn entry(name: &str, modified: Option<Timestamp>) -> SourceEntry {
    SourceEntry {
        name: name.to_string(),
        created: modified,
        accessed: modified,
        modified,
        size: 100,
    }
}

fn config(exclude: &str, only: &str, preserve_name: bool, date_format: &str) -> SortConfig {
    SortConfig::new(
        "source".to_string(),
        "target".to_string(),
        date_format.to_string(),
        DateType::Modified,
        preserve_name,
        exclude,
        only,
    )
}

fn jan_first() -> Option<Timestamp> {
    Some(Timestamp::new(2024, 1, 1, 12, 0, 0))
}

#[test]
fn scenario_exclude_txt() {
    let cfg = config("txt", "", false, "%Y-%m-%d");
    let entries = vec![
        entry("a.jpg", jan_first()),
        entry("b.png", jan_first()),
        entry("c.txt", jan_first()),
    ];
    let existing: Vec<String> = Vec::new();
    let plan = plan_run(&cfg, &entries, &existing);
    assert_eq!(plan.total, 2);
    assert_eq!(plan.scanned, 3);
    assert_eq!(plan.skipped, vec!["c.txt".to_string()]);
    assert_eq!(plan.moves.len(), 2);
    assert_eq!(plan.moves[0].source_name, "a.jpg");
    assert_eq!(plan.moves[0].dest_name, "2024-01-01.jpg");
    assert_eq!(plan.moves[1].source_name, "b.png");
    assert_eq!(plan.moves[1].dest_name, "2024-01-01.png");
    assert!(plan.failures.is_empty());

    // drive the progress protocol over the two filtered-in files
    let mut tracker = ProgressTracker::new(plan.total);
    let ev1 = tracker.record_attempt();
    assert_eq!((ev1.processed, ev1.total), (1, 2));
    let ev2 = tracker.record_attempt();
    assert_eq!((ev2.processed, ev2.total), (2, 2));
}

#[test]
fn scenario_only_png() {
    let cfg = config("txt", "png", false, "%Y-%m-%d");
    let entries = vec![
        entry("a.jpg", jan_first()),
        entry("b.png", jan_first()),
        entry("c.txt", jan_first()),
    ];
    let existing: Vec<String> = Vec::new();
    let plan = plan_run(&cfg, &entries, &existing);
    assert_eq!(plan.total, 1);
    assert_eq!(plan.moves.len(), 1);
    assert_eq!(plan.moves[0].source_name, "b.png");
    assert_eq!(plan.skipped, vec!["a.jpg".to_string(), "c.txt".to_string()]);
}

#[test]
fn scenario_collision_gets_disambiguator() {
    let cfg = config("", "", false, "%Y-%m-%d");
    let entries = vec![entry("a.jpg", jan_first()), entry("b.jpg", jan_first())];
    let existing: Vec<String> = Vec::new();
    let plan = plan_run(&cfg, &entries, &existing);
    assert_eq!(plan.moves.len(), 2);
    assert_eq!(plan.moves[0].dest_name, "2024-01-01.jpg");
    assert_eq!(plan.moves[1].dest_name, "2024-01-01 (1).jpg");
}

#[test]
fn preserved_name_round_trip() {
    let cfg = config("", "", true, "%Y-%m-%d");
    let entries = vec![entry("photo.jpg", Some(Timestamp::new(2024, 3, 7, 9, 41, 5)))];
    let existing: Vec<String> = Vec::new();
    let plan = plan_run(&cfg, &entries, &existing);
    assert_eq!(plan.moves.len(), 1);
    assert_eq!(plan.moves[0].dest_name, "2024-03-07 photo.jpg");
}

#[test]
fn existing_target_name_is_avoided() {
    let cfg = config("", "", false, "%Y-%m-%d");
    let entries = vec![entry("a.jpg", jan_first())];
    let existing = vec!["2024-01-01.jpg".to_string()];
    let plan = plan_run(&cfg, &entries, &existing);
    assert_eq!(plan.moves.len(), 1);
    assert_eq!(plan.moves[0].dest_name, "2024-01-01 (1).jpg");
}

#[test]
fn unreadable_metadata_is_a_failure_not_an_abort() {
    let cfg = config("", "", false, "%Y-%m-%d");
    let entries = vec![entry("a.jpg", None), entry("b.jpg", jan_first())];
    let existing: Vec<String> = Vec::new();
    let plan = plan_run(&cfg, &entries, &existing);
    assert_eq!(plan.total, 2);
    assert_eq!(plan.moves.len(), 1);
    assert_eq!(plan.moves[0].source_name, "b.jpg");
    assert_eq!(plan.failures.len(), 1);
    assert_eq!(plan.failures[0].name, "a.jpg");
    assert_eq!(plan.failures[0].cause, FailureCause::MetadataUnavailable);
}

#[test]
fn naming_exhaustion_is_recorded() {
    let cfg = config("", "", false, "%Y-%m-%d");
    let entries = vec![entry("a.jpg", jan_first())];
    let mut existing = vec!["2024-01-01.jpg".to_string()];
    for n in 1..1000 {
        existing.push(format!("2024-01-01 ({}).jpg", n));
    }
    let plan = plan_run(&cfg, &entries, &existing);
    assert!(plan.moves.is_empty());
    assert_eq!(plan.failures.len(), 1);
    assert_eq!(plan.failures[0].cause, FailureCause::DestinationExists);
}

#[test]
fn finish_folds_outcomes_into_result() {
    let cfg = config("txt", "", false, "%Y-%m-%d");
    let entries = vec![
        entry("a.jpg", jan_first()),
        entry("b.png", jan_first()),
        entry("c.txt", jan_first()),
        entry("d.gif", None),
    ];
    let existing: Vec<String> = Vec::new();
    let plan = plan_run(&cfg, &entries, &existing);
    assert_eq!(plan.moves.len(), 2);
    let outcomes = vec![None, Some(FailureCause::PermissionDenied)];
    let result = finish(&plan, &outcomes);
    assert_eq!(result.scanned, 4);
    assert_eq!(result.moved, 1);
    assert_eq!(result.skipped, 1);
    assert_eq!(result.failures.len(), 2);
    assert_eq!(result.failures[0].name, "d.gif");
    assert_eq!(result.failures[0].cause, FailureCause::MetadataUnavailable);
    assert_eq!(result.failures[1].name, "b.png");
    assert_eq!(result.failures[1].cause, FailureCause::PermissionDenied);
}

#[test]
fn finish_records_move_failed() {
    let cfg = config("", "", false, "%Y-%m-%d");
    let entries = vec![entry("a.jpg", jan_first())];
    let existing: Vec<String> = Vec::new();
    let plan = plan_run(&cfg, &entries, &existing);
    let outcomes = vec![Some(FailureCause::MoveFailed)];
    let result = finish(&plan, &outcomes);
    assert_eq!(result.moved, 0);
    assert_eq!(result.failures.len(), 1);
    assert_eq!(result.failures[0].name, "a.jpg");
    assert_eq!(result.failures[0].cause, FailureCause::MoveFailed);
}

#[test]
fn date_type_flags_follow_precedence() {
    assert_eq!(date_type_from_flags(true, true, true), DateType::Created);
    assert_eq!(date_type_from_flags(false, true, true), DateType::Accessed);
    assert_eq!(date_type_from_flags(false, false, true), DateType::Modified);
    assert_eq!(date_type_from_flags(false, false, false), DateType::Modified);
}

#[test]
fn progress_counts_strictly_increase_to_total() {
    let mut tracker = ProgressTracker::new(3);
    let mut last = 0usize;
    for _ in 0..3 {
        let ev = tracker.record_attempt();
        assert!(ev.processed > last);
        assert_eq!(ev.total, 3);
        last = ev.processed;
    }
    assert_eq!(last, 3);
}
