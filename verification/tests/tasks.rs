use twig::effort::EffortEstimate;
use twig::task::{Task, TaskStatus};

#[test]
fn test_effort_parsing() {
    let cases = vec![
        ("1h", 1.0),
        ("2d", 16.0),
        ("1w", 40.0),
        ("2m", 320.0),
        ("0.5h", 0.5),
    ];

    for (input, expected_hours) in cases {
        let effort = EffortEstimate::parse(input).unwrap();
        assert_eq!(effort.to_hours_millis() as f64 / 1000.0, expected_hours);
    }
}

#[test]
fn test_task_lifecycle() {
    let mut task = Task::new("Test task".to_string());
    assert_eq!(task.status, TaskStatus::NotStarted);

    task.start();
    assert_eq!(task.status, TaskStatus::InProgress);
    assert!(task.started_at.is_some());
    assert!(task.has_active_time_entry());

    task.complete();
    assert_eq!(task.status, TaskStatus::Completed);
    assert!(task.completed_at.is_some());
    assert!(!task.has_active_time_entry());
}

#[test]
fn start_then_complete_at_fixed_times() {
    let mut task = Task::new("timed".to_string());
    task.start_at(1000);
    assert_eq!(task.status, TaskStatus::InProgress);
    assert_eq!(task.started_at, Some(1000));
    task.complete_at(1600);
    assert_eq!(task.status, TaskStatus::Completed);
    assert_eq!(task.completed_at, Some(1600));
    assert!(!task.has_active_time_entry());
    assert_eq!(task.total_time_seconds, 600);
}

#[test]
fn time_accounting_over_start_pause_cycles() {
    let mut task = Task::new("cycles".to_string());
    task.start_at(100);
    task.pause_at(160);
    task.start_at(200);
    task.pause_at(230);
    // a pause with no open entry changes nothing
    task.pause_at(300);
    assert_eq!(task.total_time_seconds, 60 + 30);
    assert_eq!(task.time_entries.len(), 2);
    let sum: i64 = task
        .time_entries
        .iter()
        .map(|e| e.duration_seconds.unwrap_or(0))
        .sum();
    assert_eq!(task.total_time_seconds, sum);
    let open = task.time_entries.iter().filter(|e| e.end.is_none()).count();
    assert_eq!(open, 0);
}

#[test]
fn starting_twice_keeps_one_open_entry() {
    let mut task = Task::new("double".to_string());
    task.start_at(50);
    task.start_at(80);
    let open = task.time_entries.iter().filter(|e| e.end.is_none()).count();
    assert_eq!(open, 1);
    assert_eq!(task.time_entries.len(), 1);
    assert_eq!(task.started_at, Some(50));
}

#[test]
fn cancel_records_time_and_status() {
    let mut task = Task::new("drop me".to_string());
    task.start_at(10);
    task.cancel_at(25);
    assert_eq!(task.status, TaskStatus::Cancelled);
    assert_eq!(task.cancelled_at, Some(25));
    assert_eq!(task.total_time_seconds, 15);
    assert!(!task.has_active_time_entry());
}

#[test]
fn set_estimate_stores_milli_hours() {
    let mut task = Task::new("estimate".to_string());
    task.set_estimate("2d").unwrap();
    assert_eq!(task.estimated_effort_millihours, Some(16_000));
    assert_eq!(task.get_formatted_estimate().unwrap(), "2.0d");

    assert!(task.set_estimate("nonsense").is_err());
    // a failed parse leaves the stored estimate alone
    assert_eq!(task.estimated_effort_millihours, Some(16_000));
}

#[test]
fn effort_parse_rejections() {
    assert!(EffortEstimate::parse("").is_err());
    assert!(EffortEstimate::parse("h").is_err());
    assert!(EffortEstimate::parse("12").is_err());
    assert!(EffortEstimate::parse("1.2.3h").is_err());
    assert!(EffortEstimate::parse("1x").is_err());
    assert!(EffortEstimate::parse(".d").is_err());
    assert_eq!(
        EffortEstimate::parse("5q").unwrap_err(),
        twig::TwigError::InvalidFormat
    );
}

#[test]
fn effort_parse_accepts_spacing_and_case() {
    let e = EffortEstimate::parse("  1.5H ").unwrap();
    assert_eq!(e.to_hours_millis(), 1500);
    let e = EffortEstimate::parse(".5d").unwrap();
    assert_eq!(e.to_hours_millis(), 4000);
    let e = EffortEstimate::parse("3.w").unwrap();
    assert_eq!(e.to_hours_millis(), 120_000);
}

#[test]
fn effort_formatting_picks_largest_unit() {
    assert_eq!(twig::effort::from_hours(1000), "1.0h");
    assert_eq!(twig::effort::from_hours(7999), "8.0h");
    assert_eq!(twig::effort::from_hours(8000), "1.0d");
    assert_eq!(twig::effort::from_hours(16_000), "2.0d");
    assert_eq!(twig::effort::from_hours(40_000), "1.0w");
    assert_eq!(twig::effort::from_hours(160_000), "1.0m");
    assert_eq!(twig::effort::from_hours(320_000), "2.0m");
    assert_eq!(twig::effort::from_hours(9000), "1.1d");
}

#[test]
fn duration_formatting_breakdown() {
    assert_eq!(twig::timefmt::format_duration_human(0), "0s");
    assert_eq!(twig::timefmt::format_duration_human(59), "59s");
    assert_eq!(twig::timefmt::format_duration_human(60), "1m");
    assert_eq!(twig::timefmt::format_duration_human(3600), "1h");
    assert_eq!(twig::timefmt::format_duration_human(3660), "1h 1m");
    assert_eq!(twig::timefmt::format_duration_human(8 * 3600), "1d 0h");
    assert_eq!(
        twig::timefmt::format_duration_human(9 * 3600 + 120),
        "1d 1h 2m"
    );
}

#[test]
fn formatted_total_time_on_task() {
    let mut task = Task::new("fmt".to_string());
    task.start_at(0);
    task.pause_at(3 * 3600 + 5 * 60);
    assert_eq!(task.get_formatted_total_time(), "3h 5m");
}

#[test]
fn add_tag_deduplicates() {
    let mut task = Task::new("tagged".to_string());
    assert!(task.add_tag("work".to_string()));
    assert!(task.add_tag("urgent".to_string()));
    assert!(!task.add_tag("work".to_string()));
    assert_eq!(task.tags, vec!["work".to_string(), "urgent".to_string()]);
}

#[test]
fn check_wf_accepts_sound_records_and_rejects_corrupt_ones() {
    let mut task = Task::new("audit".to_string());
    task.start_at(100);
    task.pause_at(160);
    assert!(task.check_wf());

    let mut wrong_total = task.duplicate();
    wrong_total.total_time_seconds = 61;
    assert!(!wrong_total.check_wf());

    let mut wrong_duration = task.duplicate();
    wrong_duration.time_entries[0].duration_seconds = Some(59);
    assert!(!wrong_duration.check_wf());

    let mut negative_start = task.duplicate();
    negative_start.time_entries[0].start = -5;
    assert!(!negative_start.check_wf());
}

#[test]
fn duplicate_copies_every_field() {
    let mut task = Task::new("copy me".to_string());
    task.description = "details".to_string();
    task.add_tag("a".to_string());
    task.start_at(5);
    task.pause_at(9);
    let copy = task.duplicate();
    assert_eq!(copy.id, task.id);
    assert_eq!(copy.title, task.title);
    assert_eq!(copy.description, task.description);
    assert_eq!(copy.tags, task.tags);
    assert_eq!(copy.total_time_seconds, task.total_time_seconds);
    assert_eq!(copy.time_entries.len(), task.time_entries.len());
    assert_eq!(copy.time_entries[0].start, task.time_entries[0].start);
    assert_eq!(copy.time_entries[0].end, task.time_entries[0].end);
}
