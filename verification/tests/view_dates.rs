use twig::config::{Config, ViewMode};
use twig::date::parse_date;
use twig::paths::DataPaths;
use twig::project::{task_in_history_range, ViewState};
use twig::store::Storage;
use twig::task::Task;
use twig::TwigError;

const DAY: i64 = 86_400;
// an arbitrary local day window: [TODAY_START, TODAY_END)
const TODAY_START: i64 = 1_000 * DAY;
const TODAY_END: i64 = 1_001 * DAY;

fn completed_at(title: &str, ts: i64) -> Task {
    let mut t = Task::new(title.to_string());
    t.start_at(if ts > 10 { ts - 10 } else { 0 });
    t.complete_at(ts);
    t
}

#[test]
fn completed_yesterday_follows_toggle_completed_today_always_shows() {
    let mut storage = Storage::new(String::new());
    let yesterday = completed_at("old", TODAY_START - DAY / 2);
    let today = completed_at("fresh", TODAY_START + 60);
    let (yi, ti) = (yesterday.id, today.id);
    storage.add_task(yesterday);
    storage.add_task(today);

    let mut view = ViewState::new();
    view.show_completed = false;
    view.rebuild_at(&storage, TODAY_START, TODAY_END);
    assert!(!view.visible.contains(&yi));
    assert!(view.visible.contains(&ti));

    view.show_completed = true;
    view.rebuild_at(&storage, TODAY_START, TODAY_END);
    assert!(view.visible.contains(&yi));
    assert!(view.visible.contains(&ti));
}

#[test]
fn cancelled_tasks_follow_their_own_toggle() {
    let mut storage = Storage::new(String::new());
    let mut old = Task::new("cancelled long ago".to_string());
    old.cancel_at(TODAY_START - DAY);
    let oi = old.id;
    storage.add_task(old);

    let mut view = ViewState::new();
    view.rebuild_at(&storage, TODAY_START, TODAY_END);
    assert!(!view.visible.contains(&oi));

    view.toggle_cancelled_at(&storage, TODAY_START, TODAY_END);
    assert!(view.visible.contains(&oi));
}

#[test]
fn children_appear_only_when_expanded() {
    let mut storage = Storage::new(String::new());
    let a = Task::new("A".to_string());
    let mut b = Task::new("B".to_string());
    b.parent_id = Some(a.id);
    let (ai, bi) = (a.id, b.id);
    storage.add_task(a);
    storage.add_task(b);

    let mut view = ViewState::new();
    view.rebuild_at(&storage, TODAY_START, TODAY_END);
    assert_eq!(view.visible, vec![ai]);

    // cursor sits on A; expanding appends its children right after it
    view.toggle_expand_at(&storage, TODAY_START, TODAY_END);
    assert_eq!(view.visible, vec![ai, bi]);

    view.toggle_expand_at(&storage, TODAY_START, TODAY_END);
    assert_eq!(view.visible, vec![ai]);
}

#[test]
fn tag_filter_narrows_projection() {
    let mut storage = Storage::new(String::new());
    let mut a = Task::new("A".to_string());
    a.add_tag("keep".to_string());
    let b = Task::new("B".to_string());
    let (ai, bi) = (a.id, b.id);
    storage.add_task(a);
    storage.add_task(b);

    let mut view = ViewState::new();
    view.filter_tag = Some("keep".to_string());
    view.rebuild_at(&storage, TODAY_START, TODAY_END);
    assert!(view.visible.contains(&ai));
    assert!(!view.visible.contains(&bi));
}

#[test]
fn assignee_filter_narrows_projection() {
    let mut storage = Storage::new(String::new());
    let mut a = Task::new("A".to_string());
    a.assigned_to = Some("ana".to_string());
    let b = Task::new("B".to_string());
    let (ai, bi) = (a.id, b.id);
    storage.add_task(a);
    storage.add_task(b);

    let mut view = ViewState::new();
    view.filter_assignee = Some("ana".to_string());
    view.rebuild_at(&storage, TODAY_START, TODAY_END);
    assert!(view.visible.contains(&ai));
    assert!(!view.visible.contains(&bi));
}

#[test]
fn selection_moves_stay_in_bounds() {
    let mut storage = Storage::new(String::new());
    let a = Task::new("A".to_string());
    let b = Task::new("B".to_string());
    let (ai, bi) = (a.id, b.id);
    storage.add_task(a);
    storage.add_task(b);

    let mut view = ViewState::new();
    view.rebuild_at(&storage, TODAY_START, TODAY_END);
    assert_eq!(view.get_selected_item(), Some(ai));
    view.move_selection_up();
    assert_eq!(view.selected_index, 0);
    view.move_selection_down();
    assert_eq!(view.get_selected_item(), Some(bi));
    view.move_selection_down();
    assert_eq!(view.selected_index, 1);
    assert_eq!(view.get_selected_task(&storage).unwrap().id, bi);
}

#[test]
fn history_window_membership() {
    let done = completed_at("done", TODAY_START + 100);
    assert!(task_in_history_range(&done, TODAY_START, TODAY_END));
    assert!(!task_in_history_range(&done, TODAY_START - DAY, TODAY_START));

    let mut dropped = Task::new("dropped".to_string());
    dropped.cancel_at(TODAY_START - 1);
    assert!(!task_in_history_range(&dropped, TODAY_START, TODAY_END));
    assert!(task_in_history_range(&dropped, TODAY_START - DAY, TODAY_START));

    let fresh = Task::new("fresh".to_string());
    assert!(!task_in_history_range(&fresh, TODAY_START, TODAY_END));
}

#[test]
fn parse_date_accepts_keywords_and_iso() {
    assert!(parse_date("today").is_ok());
    assert!(parse_date(" Tomorrow ").is_ok());
    assert!(parse_date("YESTERDAY").is_ok());
    assert!(parse_date("2024-02-29").is_ok());
    assert!(parse_date("2023-12-31").is_ok());

    let today = parse_date("today").unwrap();
    let tomorrow = parse_date("tomorrow").unwrap();
    assert_eq!(tomorrow - today, DAY);
}

#[test]
fn parse_date_rejects_malformed_input() {
    assert_eq!(parse_date("").unwrap_err(), TwigError::InvalidFormat);
    assert_eq!(parse_date("soon").unwrap_err(), TwigError::InvalidFormat);
    assert_eq!(parse_date("2023-13-01").unwrap_err(), TwigError::InvalidFormat);
    assert_eq!(parse_date("2023-02-29").unwrap_err(), TwigError::InvalidFormat);
    assert_eq!(parse_date("2023-2-9").unwrap_err(), TwigError::InvalidFormat);
    assert_eq!(parse_date("2023/02/09").unwrap_err(), TwigError::InvalidFormat);
}

#[test]
fn config_reportees_add_and_remove() {
    let mut config = Config::default();
    assert_eq!(config.default_view, ViewMode::Tree);
    assert!(config.add_reportee("ana".to_string()));
    assert!(config.add_reportee("bo".to_string()));
    assert!(!config.add_reportee("ana".to_string()));
    assert_eq!(config.reportees, vec!["ana".to_string(), "bo".to_string()]);

    assert!(config.remove_reportee("ana"));
    assert!(!config.remove_reportee("ana"));
    assert_eq!(config.reportees, vec!["bo".to_string()]);
}

#[test]
fn data_paths_join_under_base() {
    let paths = DataPaths::from_base("/home/someone/.twig".to_string());
    assert_eq!(paths.base_dir(), "/home/someone/.twig");
    assert_eq!(paths.tasks_file(), "/home/someone/.twig/tasks.json");
    assert_eq!(paths.config_file(), "/home/someone/.twig/config.json");
    assert_eq!(paths.reportees_dir(), "/home/someone/.twig/reportees");
    assert_eq!(
        paths.reportee_tasks_file("ana"),
        "/home/someone/.twig/reportees/ana.json"
    );
}
