use lockdown::panel::{restart_result, Effect, LockdownPanel, Message};
use lockdown::status::ServiceStatus;

fn strings(items: &[&str]) -> Vec<String> {
    items.iter().map(|s| s.to_string()).collect()
}

fn written(effect: &Effect) -> String {
    match effect {
        Effect::WriteDataFile(contents) => contents.clone(),
        other => panic!("expected a write of the data file, got {:?}", other),
    }
}

#[test]
fn title_is_lockdown_panel() {
    let panel = LockdownPanel::from_loaded(Vec::new(), true);
    assert_eq!(panel.title(), "Lockdown Panel");
}

#[test]
fn loaded_panel_starts_clean() {
    let panel = LockdownPanel::from_loaded(strings(&["a", "b"]), false);
    assert_eq!(panel.files(), &strings(&["a", "b"]));
    assert_eq!(panel.service_status(), ServiceStatus::Stopped);
    assert!(!panel.is_selected(0));
    assert!(panel.error_messages().is_empty());
    assert!(!panel.restart_required());
    let running = LockdownPanel::from_loaded(Vec::new(), true);
    assert_eq!(running.service_status(), ServiceStatus::Running);
}

#[test]
fn toggle_selects_and_deselects() {
    let mut panel = LockdownPanel::from_loaded(strings(&["a", "b"]), true);
    assert!(matches!(panel.update(Message::ToggleFileSelection(1)), Effect::Nothing));
    assert!(panel.is_selected(1));
    assert!(!panel.is_selected(0));
    panel.update(Message::ToggleFileSelection(1));
    assert!(!panel.is_selected(1));
    assert_eq!(panel.files(), &strings(&["a", "b"]));
}

#[test]
fn error_messages_pile_up() {
    let mut panel = LockdownPanel::from_loaded(Vec::new(), true);
    panel.update(Message::Error("first".to_string()));
    assert!(matches!(panel.update(Message::Error("second".to_string())), Effect::Nothing));
    assert_eq!(panel.error_messages(), &strings(&["first", "second"]));
}

#[test]
fn add_button_opens_the_dialog() {
    let mut panel = LockdownPanel::from_loaded(Vec::new(), true);
    assert!(matches!(panel.update(Message::ShowFilebox), Effect::PickFiles));
}

#[test]
fn added_files_are_sorted_deduplicated_and_new() {
    let mut panel = LockdownPanel::from_loaded(strings(&["b"]), true);
    let effect = panel.update(Message::AddFiles(strings(&["c", "a", "b", "a"])));
    assert_eq!(panel.files(), &strings(&["b", "a", "c"]));
    assert_eq!(written(&effect), "b\na\nc");
    assert!(!panel.restart_required());
}

#[test]
fn added_files_follow_code_point_order() {
    let mut panel = LockdownPanel::from_loaded(Vec::new(), true);
    panel.update(Message::AddFiles(strings(&["é", "z", "Z", "ab", "a", ""])));
    assert_eq!(panel.files(), &strings(&["", "Z", "a", "ab", "z", "é"]));
}

#[test]
fn adding_twice_changes_nothing() {
    let mut panel = LockdownPanel::from_loaded(strings(&["x"]), true);
    panel.update(Message::AddFiles(strings(&["q", "p"])));
    let once = panel.files().clone();
    panel.update(Message::AddFiles(strings(&["q", "p"])));
    assert_eq!(panel.files(), &once);
    assert_eq!(once, strings(&["x", "p", "q"]));
}

#[test]
fn saving_marks_restart_or_reports() {
    let mut panel = LockdownPanel::from_loaded(Vec::new(), true);
    assert!(panel.apply_save_result(Ok(())).is_none());
    assert!(panel.restart_required());
    let mut other = LockdownPanel::from_loaded(Vec::new(), true);
    match other.apply_save_result(Err("disk full".to_string())) {
        Some(Message::Error(text)) => assert_eq!(text, "disk full"),
        _ => panic!("expected an error message"),
    }
    assert!(!other.restart_required());
}

#[test]
fn removal_keeps_unselected_files() {
    let mut panel = LockdownPanel::from_loaded(strings(&["a", "b", "c"]), true);
    panel.update(Message::ToggleFileSelection(0));
    panel.update(Message::ToggleFileSelection(2));
    let effect = panel.update(Message::RemoveSelectedFiles);
    assert_eq!(panel.files(), &strings(&["b"]));
    assert!(!panel.is_selected(0));
    assert!(!panel.is_selected(2));
    assert_eq!(written(&effect), "b");
}

#[test]
fn removal_with_nothing_selected_keeps_all() {
    let mut panel = LockdownPanel::from_loaded(strings(&["a", "b"]), true);
    let effect = panel.update(Message::RemoveSelectedFiles);
    assert_eq!(panel.files(), &strings(&["a", "b"]));
    assert_eq!(written(&effect), "a\nb");
}

#[test]
fn removal_ignores_selection_beyond_the_list() {
    let mut panel = LockdownPanel::from_loaded(strings(&["a"]), true);
    panel.update(Message::ToggleFileSelection(5));
    panel.update(Message::RemoveSelectedFiles);
    assert_eq!(panel.files(), &strings(&["a"]));
    assert!(!panel.is_selected(5));
}

#[test]
fn restart_marks_starting() {
    let mut panel = LockdownPanel::from_loaded(Vec::new(), false);
    panel.apply_save_result(Ok(()));
    assert!(matches!(panel.update(Message::RestartService), Effect::StartServiceFlow { should_stop_service: true }));
    assert_eq!(panel.service_status(), ServiceStatus::Starting);
    assert!(!panel.restart_required());
    panel.update(Message::UpdateServiceStatus(ServiceStatus::Running));
    assert_eq!(panel.service_status(), ServiceStatus::Running);
}

#[test]
fn restart_result_gives_status() {
    assert!(matches!(
        restart_result(Ok(())),
        Message::UpdateServiceStatus(ServiceStatus::Running)
    ));
    assert!(matches!(
        restart_result(Err("no".to_string())),
        Message::UpdateServiceStatus(ServiceStatus::Error)
    ));
}

#[test]
fn poll_queries_unless_starting() {
    let mut panel = LockdownPanel::from_loaded(Vec::new(), false);
    assert!(matches!(panel.update(Message::PollServiceStatus), Effect::Poll { query_now: true, delay_ms: 1000 }));
    panel.update(Message::RestartService);
    assert!(matches!(panel.update(Message::PollServiceStatus), Effect::Poll { query_now: false, delay_ms: 1000 }));
    assert_eq!(panel.service_status(), ServiceStatus::Starting);
}

#[test]
fn service_answers_set_status() {
    let mut panel = LockdownPanel::from_loaded(Vec::new(), false);
    panel.apply_service_answer(Ok(true));
    assert_eq!(panel.service_status(), ServiceStatus::Running);
    panel.apply_service_answer(Ok(false));
    assert_eq!(panel.service_status(), ServiceStatus::Stopped);
    panel.apply_service_answer(Err("access denied".to_string()));
    assert_eq!(panel.service_status(), ServiceStatus::Error);
    panel.apply_service_answer(Ok(false));
    assert_eq!(panel.service_status(), ServiceStatus::Error);
    panel.apply_service_answer(Ok(true));
    assert_eq!(panel.service_status(), ServiceStatus::Running);
}

#[test]
fn about_opens_the_about_page() {
    let mut panel = LockdownPanel::from_loaded(Vec::new(), true);
    match panel.update(Message::About) {
        Effect::OpenUrl(address) => assert_eq!(address, "https://lockdown.imken.dev/about.html"),
        other => panic!("unexpected {:?}", other),
    }
    assert!(matches!(panel.update(Message::Nothing), Effect::Nothing));
}
