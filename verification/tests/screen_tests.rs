use lockdown::panel::{LockdownPanel, Message};
use lockdown::screen::{restart_button_label, service_banner};
use lockdown::status::ServiceStatus;

#[test]
fn banner_texts() {
    let b = service_banner(ServiceStatus::Running, false);
    assert_eq!(b.message, "服务已启动");
    assert!(b.button.is_none());
    let b = service_banner(ServiceStatus::Error, false);
    assert!(matches!(b.button.as_ref().map(|x| &x.press), Some(Message::RestartService)));
    assert_eq!(b.message, "服务启动失败");
    assert_eq!(b.button.as_ref().map(|x| x.label.as_str()), Some("启动服务"));
    let b = service_banner(ServiceStatus::Stopped, false);
    assert_eq!(b.message, "服务已停止");
    assert_eq!(b.button.as_ref().map(|x| x.label.as_str()), Some("启动服务"));
    let b = service_banner(ServiceStatus::Starting, false);
    assert_eq!(b.message, "服务启动中");
    assert!(b.button.is_none());
}

#[test]
fn banner_when_restart_required() {
    let b = service_banner(ServiceStatus::Running, true);
    assert!(matches!(b.button.as_ref().map(|x| &x.press), Some(Message::RestartService)));
    assert_eq!(b.message, "重启服务以应用更改");
    assert_eq!(b.button.as_ref().map(|x| x.label.as_str()), Some("重启服务"));
    let b = service_banner(ServiceStatus::Starting, true);
    assert_eq!(b.message, "重启服务以应用更改");
    assert!(b.button.is_none());
    let b = service_banner(ServiceStatus::Stopped, true);
    assert_eq!(b.button.as_ref().map(|x| x.label.as_str()), Some("启动服务"));
}

#[test]
fn restart_button_labels() {
    assert_eq!(restart_button_label(ServiceStatus::Running), "重启服务");
    assert_eq!(restart_button_label(ServiceStatus::Error), "重启服务");
    assert_eq!(restart_button_label(ServiceStatus::Starting), "启动中...");
    assert_eq!(restart_button_label(ServiceStatus::Stopped), "启动服务");
}

#[test]
fn view_of_a_running_panel() {
    let mut panel = LockdownPanel::from_loaded(vec!["a".to_string(), "b".to_string()], true);
    panel.update(Message::ToggleFileSelection(1));
    let v = panel.view();
    assert_eq!(v.heading, "Lockdown 面板");
    assert!(v.banner.is_none());
    assert!(v.errors.is_empty());
    assert_eq!(v.menu.len(), 4);
    assert_eq!(v.menu[0].label, "添加");
    assert!(matches!(v.menu[0].press, Some(Message::ShowFilebox)));
    assert!(v.menu[0].primary);
    assert_eq!(v.menu[1].label, "移除");
    assert!(matches!(v.menu[1].press, Some(Message::RemoveSelectedFiles)));
    assert!(!v.menu[1].primary);
    assert_eq!(v.menu[2].label, "重启服务");
    assert!(matches!(v.menu[2].press, Some(Message::RestartService)));
    assert!(!v.menu[2].primary);
    assert_eq!(v.menu[3].label, "关于");
    assert!(matches!(v.menu[3].press, Some(Message::About)));
    assert!(!v.menu[3].primary);
    assert_eq!(v.files.len(), 2);
    assert_eq!(v.files[0].path, "a");
    assert!(!v.files[0].checked);
    assert_eq!(v.files[1].path, "b");
    assert!(v.files[1].checked);
}

#[test]
fn view_while_starting() {
    let mut panel = LockdownPanel::from_loaded(Vec::new(), false);
    panel.update(Message::Error("oops".to_string()));
    panel.update(Message::RestartService);
    let v = panel.view();
    let banner = v.banner.expect("a banner while starting");
    assert_eq!(banner.message, "服务启动中");
    assert!(banner.button.is_none());
    assert_eq!(v.errors, vec!["oops".to_string()]);
    assert_eq!(v.menu[2].label, "启动中...");
    assert!(v.menu[2].press.is_none());
    assert!(matches!(v.menu[0].press, Some(Message::ShowFilebox)));
}

#[test]
fn view_when_restart_required() {
    let mut panel = LockdownPanel::from_loaded(Vec::new(), true);
    panel.apply_save_result(Ok(()));
    let v = panel.view();
    assert_eq!(v.menu[2].label, "重启服务");
    let banner = v.banner.expect("a banner when a restart is required");
    assert_eq!(banner.message, "重启服务以应用更改");
    assert_eq!(banner.button.as_ref().map(|x| x.label.as_str()), Some("重启服务"));
}

#[test]
fn view_of_a_stopped_panel_offers_start() {
    let panel = LockdownPanel::from_loaded(Vec::new(), false);
    let v = panel.view();
    assert_eq!(v.menu[2].label, "启动服务");
    assert!(matches!(v.menu[2].press, Some(Message::RestartService)));
}
