use vstd::prelude::*;
use vstd::string::StringExecFns;

use crate::panel::Message;
use crate::status::ServiceStatus;

verus! {

/// The button of the banner: its label and the message that pressing it
/// sends.
#[derive(Debug)]
pub struct BannerButton {
    pub label: String,
    pub press: Message,
}

/// The strip that tells the state of the service, with a button when one
/// is offered.
#[derive(Debug)]
pub struct Banner {
    pub message: String,
    pub button: Option<BannerButton>,
}

/// One line of the file list: a check box with the path as its label.
/// Clicking it sends `Message::ToggleFileSelection` with the line's index.
#[derive(Debug)]
pub struct FileRow {
    pub path: String,
    pub checked: bool,
}

/// A button of the menu row: its label, and the message that pressing it
/// sends (`None` while it cannot be pressed).
#[derive(Debug)]
pub struct MenuButton {
    pub label: String,
    pub press: Option<Message>,
    /// Whether it is drawn as the main button rather than a secondary one.
    pub primary: bool,
}

/// What the panel shows, top to bottom.
#[derive(Debug)]
pub struct PanelView {
    pub heading: String,
    pub banner: Option<Banner>,
    /// Shown in red, one per line.
    pub errors: Vec<String>,
    /// The menu row, left to right: add, remove, start or restart the
    /// service, about.
    pub menu: Vec<MenuButton>,
    pub files: Vec<FileRow>,
}

/// The text of the banner.
pub open spec fn banner_message(status: ServiceStatus, restart_required: bool) -> Seq<char> {
    if restart_required {
        "重启服务以应用更改"@
    } else {
        match status {
            ServiceStatus::Running => "服务已启动"@,
            ServiceStatus::Error => "服务启动失败"@,
            ServiceStatus::Stopped => "服务已停止"@,
            ServiceStatus::Starting => "服务启动中"@,
        }
    }
}

/// The label of the banner's button, if it has one.
pub open spec fn banner_button(status: ServiceStatus, restart_required: bool) -> Option<Seq<char>> {
    match status {
        ServiceStatus::Stopped | ServiceStatus::Error => Some("启动服务"@),
        ServiceStatus::Starting => None,
        ServiceStatus::Running => if restart_required {
            Some("重启服务"@)
        } else {
            None
        },
    }
}

/// Whether the banner is shown at all.
pub open spec fn shows_banner(status: ServiceStatus, restart_required: bool) -> bool {
    status != ServiceStatus::Running || restart_required
}

/// The label of the start or restart button.
pub open spec fn restart_label(status: ServiceStatus) -> Seq<char> {
    match status {
        ServiceStatus::Running | ServiceStatus::Error => "重启服务"@,
        ServiceStatus::Starting => "启动中..."@,
        ServiceStatus::Stopped => "启动服务"@,
    }
}

/// The banner for the service's status, and whether a change waits for a
/// restart.
pub fn service_banner(service_status: ServiceStatus, restart_required: bool) -> (b: Banner)
    ensures
        b.message@ == banner_message(service_status, restart_required),
        b.button is Some <==> banner_button(service_status, restart_required) is Some,
        b.button matches Some(btn) ==> btn.label@ == banner_button(
            service_status,
            restart_required,
        )->0 && btn.press is RestartService,
{
    let message = if !restart_required {
        match service_status {
            ServiceStatus::Running => String::from_str("服务已启动"),
            ServiceStatus::Error => String::from_str("服务启动失败"),
            ServiceStatus::Stopped => String::from_str("服务已停止"),
            ServiceStatus::Starting => String::from_str("服务启动中"),
        }
    } else {
        String::from_str("重启服务以应用更改")
    };
    let button = match service_status {
        ServiceStatus::Stopped | ServiceStatus::Error => Some(
            BannerButton { label: String::from_str("启动服务"), press: Message::RestartService },
        ),
        ServiceStatus::Starting => None,
        ServiceStatus::Running => if restart_required {
            Some(BannerButton { label: String::from_str("重启服务"), press: Message::RestartService })
        } else {
            None
        },
    };
    Banner { message, button }
}

/// The label of the start or restart button for the service's status.
pub fn restart_button_label(service_status: ServiceStatus) -> (l: String)
    ensures
        l@ == restart_label(service_status),
{
    match service_status {
        ServiceStatus::Running | ServiceStatus::Error => String::from_str("重启服务"),
        ServiceStatus::Starting => String::from_str("启动中..."),
        ServiceStatus::Stopped => String::from_str("启动服务"),
    }
}

} // verus!
