use vstd::prelude::*;

verus! {

/// The error code that opening a file gives when the file does not exist
/// (`HRESULT` 0x80070002, `ERROR_FILE_NOT_FOUND`), read as a signed number.
pub const FILE_NOT_FOUND: i32 = -2147024894i32;

/// How long the service waits after a stop request before it reports that
/// it stopped, in milliseconds.
pub const STOP_DELAY_MS: u64 = 800;

/// A control request that the service manager sends to the service.
#[derive(Debug, PartialEq, Eq, Structural, Copy, Clone)]
pub enum ControlRequest {
    Interrogate,
    Stop,
    /// Any other request.
    Other,
}

/// The service's reply to a control request.
#[derive(Debug, PartialEq, Eq, Structural, Copy, Clone)]
pub enum ControlReply {
    NoError,
    NotImplemented,
}

/// The state that the service reports.
#[derive(Debug, PartialEq, Eq, Structural, Copy, Clone)]
pub enum ReportedState {
    Running,
    Stopped,
}

/// A status report of the service to the service manager. The service runs
/// in a process of its own; the exit code is a Win32 code.
#[derive(Debug, PartialEq, Eq, Structural, Copy, Clone)]
pub struct StatusReport {
    pub state: ReportedState,
    /// Whether the service takes stop requests.
    pub accepts_stop: bool,
    pub exit_code: u32,
    pub checkpoint: u32,
    pub wait_hint_ms: u64,
}

/// A report to send once a delay has passed.
#[derive(Debug, PartialEq, Eq, Structural, Copy, Clone)]
pub struct DelayedReport {
    pub delay_ms: u64,
    pub report: StatusReport,
}

/// What the service does on a control request: the reply, and, for a stop
/// request, the report to send after a delay.
#[derive(Debug, PartialEq, Eq, Structural, Copy, Clone)]
pub struct ControlDecision {
    pub reply: ControlReply,
    pub delayed_report: Option<DelayedReport>,
}

/// What becomes of a file that the service tried to open for locking.
#[derive(Debug, PartialEq, Eq, Structural, Copy, Clone)]
pub enum LockDecision {
    /// It was opened: keep the handle, which keeps the file locked.
    Hold,
    /// It does not exist: record an empty place for it.
    RecordMissing,
    /// It could not be opened for another reason: pass over it.
    Skip,
}

pub open spec fn running_status() -> StatusReport {
    StatusReport {
        state: ReportedState::Running,
        accepts_stop: true,
        exit_code: 0,
        checkpoint: 0,
        wait_hint_ms: 0,
    }
}

pub open spec fn stopped_status() -> StatusReport {
    StatusReport {
        state: ReportedState::Stopped,
        accepts_stop: false,
        exit_code: 0,
        checkpoint: 0,
        wait_hint_ms: 0,
    }
}

/// The report that the service sends once it has locked its files: it runs
/// and takes stop requests.
pub fn running_report() -> (r: StatusReport)
    ensures
        r == running_status(),
{
    StatusReport {
        state: ReportedState::Running,
        accepts_stop: true,
        exit_code: 0,
        checkpoint: 0,
        wait_hint_ms: 0,
    }
}

/// The report that the service sends when it has stopped.
pub fn stopped_report() -> (r: StatusReport)
    ensures
        r == stopped_status(),
{
    StatusReport {
        state: ReportedState::Stopped,
        accepts_stop: false,
        exit_code: 0,
        checkpoint: 0,
        wait_hint_ms: 0,
    }
}

/// The service's answer to a control request: an interrogation is answered
/// at once; a stop request is answered at once and, after a delay, followed
/// by the report that the service stopped; other requests are not handled.
pub fn handle_control(request: ControlRequest) -> (d: ControlDecision)
    ensures
        d == (match request {
            ControlRequest::Interrogate => ControlDecision {
                reply: ControlReply::NoError,
                delayed_report: None,
            },
            ControlRequest::Stop => ControlDecision {
                reply: ControlReply::NoError,
                delayed_report: Some(DelayedReport { delay_ms: STOP_DELAY_MS, report: stopped_status() }),
            },
            ControlRequest::Other => ControlDecision {
                reply: ControlReply::NotImplemented,
                delayed_report: None,
            },
        }),
{
    match request {
        ControlRequest::Interrogate => ControlDecision {
            reply: ControlReply::NoError,
            delayed_report: None,
        },
        ControlRequest::Stop => ControlDecision {
            reply: ControlReply::NoError,
            delayed_report: Some(DelayedReport { delay_ms: STOP_DELAY_MS, report: stopped_report() }),
        },
        ControlRequest::Other => ControlDecision {
            reply: ControlReply::NotImplemented,
            delayed_report: None,
        },
    }
}

/// What becomes of a file after an attempt to open it: `None` when it
/// opened, else the error code of the failure.
pub fn lock_decision(open_error: Option<i32>) -> (d: LockDecision)
    ensures
        d == (match open_error {
            None => LockDecision::Hold,
            Some(code) => if code == FILE_NOT_FOUND {
                LockDecision::RecordMissing
            } else {
                LockDecision::Skip
            },
        }),
{
    match open_error {
        None => LockDecision::Hold,
        Some(code) => if code == FILE_NOT_FOUND {
            LockDecision::RecordMissing
        } else {
            LockDecision::Skip
        },
    }
}

} // verus!
