use vstd::prelude::*;

verus! {

/// The value of `dwCurrentState` of a service that runs (`SERVICE_RUNNING`).
pub const SERVICE_RUNNING_STATE: u32 = 4;

/// One piece of work on the service manager or the disk, done outside the
/// library. Each is answered by a `ServiceAnswer`.
#[derive(Debug)]
pub enum ServiceAction {
    /// Whether the service is registered: open the service manager, try to
    /// open the service for a status query, close what was opened.
    /// Answered by `Flag`.
    CheckExists,
    /// The service's current state (`QueryServiceStatus`). Answered by `State`.
    QueryState,
    /// Send the service the stop control. Answered by `Done`.
    SendStop,
    /// Start the service. Answered by `Done`.
    SendStart,
    /// Delete the service's registration. Answered by `Done`.
    Delete,
    /// Whether the executable is installed where it is registered from.
    /// Answered by `Flag`.
    CheckLocation,
    /// Copy the bundled executable into place. Answered by `Done`.
    CopyExecutable,
    /// Register the service to start automatically, and to restart when it
    /// fails. Answered by `Done`.
    Create,
    /// Wait this many milliseconds. Answered by `Done`.
    Wait(u64),
    /// Nothing more to do: the flow ended so.
    Finish(FlowEnd),
}

/// How a flow ended.
#[derive(Debug)]
pub enum FlowEnd {
    /// The start flow went through.
    Completed,
    /// The answer of the running query.
    Answer(bool),
    /// A piece of work failed with this error.
    Failed(String),
}

/// The outcome of a `ServiceAction`.
#[derive(Debug)]
pub enum ServiceAnswer {
    Flag(bool),
    State(u32),
    Done,
    Failed(String),
}

/// Where a flow stands: the piece of work whose answer it waits for.
#[derive(Debug, PartialEq, Eq, Structural, Copy, Clone)]
pub enum Stage {
    /// Running query: is the service registered?
    QueryExists,
    /// Running query: its state.
    QueryState,
    /// Start flow, stopping first: is the service registered?
    StopCheckExists,
    /// Start flow, stopping first: its state.
    StopCheckState,
    /// Stopping: is the service registered?
    StopExists,
    /// Stopping: the stop control was sent.
    StopSent,
    /// Waiting after the stop.
    StopWait,
    /// Is the service registered, or must it be?
    RegisteredCheck,
    /// Registering: is the executable in place?
    LocationCheck,
    /// Registering: the executable was copied.
    Copied,
    /// Registering: is an old registration there?
    OldRegistration,
    /// Unregistering: is the service registered?
    UnregisterExists,
    /// Unregistering, stopping: is the service registered?
    UnregisterStopExists,
    /// Unregistering: the stop control was sent.
    UnregisterStopSent,
    /// Unregistering: the registration was deleted.
    Deleted,
    /// Registering: the service was created.
    Created,
    /// Does the service run: is it registered?
    RunExists,
    /// Does the service run: its state.
    RunState,
    /// Starting: is the service registered?
    StartExists,
    /// Starting: the service was started.
    StartSent,
    /// The last wait.
    FinalWait,
    /// The flow ended.
    Over,
}

/// What a stage waits for.
pub enum AnswerKind {
    Flag,
    State,
    Done,
}

/// The kind of answer that a stage waits for.
pub open spec fn expected_kind(stage: Stage) -> AnswerKind {
    match stage {
        Stage::QueryState | Stage::StopCheckState | Stage::RunState => AnswerKind::State,
        Stage::StopSent | Stage::StopWait | Stage::Copied | Stage::UnregisterStopSent
        | Stage::Deleted | Stage::Created | Stage::StartSent | Stage::FinalWait | Stage::Over =>
            AnswerKind::Done,
        _ => AnswerKind::Flag,
    }
}

/// Whether `answer` is one that `stage` can take in: a failure, or an answer
/// of the kind that the stage waits for. Nothing is taken in once the flow
/// is over.
pub open spec fn fits(stage: Stage, answer: ServiceAnswer) -> bool {
    stage != Stage::Over && match answer {
        ServiceAnswer::Failed(_) => true,
        ServiceAnswer::Flag(_) => expected_kind(stage) is Flag,
        ServiceAnswer::State(_) => expected_kind(stage) is State,
        ServiceAnswer::Done => expected_kind(stage) is Done,
    }
}

/// The stage and the work that follow `stage` when its answer is `answer`.
///
/// The start flow stops a running service first when asked to, then waits a
/// second; registers the service when it is not, which copies the
/// executable into place when it is missing and removes an old
/// registration (stopping it first); starts the service when it does not
/// run; and waits a second at the end. Every query of the service's
/// registration is made anew, each time the step needs it. Any failure ends
/// the flow with that failure.
///
/// This is the table of single steps; `procedures::law_start_flow_runs_the_procedures`
/// and `procedures::law_running_query_runs_the_procedure` state what whole
/// runs of it do.
pub open spec fn next(stage: Stage, answer: ServiceAnswer) -> (Stage, ServiceAction) {
    match answer {
        ServiceAnswer::Failed(e) => (Stage::Over, ServiceAction::Finish(FlowEnd::Failed(e))),
        ServiceAnswer::Flag(b) => match stage {
            Stage::QueryExists => if b {
                (Stage::QueryState, ServiceAction::QueryState)
            } else {
                (Stage::Over, ServiceAction::Finish(FlowEnd::Answer(false)))
            },
            Stage::StopCheckExists => if b {
                (Stage::StopCheckState, ServiceAction::QueryState)
            } else {
                (Stage::RegisteredCheck, ServiceAction::CheckExists)
            },
            Stage::StopExists => if b {
                (Stage::StopSent, ServiceAction::SendStop)
            } else {
                (Stage::StopWait, ServiceAction::Wait(1000))
            },
            Stage::RegisteredCheck => if b {
                (Stage::RunExists, ServiceAction::CheckExists)
            } else {
                (Stage::LocationCheck, ServiceAction::CheckLocation)
            },
            Stage::LocationCheck => if b {
                (Stage::OldRegistration, ServiceAction::CheckExists)
            } else {
                (Stage::Copied, ServiceAction::CopyExecutable)
            },
            Stage::OldRegistration => if b {
                (Stage::UnregisterExists, ServiceAction::CheckExists)
            } else {
                (Stage::Created, ServiceAction::Create)
            },
            Stage::UnregisterExists => if b {
                (Stage::UnregisterStopExists, ServiceAction::CheckExists)
            } else {
                (Stage::Created, ServiceAction::Create)
            },
            Stage::UnregisterStopExists => if b {
                (Stage::UnregisterStopSent, ServiceAction::SendStop)
            } else {
                (Stage::Deleted, ServiceAction::Delete)
            },
            Stage::RunExists => if b {
                (Stage::RunState, ServiceAction::QueryState)
            } else {
                (Stage::StartExists, ServiceAction::CheckExists)
            },
            _ => if b {
                (Stage::StartSent, ServiceAction::SendStart)
            } else {
                (Stage::FinalWait, ServiceAction::Wait(1000))
            },
        },
        ServiceAnswer::State(s) => match stage {
            Stage::QueryState => (
                Stage::Over,
                ServiceAction::Finish(FlowEnd::Answer(s == SERVICE_RUNNING_STATE)),
            ),
            Stage::StopCheckState => if s == SERVICE_RUNNING_STATE {
                (Stage::StopExists, ServiceAction::CheckExists)
            } else {
                (Stage::RegisteredCheck, ServiceAction::CheckExists)
            },
            _ => if s == SERVICE_RUNNING_STATE {
                (Stage::FinalWait, ServiceAction::Wait(1000))
            } else {
                (Stage::StartExists, ServiceAction::CheckExists)
            },
        },
        ServiceAnswer::Done => match stage {
            Stage::StopSent => (Stage::StopWait, ServiceAction::Wait(1000)),
            Stage::StopWait => (Stage::RegisteredCheck, ServiceAction::CheckExists),
            Stage::Copied => (Stage::OldRegistration, ServiceAction::CheckExists),
            Stage::UnregisterStopSent => (Stage::Deleted, ServiceAction::Delete),
            Stage::Deleted => (Stage::Created, ServiceAction::Create),
            Stage::Created => (Stage::RunExists, ServiceAction::CheckExists),
            Stage::StartSent => (Stage::FinalWait, ServiceAction::Wait(1000)),
            _ => (Stage::Over, ServiceAction::Finish(FlowEnd::Completed)),
        },
    }
}

/// How many answers a stage can still take in, at most.
pub open spec fn rank(stage: Stage) -> nat {
    match stage {
        Stage::QueryExists => 2,
        Stage::QueryState => 1,
        Stage::StopCheckExists => 21,
        Stage::StopCheckState => 20,
        Stage::StopExists => 19,
        Stage::StopSent => 18,
        Stage::StopWait => 17,
        Stage::RegisteredCheck => 16,
        Stage::LocationCheck => 15,
        Stage::Copied => 14,
        Stage::OldRegistration => 13,
        Stage::UnregisterExists => 12,
        Stage::UnregisterStopExists => 11,
        Stage::UnregisterStopSent => 10,
        Stage::Deleted => 9,
        Stage::Created => 8,
        Stage::RunExists => 7,
        Stage::RunState => 6,
        Stage::StartExists => 5,
        Stage::StartSent => 4,
        Stage::FinalWait => 3,
        Stage::Over => 0,
    }
}

/// The first step of the running query (`is_service_running`): ask whether
/// the service is registered.
pub fn begin_running_query() -> (r: (Stage, ServiceAction))
    ensures
        r.0 == Stage::QueryExists,
        r.1 is CheckExists,
{
    (Stage::QueryExists, ServiceAction::CheckExists)
}

/// The first step of the start flow (`start_service_flow`): ask whether
/// the service is registered, to stop it first if `should_stop_service`
/// and it runs, or else to register it if it is not.
pub fn begin_start_flow(should_stop_service: bool) -> (r: (Stage, ServiceAction))
    ensures
        r.0 == (if should_stop_service {
            Stage::StopCheckExists
        } else {
            Stage::RegisteredCheck
        }),
        r.1 is CheckExists,
{
    if should_stop_service {
        (Stage::StopCheckExists, ServiceAction::CheckExists)
    } else {
        (Stage::RegisteredCheck, ServiceAction::CheckExists)
    }
}

/// Whether `stage` can take in `answer`.
pub fn accepts(stage: Stage, answer: &ServiceAnswer) -> (r: bool)
    ensures
        r == fits(stage, *answer),
{
    let kind = match stage {
        Stage::QueryState | Stage::StopCheckState | Stage::RunState => AnswerKind::State,
        Stage::StopSent | Stage::StopWait | Stage::Copied | Stage::UnregisterStopSent
        | Stage::Deleted | Stage::Created | Stage::StartSent | Stage::FinalWait | Stage::Over =>
            AnswerKind::Done,
        _ => AnswerKind::Flag,
    };
    if stage == Stage::Over {
        return false;
    }
    match answer {
        ServiceAnswer::Failed(_) => true,
        ServiceAnswer::Flag(_) => matches!(kind, AnswerKind::Flag),
        ServiceAnswer::State(_) => matches!(kind, AnswerKind::State),
        ServiceAnswer::Done => matches!(kind, AnswerKind::Done),
    }
}

/// Takes in the answer to the work that `stage` waits for, and gives the
/// next stage and the next work.
pub fn flow_step(stage: Stage, answer: ServiceAnswer) -> (r: (Stage, ServiceAction))
    requires
        fits(stage, answer),
    ensures
        r == next(stage, answer),
{
    match answer {
        ServiceAnswer::Failed(e) => (Stage::Over, ServiceAction::Finish(FlowEnd::Failed(e))),
        ServiceAnswer::Flag(b) => match stage {
            Stage::QueryExists => if b {
                (Stage::QueryState, ServiceAction::QueryState)
            } else {
                (Stage::Over, ServiceAction::Finish(FlowEnd::Answer(false)))
            },
            Stage::StopCheckExists => if b {
                (Stage::StopCheckState, ServiceAction::QueryState)
            } else {
                (Stage::RegisteredCheck, ServiceAction::CheckExists)
            },
            Stage::StopExists => if b {
                (Stage::StopSent, ServiceAction::SendStop)
            } else {
                (Stage::StopWait, ServiceAction::Wait(1000))
            },
            Stage::RegisteredCheck => if b {
                (Stage::RunExists, ServiceAction::CheckExists)
            } else {
                (Stage::LocationCheck, ServiceAction::CheckLocation)
            },
            Stage::LocationCheck => if b {
                (Stage::OldRegistration, ServiceAction::CheckExists)
            } else {
                (Stage::Copied, ServiceAction::CopyExecutable)
            },
            Stage::OldRegistration => if b {
                (Stage::UnregisterExists, ServiceAction::CheckExists)
            } else {
                (Stage::Created, ServiceAction::Create)
            },
            Stage::UnregisterExists => if b {
                (Stage::UnregisterStopExists, ServiceAction::CheckExists)
            } else {
                (Stage::Created, ServiceAction::Create)
            },
            Stage::UnregisterStopExists => if b {
                (Stage::UnregisterStopSent, ServiceAction::SendStop)
            } else {
                (Stage::Deleted, ServiceAction::Delete)
            },
            Stage::RunExists => if b {
                (Stage::RunState, ServiceAction::QueryState)
            } else {
                (Stage::StartExists, ServiceAction::CheckExists)
            },
            _ => if b {
                (Stage::StartSent, ServiceAction::SendStart)
            } else {
                (Stage::FinalWait, ServiceAction::Wait(1000))
            },
        },
        ServiceAnswer::State(s) => match stage {
            Stage::QueryState => (
                Stage::Over,
                ServiceAction::Finish(FlowEnd::Answer(s == SERVICE_RUNNING_STATE)),
            ),
            Stage::StopCheckState => if s == SERVICE_RUNNING_STATE {
                (Stage::StopExists, ServiceAction::CheckExists)
            } else {
                (Stage::RegisteredCheck, ServiceAction::CheckExists)
            },
            _ => if s == SERVICE_RUNNING_STATE {
                (Stage::FinalWait, ServiceAction::Wait(1000))
            } else {
                (Stage::StartExists, ServiceAction::CheckExists)
            },
        },
        ServiceAnswer::Done => match stage {
            Stage::StopSent => (Stage::StopWait, ServiceAction::Wait(1000)),
            Stage::StopWait => (Stage::RegisteredCheck, ServiceAction::CheckExists),
            Stage::Copied => (Stage::OldRegistration, ServiceAction::CheckExists),
            Stage::UnregisterStopSent => (Stage::Deleted, ServiceAction::Delete),
            Stage::Deleted => (Stage::Created, ServiceAction::Create),
            Stage::Created => (Stage::RunExists, ServiceAction::CheckExists),
            Stage::StartSent => (Stage::FinalWait, ServiceAction::Wait(1000)),
            _ => (Stage::Over, ServiceAction::Finish(FlowEnd::Completed)),
        },
    }
}

} // verus!
