use lockdown::daemon::{
    handle_control, lock_decision, running_report, stopped_report, ControlReply, ControlRequest,
    LockDecision, ReportedState, FILE_NOT_FOUND, STOP_DELAY_MS,
};
use lockdown::flow::{
    accepts, begin_running_query, begin_start_flow, flow_step, FlowEnd, ServiceAction,
    ServiceAnswer, Stage, SERVICE_RUNNING_STATE,
};
use lockdown::flow::ServiceAnswer::{Done, Flag, State};

/// Runs a flow from `start` on the given answers; returns the actions in
/// order, the last being the finish.
fn run(start: (Stage, ServiceAction), answers: Vec<ServiceAnswer>) -> Vec<ServiceAction> {
    let (mut stage, action) = start;
    let mut actions = vec![action];
    for answer in answers {
        assert!(accepts(stage, &answer), "{:?} does not take {:?}", stage, answer);
        let (s, a) = flow_step(stage, answer);
        stage = s;
        actions.push(a);
    }
    assert_eq!(stage, Stage::Over);
    actions
}

fn names(actions: &[ServiceAction]) -> Vec<String> {
    actions.iter().map(|a| format!("{:?}", a)).collect()
}

#[test]
fn restart_of_a_running_service() {
    let actions = run(
        begin_start_flow(true),
        vec![Flag(true), State(4), Flag(true), Done, Done, Flag(true), Flag(true), State(1), Flag(true), Done, Done],
    );
    assert_eq!(
        names(&actions),
        vec![
            "CheckExists", "QueryState", "CheckExists", "SendStop", "Wait(1000)", "CheckExists",
            "CheckExists", "QueryState", "CheckExists", "SendStart", "Wait(1000)",
            "Finish(Completed)",
        ]
    );
}

#[test]
fn first_start_registers_the_service() {
    let actions = run(
        begin_start_flow(true),
        vec![Flag(false), Flag(false), Flag(false), Done, Flag(false), Done, Flag(true), State(1), Flag(true), Done, Done],
    );
    assert_eq!(
        names(&actions),
        vec![
            "CheckExists", "CheckExists", "CheckLocation", "CopyExecutable", "CheckExists",
            "Create", "CheckExists", "QueryState", "CheckExists", "SendStart", "Wait(1000)",
            "Finish(Completed)",
        ]
    );
}

#[test]
fn registration_replaces_an_old_one() {
    let actions = run(
        begin_start_flow(false),
        vec![Flag(false), Flag(true), Flag(true), Flag(true), Flag(true), Done, Done, Done, Flag(true), State(SERVICE_RUNNING_STATE), Done],
    );
    assert_eq!(
        names(&actions),
        vec![
            "CheckExists", "CheckLocation", "CheckExists", "CheckExists", "CheckExists",
            "SendStop", "Delete", "Create", "CheckExists", "QueryState", "Wait(1000)",
            "Finish(Completed)",
        ]
    );
}

#[test]
fn failure_ends_the_flow() {
    let (stage, _) = begin_start_flow(true);
    let (stage, action) = flow_step(stage, ServiceAnswer::Flag(true));
    assert!(matches!(action, ServiceAction::QueryState));
    let (stage, action) = flow_step(stage, ServiceAnswer::Failed("access denied".to_string()));
    assert_eq!(stage, Stage::Over);
    match action {
        ServiceAction::Finish(FlowEnd::Failed(e)) => assert_eq!(e, "access denied"),
        other => panic!("unexpected {:?}", other),
    }
    assert!(!accepts(Stage::Over, &ServiceAnswer::Done));
}

#[test]
fn running_query_answers() {
    let a = run(begin_running_query(), vec![Flag(false)]);
    assert!(matches!(a.last(), Some(ServiceAction::Finish(FlowEnd::Answer(false)))));
    let a = run(begin_running_query(), vec![Flag(true), State(4)]);
    assert!(matches!(a.last(), Some(ServiceAction::Finish(FlowEnd::Answer(true)))));
    let a = run(begin_running_query(), vec![Flag(true), State(1)]);
    assert!(matches!(a.last(), Some(ServiceAction::Finish(FlowEnd::Answer(false)))));
}

#[test]
fn answers_of_the_wrong_kind_are_refused() {
    let (stage, _) = begin_running_query();
    assert!(!accepts(stage, &ServiceAnswer::State(4)));
    assert!(!accepts(stage, &ServiceAnswer::Done));
    assert!(accepts(stage, &ServiceAnswer::Failed("x".to_string())));
    assert!(accepts(Stage::QueryState, &ServiceAnswer::State(0)));
}

#[test]
fn control_requests() {
    let d = handle_control(ControlRequest::Interrogate);
    assert_eq!(d.reply, ControlReply::NoError);
    assert!(d.delayed_report.is_none());
    let d = handle_control(ControlRequest::Stop);
    assert_eq!(d.reply, ControlReply::NoError);
    let later = d.delayed_report.expect("a report after a stop");
    assert_eq!(later.delay_ms, 800);
    assert_eq!(STOP_DELAY_MS, 800);
    assert_eq!(later.report, stopped_report());
    let d = handle_control(ControlRequest::Other);
    assert_eq!(d.reply, ControlReply::NotImplemented);
    assert!(d.delayed_report.is_none());
}

#[test]
fn status_reports() {
    let r = running_report();
    assert_eq!(r.state, ReportedState::Running);
    assert!(r.accepts_stop);
    assert_eq!((r.exit_code, r.checkpoint, r.wait_hint_ms), (0, 0, 0));
    let s = stopped_report();
    assert_eq!(s.state, ReportedState::Stopped);
    assert!(!s.accepts_stop);
    assert_eq!((s.exit_code, s.checkpoint, s.wait_hint_ms), (0, 0, 0));
}

#[test]
fn lock_decisions() {
    assert_eq!(FILE_NOT_FOUND, 0x80070002u32 as i32);
    assert_eq!(lock_decision(None), LockDecision::Hold);
    assert_eq!(lock_decision(Some(FILE_NOT_FOUND)), LockDecision::RecordMissing);
    assert_eq!(lock_decision(Some(0x80070005u32 as i32)), LockDecision::Skip);
}

#[test]
fn stopping_a_vanished_service_still_waits() {
    let actions = run(
        begin_start_flow(true),
        vec![Flag(true), State(4), Flag(false), Done, Flag(true), Flag(false), Flag(false), Done],
    );
    assert_eq!(
        names(&actions),
        vec![
            "CheckExists", "QueryState", "CheckExists", "Wait(1000)", "CheckExists",
            "CheckExists", "CheckExists", "Wait(1000)", "Finish(Completed)",
        ]
    );
}

#[test]
fn unregistering_a_stopped_registration() {
    let actions = run(
        begin_start_flow(false),
        vec![Flag(false), Flag(true), Flag(true), Flag(true), Flag(false), Done, Done, Flag(false), Flag(true), Done, Done],
    );
    assert_eq!(
        names(&actions),
        vec![
            "CheckExists", "CheckLocation", "CheckExists", "CheckExists", "CheckExists",
            "Delete", "Create", "CheckExists", "CheckExists", "SendStart", "Wait(1000)",
            "Finish(Completed)",
        ]
    );
}

#[test]
fn a_started_service_is_not_started_again() {
    let actions = run(begin_start_flow(false), vec![Flag(true), Flag(true), State(4), Done]);
    assert_eq!(
        names(&actions),
        vec!["CheckExists", "CheckExists", "QueryState", "Wait(1000)", "Finish(Completed)"]
    );
}
