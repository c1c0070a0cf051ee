use vstd::prelude::*;

use crate::flow::{next, FlowEnd, ServiceAction, ServiceAnswer, Stage, SERVICE_RUNNING_STATE};

verus! {

/// What the outside world reports of one piece of work: a failure, or else
/// the flag or the state that the work reports.
pub struct Reply {
    pub failure: Option<String>,
    pub flag: bool,
    pub state: u32,
}

/// The answer that `reply` gives to `action`.
pub open spec fn answer_to(action: ServiceAction, reply: Reply) -> ServiceAnswer {
    match reply.failure {
        Some(e) => ServiceAnswer::Failed(e),
        None => match action {
            ServiceAction::CheckExists | ServiceAction::CheckLocation => ServiceAnswer::Flag(
                reply.flag,
            ),
            ServiceAction::QueryState => ServiceAnswer::State(reply.state),
            _ => ServiceAnswer::Done,
        },
    }
}

/// How a run of work stands: waiting for a reply, failed, or done with a
/// value (`true` for work that has no value of its own).
pub enum Outcome {
    Pending,
    Failed(String),
    Value(bool),
}

/// A run of work on a list of replies: the work done in order, how many
/// replies it took, and how it stands.
#[verifier::ext_equal]
pub struct Run {
    pub work: Seq<ServiceAction>,
    pub used: nat,
    pub outcome: Outcome,
}

/// A run that does no work and has the value `b`.
pub open spec fn give(b: bool) -> Run {
    Run { work: seq![], used: 0, outcome: Outcome::Value(b) }
}

/// `first`, then, if it ended with a value, `rest`.
pub open spec fn then(first: Run, rest: Run) -> Run {
    match first.outcome {
        Outcome::Value(_) => Run {
            work: first.work + rest.work,
            used: first.used + rest.used,
            outcome: rest.outcome,
        },
        _ => first,
    }
}

/// The value of a run that ended with one.
pub open spec fn value(r: Run) -> bool {
    r.outcome->Value_0
}

/// One piece of work, answered by the first reply.
pub open spec fn ask(action: ServiceAction, replies: Seq<Reply>) -> Run {
    if replies.len() == 0 {
        Run { work: seq![action], used: 0, outcome: Outcome::Pending }
    } else {
        Run {
            work: seq![action],
            used: 1,
            outcome: match replies[0].failure {
                Some(e) => Outcome::Failed(e),
                None => Outcome::Value(
                    match action {
                        ServiceAction::CheckExists | ServiceAction::CheckLocation => replies[0].flag,
                        ServiceAction::QueryState => replies[0].state == SERVICE_RUNNING_STATE,
                        _ => true,
                    },
                ),
            },
        }
    }
}

/// `service_exists`.
pub open spec fn service_exists(rs: Seq<Reply>) -> Run {
    ask(ServiceAction::CheckExists, rs)
}

/// `is_service_running`: not when the service is not registered, else
/// whether its state is `SERVICE_RUNNING`.
pub open spec fn is_service_running(rs: Seq<Reply>) -> Run {
    let e = service_exists(rs);
    then(e, if value(e) { ask(ServiceAction::QueryState, rs.skip(e.used as int)) } else { give(false) })
}

/// `stop_service`: send the stop control when the service is registered.
pub open spec fn stop_service(rs: Seq<Reply>) -> Run {
    let e = service_exists(rs);
    then(e, if value(e) { ask(ServiceAction::SendStop, rs.skip(e.used as int)) } else { give(true) })
}

/// `start_service`: start the service when it is registered.
pub open spec fn start_service(rs: Seq<Reply>) -> Run {
    let e = service_exists(rs);
    then(e, if value(e) { ask(ServiceAction::SendStart, rs.skip(e.used as int)) } else { give(true) })
}

/// `unregister_service`: when the service is registered, stop it and delete it.
pub open spec fn unregister_service(rs: Seq<Reply>) -> Run {
    let e = service_exists(rs);
    let rest = rs.skip(e.used as int);
    then(
        e,
        if value(e) {
            let s = stop_service(rest);
            then(s, ask(ServiceAction::Delete, rest.skip(s.used as int)))
        } else {
            give(true)
        },
    )
}

/// `register_service`: put the executable in place when it is missing,
/// remove an old registration, and create the service.
pub open spec fn register_service(rs: Seq<Reply>) -> Run {
    let l = ask(ServiceAction::CheckLocation, rs);
    let r1 = rs.skip(l.used as int);
    let c = if value(l) { give(true) } else { ask(ServiceAction::CopyExecutable, r1) };
    let r2 = r1.skip(c.used as int);
    let e = service_exists(r2);
    let r3 = r2.skip(e.used as int);
    let u = if value(e) { unregister_service(r3) } else { give(true) };
    let r4 = r3.skip(u.used as int);
    then(l, then(c, then(e, then(u, ask(ServiceAction::Create, r4)))))
}

/// Waiting a second.
pub open spec fn wait_a_second(rs: Seq<Reply>) -> Run {
    ask(ServiceAction::Wait(1000), rs)
}

/// `start_service_flow`: when asked, stop a running service and wait a
/// second; register the service when it is not; start it when it does not
/// run; wait a second.
pub open spec fn start_service_flow(should_stop_service: bool, rs: Seq<Reply>) -> Run {
    let p = if should_stop_service {
        let r = is_service_running(rs);
        let r1 = rs.skip(r.used as int);
        then(
            r,
            if value(r) {
                let s = stop_service(r1);
                then(s, wait_a_second(r1.skip(s.used as int)))
            } else {
                give(true)
            },
        )
    } else {
        give(true)
    };
    let q1 = rs.skip(p.used as int);
    let e = service_exists(q1);
    let q2 = q1.skip(e.used as int);
    let g = if value(e) { give(true) } else { register_service(q2) };
    let q3 = q2.skip(g.used as int);
    let r = is_service_running(q3);
    let q4 = q3.skip(r.used as int);
    let st = if value(r) { give(true) } else { start_service(q4) };
    let q5 = q4.skip(st.used as int);
    then(p, then(e, then(g, then(r, then(st, wait_a_second(q5))))))
}

/// The run of the flow machine from `stage`, whose pending work is `action`,
/// on `replies`.
pub open spec fn machine_run(stage: Stage, action: ServiceAction, replies: Seq<Reply>) -> Run
    decreases replies.len(),
{
    match action {
        ServiceAction::Finish(end) => Run {
            work: seq![],
            used: 0,
            outcome: match end {
                FlowEnd::Completed => Outcome::Value(true),
                FlowEnd::Answer(b) => Outcome::Value(b),
                FlowEnd::Failed(e) => Outcome::Failed(e),
            },
        },
        _ => if replies.len() == 0 {
            Run { work: seq![action], used: 0, outcome: Outcome::Pending }
        } else {
            let (s2, a2) = next(stage, answer_to(action, replies[0]));
            let r = machine_run(s2, a2, replies.drop_first());
            Run { work: seq![action] + r.work, used: r.used + 1, outcome: r.outcome }
        },
    }
}

proof fn lemma_then_assoc(a: Run, b: Run, c: Run)
    ensures
        then(then(a, b), c) =~= then(a, then(b, c)),
{
    if a.outcome is Value && b.outcome is Value {
        assert(a.work + b.work + c.work =~= a.work + (b.work + c.work));
    }
}

proof fn lemma_then_give(x: Run)
    requires
        x.outcome is Value ==> value(x),
    ensures
        then(x, give(true)) =~= x,
{
    assert(x.work + Seq::<ServiceAction>::empty() =~= x.work);
}

proof fn lemma_give_then(b: bool, x: Run)
    ensures
        then(give(b), x) =~= x,
{
    assert(Seq::<ServiceAction>::empty() + x.work =~= x.work);
}

/// One step of the machine: its pending work, then the run from where the
/// reply takes it.
proof fn lemma_step(stage: Stage, action: ServiceAction, rs: Seq<Reply>)
    requires
        !(action is Finish),
    ensures
        machine_run(stage, action, rs) =~= then(
            ask(action, rs),
            machine_run(
                next(stage, answer_to(action, rs[0])).0,
                next(stage, answer_to(action, rs[0])).1,
                rs.skip(1),
            ),
        ),
{
    if rs.len() > 0 {
        assert(rs.drop_first() =~= rs.skip(1));
        let n = next(stage, answer_to(action, rs[0]));
        let r = machine_run(n.0, n.1, rs.skip(1));
        if rs[0].failure is Some {
            assert(r.work =~= Seq::<ServiceAction>::empty());
            assert(seq![action] + r.work =~= seq![action]);
        }
    }
}

proof fn lemma_skip_skip(rs: Seq<Reply>, i: int, j: int)
    requires
        0 <= i,
        0 <= j,
        i + j <= rs.len(),
    ensures
        rs.skip(i).skip(j) =~= rs.skip(i + j),
{
}

proof fn lemma_ask_used(action: ServiceAction, rs: Seq<Reply>)
    ensures
        ask(action, rs).used <= rs.len(),
        ask(action, rs).outcome is Value ==> ask(action, rs).used == 1,
{
}

proof fn lemma_final_wait(rs: Seq<Reply>)
    ensures
        machine_run(Stage::FinalWait, ServiceAction::Wait(1000), rs) =~= wait_a_second(rs),
{
    lemma_step(Stage::FinalWait, ServiceAction::Wait(1000), rs);
    lemma_then_give(ask(ServiceAction::Wait(1000), rs));
}

proof fn lemma_machine_used(stage: Stage, action: ServiceAction, rs: Seq<Reply>)
    ensures
        machine_run(stage, action, rs).used <= rs.len(),
    decreases rs.len(),
{
    if !(action is Finish) && rs.len() > 0 {
        let n = next(stage, answer_to(action, rs[0]));
        lemma_machine_used(n.0, n.1, rs.drop_first());
    }
}

/// The rest of the start flow once the service is being started.
spec fn start_tail(rs: Seq<Reply>) -> Run {
    let st = start_service(rs);
    then(st, wait_a_second(rs.skip(st.used as int)))
}

/// The rest of the start flow once it asks whether the service runs.
spec fn run_tail(rs: Seq<Reply>) -> Run {
    let r = is_service_running(rs);
    let q = rs.skip(r.used as int);
    let st = if value(r) { give(true) } else { start_service(q) };
    then(r, then(st, wait_a_second(q.skip(st.used as int))))
}

/// The rest of the start flow once the service is being created.
spec fn create_tail(rs: Seq<Reply>) -> Run {
    let c = ask(ServiceAction::Create, rs);
    then(c, run_tail(rs.skip(c.used as int)))
}

/// The rest of the start flow once the old registration is being deleted.
spec fn delete_tail(rs: Seq<Reply>) -> Run {
    let d = ask(ServiceAction::Delete, rs);
    then(d, create_tail(rs.skip(d.used as int)))
}

/// The rest of the start flow once it asks for an old registration.
#[verifier::opaque]
spec fn old_registration_tail(rs: Seq<Reply>) -> Run {
    let e = service_exists(rs);
    let r3 = rs.skip(e.used as int);
    let u = if value(e) { unregister_service(r3) } else { give(true) };
    then(e, then(u, create_tail(r3.skip(u.used as int))))
}

/// The rest of the start flow once it asks whether the service is registered.
spec fn registered_tail(rs: Seq<Reply>) -> Run {
    let e = service_exists(rs);
    let q2 = rs.skip(e.used as int);
    let g = if value(e) { give(true) } else { register_service(q2) };
    then(e, then(g, run_tail(q2.skip(g.used as int))))
}

/// The rest of the start flow once it waits after stopping the service.
spec fn stop_wait_tail(rs: Seq<Reply>) -> Run {
    let w = wait_a_second(rs);
    then(w, registered_tail(rs.skip(w.used as int)))
}

proof fn lemma_used_service_exists(rs: Seq<Reply>)
    ensures
        service_exists(rs).used <= rs.len(),
{
}

proof fn lemma_start_sent(rs: Seq<Reply>)
    ensures
        machine_run(Stage::StartSent, ServiceAction::SendStart, rs) =~= then(
            ask(ServiceAction::SendStart, rs),
            wait_a_second(rs.skip(ask(ServiceAction::SendStart, rs).used as int)),
        ),
{
    lemma_step(Stage::StartSent, ServiceAction::SendStart, rs);
    lemma_final_wait(rs.skip(1));
}

proof fn lemma_start_exists(rs: Seq<Reply>)
    ensures
        machine_run(Stage::StartExists, ServiceAction::CheckExists, rs) =~= start_tail(rs),
{
    lemma_step(Stage::StartExists, ServiceAction::CheckExists, rs);
    let e = service_exists(rs);
    if e.outcome is Value {
        let rs1 = rs.skip(1);
        if value(e) {
            lemma_start_sent(rs1);
            let a = ask(ServiceAction::SendStart, rs1);
            lemma_then_assoc(e, a, wait_a_second(rs1.skip(a.used as int)));
            if a.outcome is Value {
                lemma_skip_skip(rs, 1, 1);
            }
        } else {
            lemma_final_wait(rs1);
            lemma_give_then(true, wait_a_second(rs1));
            lemma_then_assoc(e, give(true), wait_a_second(rs1));
        }
    }
}

/// Two runs in a row, followed by the rest on the replies that they leave.
proof fn lemma_then_then(a: Run, b: Run, rs: Seq<Reply>, f: spec_fn(Seq<Reply>) -> Run)
    requires
        a.used <= rs.len(),
        b.used <= rs.len() - a.used,
    ensures
        then(then(a, b), f(rs.skip(then(a, b).used as int))) =~= then(
            a,
            then(b, f(rs.skip(a.used as int).skip(b.used as int))),
        ),
{
    lemma_then_assoc(a, b, f(rs.skip(then(a, b).used as int)));
    if a.outcome is Value && b.outcome is Value {
        lemma_skip_skip(rs, a.used as int, b.used as int);
    }
}

proof fn lemma_used_stop(rs: Seq<Reply>)
    ensures
        stop_service(rs).used <= rs.len(),
{
}

proof fn lemma_used_start(rs: Seq<Reply>)
    ensures
        start_service(rs).used <= rs.len(),
{
}

proof fn lemma_used_running(rs: Seq<Reply>)
    ensures
        is_service_running(rs).used <= rs.len(),
{
}

proof fn lemma_used_unregister(rs: Seq<Reply>)
    ensures
        unregister_service(rs).used <= rs.len(),
{
    let e = service_exists(rs);
    if e.outcome is Value && value(e) {
        let rest = rs.skip(1);
        lemma_used_stop(rest);
        let st = stop_service(rest);
        lemma_ask_used(ServiceAction::Delete, rest.skip(st.used as int));
    }
}

proof fn lemma_used_register(rs: Seq<Reply>)
    ensures
        register_service(rs).used <= rs.len(),
{
    let l = ask(ServiceAction::CheckLocation, rs);
    lemma_ask_used(ServiceAction::CheckLocation, rs);
    let r1 = rs.skip(l.used as int);
    let c = if value(l) { give(true) } else { ask(ServiceAction::CopyExecutable, r1) };
    lemma_ask_used(ServiceAction::CopyExecutable, r1);
    let r2 = r1.skip(c.used as int);
    let e = service_exists(r2);
    let r3 = r2.skip(e.used as int);
    let u = if value(e) { unregister_service(r3) } else { give(true) };
    lemma_used_unregister(r3);
    let r4 = r3.skip(u.used as int);
    lemma_ask_used(ServiceAction::Create, r4);
}

proof fn lemma_run_state(rs: Seq<Reply>)
    ensures
        machine_run(Stage::RunState, ServiceAction::QueryState, rs) =~= ({
            let a = ask(ServiceAction::QueryState, rs);
            let q = rs.skip(a.used as int);
            then(a, if value(a) { wait_a_second(q) } else { start_tail(q) })
        }),
{
    lemma_step(Stage::RunState, ServiceAction::QueryState, rs);
    lemma_final_wait(rs.skip(1));
    lemma_start_exists(rs.skip(1));
}

proof fn lemma_run_exists(rs: Seq<Reply>)
    ensures
        machine_run(Stage::RunExists, ServiceAction::CheckExists, rs) =~= run_tail(rs),
{
    lemma_step(Stage::RunExists, ServiceAction::CheckExists, rs);
    let e = service_exists(rs);
    if e.outcome is Value {
        let rs1 = rs.skip(1);
        if value(e) {
            lemma_run_state(rs1);
            let a = ask(ServiceAction::QueryState, rs1);
            if a.outcome is Value {
                lemma_skip_skip(rs, 1, 1);
                let q = rs1.skip(1);
                if value(a) {
                    lemma_then_assoc(e, a, wait_a_second(q));
                    lemma_give_then(true, wait_a_second(q));
                    lemma_then_assoc(then(e, a), give(true), wait_a_second(q));
                } else {
                    lemma_then_assoc(e, a, start_tail(q));
                }
            }
        } else {
            lemma_start_exists(rs1);
            lemma_then_assoc(e, give(false), start_tail(rs1));
            lemma_give_then(false, start_tail(rs1));
        }
    }
}

proof fn lemma_created(rs: Seq<Reply>)
    ensures
        machine_run(Stage::Created, ServiceAction::Create, rs) =~= create_tail(rs),
{
    lemma_step(Stage::Created, ServiceAction::Create, rs);
    lemma_run_exists(rs.skip(1));
}

proof fn lemma_deleted(rs: Seq<Reply>)
    ensures
        machine_run(Stage::Deleted, ServiceAction::Delete, rs) =~= delete_tail(rs),
{
    lemma_step(Stage::Deleted, ServiceAction::Delete, rs);
    lemma_created(rs.skip(1));
}

proof fn lemma_unregister_stop_sent(rs: Seq<Reply>)
    ensures
        machine_run(Stage::UnregisterStopSent, ServiceAction::SendStop, rs) =~= ({
            let a = ask(ServiceAction::SendStop, rs);
            then(a, delete_tail(rs.skip(a.used as int)))
        }),
{
    lemma_step(Stage::UnregisterStopSent, ServiceAction::SendStop, rs);
    lemma_deleted(rs.skip(1));
}

proof fn lemma_unregister_stop_exists(rs: Seq<Reply>)
    ensures
        machine_run(Stage::UnregisterStopExists, ServiceAction::CheckExists, rs) =~= ({
            let s = stop_service(rs);
            then(s, delete_tail(rs.skip(s.used as int)))
        }),
{
    lemma_step(Stage::UnregisterStopExists, ServiceAction::CheckExists, rs);
    let e = service_exists(rs);
    if e.outcome is Value {
        let rs1 = rs.skip(1);
        if value(e) {
            lemma_unregister_stop_sent(rs1);
            let a = ask(ServiceAction::SendStop, rs1);
            lemma_then_assoc(e, a, delete_tail(rs1.skip(a.used as int)));
            if a.outcome is Value {
                lemma_skip_skip(rs, 1, 1);
            }
        } else {
            lemma_deleted(rs1);
            lemma_give_then(true, delete_tail(rs1));
            lemma_then_assoc(e, give(true), delete_tail(rs1));
        }
    }
}

proof fn lemma_unregister_exists(rs: Seq<Reply>)
    ensures
        machine_run(Stage::UnregisterExists, ServiceAction::CheckExists, rs) =~= ({
            let u = unregister_service(rs);
            then(u, create_tail(rs.skip(u.used as int)))
        }),
{
    lemma_step(Stage::UnregisterExists, ServiceAction::CheckExists, rs);
    let e = service_exists(rs);
    if e.outcome is Value {
        let rs1 = rs.skip(1);
        if value(e) {
            lemma_unregister_stop_exists(rs1);
            let st = stop_service(rs1);
            lemma_used_stop(rs1);
            let d = ask(ServiceAction::Delete, rs1.skip(st.used as int));
            lemma_ask_used(ServiceAction::Delete, rs1.skip(st.used as int));
            let f = |x: Seq<Reply>| create_tail(x);
            lemma_then_then(st, d, rs1, f);
            lemma_then_then(e, then(st, d), rs, f);
        } else {
            lemma_created(rs1);
            lemma_give_then(true, create_tail(rs1));
            lemma_then_assoc(e, give(true), create_tail(rs1));
        }
    }
}

proof fn lemma_old_registration(rs: Seq<Reply>)
    ensures
        machine_run(Stage::OldRegistration, ServiceAction::CheckExists, rs)
            =~= old_registration_tail(rs),
{
    reveal(old_registration_tail);
    lemma_step(Stage::OldRegistration, ServiceAction::CheckExists, rs);
    let e = service_exists(rs);
    if e.outcome is Value {
        let rs1 = rs.skip(1);
        if value(e) {
            lemma_unregister_exists(rs1);
        } else {
            lemma_created(rs1);
            lemma_give_then(true, create_tail(rs1));
        }
    }
}

proof fn lemma_copied(rs: Seq<Reply>)
    ensures
        machine_run(Stage::Copied, ServiceAction::CopyExecutable, rs) =~= ({
            let c = ask(ServiceAction::CopyExecutable, rs);
            then(c, old_registration_tail(rs.skip(c.used as int)))
        }),
{
    lemma_step(Stage::Copied, ServiceAction::CopyExecutable, rs);
    lemma_old_registration(rs.skip(1));
}

proof fn lemma_location_check(rs: Seq<Reply>)
    ensures
        machine_run(Stage::LocationCheck, ServiceAction::CheckLocation, rs) =~= ({
            let l = ask(ServiceAction::CheckLocation, rs);
            let r1 = rs.skip(l.used as int);
            let c = if value(l) { give(true) } else { ask(ServiceAction::CopyExecutable, r1) };
            then(l, then(c, old_registration_tail(r1.skip(c.used as int))))
        }),
{
    lemma_step(Stage::LocationCheck, ServiceAction::CheckLocation, rs);
    let l = ask(ServiceAction::CheckLocation, rs);
    if l.outcome is Value {
        let r1 = rs.skip(1);
        if value(l) {
            lemma_old_registration(r1);
            lemma_give_then(true, old_registration_tail(r1));
            assert(r1.skip(0) =~= r1);
        } else {
            lemma_copied(r1);
        }
    }
}

proof fn lemma_register_then(rs: Seq<Reply>)
    ensures
        ({
            let g = register_service(rs);
            then(g, run_tail(rs.skip(g.used as int)))
        }) =~= ({
            let l = ask(ServiceAction::CheckLocation, rs);
            let r1 = rs.skip(l.used as int);
            let c = if value(l) { give(true) } else { ask(ServiceAction::CopyExecutable, r1) };
            then(l, then(c, old_registration_tail(r1.skip(c.used as int))))
        }),
{
    reveal(old_registration_tail);
    let f = |x: Seq<Reply>| run_tail(x);
    let l = ask(ServiceAction::CheckLocation, rs);
    lemma_ask_used(ServiceAction::CheckLocation, rs);
    let r1 = rs.skip(l.used as int);
    let c = if value(l) { give(true) } else { ask(ServiceAction::CopyExecutable, r1) };
    lemma_ask_used(ServiceAction::CopyExecutable, r1);
    let r2 = r1.skip(c.used as int);
    let e = service_exists(r2);
    let r3 = r2.skip(e.used as int);
    let u = if value(e) { unregister_service(r3) } else { give(true) };
    lemma_used_unregister(r3);
    let r4 = r3.skip(u.used as int);
    let cr = ask(ServiceAction::Create, r4);
    lemma_ask_used(ServiceAction::Create, r4);
    let x1 = then(u, cr);
    lemma_then_then(u, cr, r3, f);
    let x2 = then(e, x1);
    lemma_then_then(e, x1, r2, f);
    let x3 = then(c, x2);
    lemma_then_then(c, x2, r1, f);
    lemma_then_then(l, x3, rs, f);
}

proof fn lemma_registered_check(rs: Seq<Reply>)
    ensures
        machine_run(Stage::RegisteredCheck, ServiceAction::CheckExists, rs) =~= registered_tail(
            rs,
        ),
{
    lemma_step(Stage::RegisteredCheck, ServiceAction::CheckExists, rs);
    let e = service_exists(rs);
    if e.outcome is Value {
        let rs1 = rs.skip(1);
        if value(e) {
            lemma_run_exists(rs1);
            lemma_give_then(true, run_tail(rs1));
            assert(rs1.skip(0) =~= rs1);
        } else {
            lemma_location_check(rs1);
            lemma_register_then(rs1);
        }
    }
}

proof fn lemma_stop_wait(rs: Seq<Reply>)
    ensures
        machine_run(Stage::StopWait, ServiceAction::Wait(1000), rs) =~= stop_wait_tail(rs),
{
    lemma_step(Stage::StopWait, ServiceAction::Wait(1000), rs);
    lemma_registered_check(rs.skip(1));
}

proof fn lemma_stop_sent(rs: Seq<Reply>)
    ensures
        machine_run(Stage::StopSent, ServiceAction::SendStop, rs) =~= ({
            let a = ask(ServiceAction::SendStop, rs);
            then(a, stop_wait_tail(rs.skip(a.used as int)))
        }),
{
    lemma_step(Stage::StopSent, ServiceAction::SendStop, rs);
    lemma_stop_wait(rs.skip(1));
}

proof fn lemma_stop_exists(rs: Seq<Reply>)
    ensures
        machine_run(Stage::StopExists, ServiceAction::CheckExists, rs) =~= ({
            let s = stop_service(rs);
            then(s, stop_wait_tail(rs.skip(s.used as int)))
        }),
{
    lemma_step(Stage::StopExists, ServiceAction::CheckExists, rs);
    let e = service_exists(rs);
    if e.outcome is Value {
        let rs1 = rs.skip(1);
        if value(e) {
            lemma_stop_sent(rs1);
            let a = ask(ServiceAction::SendStop, rs1);
            lemma_then_assoc(e, a, stop_wait_tail(rs1.skip(a.used as int)));
            if a.outcome is Value {
                lemma_skip_skip(rs, 1, 1);
            }
        } else {
            lemma_stop_wait(rs1);
            lemma_give_then(true, stop_wait_tail(rs1));
            lemma_then_assoc(e, give(true), stop_wait_tail(rs1));
        }
    }
}

proof fn lemma_stop_check_state(rs: Seq<Reply>)
    ensures
        machine_run(Stage::StopCheckState, ServiceAction::QueryState, rs) =~= ({
            let q = ask(ServiceAction::QueryState, rs);
            let r1 = rs.skip(q.used as int);
            then(
                q,
                if value(q) {
                    let s = stop_service(r1);
                    then(s, stop_wait_tail(r1.skip(s.used as int)))
                } else {
                    registered_tail(r1)
                },
            )
        }),
{
    lemma_step(Stage::StopCheckState, ServiceAction::QueryState, rs);
    lemma_stop_exists(rs.skip(1));
    lemma_registered_check(rs.skip(1));
}

proof fn lemma_flow_shape(should_stop_service: bool, rs: Seq<Reply>)
    ensures
        start_service_flow(should_stop_service, rs) =~= ({
            let p = if should_stop_service {
                let r = is_service_running(rs);
                let r1 = rs.skip(r.used as int);
                then(
                    r,
                    if value(r) {
                        let s = stop_service(r1);
                        then(s, wait_a_second(r1.skip(s.used as int)))
                    } else {
                        give(true)
                    },
                )
            } else {
                give(true)
            };
            then(p, registered_tail(rs.skip(p.used as int)))
        }),
{
}

proof fn lemma_stop_check_exists(rs: Seq<Reply>)
    ensures
        machine_run(Stage::StopCheckExists, ServiceAction::CheckExists, rs) =~= start_service_flow(
            true,
            rs,
        ),
{
    lemma_flow_shape(true, rs);
    lemma_step(Stage::StopCheckExists, ServiceAction::CheckExists, rs);
    let e = service_exists(rs);
    if e.outcome is Value {
        let rs1 = rs.skip(1);
        if value(e) {
            lemma_stop_check_state(rs1);
            let q = ask(ServiceAction::QueryState, rs1);
            if q.outcome is Value {
                lemma_skip_skip(rs, 1, 1);
                let r1 = rs1.skip(1);
                let eq = then(e, q);
                if value(q) {
                    let st = stop_service(r1);
                    lemma_used_stop(r1);
                    let w = wait_a_second(r1.skip(st.used as int));
                    lemma_ask_used(ServiceAction::Wait(1000), r1.skip(st.used as int));
                    let b = then(st, w);
                    let f = |x: Seq<Reply>| registered_tail(x);
                    lemma_then_then(eq, b, rs, f);
                    lemma_then_then(st, w, r1, f);
                    lemma_then_assoc(e, q, then(b, f(r1.skip(b.used as int))));
                } else {
                    lemma_then_assoc(eq, give(true), registered_tail(r1));
                    lemma_give_then(true, registered_tail(r1));
                    lemma_then_assoc(e, q, registered_tail(r1));
                }
            }
        } else {
            lemma_registered_check(rs1);
        }
    }
}

/// The machine's run from where the start flow begins.
proof fn lemma_start_flow(should_stop_service: bool, rs: Seq<Reply>)
    ensures
        machine_run(
            if should_stop_service {
                Stage::StopCheckExists
            } else {
                Stage::RegisteredCheck
            },
            ServiceAction::CheckExists,
            rs,
        ) =~= start_service_flow(should_stop_service, rs),
{
    if should_stop_service {
        lemma_stop_check_exists(rs);
    } else {
        lemma_flow_shape(false, rs);
        lemma_registered_check(rs);
        lemma_give_then(true, registered_tail(rs));
        assert(rs.skip(0) =~= rs);
    }
}

proof fn lemma_query_state(rs: Seq<Reply>)
    ensures
        machine_run(Stage::QueryState, ServiceAction::QueryState, rs) =~= ask(
            ServiceAction::QueryState,
            rs,
        ),
{
    lemma_step(Stage::QueryState, ServiceAction::QueryState, rs);
    let q = ask(ServiceAction::QueryState, rs);
    assert(q.work + Seq::<ServiceAction>::empty() =~= q.work);
}

/// The flow machine runs the start flow as the procedures do: on any
/// replies of the outside world, starting the flow with `begin_start_flow`
/// and stepping it with `flow_step` does the same work, in the same order,
/// as `start_service_flow` with the nested `is_service_running`,
/// `stop_service`, `register_service` (and in it `unregister_service`) and
/// `start_service`, and ends the same way.
pub proof fn law_start_flow_runs_the_procedures(should_stop_service: bool, replies: Seq<Reply>)
    ensures
        machine_run(
            if should_stop_service {
                Stage::StopCheckExists
            } else {
                Stage::RegisteredCheck
            },
            ServiceAction::CheckExists,
            replies,
        ) == start_service_flow(should_stop_service, replies),
{
    lemma_start_flow(should_stop_service, replies);
}

/// The flow machine answers the running query as `is_service_running` does.
pub proof fn law_running_query_runs_the_procedure(replies: Seq<Reply>)
    ensures
        machine_run(Stage::QueryExists, ServiceAction::CheckExists, replies)
            == is_service_running(replies),
{
    lemma_step(Stage::QueryExists, ServiceAction::CheckExists, replies);
    lemma_query_state(replies.skip(1));
    let e = service_exists(replies);
    if e.outcome is Value && !value(e) {
        assert(then(e, give(false)).work =~= e.work);
    }
    assert(machine_run(Stage::QueryExists, ServiceAction::CheckExists, replies)
        =~= is_service_running(replies));
}

} // verus!
