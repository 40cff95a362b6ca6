//! Virtual users: their messages, the calls that a task makes, and what counts
//! as a failure.
use crate::decimal::to_decimal;
use vstd::prelude::*;

verus! {

// ── Results of one HTTP call ──────────────────────────────────────────────────

/// What one HTTP call of a task came to.
#[derive(Debug)]
pub struct CallResult {
    pub elapsed_ms: u64,
    pub status_code: u16,
    pub success: bool,
    pub error: Option<String>,
}

/// What a call with this latency and status comes to, unless it is the last of
/// its task and the task's check failed.
pub open spec fn is_call_result(r: CallResult, call: (u64, u16), check_failed: bool) -> bool {
    &&& r.elapsed_ms == call.0
    &&& r.status_code == call.1
    &&& r.success == (call.1 < 400 && !check_failed)
    &&& r.error is None
}

/// The results of the calls that a task made: each is measured on its own, and
/// a failed check counts against the last one.
pub open spec fn are_task_results(
    rs: Seq<CallResult>,
    calls: Seq<(u64, u16)>,
    check_failed: bool,
) -> bool {
    &&& rs.len() == calls.len()
    &&& forall|i: int|
        0 <= i < rs.len() ==> is_call_result(
            #[trigger] rs[i],
            calls[i],
            check_failed && i == calls.len() - 1,
        )
}

/// The failure of a task that raised `error`: it has no latency.
pub open spec fn is_task_failure(r: CallResult, error: Seq<char>) -> bool {
    &&& r.elapsed_ms == 0
    &&& r.status_code == 500
    &&& !r.success
    &&& r.error matches Some(e) && e@ == error
}

/// The results of a task that raised `error`: each call that it made until then
/// is measured on its own, and the failure follows. A call that got no answer,
/// which has the status 0, has failed.
pub open spec fn are_raised_results(
    rs: Seq<CallResult>,
    calls: Seq<(u64, u16)>,
    error: Seq<char>,
) -> bool {
    &&& rs.len() == calls.len() + 1
    &&& forall|i: int|
        0 <= i < calls.len() ==> is_call_result(#[trigger] rs[i], calls[i], calls[i].1 == 0)
    &&& is_task_failure(rs.last(), error)
}

/// The results of the calls that a task made.
pub fn task_results(calls: &Vec<(u64, u16)>, check_failed: bool) -> (rs: Vec<CallResult>)
    ensures
        are_task_results(rs@, calls@, check_failed),
{
    let n: usize = calls.len();
    let mut rs: Vec<CallResult> = Vec::new();
    let mut i: usize = 0;
    while i < n
        invariant
            n == calls@.len(),
            i <= n,
            rs@.len() == i,
            forall|j: int|
                0 <= j < i ==> is_call_result(
                    #[trigger] rs@[j],
                    calls@[j],
                    check_failed && j == calls@.len() - 1,
                ),
        decreases n - i,
    {
        let (elapsed_ms, status) = calls[i];
        let success = if i == n - 1 && check_failed {
            false
        } else {
            status < 400
        };
        rs.push(CallResult { elapsed_ms, status_code: status, success, error: None });
        i = i + 1;
    }
    rs
}

/// The results of a task that raised an error.
pub fn raised_results(calls: &Vec<(u64, u16)>, error: String) -> (rs: Vec<CallResult>)
    ensures
        are_raised_results(rs@, calls@, error@),
{
    let mut rs: Vec<CallResult> = Vec::new();
    let mut i: usize = 0;
    while i < calls.len()
        invariant
            i <= calls@.len(),
            rs@.len() == i,
            forall|j: int|
                0 <= j < i ==> is_call_result(#[trigger] rs@[j], calls@[j], calls@[j].1 == 0),
        decreases calls@.len() - i,
    {
        let (elapsed_ms, status) = calls[i];
        let success = status != 0 && status < 400;
        rs.push(CallResult { elapsed_ms, status_code: status, success, error: None });
        i = i + 1;
    }
    rs.push(CallResult { elapsed_ms: 0, status_code: 500, success: false, error: Some(error) });
    rs
}

/// The name of the check of a task.
pub open spec fn check_method(task: Seq<char>) -> Seq<char> {
    "check_"@ + task
}

/// The name of the check of a task.
pub fn check_name(task: &str) -> (r: String)
    ensures
        r@ == check_method(task@),
{
    let mut r = "check_".to_string();
    r.append(task);
    r
}

/// The status that the check of a task is called with: none where there is no
/// check, or where the task got no response.
pub fn status_to_check(has_check: bool, last_status: Option<u16>) -> (r: Option<u16>)
    ensures
        has_check ==> r == last_status,
        !has_check ==> r is None,
{
    if has_check {
        last_status
    } else {
        None
    }
}

/// What a task came to: `raised` is the error that it raised, `calls` are its
/// HTTP calls in order, `check_error` is the error that its check raised.
pub fn finish_task(
    raised: Option<String>,
    calls: &Vec<(u64, u16)>,
    check_error: Option<String>,
) -> (rs: Vec<CallResult>)
    ensures
        raised matches Some(e) ==> are_raised_results(rs@, calls@, e@),
        raised is None ==> are_task_results(rs@, calls@, check_error is Some),
{
    match raised {
        Some(e) => raised_results(calls, e),
        None => task_results(calls, check_error.is_some()),
    }
}

/// Of the calls of a task that did not raise, a failed check changes the last
/// one alone: every other call succeeds or fails by its status.
pub proof fn check_affects_last_call(
    rs: Seq<CallResult>,
    passed: Seq<CallResult>,
    calls: Seq<(u64, u16)>,
)
    requires
        are_task_results(rs, calls, true),
        are_task_results(passed, calls, false),
    ensures
        forall|i: int| 0 <= i < calls.len() - 1 ==> (#[trigger] rs[i]).success == passed[i].success,
        calls.len() > 0 ==> !rs.last().success,
        forall|i: int| 0 <= i < calls.len() ==> (#[trigger] passed[i]).success == (calls[i].1 < 400),
{
    if calls.len() > 0 {
        assert(is_call_result(rs[calls.len() - 1], calls[calls.len() - 1], true));
    }
    assert forall|i: int| 0 <= i < calls.len() - 1 implies (#[trigger] rs[i]).success
        == passed[i].success by {
        assert(is_call_result(passed[i], calls[i], false));
    }
}

/// Whether a task raises or not, every call that it made is measured: its latency
/// and its status stand in the results, in order.
pub proof fn every_call_is_measured(
    rs: Seq<CallResult>,
    calls: Seq<(u64, u16)>,
    check_failed: bool,
    error: Seq<char>,
)
    requires
        are_task_results(rs, calls, check_failed) || are_raised_results(rs, calls, error),
    ensures
        rs.len() >= calls.len(),
        forall|i: int|
            0 <= i < calls.len() ==> (#[trigger] rs[i]).elapsed_ms == calls[i].0
                && rs[i].status_code == calls[i].1,
{
}

// ── Messages to a virtual user ────────────────────────────────────────────────

/// A message to the thread of a virtual user.
#[derive(Debug)]
pub enum VUserMsg {
    OnStart,
    Task { name: String },
    OnStop,
    Shutdown,
}

/// What the thread of a virtual user does next.
#[derive(Debug)]
pub enum VUserAction {
    /// Call `on_start` and go on.
    Start,
    /// Run the task and go on.
    Run { name: String },
    /// Call `on_stop` and end.
    Stop,
    /// End.
    Exit,
}

/// What the thread does with the next message; a closed channel ends it.
pub fn vuser_action(msg: Option<VUserMsg>) -> (a: VUserAction)
    ensures
        msg is None ==> a is Exit,
        msg matches Some(VUserMsg::Shutdown) ==> a is Exit,
        msg matches Some(VUserMsg::OnStart) ==> a is Start,
        msg matches Some(VUserMsg::OnStop) ==> a is Stop,
        msg matches Some(VUserMsg::Task { name }) ==> (a matches VUserAction::Run { name: n } && n
            == name),
{
    match msg {
        None => VUserAction::Exit,
        Some(VUserMsg::Shutdown) => VUserAction::Exit,
        Some(VUserMsg::OnStart) => VUserAction::Start,
        Some(VUserMsg::OnStop) => VUserAction::Stop,
        Some(VUserMsg::Task { name }) => VUserAction::Run { name },
    }
}

impl VUserAction {
    /// Whether the thread ends after this action.
    pub fn is_last(&self) -> (r: bool)
        ensures
            r == (self is Stop || self is Exit),
    {
        match self {
            VUserAction::Stop => true,
            VUserAction::Exit => true,
            _ => false,
        }
    }
}

// ── Coroutines ────────────────────────────────────────────────────────────────

/// What the first step of a coroutine came to.
#[derive(Debug)]
pub enum CoroStep {
    /// It ran to its end.
    Finished,
    /// It waits for something.
    Yielded,
    /// It raised an error.
    Raised { error: String },
}

/// How a call is brought to its end.
#[derive(Debug)]
pub enum CoroAction {
    /// Nothing is left to do.
    Return,
    /// Run the coroutine on the virtual user's event loop.
    RunOnLoop,
    /// Run the coroutine on a new event loop.
    RunFresh,
    /// The call failed.
    Fail { error: String },
}

/// How a coroutine is brought to its end after its first step.
pub fn coro_action(step: CoroStep, has_loop: bool) -> (a: CoroAction)
    ensures
        step is Finished ==> a is Return,
        step is Yielded && has_loop ==> a is RunOnLoop,
        step is Yielded && !has_loop ==> a is RunFresh,
        step matches CoroStep::Raised { error } ==> (a matches CoroAction::Fail { error: e } && e
            == error),
{
    match step {
        CoroStep::Finished => CoroAction::Return,
        CoroStep::Yielded => {
            if has_loop {
                CoroAction::RunOnLoop
            } else {
                CoroAction::RunFresh
            }
        },
        CoroStep::Raised { error } => CoroAction::Fail { error },
    }
}

// ── Lifecycle hooks ───────────────────────────────────────────────────────────

/// The lifecycle hooks that a scenario defines.
#[derive(Clone, Copy, Debug, PartialEq, Eq, Structural)]
pub struct Hooks {
    pub has_on_start: bool,
    pub has_on_stop: bool,
}

impl Hooks {
    /// The message that starts a virtual user, if its scenario has a hook for it.
    pub fn start_message(&self) -> (m: Option<VUserMsg>)
        ensures
            self.has_on_start ==> m matches Some(VUserMsg::OnStart),
            !self.has_on_start ==> m is None,
    {
        if self.has_on_start {
            Some(VUserMsg::OnStart)
        } else {
            None
        }
    }

    /// The message that stops a virtual user. Only a hook sends a reply.
    pub fn stop_message(&self) -> (m: VUserMsg)
        ensures
            self.has_on_stop ==> m is OnStop,
            !self.has_on_stop ==> m is Shutdown,
    {
        if self.has_on_stop {
            VUserMsg::OnStop
        } else {
            VUserMsg::Shutdown
        }
    }
}

/// Why a virtual user did not answer.
#[derive(Clone, Copy, Debug, PartialEq, Eq, Structural)]
pub enum VUserFault {
    ExitedBeforeStart,
    StartReplyDropped,
    Exited,
    TaskReplyDropped,
    ExitedBeforeStop,
    StopReplyDropped,
}

/// What is said of a fault.
pub open spec fn fault_text(f: VUserFault) -> Seq<char> {
    match f {
        VUserFault::ExitedBeforeStart => " thread exited before on_start"@,
        VUserFault::StartReplyDropped => " on_start reply dropped"@,
        VUserFault::Exited => " thread exited"@,
        VUserFault::TaskReplyDropped => " task reply dropped"@,
        VUserFault::ExitedBeforeStop => " thread exited before on_stop"@,
        VUserFault::StopReplyDropped => " on_stop reply dropped"@,
    }
}

/// The message about a virtual user that did not answer.
pub fn fault_message(idx: usize, fault: VUserFault) -> (m: String)
    ensures
        m@ == "VUser "@ + crate::decimal::decimal(idx as nat) + fault_text(fault),
{
    let mut m = "VUser ".to_string();
    let number = to_decimal(idx as u128);
    m.append(number.as_str());
    let text = match fault {
        VUserFault::ExitedBeforeStart => " thread exited before on_start",
        VUserFault::StartReplyDropped => " on_start reply dropped",
        VUserFault::Exited => " thread exited",
        VUserFault::TaskReplyDropped => " task reply dropped",
        VUserFault::ExitedBeforeStop => " thread exited before on_stop",
        VUserFault::StopReplyDropped => " on_stop reply dropped",
    };
    m.append(text);
    m
}

// ── Laws of results ───────────────────────────────────────────────────────────

/// A task that raised an error: every call until then succeeds exactly where it
/// got an answer with a status below 400, and one failure follows, without latency
/// and with the text of the error.
pub proof fn raised_tasks_fail_last(rs: Seq<CallResult>, calls: Seq<(u64, u16)>, error: Seq<char>)
    requires
        are_raised_results(rs, calls, error),
    ensures
        rs.len() == calls.len() + 1,
        forall|i: int|
            0 <= i < calls.len() ==> {
                &&& (#[trigger] rs[i]).elapsed_ms == calls[i].0
                &&& rs[i].status_code == calls[i].1
                &&& rs[i].success == (0 < calls[i].1 < 400)
                &&& rs[i].error is None
            },
        !rs.last().success,
        rs.last().elapsed_ms == 0,
        rs.last().status_code == 500,
        rs.last().error is Some && rs.last().error->0@ == error,
{
}

/// A task that ran to its end: there is one result for each call and no more, each
/// with the latency and the status of its call, and it succeeds exactly where its
/// status is below 400, but for the last one of a task whose check failed.
pub proof fn finished_tasks_count_their_calls(
    rs: Seq<CallResult>,
    calls: Seq<(u64, u16)>,
    check_failed: bool,
)
    requires
        are_task_results(rs, calls, check_failed),
    ensures
        rs.len() == calls.len(),
        forall|i: int|
            0 <= i < calls.len() ==> {
                &&& (#[trigger] rs[i]).elapsed_ms == calls[i].0
                &&& rs[i].status_code == calls[i].1
                &&& rs[i].error is None
                &&& i < calls.len() - 1 || !check_failed ==> rs[i].success == (calls[i].1 < 400)
                &&& i == calls.len() - 1 && check_failed ==> !rs[i].success
            },
{
}

/// The check of a task has its name with `check_` in front.
pub proof fn checks_go_by_their_tasks(task: Seq<char>)
    ensures
        check_method(task).len() == task.len() + 6,
        check_method(task).take(6) == seq!['c', 'h', 'e', 'c', 'k', '_'],
        check_method(task).skip(6) == task,
{
    reveal_strlit("check_");
    assert(check_method(task).take(6) =~= seq!['c', 'h', 'e', 'c', 'k', '_']);
    assert(check_method(task).skip(6) =~= task);
}

/// What is said of a fault tells which one it is.
pub proof fn faults_can_be_told_apart(f: VUserFault)
    ensures
        fault_text(f) == " thread exited before on_start"@ <==> f == VUserFault::ExitedBeforeStart,
        fault_text(f) == " on_start reply dropped"@ <==> f == VUserFault::StartReplyDropped,
        fault_text(f) == " thread exited"@ <==> f == VUserFault::Exited,
        fault_text(f) == " task reply dropped"@ <==> f == VUserFault::TaskReplyDropped,
        fault_text(f) == " thread exited before on_stop"@ <==> f == VUserFault::ExitedBeforeStop,
        fault_text(f) == " on_stop reply dropped"@ <==> f == VUserFault::StopReplyDropped,
{
    reveal_strlit(" thread exited before on_start");
    reveal_strlit(" on_start reply dropped");
    reveal_strlit(" thread exited");
    reveal_strlit(" task reply dropped");
    reveal_strlit(" thread exited before on_stop");
    reveal_strlit(" on_stop reply dropped");
    assert(" thread exited before on_start"@.len() == 30);
    assert(" on_start reply dropped"@.len() == 23);
    assert(" thread exited"@.len() == 14);
    assert(" task reply dropped"@.len() == 19);
    assert(" thread exited before on_stop"@.len() == 29);
    assert(" on_stop reply dropped"@.len() == 22);
}

} // verus!
