//! An agent: it registers, waits for its shard of a plan, runs it and reports.
use crate::agent::runner::AgentMetrics;
use crate::text::same_text;
use vstd::prelude::*;

pub mod python_bridge;
pub mod runner;
pub mod terminal;
pub mod worker;

verus! {

/// An agent and the coordinator that it serves.
#[derive(Debug)]
pub struct Agent {
    pub id: String,
    pub coordinator_addr: String,
}

impl Agent {
    /// The agent `id` of the coordinator at this address.
    pub fn new(id: String, coordinator_addr: String) -> (a: Agent)
        ensures
            a.id == id,
            a.coordinator_addr == coordinator_addr,
    {
        Agent { id, coordinator_addr }
    }

    /// What the agent says when it connects.
    pub fn connecting(&self) -> (m: String)
        ensures
            m@ == "["@ + self.id@ + "] Connecting to coordinator at "@ + self.coordinator_addr@
                + " (v2 stub)"@,
    {
        let mut m = "[".to_string();
        m.append(self.id.as_str());
        m.append("] Connecting to coordinator at ");
        m.append(self.coordinator_addr.as_str());
        m.append(" (v2 stub)");
        m
    }
}

// ── Subjects ──────────────────────────────────────────────────────────────────

/// The subject on which an agent reports.
pub open spec fn metrics_subject_of(agent_id: Seq<char>) -> Seq<char> {
    "loadpilot.metrics."@ + agent_id
}

/// The subject on which an agent reports.
pub fn metrics_subject(agent_id: &str) -> (s: String)
    ensures
        s@ == metrics_subject_of(agent_id@),
{
    let mut s = "loadpilot.metrics.".to_string();
    s.append(agent_id);
    s
}

// ── A session ─────────────────────────────────────────────────────────────────

/// What a message on some subject is.
#[derive(Clone, Copy, Debug, PartialEq, Eq, Structural)]
pub enum Incoming {
    /// The agent's shard of a plan.
    Shard,
    /// A command to all agents.
    Control,
    /// Nothing for this agent now.
    Other,
}

/// How far a session has come.
#[derive(Clone, Copy, Debug, PartialEq, Eq, Structural)]
pub enum Stage {
    /// The agent has registered and waits for its shard.
    Waiting,
    /// The shard runs.
    Running,
    /// The session is over.
    Ended,
}

/// What happens to a session.
#[derive(Debug)]
pub enum Event {
    /// The time between two announcements is over.
    Reannounce,
    /// The shard is here; all agents start at `start_at_unix_ms`.
    Shard { start_at_unix_ms: u64, now_ms: u64 },
    /// A command; none where it could not be read.
    Control { command: Option<String> },
    /// A report of the running shard, under the name of its phase.
    Report { phase: String },
}

/// What a session asks for.
#[derive(Clone, Copy, Debug, PartialEq, Eq, Structural)]
pub enum Action {
    Nothing,
    /// Announce the agent again.
    Announce,
    /// Wait this many milliseconds, then run the shard.
    Run { wait_ms: u64 },
    /// Send the report.
    Send,
    /// End the session.
    End,
    /// Send the report and end the session.
    SendAndEnd,
}

/// The session of an agent.
#[derive(Debug)]
pub struct Session {
    pub agent_id: String,
    pub stage: Stage,
}

/// How long an agent waits for the common start.
pub open spec fn start_wait(start_at: u64, now: u64) -> u64 {
    if start_at > now {
        (start_at - now) as u64
    } else {
        0
    }
}

/// What an event leads to: the next stage and what is to be done.
pub open spec fn reaction(stage: Stage, event: Event) -> (Stage, Action) {
    match (stage, event) {
        (Stage::Waiting, Event::Reannounce) => (Stage::Waiting, Action::Announce),
        (Stage::Waiting, Event::Shard { start_at_unix_ms, now_ms }) => (
            Stage::Running,
            Action::Run { wait_ms: start_wait(start_at_unix_ms, now_ms) },
        ),
        (Stage::Waiting, Event::Control { command }) => if is_stop(command) {
            (Stage::Ended, Action::End)
        } else {
            (Stage::Waiting, Action::Nothing)
        },
        (Stage::Running, Event::Control { command }) => if is_stop(command) {
            (Stage::Ended, Action::End)
        } else {
            (Stage::Running, Action::Nothing)
        },
        (Stage::Running, Event::Report { phase }) => if phase@ == "done"@ {
            (Stage::Ended, Action::SendAndEnd)
        } else {
            (Stage::Running, Action::Send)
        },
        _ => (stage, Action::Nothing),
    }
}

/// The command to stop.
pub open spec fn is_stop(command: Option<String>) -> bool {
    command matches Some(c) && c@ == "stop"@
}

impl Session {
    /// The session of an agent that has just registered.
    pub fn new(agent_id: String) -> (s: Session)
        ensures
            s.agent_id == agent_id,
            s.stage == Stage::Waiting,
    {
        Session { agent_id, stage: Stage::Waiting }
    }

    /// The report as it is sent: under the name of this agent.
    pub fn sign(&self, report: AgentMetrics) -> (r: AgentMetrics)
        ensures
            r == (AgentMetrics { agent_id: self.agent_id, ..report }),
    {
        AgentMetrics { agent_id: self.agent_id.clone(), ..report }
    }

    /// What a message on this subject is. A running agent takes no second shard.
    pub fn classify(&self, subject: &str) -> (r: Incoming)
        ensures
            r == if self.stage == Stage::Waiting && subject@ == crate::wire::shard_subject(
                self.agent_id@,
            ) {
                Incoming::Shard
            } else if subject@ == "loadpilot.control"@ {
                Incoming::Control
            } else {
                Incoming::Other
            },
    {
        let shard = crate::wire::subject_shard(self.agent_id.as_str());
        let waiting = match self.stage {
            Stage::Waiting => true,
            _ => false,
        };
        if waiting && same_text(subject, shard.as_str()) {
            Incoming::Shard
        } else if same_text(subject, "loadpilot.control") {
            Incoming::Control
        } else {
            Incoming::Other
        }
    }

    /// What an event leads to.
    pub fn on_event(&mut self, event: Event) -> (a: Action)
        ensures
            final(self).agent_id == old(self).agent_id,
            (final(self).stage, a) == reaction(old(self).stage, event),
    {
        match self.stage {
            Stage::Waiting => match event {
                Event::Reannounce => Action::Announce,
                Event::Shard { start_at_unix_ms, now_ms } => {
                    self.stage = Stage::Running;
                    let wait_ms: u64 = if start_at_unix_ms > now_ms {
                        start_at_unix_ms - now_ms
                    } else {
                        0
                    };
                    Action::Run { wait_ms }
                },
                Event::Control { command } => self.on_control(command),
                Event::Report { .. } => Action::Nothing,
            },
            Stage::Running => match event {
                Event::Control { command } => self.on_control(command),
                Event::Report { phase } => {
                    if same_text(phase.as_str(), "done") {
                        self.stage = Stage::Ended;
                        Action::SendAndEnd
                    } else {
                        Action::Send
                    }
                },
                _ => Action::Nothing,
            },
            Stage::Ended => Action::Nothing,
        }
    }

    /// What a command leads to.
    fn on_control(&mut self, command: Option<String>) -> (a: Action)
        ensures
            final(self).agent_id == old(self).agent_id,
            is_stop(command) ==> final(self).stage == Stage::Ended && a == Action::End,
            !is_stop(command) ==> final(self).stage == old(self).stage && a == Action::Nothing,
    {
        let stop = match command {
            Some(c) => same_text(c.as_str(), "stop"),
            None => false,
        };
        if stop {
            self.stage = Stage::Ended;
            Action::End
        } else {
            Action::Nothing
        }
    }
}

/// How long an agent waits before it connects again, in seconds.
pub fn reconnect_secs(failed: bool) -> (s: u64)
    ensures
        s == if failed {
            5u64
        } else {
            2u64
        },
{
    if failed {
        5
    } else {
        2
    }
}

// ── Laws ──────────────────────────────────────────────────────────────────────

/// All agents start together: whenever its shard arrives before the common
/// start, an agent begins exactly at the common start.
pub proof fn agents_start_together(start_at: u64, now_a: u64, now_b: u64)
    requires
        now_a <= start_at,
        now_b <= start_at,
    ensures
        now_a + start_wait(start_at, now_a) == start_at,
        now_a + start_wait(start_at, now_a) == now_b + start_wait(start_at, now_b),
{
}

/// A stop command ends every session that has not ended.
pub proof fn stop_ends_every_session(stage: Stage, command: Option<String>)
    requires
        is_stop(command),
        stage != Stage::Ended,
    ensures
        reaction(stage, Event::Control { command }) == (Stage::Ended, Action::End),
{
}

/// A command that stops is the word itself and nothing else.
pub proof fn only_stop_stops(command: Option<String>)
    ensures
        is_stop(command) <==> command is Some && command->0@ == "stop"@,
{
}

/// An agent that waits announces itself again and again until its shard is there;
/// then it runs, after it has waited for the common start, and no other shard or
/// announcement counts.
pub proof fn agents_wait_for_their_shard(start_at_unix_ms: u64, now_ms: u64)
    ensures
        reaction(Stage::Waiting, Event::Reannounce) == (Stage::Waiting, Action::Announce),
        ({
            let (stage, action) = reaction(
                Stage::Waiting,
                Event::Shard { start_at_unix_ms, now_ms },
            );
            &&& stage == Stage::Running
            &&& action matches Action::Run { wait_ms } && {
                &&& now_ms <= start_at_unix_ms ==> now_ms + wait_ms == start_at_unix_ms
                &&& now_ms > start_at_unix_ms ==> wait_ms == 0
            }
        }),
        reaction(Stage::Running, Event::Shard { start_at_unix_ms, now_ms }) == (
            Stage::Running,
            Action::Nothing,
        ),
        reaction(Stage::Running, Event::Reannounce) == (Stage::Running, Action::Nothing),
{
}

/// A running agent sends every report; the one of the phase `done` is the last. A
/// report that comes while the agent still waits is not sent.
pub proof fn running_agents_send_their_reports(phase: String)
    ensures
        phase@ == "done"@ ==> reaction(Stage::Running, Event::Report { phase }) == (
            Stage::Ended,
            Action::SendAndEnd,
        ),
        phase@ != "done"@ ==> reaction(Stage::Running, Event::Report { phase }) == (
            Stage::Running,
            Action::Send,
        ),
        reaction(Stage::Waiting, Event::Report { phase }) == (Stage::Waiting, Action::Nothing),
{
}

/// A command that is not the one to stop changes nothing.
pub proof fn other_commands_change_nothing(stage: Stage, command: Option<String>)
    requires
        !(command matches Some(c) && c@ == "stop"@),
    ensures
        reaction(stage, Event::Control { command }) == (stage, Action::Nothing),
{
}

/// A session that has ended stays ended, whatever happens.
pub proof fn ended_sessions_stay_ended(event: Event)
    ensures
        reaction(Stage::Ended, event) == (Stage::Ended, Action::Nothing),
{
}

/// Different agents report on different subjects, all of them below that of the
/// metrics.
pub proof fn agents_report_apart(a: Seq<char>, b: Seq<char>)
    ensures
        metrics_subject_of(a).take("loadpilot.metrics."@.len() as int) == "loadpilot.metrics."@,
        metrics_subject_of(a).skip("loadpilot.metrics."@.len() as int) == a,
        metrics_subject_of(a) == metrics_subject_of(b) ==> a == b,
{
    let k = "loadpilot.metrics."@.len() as int;
    assert(metrics_subject_of(a).take(k) =~= "loadpilot.metrics."@);
    assert(metrics_subject_of(a).skip(k) =~= a);
    assert(metrics_subject_of(b).skip(k) =~= b);
}

} // verus!
