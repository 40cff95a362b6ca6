//! What the command line asks for.
use crate::text::take_chars;
use crate::text::trim;
use vstd::prelude::*;

verus! {

/// The options of the command line that choose how to run.
#[derive(Debug)]
pub struct Options {
    pub local_agents: usize,
    pub external_agents: usize,
    pub nats_url: Option<String>,
    pub serve: bool,
    pub serve_agents: usize,
}

/// How to run.
#[derive(Debug)]
pub enum RunMode {
    /// As a service that runs tests on request.
    Serve { nats_url: String, agents: usize },
    /// With remote agents over an external server.
    ExternalNats { nats_url: String, agents: usize },
    /// With agents that are started here.
    LocalAgents { agents: usize },
    /// With agents that connect to the broker in this process.
    ExternalAgents { agents: usize },
    /// In this process alone.
    Single,
}

/// `mode` is what the options ask for.
pub open spec fn is_mode(mode: RunMode, o: Options) -> bool {
    if o.serve {
        mode matches RunMode::Serve { nats_url, agents } && agents == o.serve_agents && nats_url@
            == match o.nats_url {
            Some(url) => url@,
            None => "nats://localhost:4222"@,
        }
    } else {
        match o.nats_url {
            Some(url) => mode matches RunMode::ExternalNats { nats_url, agents } && nats_url == url
                && agents == o.external_agents,
            None => if o.local_agents > 0 {
                mode matches RunMode::LocalAgents { agents } && agents == o.local_agents
            } else if o.external_agents > 0 {
                mode matches RunMode::ExternalAgents { agents } && agents == o.external_agents
            } else {
                mode is Single
            },
        }
    }
}

/// How to run. An external server is of no use without a number of agents.
pub fn choose_mode(o: Options) -> (r: Result<RunMode, String>)
    ensures
        r is Err <==> !o.serve && o.nats_url is Some && o.external_agents == 0,
        r matches Ok(mode) ==> is_mode(mode, o),
        r matches Err(e) ==> e@
            == "--nats-url requires --external-agents N (how many remote agents to wait for)"@,
{
    if o.serve {
        let nats_url = match o.nats_url {
            Some(url) => url,
            None => "nats://localhost:4222".to_string(),
        };
        return Ok(RunMode::Serve { nats_url, agents: o.serve_agents });
    }
    match o.nats_url {
        Some(nats_url) => {
            if o.external_agents == 0 {
                Err(
                    "--nats-url requires --external-agents N (how many remote agents to wait for)".to_string(),
                )
            } else {
                Ok(RunMode::ExternalNats { nats_url, agents: o.external_agents })
            }
        },
        None => {
            if o.local_agents > 0 {
                Ok(RunMode::LocalAgents { agents: o.local_agents })
            } else if o.external_agents > 0 {
                Ok(RunMode::ExternalAgents { agents: o.external_agents })
            } else {
                Ok(RunMode::Single)
            }
        },
    }
}

/// The text of the plan in the input.
pub fn plan_text(input: &str) -> (r: String)
    ensures
        r@ == crate::text::trimmed(input@),
{
    trim(input)
}

/// The start of an input, at most 200 characters.
pub open spec fn preview(input: Seq<char>) -> Seq<char> {
    input.take(
        if input.len() < 200 {
            input.len() as int
        } else {
            200
        },
    )
}

/// What is said when the plan cannot be read.
pub fn plan_error(error: &str, input: &str) -> (m: String)
    ensures
        m@ == "Failed to parse plan JSON: "@ + error@ + "\nInput: "@ + preview(input@),
{
    let mut m = "Failed to parse plan JSON: ".to_string();
    m.append(error);
    m.append("\nInput: ");
    let start = take_chars(input, 200);
    m.append(start.as_str());
    m
}

// ── Laws ──────────────────────────────────────────────────────────────────────

/// The service goes before everything else, an external server before agents on
/// this machine, and agents that are started here before those that connect.
pub proof fn modes_are_chosen_in_order(mode: RunMode, o: Options)
    requires
        is_mode(mode, o),
    ensures
        mode is Serve <==> o.serve,
        mode is ExternalNats <==> !o.serve && o.nats_url is Some,
        mode is LocalAgents <==> !o.serve && o.nats_url is None && o.local_agents > 0,
        mode is ExternalAgents <==> !o.serve && o.nats_url is None && o.local_agents == 0
            && o.external_agents > 0,
        mode is Single <==> !o.serve && o.nats_url is None && o.local_agents == 0
            && o.external_agents == 0,
        mode matches RunMode::Serve { nats_url, agents } ==> agents == o.serve_agents && (
        o.nats_url is Some ==> nats_url@ == o.nats_url->0@) && (o.nats_url is None ==> nats_url@
            == "nats://localhost:4222"@),
        mode matches RunMode::ExternalNats { nats_url, agents } ==> agents == o.external_agents
            && nats_url@ == o.nats_url->0@,
        mode matches RunMode::LocalAgents { agents } ==> agents == o.local_agents,
        mode matches RunMode::ExternalAgents { agents } ==> agents == o.external_agents,
{
}

/// A preview is the start of the input, whole where it has up to 200 characters.
pub proof fn previews_are_starts(input: Seq<char>)
    ensures
        input.len() <= 200 ==> preview(input) == input,
        input.len() > 200 ==> preview(input).len() == 200,
        forall|i: int| 0 <= i < preview(input).len() ==> #[trigger] preview(input)[i] == input[i],
{
    if input.len() <= 200 {
        assert(preview(input) =~= input);
    }
}

} // verus!
