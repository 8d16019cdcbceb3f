//! What is told of the work of agents: their runs, and the log of metrics.

use vstd::prelude::*;

use crate::agent::{Agent, AgentModel};
use crate::config::{provider_id, provider_key, NameModel, Provider, ProviderName};
use crate::json::{json_string, quote};
use crate::numbers::{decimal, decimal_text, signed_decimal, signed_text, size_text};
use crate::pool::AgentPool;
use crate::text::{
    has_part, lemma_grown, lemma_pair_behind, lemma_views_push, views,
};

verus! {

broadcast use lemma_views_push;

// Runs.

/// One run of an agent: its answer, and how many tokens it used in the run and in the session.
#[derive(Debug, PartialEq, Eq)]
pub struct AgentRunResult {
    pub agent_id: usize,
    pub input_tokens: u64,
    pub output_tokens: u64,
    pub session_input_tokens: u64,
    pub session_output_tokens: u64,
    pub result: Result<String, String>,
}

/// One run of an agent, mathematically.
pub ghost struct AgentRunModel {
    pub agent_id: usize,
    pub input_tokens: u64,
    pub output_tokens: u64,
    pub session_input_tokens: u64,
    pub session_output_tokens: u64,
    pub result: Result<Seq<char>, Seq<char>>,
}

impl View for AgentRunResult {
    type V = AgentRunModel;

    open spec fn view(&self) -> AgentRunModel {
        AgentRunModel {
            agent_id: self.agent_id,
            input_tokens: self.input_tokens,
            output_tokens: self.output_tokens,
            session_input_tokens: self.session_input_tokens,
            session_output_tokens: self.session_output_tokens,
            result: match self.result {
                Ok(text) => Ok(text@),
                Err(message) => Err(message@),
            },
        }
    }
}

/// The run of an agent that had used some tokens before it.
pub fn agent_run(
    agent: &Agent,
    input_before: u64,
    output_before: u64,
    result: Result<String, String>,
) -> (r: AgentRunResult)
    requires
        input_before <= agent.session_input_tokens,
        output_before <= agent.session_output_tokens,
    ensures
        r@ == (AgentRunModel {
            agent_id: agent.id,
            input_tokens: (agent.session_input_tokens - input_before) as u64,
            output_tokens: (agent.session_output_tokens - output_before) as u64,
            session_input_tokens: agent.session_input_tokens,
            session_output_tokens: agent.session_output_tokens,
            result: match result {
                Ok(text) => Ok(text@),
                Err(message) => Err(message@),
            },
        }),
{
    AgentRunResult {
        agent_id: agent.id,
        input_tokens: agent.session_input_tokens - input_before,
        output_tokens: agent.session_output_tokens - output_before,
        session_input_tokens: agent.session_input_tokens,
        session_output_tokens: agent.session_output_tokens,
        result,
    }
}

/// The run of an agent that did not come back.
pub fn crashed_run(error: &str) -> (r: AgentRunResult)
    ensures
        r@ == (AgentRunModel {
            agent_id: 0,
            input_tokens: 0,
            output_tokens: 0,
            session_input_tokens: 0,
            session_output_tokens: 0,
            result: Err("задача агента аварийно завершилась: "@ + error@),
        }),
{
    AgentRunResult {
        agent_id: 0,
        input_tokens: 0,
        output_tokens: 0,
        session_input_tokens: 0,
        session_output_tokens: 0,
        result: Err("задача агента аварийно завершилась: ".to_owned().concat(error)),
    }
}

/// The runs in order of their agents; a run stands behind those of agents that do not come after.
pub open spec fn run_inserted(runs: Seq<AgentRunModel>, run: AgentRunModel) -> Seq<AgentRunModel>
    decreases runs.len(),
{
    if runs.len() > 0 && run.agent_id < runs.last().agent_id {
        run_inserted(runs.drop_last(), run).push(runs.last())
    } else {
        runs.push(run)
    }
}

/// Adds a run in order of its agent.
pub fn add_run(runs: &mut Vec<AgentRunResult>, run: AgentRunResult)
    ensures
        views(final(runs)@) == run_inserted(views(old(runs)@), run@),
{
    let ghost start = views(runs@);
    let ghost view = run@;
    let mut at: usize = runs.len();
    proof {
        assert(start.take(at as int) =~= start);
        assert(run_inserted(start, view) =~= run_inserted(start.take(at as int), view)
            + start.skip(at as int));
    }
    while at > 0 && run.agent_id < runs[at - 1].agent_id
        invariant
            at <= runs@.len(),
            start == views(runs@),
            start == views(old(runs)@),
            view == run@,
            run_inserted(start, view) == run_inserted(start.take(at as int), view) + start.skip(
                at as int,
            ),
        decreases at,
    {
        proof {
            let head = start.take(at as int);
            assert(head.drop_last() =~= start.take(at - 1));
            assert(head.last() == runs@[at - 1]@);
            assert(run_inserted(head.drop_last(), view).push(head.last()) + start.skip(at as int)
                =~= run_inserted(start.take(at - 1), view) + start.skip(at - 1));
        }
        at -= 1;
    }
    proof {
        let head = start.take(at as int);
        if at > 0 {
            assert(head.last() == runs@[at - 1]@);
        }
        assert(run_inserted(head, view) == head.push(view));
        assert(head.push(view) + start.skip(at as int) =~= start.insert(at as int, view));
    }
    runs.insert(at, run);
    proof {
        assert(views(runs@) =~= start.insert(at as int, view));
    }
}

/// The agents in order of their numbers; an agent stands behind those that do not come after.
pub open spec fn agent_inserted(agents: Seq<AgentModel>, agent: AgentModel) -> Seq<AgentModel>
    decreases agents.len(),
{
    if agents.len() > 0 && agent.id < agents.last().id {
        agent_inserted(agents.drop_last(), agent).push(agents.last())
    } else {
        agents.push(agent)
    }
}

impl AgentPool {
    /// Takes an agent back into the pool, in order of its number.
    pub fn take_back(&mut self, agent: Agent)
        requires
            old(self).wf(),
            agent.wf(),
        ensures
            final(self).wf(),
            final(self)@ == agent_inserted(old(self)@, agent@),
    {
        let ghost start = views(self.agents@);
        let ghost view = agent@;
        let ghost before = self.agents@;
        let mut at: usize = self.agents.len();
        proof {
            assert(start.take(at as int) =~= start);
            assert(agent_inserted(start, view) =~= agent_inserted(start.take(at as int), view)
                + start.skip(at as int));
        }
        while at > 0 && agent.id < self.agents[at - 1].id
            invariant
                at <= self.agents@.len(),
                before == self.agents@,
                start == views(self.agents@),
                view == agent@,
                agent_inserted(start, view) == agent_inserted(start.take(at as int), view)
                    + start.skip(at as int),
            decreases at,
        {
            proof {
                let head = start.take(at as int);
                assert(head.drop_last() =~= start.take(at - 1));
                assert(head.last() == self.agents@[at - 1]@);
                assert(agent_inserted(head.drop_last(), view).push(head.last()) + start.skip(
                    at as int,
                ) =~= agent_inserted(start.take(at - 1), view) + start.skip(at - 1));
            }
            at -= 1;
        }
        proof {
            let head = start.take(at as int);
            if at > 0 {
                assert(head.last() == self.agents@[at - 1]@);
            }
            assert(agent_inserted(head, view) == head.push(view));
            assert(head.push(view) + start.skip(at as int) =~= start.insert(at as int, view));
        }
        let ghost whole = agent;
        self.agents.insert(at, agent);
        proof {
            assert(views(self.agents@) =~= start.insert(at as int, view));
            assert forall|i: int| 0 <= i < self.agents@.len() implies (
            #[trigger] self.agents@[i]).wf() by {
                if i < at {
                    assert(self.agents@[i] == before[i]);
                } else if i > at {
                    assert(self.agents@[i] == before[i - 1]);
                } else {
                    assert(self.agents@[i] == whole);
                }
            }
        }
    }
}

/// Numbers in ascending order.
pub open spec fn in_id_order(agents: Seq<AgentModel>) -> bool {
    forall|i: int, j: int|
        0 <= i < j < agents.len() ==> (#[trigger] agents[i]).id <= (#[trigger] agents[j]).id
}

/// Whatever order agents come back in, the pool stands in order of their numbers.
pub proof fn law_pool_returns_to_order(agents: Seq<AgentModel>, agent: AgentModel)
    requires
        in_id_order(agents),
    ensures
        in_id_order(agent_inserted(agents, agent)),
        agent_inserted(agents, agent).len() == agents.len() + 1,
        agents.len() > 0 && agent_inserted(agents, agent).last() != agent
            ==> agent_inserted(agents, agent).last() == agents.last(),
        forall|i: int|
            0 <= i < agent_inserted(agents, agent).len() ==> (#[trigger] agent_inserted(
                agents,
                agent,
            )[i]).id <= if agents.len() > 0 && agents.last().id > agent.id {
                agents.last().id
            } else {
                agent.id
            },
    decreases agents.len(),
{
    let all = agent_inserted(agents, agent);
    if agents.len() > 0 && agent.id < agents.last().id {
        let head = agents.drop_last();
        assert forall|i: int, j: int| 0 <= i < j < head.len() implies (#[trigger] head[i]).id <= (
        #[trigger] head[j]).id by {
            assert(agents[i].id <= agents[j].id);
        }
        law_pool_returns_to_order(head, agent);
        let inner = agent_inserted(head, agent);
        if head.len() > 0 {
            assert(agents[head.len() - 1].id <= agents[agents.len() - 1].id);
        }
        assert forall|i: int, j: int| 0 <= i < j < all.len() implies (#[trigger] all[i]).id <= (
        #[trigger] all[j]).id by {
            if j < inner.len() {
                assert(inner[i].id <= inner[j].id);
            } else {
                assert(inner[i] == all[i]);
            }
        }
        assert forall|i: int| 0 <= i < all.len() implies (#[trigger] all[i]).id
            <= agents.last().id by {
            if i < inner.len() {
                assert(inner[i] == all[i]);
            }
        }
    } else {
        assert forall|i: int| 0 <= i < all.len() implies (#[trigger] all[i]).id <= agent.id by {
            if i < agents.len() {
                assert(agents[i].id <= agents[agents.len() - 1].id);
            }
        }
        assert forall|i: int, j: int| 0 <= i < j < all.len() implies (#[trigger] all[i]).id <= (
        #[trigger] all[j]).id by {
            if j < agents.len() {
                assert(agents[i].id <= agents[j].id);
            }
        }
    }
}

// The log of metrics.

/// A line of the log of metrics.
#[derive(Debug, PartialEq, Eq)]
pub struct MetricsLogEntry {
    pub timestamp_unix_ms: u64,
    pub session_id: Option<i64>,
    pub succeeded: bool,
    pub branch: String,
    pub provider: Provider,
    pub model: String,
    pub elapsed_ms: u64,
}

/// How a line tells whether a run succeeded.
pub open spec fn log_outcome(succeeded: bool) -> Seq<char> {
    if succeeded {
        "success"@
    } else {
        "failed"@
    }
}

/// The number of a session in a line.
pub open spec fn log_session(id: Option<i64>) -> Seq<char> {
    match id {
        Some(id) => signed_decimal(id as int),
        None => "null"@,
    }
}

/// The first half of a line: when and where a run was.
pub open spec fn log_head(entry: MetricsLogEntry, agent_id: usize) -> Seq<char> {
    "{\"timestamp_unix_ms\":"@ + decimal(entry.timestamp_unix_ms as nat) + ",\"session_id\":"@
        + log_session(entry.session_id) + ",\"outcome\":"@ + json_string(
        log_outcome(entry.succeeded),
    ) + ",\"branch\":"@ + json_string(entry.branch@) + ",\"agent_id\":"@ + decimal(agent_id as nat)
}

/// The second half of a line: what a run used.
pub open spec fn log_tail(entry: MetricsLogEntry, run: AgentRunModel, second: NameModel) -> Seq<char> {
    ",\"provider\":"@ + json_string(provider_key(entry.provider, second)) + ",\"model\":"@ + json_string(
        entry.model@,
    ) + ",\"elapsed_ms\":"@ + decimal(entry.elapsed_ms as nat) + ",\"request_input_tokens\":"@
        + decimal(run.input_tokens as nat) + ",\"request_output_tokens\":"@ + decimal(
        run.output_tokens as nat,
    ) + ",\"session_input_tokens\":"@ + decimal(run.session_input_tokens as nat)
        + ",\"session_output_tokens\":"@ + decimal(run.session_output_tokens as nat) + "}"@
}

fn write_head(entry: &MetricsLogEntry, agent_id: usize) -> (r: String)
    ensures
        r@ == log_head(*entry, agent_id),
{
    let outcome = if entry.succeeded {
        "success"
    } else {
        "failed"
    };
    let session = match entry.session_id {
        Some(id) => signed_text(id),
        None => "null".to_owned(),
    };
    "{\"timestamp_unix_ms\":".to_owned().concat(
        decimal_text(entry.timestamp_unix_ms).as_str(),
    ).concat(",\"session_id\":").concat(session.as_str()).concat(",\"outcome\":").concat(
        quote(outcome).as_str(),
    ).concat(",\"branch\":").concat(quote(entry.branch.as_str()).as_str()).concat(
        ",\"agent_id\":",
    ).concat(size_text(agent_id).as_str())
}

fn write_tail(entry: &MetricsLogEntry, run: &AgentRunResult, second: &ProviderName) -> (r: String)
    ensures
        r@ == log_tail(*entry, run@, second@),
{
    ",\"provider\":".to_owned().concat(quote(provider_id(entry.provider, second)).as_str()).concat(
        ",\"model\":",
    ).concat(quote(entry.model.as_str()).as_str()).concat(",\"elapsed_ms\":").concat(
        decimal_text(entry.elapsed_ms).as_str(),
    ).concat(",\"request_input_tokens\":").concat(decimal_text(run.input_tokens).as_str()).concat(
        ",\"request_output_tokens\":",
    ).concat(decimal_text(run.output_tokens).as_str()).concat(",\"session_input_tokens\":").concat(
        decimal_text(run.session_input_tokens).as_str(),
    ).concat(",\"session_output_tokens\":").concat(
        decimal_text(run.session_output_tokens).as_str(),
    ).concat("}")
}

/// The line that is logged of a run.
pub fn metrics_line(entry: &MetricsLogEntry, run: &AgentRunResult, second: &ProviderName) -> (r:
    String)
    ensures
        r@ == log_head(*entry, run@.agent_id) + log_tail(*entry, run@, second@),
{
    write_head(entry, run.agent_id).concat(write_tail(entry, run, second).as_str())
}

/// Putting a result in its place keeps all results, adds this one, and leaves them ordered by agent.
pub proof fn law_results_stand_by_agent(runs: Seq<AgentRunModel>, run: AgentRunModel)
    requires
        forall|i: int, j: int|
            0 <= i < j < runs.len() ==> (#[trigger] runs[i]).agent_id <= (
            #[trigger] runs[j]).agent_id,
    ensures
        run_inserted(runs, run).to_multiset() == runs.to_multiset().insert(run),
        forall|i: int, j: int|
            0 <= i < j < run_inserted(runs, run).len() ==> (#[trigger] run_inserted(
                runs,
                run,
            )[i]).agent_id <= (#[trigger] run_inserted(runs, run)[j]).agent_id,
        forall|i: int|
            0 <= i < run_inserted(runs, run).len() ==> (#[trigger] run_inserted(
                runs,
                run,
            )[i]).agent_id <= run.agent_id || runs.len() > 0 && run_inserted(runs, run)[i].agent_id
                <= runs.last().agent_id,
    decreases runs.len(),
{
    broadcast use vstd::seq_lib::group_to_multiset_ensures;

    if runs.len() > 0 && run.agent_id < runs.last().agent_id {
        law_results_stand_by_agent(runs.drop_last(), run);
        assert(runs =~= runs.drop_last().push(runs.last()));
        assert(run_inserted(runs, run).to_multiset() =~= runs.to_multiset().insert(run));
    }
}

/// An agent that comes back to its pool is the only change to it: every other agent stays.
pub proof fn law_no_agent_is_lost(agents: Seq<AgentModel>, agent: AgentModel)
    ensures
        agent_inserted(agents, agent).to_multiset() == agents.to_multiset().insert(agent),
    decreases agents.len(),
{
    broadcast use vstd::seq_lib::group_to_multiset_ensures;

    if agents.len() > 0 && agent.id < agents.last().id {
        law_no_agent_is_lost(agents.drop_last(), agent);
        assert(agents =~= agents.drop_last().push(agents.last()));
        assert(agent_inserted(agents, agent).to_multiset() =~= agents.to_multiset().insert(agent));
    }
}

/// What the log says of a run is what was measured: when, in which session and branch, with which
/// model, for how long and with how many tokens.
pub proof fn law_log_tells_what_was_measured(
    entry: MetricsLogEntry,
    run: AgentRunModel,
    second: NameModel,
)
    ensures
        has_part(
            log_head(entry, run.agent_id),
            "{\"timestamp_unix_ms\":"@ + decimal(entry.timestamp_unix_ms as nat),
        ),
        has_part(
            log_head(entry, run.agent_id),
            ",\"session_id\":"@ + match entry.session_id {
                Some(id) => signed_decimal(id as int),
                None => "null"@,
            },
        ),
        has_part(
            log_head(entry, run.agent_id),
            ",\"outcome\":"@ + json_string(
                if entry.succeeded {
                    "success"@
                } else {
                    "failed"@
                },
            ),
        ),
        has_part(log_head(entry, run.agent_id), ",\"branch\":"@ + json_string(entry.branch@)),
        has_part(log_head(entry, run.agent_id), ",\"agent_id\":"@ + decimal(run.agent_id as nat)),
        has_part(
            log_tail(entry, run, second),
            ",\"provider\":"@ + json_string(provider_key(entry.provider, second)),
        ),
        has_part(log_tail(entry, run, second), ",\"model\":"@ + json_string(entry.model@)),
        has_part(
            log_tail(entry, run, second),
            ",\"elapsed_ms\":"@ + decimal(entry.elapsed_ms as nat),
        ),
        has_part(
            log_tail(entry, run, second),
            ",\"request_input_tokens\":"@ + decimal(run.input_tokens as nat),
        ),
        has_part(
            log_tail(entry, run, second),
            ",\"request_output_tokens\":"@ + decimal(run.output_tokens as nat),
        ),
        has_part(
            log_tail(entry, run, second),
            ",\"session_input_tokens\":"@ + decimal(run.session_input_tokens as nat),
        ),
        has_part(
            log_tail(entry, run, second),
            ",\"session_output_tokens\":"@ + decimal(run.session_output_tokens as nat),
        ),
{
    let none = Seq::<char>::empty();
    let h1 = lemma_pair_behind(
        none,
        "{\"timestamp_unix_ms\":"@,
        decimal(entry.timestamp_unix_ms as nat),
    );
    let h2 = lemma_pair_behind(h1, ",\"session_id\":"@, log_session(entry.session_id));
    let h3 = lemma_pair_behind(h2, ",\"outcome\":"@, json_string(log_outcome(entry.succeeded)));
    let h4 = lemma_pair_behind(h3, ",\"branch\":"@, json_string(entry.branch@));
    let h5 = lemma_pair_behind(h4, ",\"agent_id\":"@, decimal(run.agent_id as nat));
    assert(none + "{\"timestamp_unix_ms\":"@ =~= "{\"timestamp_unix_ms\":"@);
    assert(h5 == log_head(entry, run.agent_id));
    let t1 = lemma_pair_behind(
        none,
        ",\"provider\":"@,
        json_string(provider_key(entry.provider, second)),
    );
    let t2 = lemma_pair_behind(t1, ",\"model\":"@, json_string(entry.model@));
    let t3 = lemma_pair_behind(t2, ",\"elapsed_ms\":"@, decimal(entry.elapsed_ms as nat));
    let t4 = lemma_pair_behind(
        t3,
        ",\"request_input_tokens\":"@,
        decimal(run.input_tokens as nat),
    );
    let t5 = lemma_pair_behind(
        t4,
        ",\"request_output_tokens\":"@,
        decimal(run.output_tokens as nat),
    );
    let t6 = lemma_pair_behind(
        t5,
        ",\"session_input_tokens\":"@,
        decimal(run.session_input_tokens as nat),
    );
    let t7 = lemma_pair_behind(
        t6,
        ",\"session_output_tokens\":"@,
        decimal(run.session_output_tokens as nat),
    );
    lemma_grown(t7, "}"@);
    assert(none + ",\"provider\":"@ =~= ",\"provider\":"@);
    assert(t7 + "}"@ == log_tail(entry, run, second));
}

} // verus!
