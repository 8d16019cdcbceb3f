//! A pool of agents that work on the same dialogue.

use vstd::prelude::*;

use crate::agent::{
    agent_reset, agent_restored, at_checkpoint, branch_get, branch_state, enabled_rules,
    law_enabled_rules_are_kept, new_agent, on_branch, with_checkpoint, with_compression,
    with_saved_branch, Agent, AgentModel, AgentSettings, SettingsModel,
};
use crate::config::CompressionStrategy;
use crate::conversation::{copy_all, Message, MessageModel};
use crate::sessions::{session_resumed, SavedModel, SavedSession};
use crate::tasks::{empty_memory, ActiveMemory, Invariant, MemoryModel, RuleModel};
use crate::text::{lemma_views_push, views};

verus! {

broadcast use lemma_views_push;

/// A pool of agents.
#[derive(Debug, PartialEq, Eq)]
pub struct AgentPool {
    pub agents: Vec<Agent>,
}

impl View for AgentPool {
    type V = Seq<AgentModel>;

    open spec fn view(&self) -> Seq<AgentModel> {
        views(self.agents@)
    }
}

/// The agents of a new pool, numbered from one.
pub open spec fn new_pool(count: nat, settings: SettingsModel) -> Seq<AgentModel> {
    Seq::new(count, |i: int| new_agent((i + 1) as usize, settings))
}

/// The archive of a pool is that of its first agent.
pub open spec fn pool_history(agents: Seq<AgentModel>) -> Seq<MessageModel> {
    if agents.len() > 0 {
        agents[0].persisted_history
    } else {
        Seq::empty()
    }
}

/// The memory of a pool is that of its first agent.
pub open spec fn pool_memory(agents: Seq<AgentModel>) -> MemoryModel {
    if agents.len() > 0 {
        agents[0].memory
    } else {
        empty_memory()
    }
}

/// The pool with every agent reset.
pub open spec fn pool_reset(agents: Seq<AgentModel>) -> Seq<AgentModel> {
    Seq::new(agents.len(), |i: int| agent_reset(agents[i]))
}

/// The pool with other settings.
pub open spec fn pool_configured(agents: Seq<AgentModel>, settings: SettingsModel) -> Seq<
    AgentModel,
> {
    Seq::new(agents.len(), |i: int| agent_reset(AgentModel { settings, ..agents[i] }))
}

/// The pool with a dialogue of these messages.
pub open spec fn pool_restored(agents: Seq<AgentModel>, messages: Seq<MessageModel>) -> Seq<
    AgentModel,
> {
    Seq::new(agents.len(), |i: int| agent_restored(agents[i], messages))
}

/// The pool with another memory.
pub open spec fn pool_with_memory(agents: Seq<AgentModel>, memory: MemoryModel) -> Seq<AgentModel> {
    Seq::new(agents.len(), |i: int| AgentModel { memory, ..agents[i] })
}

/// The pool with the enabled ones of these rules.
pub open spec fn pool_with_rules(agents: Seq<AgentModel>, rules: Seq<RuleModel>) -> Seq<
    AgentModel,
> {
    Seq::new(
        agents.len(),
        |i: int| AgentModel { invariants: enabled_rules(rules), ..agents[i] },
    )
}

/// The pool that goes on with a session.
pub open spec fn pool_resumed(agents: Seq<AgentModel>, session: SavedModel) -> Seq<AgentModel> {
    Seq::new(agents.len(), |i: int| session_resumed(agents[i], session))
}

/// The pool after the memory was selected anew: a dialogue that has begun is left.
pub open spec fn pool_activated(agents: Seq<AgentModel>, memory: MemoryModel) -> Seq<AgentModel> {
    if pool_history(agents).len() > 0 {
        pool_with_memory(pool_reset(agents), memory)
    } else {
        pool_with_memory(agents, memory)
    }
}

/// The pool with another way to keep the context short.
pub open spec fn pool_compressed(
    agents: Seq<AgentModel>,
    strategy: CompressionStrategy,
    count: usize,
) -> Seq<AgentModel> {
    Seq::new(agents.len(), |i: int| with_compression(agents[i], strategy, count))
}

/// The pool with a checkpoint in every agent.
pub open spec fn pool_checkpoint(agents: Seq<AgentModel>) -> Seq<AgentModel> {
    Seq::new(agents.len(), |i: int| with_checkpoint(agents[i]))
}

/// The agent back at its checkpoint, or as it is left where there is none.
pub open spec fn agent_loaded(a: AgentModel) -> (AgentModel, Option<Seq<char>>) {
    match a.checkpoint {
        Some(state) => (at_checkpoint(a, state), None),
        None => (with_saved_branch(a), Some("checkpoint не найден"@)),
    }
}

/// The agents back at their checkpoints, up to the first that has none.
pub open spec fn pool_loaded(agents: Seq<AgentModel>) -> (Seq<AgentModel>, Option<Seq<char>>)
    decreases agents.len(),
{
    if agents.len() == 0 {
        (agents, None)
    } else {
        let head = pool_loaded(agents.drop_last());
        if head.1 is Some {
            (head.0.push(agents.last()), head.1)
        } else {
            let last = agent_loaded(agents.last());
            (head.0.push(last.0), last.1)
        }
    }
}

/// The agent on another branch, or as it is left where there is no such branch.
pub open spec fn agent_switched(a: AgentModel, name: Seq<char>) -> (AgentModel, Option<Seq<char>>) {
    match branch_get(with_saved_branch(a).branches, name) {
        Some(state) => (on_branch(a, name, state), None),
        None => (with_saved_branch(a), Some("ветка «"@ + name + "» не найдена"@)),
    }
}

/// The agents on another branch, up to the first that has no such branch.
pub open spec fn pool_switched(agents: Seq<AgentModel>, name: Seq<char>) -> (
    Seq<AgentModel>,
    Option<Seq<char>>,
)
    decreases agents.len(),
{
    if agents.len() == 0 {
        (agents, None)
    } else {
        let head = pool_switched(agents.drop_last(), name);
        if head.1 is Some {
            (head.0.push(agents.last()), head.1)
        } else {
            let last = agent_switched(agents.last(), name);
            (head.0.push(last.0), last.1)
        }
    }
}

proof fn lemma_pool_loaded(agents: Seq<AgentModel>, n: int)
    requires
        0 <= n <= agents.len(),
    ensures
        pool_loaded(agents).0.len() == agents.len(),
        pool_loaded(agents.take(n)).1 is Some ==> pool_loaded(agents) == (
            pool_loaded(agents.take(n)).0 + agents.skip(n),
            pool_loaded(agents.take(n)).1,
        ),
    decreases agents.len(),
{
    if n == agents.len() {
        assert(agents.take(n) =~= agents);
        assert(agents.skip(n).len() == 0);
        if agents.len() > 0 {
            lemma_pool_loaded(agents.drop_last(), n - 1);
        }
        assert(pool_loaded(agents).0 + agents.skip(n) =~= pool_loaded(agents).0);
    } else {
        assert(agents.drop_last().take(n) =~= agents.take(n));
        lemma_pool_loaded(agents.drop_last(), n);
        let head = pool_loaded(agents.take(n)).0;
        assert((head + agents.drop_last().skip(n)).push(agents.last()) =~= head + agents.skip(n));
    }
}

proof fn lemma_pool_switched(agents: Seq<AgentModel>, name: Seq<char>, n: int)
    requires
        0 <= n <= agents.len(),
    ensures
        pool_switched(agents, name).0.len() == agents.len(),
        pool_switched(agents.take(n), name).1 is Some ==> pool_switched(agents, name) == (
            pool_switched(agents.take(n), name).0 + agents.skip(n),
            pool_switched(agents.take(n), name).1,
        ),
    decreases agents.len(),
{
    if n == agents.len() {
        assert(agents.take(n) =~= agents);
        assert(agents.skip(n).len() == 0);
        if agents.len() > 0 {
            lemma_pool_switched(agents.drop_last(), name, n - 1);
        }
        assert(pool_switched(agents, name).0 + agents.skip(n) =~= pool_switched(agents, name).0);
    } else {
        assert(agents.drop_last().take(n) =~= agents.take(n));
        lemma_pool_switched(agents.drop_last(), name, n);
        let head = pool_switched(agents.take(n), name).0;
        assert((head + agents.drop_last().skip(n)).push(agents.last()) =~= head + agents.skip(n));
    }
}

/// The result of an operation that can fail shows what a mathematical result says.
pub open spec fn agrees_outcome(r: Result<(), String>, error: Option<Seq<char>>) -> bool {
    match (r, error) {
        (Ok(_), None) => true,
        (Err(message), Some(model)) => message@ == model,
        _ => false,
    }
}

/// Every agent of a list is well-formed.
pub open spec fn agents_wf(agents: Seq<Agent>) -> bool {
    forall|i: int| 0 <= i < agents.len() ==> (#[trigger] agents[i]).wf()
}

impl AgentPool {
    /// Every agent is well-formed.
    pub open spec fn wf(&self) -> bool {
        agents_wf(self.agents@)
    }

    /// A pool of `agent_count` new agents.
    pub fn new(agent_count: usize, settings: &AgentSettings) -> (r: AgentPool)
        ensures
            r@ == new_pool(agent_count as nat, settings@),
            r.wf(),
    {
        let ghost all = new_pool(agent_count as nat, settings@);
        let mut agents: Vec<Agent> = Vec::new();
        let mut i: usize = 0;
        while i < agent_count
            invariant
                i <= agent_count,
                all == new_pool(agent_count as nat, settings@),
                views(agents@) == all.take(i as int),
                agents_wf(agents@),
            decreases agent_count - i,
        {
            let agent = Agent::new(i + 1, settings.clone());
            proof {
                assert(all.take(i as int).push(agent@) =~= all.take(i + 1));
            }
            agents.push(agent);
            i += 1;
        }
        proof {
            assert(all.take(i as int) =~= all);
        }
        AgentPool { agents }
    }

    /// Starts an empty dialogue.
    pub fn reset(&mut self)
        ensures
            final(self)@ == pool_reset(old(self)@),
            final(self).wf(),
    {
        let ghost start = self@;
        let mut i: usize = 0;
        while i < self.agents.len()
            invariant
                i <= self.agents@.len(),
                start == old(self)@,
                start.len() == self.agents@.len(),
                forall|k: int| 0 <= k < i ==> (#[trigger] self.agents@[k])@ == agent_reset(start[k]),
                forall|k: int| 0 <= k < i ==> (#[trigger] self.agents@[k]).wf(),
                forall|k: int|
                    i <= k < self.agents@.len() ==> (#[trigger] self.agents@[k])@ == start[k],
            decreases self.agents.len() - i,
        {
            self.agents[i].reset();
            i += 1;
        }
        proof {
            assert(self@ =~= pool_reset(start));
        }
    }

    /// Takes over other settings and starts an empty dialogue.
    pub fn reconfigure(&mut self, settings: &AgentSettings)
        ensures
            final(self)@ == pool_configured(old(self)@, settings@),
            final(self).wf(),
    {
        let ghost start = self@;
        let mut i: usize = 0;
        while i < self.agents.len()
            invariant
                i <= self.agents@.len(),
                start == old(self)@,
                start.len() == self.agents@.len(),
                forall|k: int|
                    0 <= k < i ==> (#[trigger] self.agents@[k])@ == agent_reset(
                        AgentModel { settings: settings@, ..start[k] },
                    ),
                forall|k: int| 0 <= k < i ==> (#[trigger] self.agents@[k]).wf(),
                forall|k: int|
                    i <= k < self.agents@.len() ==> (#[trigger] self.agents@[k])@ == start[k],
            decreases self.agents.len() - i,
        {
            let copy = settings.clone();
            self.agents[i].reconfigure(copy);
            i += 1;
        }
        proof {
            assert(self@ =~= pool_configured(start, settings@));
        }
    }

    /// Starts a dialogue that consists of these messages.
    pub fn restore(&mut self, messages: &Vec<Message>)
        ensures
            final(self)@ == pool_restored(old(self)@, views(messages@)),
            final(self).wf(),
    {
        let ghost start = self@;
        let mut i: usize = 0;
        while i < self.agents.len()
            invariant
                i <= self.agents@.len(),
                start == old(self)@,
                start.len() == self.agents@.len(),
                forall|k: int|
                    0 <= k < i ==> (#[trigger] self.agents@[k])@ == agent_restored(
                        start[k],
                        views(messages@),
                    ),
                forall|k: int| 0 <= k < i ==> (#[trigger] self.agents@[k]).wf(),
                forall|k: int|
                    i <= k < self.agents@.len() ==> (#[trigger] self.agents@[k])@ == start[k],
            decreases self.agents.len() - i,
        {
            self.agents[i].restore(messages);
            i += 1;
        }
        proof {
            assert(self@ =~= pool_restored(start, views(messages@)));
        }
    }

    /// Goes on with a saved session.
    pub fn resume_session(&mut self, session: &SavedSession)
        requires
            session.wf(),
        ensures
            final(self)@ == pool_resumed(old(self)@, session@),
            final(self).wf(),
    {
        let ghost start = self@;
        let mut i: usize = 0;
        while i < self.agents.len()
            invariant
                i <= self.agents@.len(),
                session.wf(),
                start == old(self)@,
                start.len() == self.agents@.len(),
                forall|k: int|
                    0 <= k < i ==> (#[trigger] self.agents@[k])@ == session_resumed(
                        start[k],
                        session@,
                    ),
                forall|k: int| 0 <= k < i ==> (#[trigger] self.agents@[k]).wf(),
                forall|k: int|
                    i <= k < self.agents@.len() ==> (#[trigger] self.agents@[k])@ == start[k],
            decreases self.agents.len() - i,
        {
            self.agents[i].resume_session(session);
            i += 1;
        }
        proof {
            assert(self@ =~= pool_resumed(start, session@));
        }
    }

    /// The archive of the dialogue.
    pub fn persisted_history(&self) -> (r: Vec<Message>)
        ensures
            views(r@) == pool_history(self@),
    {
        if self.agents.len() > 0 {
            copy_all(&self.agents[0].persisted_history)
        } else {
            let empty: Vec<Message> = Vec::new();
            proof {
                assert(views(empty@) =~= Seq::<MessageModel>::empty());
            }
            empty
        }
    }

    /// Takes over another memory.
    pub fn set_memory(&mut self, memory: &ActiveMemory)
        requires
            old(self).wf(),
        ensures
            final(self)@ == pool_with_memory(old(self)@, memory@),
            final(self).wf(),
    {
        let ghost start = self@;
        let mut i: usize = 0;
        while i < self.agents.len()
            invariant
                i <= self.agents@.len(),
                start == old(self)@,
                start.len() == self.agents@.len(),
                agents_wf(self.agents@),
                forall|k: int|
                    0 <= k < i ==> (#[trigger] self.agents@[k])@ == (AgentModel {
                        memory: memory@,
                        ..start[k]
                    }),
                forall|k: int|
                    i <= k < self.agents@.len() ==> (#[trigger] self.agents@[k])@ == start[k],
            decreases self.agents.len() - i,
        {
            let copy = memory.clone();
            self.agents[i].set_memory(copy);
            i += 1;
        }
        proof {
            assert(self@ =~= pool_with_memory(start, memory@));
        }
    }

    /// Takes over the enabled ones of these rules.
    pub fn set_invariants(&mut self, invariants: &Vec<Invariant>)
        requires
            old(self).wf(),
        ensures
            final(self)@ == pool_with_rules(old(self)@, views(invariants@)),
            final(self).wf(),
    {
        let ghost start = self@;
        let mut i: usize = 0;
        while i < self.agents.len()
            invariant
                i <= self.agents@.len(),
                start == old(self)@,
                start.len() == self.agents@.len(),
                agents_wf(self.agents@),
                forall|k: int|
                    0 <= k < i ==> (#[trigger] self.agents@[k])@ == (AgentModel {
                        invariants: enabled_rules(views(invariants@)),
                        ..start[k]
                    }),
                forall|k: int|
                    i <= k < self.agents@.len() ==> (#[trigger] self.agents@[k])@ == start[k],
            decreases self.agents.len() - i,
        {
            self.agents[i].set_invariants(invariants);
            i += 1;
        }
        proof {
            assert(self@ =~= pool_with_rules(start, views(invariants@)));
        }
    }

    /// Changes how the context is kept short.
    pub fn set_compression(&mut self, strategy: CompressionStrategy, count: usize)
        requires
            old(self).wf(),
        ensures
            final(self)@ == pool_compressed(old(self)@, strategy, count),
            final(self).wf(),
    {
        let ghost start = self@;
        let mut i: usize = 0;
        while i < self.agents.len()
            invariant
                i <= self.agents@.len(),
                start == old(self)@,
                start.len() == self.agents@.len(),
                agents_wf(self.agents@),
                forall|k: int|
                    0 <= k < i ==> (#[trigger] self.agents@[k])@ == with_compression(
                        start[k],
                        strategy,
                        count,
                    ),
                forall|k: int|
                    i <= k < self.agents@.len() ==> (#[trigger] self.agents@[k])@ == start[k],
            decreases self.agents.len() - i,
        {
            self.agents[i].set_compression(strategy, count);
            i += 1;
        }
        proof {
            assert(self@ =~= pool_compressed(start, strategy, count));
        }
    }

    /// Remembers the current state; the next message starts a new branch from it.
    pub fn create_checkpoint(&mut self)
        requires
            old(self).wf(),
        ensures
            final(self)@ == pool_checkpoint(old(self)@),
            final(self).wf(),
    {
        let ghost start = self@;
        let mut i: usize = 0;
        while i < self.agents.len()
            invariant
                i <= self.agents@.len(),
                start == old(self)@,
                start.len() == self.agents@.len(),
                agents_wf(self.agents@),
                forall|k: int|
                    0 <= k < i ==> (#[trigger] self.agents@[k])@ == with_checkpoint(start[k]),
                forall|k: int|
                    i <= k < self.agents@.len() ==> (#[trigger] self.agents@[k])@ == start[k],
            decreases self.agents.len() - i,
        {
            self.agents[i].create_checkpoint();
            i += 1;
        }
        proof {
            assert(self@ =~= pool_checkpoint(start));
        }
    }

    /// Goes back to the checkpoint; the next message starts a new branch from it. The first agent
    /// without a checkpoint ends this.
    pub fn load_checkpoint(&mut self) -> (r: Result<(), String>)
        requires
            old(self).wf(),
        ensures
            final(self).wf(),
            final(self)@ == pool_loaded(old(self)@).0,
            agrees_outcome(r, pool_loaded(old(self)@).1),
    {
        let ghost start = self@;
        let mut i: usize = 0;
        proof {
            assert(start.take(0).len() == 0);
        }
        while i < self.agents.len()
            invariant
                i <= self.agents@.len(),
                start == old(self)@,
                start.len() == self.agents@.len(),
                agents_wf(self.agents@),
                pool_loaded(start.take(i as int)) == (self@.take(i as int), None::<Seq<char>>),
                forall|k: int|
                    i <= k < self.agents@.len() ==> (#[trigger] self.agents@[k])@ == start[k],
            decreases self.agents.len() - i,
        {
            let ghost before = self@;
            proof {
                assert(start.take(i + 1).drop_last() =~= start.take(i as int));
                assert(start.take(i + 1).last() == start[i as int]);
                assert(self.agents@[i as int]@ == start[i as int]);
            }
            let outcome = self.agents[i].load_checkpoint();
            proof {
                assert(self@ =~= before.update(i as int, self@[i as int]));
                assert(self@.take(i + 1) =~= before.take(i as int).push(self@[i as int]));
            }
            if let Err(message) = outcome {
                proof {
                    lemma_pool_loaded(start, i + 1);
                    assert(self@ =~= self@.take(i + 1) + start.skip(i + 1));
                }
                return Err(message);
            }
            i += 1;
        }
        proof {
            assert(start.take(i as int) =~= start);
            assert(self@.take(i as int) =~= self@);
        }
        Ok(())
    }

    /// Goes over to another branch. The first agent without such a branch ends this.
    pub fn switch_branch(&mut self, name: &str) -> (r: Result<(), String>)
        requires
            old(self).wf(),
        ensures
            final(self).wf(),
            final(self)@ == pool_switched(old(self)@, name@).0,
            agrees_outcome(r, pool_switched(old(self)@, name@).1),
    {
        let ghost start = self@;
        let mut i: usize = 0;
        proof {
            assert(start.take(0).len() == 0);
        }
        while i < self.agents.len()
            invariant
                i <= self.agents@.len(),
                start == old(self)@,
                start.len() == self.agents@.len(),
                agents_wf(self.agents@),
                pool_switched(start.take(i as int), name@) == (
                    self@.take(i as int),
                    None::<Seq<char>>,
                ),
                forall|k: int|
                    i <= k < self.agents@.len() ==> (#[trigger] self.agents@[k])@ == start[k],
            decreases self.agents.len() - i,
        {
            let ghost before = self@;
            proof {
                assert(start.take(i + 1).drop_last() =~= start.take(i as int));
                assert(start.take(i + 1).last() == start[i as int]);
                assert(self.agents@[i as int]@ == start[i as int]);
            }
            let outcome = self.agents[i].switch_branch(name);
            proof {
                assert(self@ =~= before.update(i as int, self@[i as int]));
                assert(self@.take(i + 1) =~= before.take(i as int).push(self@[i as int]));
            }
            if let Err(message) = outcome {
                proof {
                    lemma_pool_switched(start, name@, i + 1);
                    assert(self@ =~= self@.take(i + 1) + start.skip(i + 1));
                }
                return Err(message);
            }
            i += 1;
        }
        proof {
            assert(start.take(i as int) =~= start);
            assert(self@.take(i as int) =~= self@);
        }
        Ok(())
    }

    /// The memory of the agents.
    pub fn memory(&self) -> (r: ActiveMemory)
        ensures
            r@ == pool_memory(self@),
    {
        if self.agents.len() > 0 {
            self.agents[0].memory.clone()
        } else {
            ActiveMemory::default()
        }
    }
}

/// Selects another memory. A dialogue that has begun is left for a new one: `true` says so.
pub fn activate_memory_context(
    agents: &mut AgentPool,
    active_session_id: &mut Option<i64>,
    memory: &ActiveMemory,
) -> (r: bool)
    requires
        old(agents).wf(),
    ensures
        final(agents).wf(),
        r == (pool_history(old(agents)@).len() > 0),
        final(agents)@ == pool_activated(old(agents)@, memory@),
        *final(active_session_id) == if r {
            None
        } else {
            *old(active_session_id)
        },
{
    let history = agents.persisted_history();
    let started = history.len() > 0;
    if started {
        agents.reset();
        *active_session_id = None;
    }
    agents.set_memory(memory);
    started
}

// What the operations on a pool keep.

/// All agents of a pool have one dialogue, one memory and the same rules.
pub open spec fn in_step(agents: Seq<AgentModel>) -> bool {
    forall|i: int|
        0 <= i < agents.len() ==> (#[trigger] agents[i]).persisted_history
            == agents[0].persisted_history && agents[i].memory == agents[0].memory
            && agents[i].invariants == agents[0].invariants && agents[i].settings
            == agents[0].settings
}

/// Every operation on a pool as a whole keeps its agents in step.
pub proof fn law_pool_stays_in_step(
    agents: Seq<AgentModel>,
    settings: SettingsModel,
    messages: Seq<MessageModel>,
    memory: MemoryModel,
    rules: Seq<RuleModel>,
    session: SavedModel,
)
    requires
        in_step(agents),
    ensures
        in_step(pool_reset(agents)),
        in_step(pool_configured(agents, settings)),
        in_step(pool_restored(agents, messages)),
        in_step(pool_with_memory(agents, memory)),
        in_step(pool_with_rules(agents, rules)),
        in_step(pool_resumed(agents, session)),
        in_step(pool_activated(agents, memory)),
{
}

/// A new pool is in step, and its agents are numbered from one.
pub proof fn law_new_pool(count: nat, settings: SettingsModel)
    requires
        count < usize::MAX,
    ensures
        in_step(new_pool(count, settings)),
        forall|i: int|
            0 <= i < count ==> (#[trigger] new_pool(count, settings)[i]).id == i + 1,
{
}

/// A new dialogue forgets the profile and the task, never the long-term facts.
pub proof fn law_reset_keeps_long_term_facts(agents: Seq<AgentModel>)
    requires
        agents.len() > 0,
    ensures
        pool_memory(pool_reset(agents)) == (MemoryModel {
            profile: None,
            task: None,
            long_term_facts: pool_memory(agents).long_term_facts,
        }),
        pool_history(pool_reset(agents)).len() == 0,
{
}

proof fn lemma_switched(agents: Seq<AgentModel>, name: Seq<char>)
    requires
        forall|i: int|
            0 <= i < agents.len() ==> branch_get(
                with_saved_branch(#[trigger] agents[i]).branches,
                name,
            ) is Some,
    ensures
        pool_switched(agents, name).1 is None,
        pool_switched(agents, name).0.len() == agents.len(),
        forall|i: int|
            0 <= i < agents.len() ==> (#[trigger] pool_switched(agents, name).0[i]) == on_branch(
                agents[i],
                name,
                branch_get(with_saved_branch(agents[i]).branches, name)->Some_0,
            ),
    decreases agents.len(),
{
    if agents.len() > 0 {
        let head = agents.drop_last();
        assert forall|i: int| 0 <= i < head.len() implies branch_get(
            with_saved_branch(#[trigger] head[i]).branches,
            name,
        ) is Some by {
            assert(head[i] == agents[i]);
        }
        lemma_switched(head, name);
        assert(branch_get(with_saved_branch(agents[agents.len() - 1]).branches, name) is Some);
    }
}

/// All agents go to a branch together: each then has the dialogue of that branch, and waits for no
/// new one.
pub proof fn law_agents_switch_together(agents: Seq<AgentModel>, name: Seq<char>, i: int)
    requires
        0 <= i < agents.len(),
        forall|k: int|
            0 <= k < agents.len() ==> branch_get(
                with_saved_branch(#[trigger] agents[k]).branches,
                name,
            ) is Some,
    ensures
        ({
            let (after, error) = pool_switched(agents, name);
            let state = branch_get(with_saved_branch(agents[i]).branches, name)->Some_0;
            &&& error is None
            &&& after.len() == agents.len()
            &&& after[i].active_branch == name
            &&& after[i].history == state.history
            &&& after[i].persisted_history == state.persisted_history
            &&& after[i].summary == state.summary
            &&& after[i].facts == state.facts
            &&& !after[i].branch_pending
        }),
{
    lemma_switched(agents, name);
}

/// A branch that does not exist cannot be switched to.
pub proof fn law_unknown_branch_is_refused(a: AgentModel, name: Seq<char>)
    requires
        branch_get(with_saved_branch(a).branches, name) is None,
    ensures
        agent_switched(a, name).1 is Some,
        agent_switched(a, name).0.history == a.history,
        agent_switched(a, name).0.active_branch == a.active_branch,
{
}

/// A checkpoint keeps the dialogue as it is, and loading it brings that back; without one there is
/// nothing to load.
pub proof fn law_checkpoint_is_loaded(a: AgentModel)
    ensures
        a.checkpoint matches Some(state) ==> {
            &&& agent_loaded(a).1 is None
            &&& agent_loaded(a).0.history == state.history
            &&& agent_loaded(a).0.summary == state.summary
            &&& agent_loaded(a).0.facts == state.facts
            &&& agent_loaded(a).0.branch_pending
        },
        a.checkpoint is None ==> agent_loaded(a).1 is Some && agent_loaded(a).0.history
            == a.history,
{
}

/// Every agent of a pool gets the same settings, memory, rules and dialogue.
pub proof fn law_pool_members_get_the_same(
    agents: Seq<AgentModel>,
    settings: SettingsModel,
    messages: Seq<MessageModel>,
    memory: MemoryModel,
    rules: Seq<RuleModel>,
    i: int,
)
    requires
        0 <= i < agents.len(),
    ensures
        pool_configured(agents, settings)[i].settings == settings,
        pool_configured(agents, settings)[i].persisted_history.len() == 0,
        pool_restored(agents, messages)[i].history == messages,
        pool_restored(agents, messages)[i].persisted_history == messages,
        pool_with_memory(agents, memory)[i].memory == memory,
        pool_with_memory(agents, memory)[i].history == agents[i].history,
        pool_with_rules(agents, rules)[i].invariants == rules.filter(
            |rule: RuleModel| rule.enabled,
        ),
        pool_with_rules(agents, rules)[i].history == agents[i].history,
        pool_reset(agents)[i].history.len() == 0,
        pool_checkpoint(agents)[i].checkpoint == Some(branch_state(agents[i])),
        pool_checkpoint(agents)[i].branch_pending,
{
    law_enabled_rules_are_kept(rules);
}

proof fn lemma_loaded(agents: Seq<AgentModel>)
    requires
        forall|i: int| 0 <= i < agents.len() ==> (#[trigger] agents[i]).checkpoint is Some,
    ensures
        pool_loaded(agents).1 is None,
        pool_loaded(agents).0.len() == agents.len(),
        forall|i: int|
            0 <= i < agents.len() ==> (#[trigger] pool_loaded(agents).0[i]) == agent_loaded(
                agents[i],
            ).0,
    decreases agents.len(),
{
    if agents.len() > 0 {
        let head = agents.drop_last();
        assert forall|i: int| 0 <= i < head.len() implies (
        #[trigger] head[i]).checkpoint is Some by {
            assert(head[i] == agents[i]);
        }
        lemma_loaded(head);
        assert(agents[agents.len() - 1].checkpoint is Some);
    }
}

/// All agents go back to their checkpoints together, and wait for a new branch.
pub proof fn law_agents_load_together(agents: Seq<AgentModel>, i: int)
    requires
        0 <= i < agents.len(),
        forall|k: int| 0 <= k < agents.len() ==> (#[trigger] agents[k]).checkpoint is Some,
    ensures
        ({
            let (after, error) = pool_loaded(agents);
            let state = agents[i].checkpoint->Some_0;
            &&& error is None
            &&& after.len() == agents.len()
            &&& after[i].history == state.history
            &&& after[i].summary == state.summary
            &&& after[i].facts == state.facts
            &&& after[i].branch_pending
        }),
{
    lemma_loaded(agents);
}

} // verus!
