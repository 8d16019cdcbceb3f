//! The state of the interactive program: configuration, modes, agents and the current session, and
//! how commands change it.

use vstd::prelude::*;

use crate::agent::{
    agent_reset, at_checkpoint, branch_get, branch_index, branch_set, branch_state, copy_branches,
    copy_state, enabled_rules, has_branch, lemma_branch_index, new_branch_name, on_branch,
    on_new_branch, settings_from, with_checkpoint, with_compression, with_saved_branch,
    with_summary, Agent, AgentModel, AgentSettings, AnswerModel, BranchModel, SettingsModel,
    StateModel, StatusModel,
};
use crate::config::{
    law_settings_are_independent, lemma_provider_found, lemma_provider_kept, mode_index,
    no_provider, provider_api_key, provider_index, provider_model, provider_settings,
    provider_temperature, with_settings, CompressionStrategy, Config, ConfigModel, ModeModel,
    ModesConfig, Provider, ProviderModel, CONTEXT_MESSAGES_MAX,
};
use crate::conversation::{answer_facts, assistant_message, copy_all, title_of};
use crate::memory::{EntryModel, MemoryEntry, Profile, ProfileModel, TaskPhase};
use crate::order::{ascending, same_texts, sorted_texts};
use crate::pool::{
    activate_memory_context, agrees_outcome, new_pool, pool_activated, pool_compressed,
    pool_configured, pool_history, pool_memory, pool_reset, pool_resumed, pool_with_memory,
    pool_with_rules, AgentPool,
};
use crate::sessions::{
    can_be_stored, distinct_branches, restored_active, SavedModel, SavedSession, SessionSnapshot,
    SnapshotModel,
};
use crate::task_store::{
    completion_text, task_phase_completion_message, task_phase_continue_instruction,
    task_phase_start_instruction, TaskUpdateProgress, CONTINUE_EXECUTION, CONTINUE_VALIDATION,
    START_EXECUTION, START_VALIDATION,
};
use crate::tasks::{empty_memory, ActiveMemory, Invariant, MemoryModel, RuleModel, Task, TaskModel};
use crate::text::{agrees, lemma_views_push, same, trim, view_option, views};
use crate::turn::{
    asked, checked_turn, dialogue, finished_turn, plain_answer, resumed_turn, started_turn,
    starts_branch, task_answer, trimmed_context, with_cost, with_message, DialogueModel,
    ReplyModel, StageModel, TurnModel,
};
use crate::verdict::{refusal_text, verdict_of};

verus! {

broadcast use lemma_views_push;

/// The state of the interactive program.
#[derive(Debug, PartialEq, Eq)]
pub struct Workspace {
    pub config: Config,
    pub modes: ModesConfig,
    pub provider: Provider,
    pub active_mode: Option<usize>,
    pub agents: AgentPool,
    pub session_id: Option<i64>,
}

/// The state of the interactive program, mathematically.
pub ghost struct WorkspaceModel {
    pub config: ConfigModel,
    pub modes: Seq<ModeModel>,
    pub provider: Provider,
    pub active_mode: Option<usize>,
    pub agents: Seq<AgentModel>,
    pub session_id: Option<i64>,
}

impl View for Workspace {
    type V = WorkspaceModel;

    open spec fn view(&self) -> WorkspaceModel {
        WorkspaceModel {
            config: self.config@,
            modes: self.modes@,
            provider: self.provider,
            active_mode: self.active_mode,
            agents: self.agents@,
            session_id: self.session_id,
        }
    }
}

/// The mode at a position.
pub open spec fn mode_at(modes: Seq<ModeModel>, index: Option<usize>) -> Option<ModeModel> {
    match index {
        Some(index) if index < modes.len() => Some(modes[index as int]),
        _ => None,
    }
}

/// The position of the mode with a name.
pub open spec fn mode_position(modes: Seq<ModeModel>, name: Option<Seq<char>>) -> Option<usize> {
    match name {
        Some(name) if mode_index(modes, name) < modes.len() => Some(
            mode_index(modes, name) as usize,
        ),
        _ => None,
    }
}

/// The name of the mode at a position.
pub open spec fn mode_title(modes: Seq<ModeModel>, index: Option<usize>) -> Option<Seq<char>> {
    match mode_at(modes, index) {
        Some(mode) => Some(mode.name),
        None => None,
    }
}

/// The settings of the agents.
pub open spec fn workspace_settings(w: WorkspaceModel) -> Result<SettingsModel, Seq<char>> {
    settings_from(w.config, w.provider, mode_at(w.modes, w.active_mode))
}

/// The state after the agents took over the configuration: a new session with the same memory. Where
/// the configuration is incomplete, the agents stay as they are.
pub open spec fn reconfigured(w: WorkspaceModel) -> (WorkspaceModel, Option<Seq<char>>) {
    match workspace_settings(w) {
        Err(message) => (w, Some(message)),
        Ok(settings) => (
            WorkspaceModel {
                agents: pool_with_memory(
                    pool_configured(w.agents, settings),
                    pool_memory(w.agents),
                ),
                session_id: None,
                ..w
            },
            None,
        ),
    }
}

/// The memory of a program that has just started: the long-term facts.
pub open spec fn entries_memory(entries: Seq<EntryModel>) -> MemoryModel {
    MemoryModel { long_term_facts: entries, ..empty_memory() }
}

/// The state of a program that has just started.
pub open spec fn started(
    config: ConfigModel,
    modes: Seq<ModeModel>,
    provider: Provider,
    rules: Seq<RuleModel>,
    entries: Seq<EntryModel>,
) -> Result<WorkspaceModel, Seq<char>> {
    let active_mode = mode_position(modes, config.last_mode);
    match settings_from(config, provider, mode_at(modes, active_mode)) {
        Err(message) => Err(message),
        Ok(settings) => Ok(
            WorkspaceModel {
                config: ConfigModel { last_provider: Some(provider), ..config },
                modes,
                provider,
                active_mode,
                agents: pool_with_memory(
                    pool_with_rules(new_pool(1, settings), rules),
                    entries_memory(entries),
                ),
                session_id: None,
            },
        ),
    }
}

/// The state after another provider was chosen.
pub open spec fn provider_changed(w: WorkspaceModel, provider: Provider) -> (
    WorkspaceModel,
    Option<Seq<char>>,
) {
    reconfigured(
        WorkspaceModel {
            provider,
            config: ConfigModel { last_provider: Some(provider), ..w.config },
            ..w
        },
    )
}

/// The state after another model was chosen, with the temperature it is used with.
pub open spec fn model_changed(w: WorkspaceModel, model: Seq<char>, temperature: Seq<char>) -> (
    WorkspaceModel,
    Option<Seq<char>>,
) {
    match provider_settings(w.config, w.provider) {
        None => (w, Some(no_provider(w.config, w.provider))),
        Some(settings) => reconfigured(
            WorkspaceModel {
                config: with_settings(
                    w.config,
                    w.provider,
                    ProviderModel { model, temperature, ..settings },
                ),
                ..w
            },
        ),
    }
}

/// The state after another temperature was chosen.
pub open spec fn temperature_changed(w: WorkspaceModel, temperature: Seq<char>) -> (
    WorkspaceModel,
    Option<Seq<char>>,
) {
    match provider_settings(w.config, w.provider) {
        None => (w, Some(no_provider(w.config, w.provider))),
        Some(settings) => reconfigured(
            WorkspaceModel {
                config: with_settings(
                    w.config,
                    w.provider,
                    ProviderModel { temperature, ..settings },
                ),
                ..w
            },
        ),
    }
}

/// The state after another mode was chosen.
pub open spec fn mode_changed(w: WorkspaceModel, index: Option<usize>) -> (
    WorkspaceModel,
    Option<Seq<char>>,
) {
    reconfigured(
        WorkspaceModel {
            active_mode: index,
            config: ConfigModel { last_mode: mode_title(w.modes, index), ..w.config },
            ..w
        },
    )
}

/// The configuration that a session was led with.
pub open spec fn session_config(
    w: WorkspaceModel,
    s: SavedModel,
    settings: ProviderModel,
) -> ConfigModel {
    let config = with_settings(
        ConfigModel { last_provider: Some(s.provider), ..w.config },
        s.provider,
        ProviderModel { model: s.model, temperature: s.temperature, ..settings },
    );
    ConfigModel {
        compression_strategy: s.compression_strategy,
        context_messages: s.context_messages,
        last_mode: mode_title(w.modes, mode_position(w.modes, s.mode)),
        ..config
    }
}

/// The state after a session was opened: its provider, model, temperature, mode and strategy are
/// taken over, and the agents go on with it.
pub open spec fn session_opened(w: WorkspaceModel, s: SavedModel, entries: Seq<EntryModel>) -> (
    WorkspaceModel,
    Option<Seq<char>>,
) {
    let chosen = WorkspaceModel {
        provider: s.provider,
        config: ConfigModel { last_provider: Some(s.provider), ..w.config },
        ..w
    };
    match provider_settings(chosen.config, s.provider) {
        None => (chosen, Some(no_provider(chosen.config, s.provider))),
        Some(settings) => {
            let ready = WorkspaceModel {
                config: session_config(w, s, settings),
                active_mode: mode_position(w.modes, s.mode),
                ..chosen
            };
            match workspace_settings(ready) {
                Err(message) => (ready, Some(message)),
                Ok(settings) => (
                    WorkspaceModel {
                        agents: pool_with_memory(
                            pool_resumed(pool_configured(w.agents, settings), s),
                            MemoryModel {
                                profile: s.profile,
                                task: s.task,
                                long_term_facts: entries,
                            },
                        ),
                        session_id: Some(s.id),
                        ..ready
                    },
                    None,
                ),
            }
        },
    }
}

/// The number of an optional profile.
pub open spec fn profile_number(profile: Option<ProfileModel>) -> Option<i64> {
    match profile {
        Some(profile) => Some(profile.id),
        None => None,
    }
}

/// The number of an optional task.
pub open spec fn task_number(task: Option<TaskModel>) -> Option<i64> {
    match task {
        Some(task) => Some(task.id),
        None => None,
    }
}

/// What the selection of a profile or a task did.
#[derive(Debug, Clone, Copy, PartialEq, Eq, Structural)]
pub enum Selection {
    Kept,
    Changed,
    NewSession,
}

/// The state with another memory: a dialogue that has begun is left.
pub open spec fn memory_selected(w: WorkspaceModel, memory: MemoryModel) -> (
    WorkspaceModel,
    Selection,
) {
    let begun = pool_history(w.agents).len() > 0;
    (
        WorkspaceModel {
            agents: pool_activated(w.agents, memory),
            session_id: if begun {
                None
            } else {
                w.session_id
            },
            ..w
        },
        if begun {
            Selection::NewSession
        } else {
            Selection::Changed
        },
    )
}

/// The state after a profile was selected, or none.
pub open spec fn profile_selected(w: WorkspaceModel, profile: Option<ProfileModel>) -> (
    WorkspaceModel,
    Selection,
) {
    let memory = pool_memory(w.agents);
    if profile_number(memory.profile) == profile_number(profile) {
        (w, Selection::Kept)
    } else {
        memory_selected(w, MemoryModel { profile, ..memory })
    }
}

/// The state with what is known of the task renewed.
pub open spec fn task_renewed(w: WorkspaceModel, task: Option<TaskModel>) -> WorkspaceModel {
    WorkspaceModel {
        agents: pool_with_memory(w.agents, MemoryModel { task, ..pool_memory(w.agents) }),
        ..w
    }
}

/// The state after a task was selected, or none. The same task is only renewed.
pub open spec fn task_selected(w: WorkspaceModel, task: Option<TaskModel>) -> (
    WorkspaceModel,
    Selection,
) {
    let memory = pool_memory(w.agents);
    if task_number(memory.task) == task_number(task) {
        (task_renewed(w, task), Selection::Kept)
    } else {
        memory_selected(w, MemoryModel { task, ..memory })
    }
}

/// The state with other long-term facts.
pub open spec fn entries_changed(w: WorkspaceModel, entries: Seq<EntryModel>) -> WorkspaceModel {
    WorkspaceModel {
        agents: pool_with_memory(
            w.agents,
            MemoryModel { long_term_facts: entries, ..pool_memory(w.agents) },
        ),
        ..w
    }
}

/// The state with another way to keep the context short.
pub open spec fn compression_changed(
    w: WorkspaceModel,
    strategy: CompressionStrategy,
    count: usize,
) -> WorkspaceModel {
    WorkspaceModel {
        config: ConfigModel {
            compression_strategy: strategy,
            context_messages: count,
            ..w.config
        },
        agents: pool_compressed(w.agents, strategy, count),
        ..w
    }
}

/// How many messages of the archive are not in the context.
pub open spec fn summarized(a: AgentModel) -> usize {
    if a.persisted_history.len() > a.history.len() {
        (a.persisted_history.len() - a.history.len()) as usize
    } else {
        0
    }
}

/// What is stored of the current session.
pub open spec fn snapshot_of(w: WorkspaceModel) -> Result<SnapshotModel, Seq<char>> {
    match provider_model(w.config, w.provider) {
        Err(message) => Err(message),
        Ok(model) => match provider_temperature(w.config, w.provider) {
            Err(message) => Err(message),
            Ok(temperature) => {
                let a = w.agents[0];
                Ok(
                    SnapshotModel {
                        provider: w.provider,
                        model,
                        mode: mode_title(w.modes, w.active_mode),
                        temperature,
                        messages: a.persisted_history,
                        summary: a.summary,
                        facts: a.facts,
                        summarized_count: summarized(a),
                        compression_strategy: w.config.compression_strategy,
                        context_messages: w.config.context_messages,
                        branches: a.branches,
                        checkpoint: a.checkpoint,
                        active_branch: a.active_branch,
                        branch_pending: a.branch_pending,
                        profile_id: profile_number(a.memory.profile),
                        task_id: task_number(a.memory.task),
                    },
                )
            },
        },
    }
}

fn number_of_profile(profile: &Option<Profile>) -> (r: Option<i64>)
    ensures
        r == profile_number(view_option(*profile)),
{
    match profile {
        Some(profile) => Some(profile.id),
        None => None,
    }
}

fn number_of_task(task: &Option<Task>) -> (r: Option<i64>)
    ensures
        r == task_number(view_option(*task)),
{
    match task {
        Some(task) => Some(task.id),
        None => None,
    }
}

impl Workspace {
    /// The agents are well-formed.
    pub open spec fn wf(&self) -> bool {
        self.agents.wf()
    }

    /// The state of a program that starts with a provider.
    pub fn start(
        config: Config,
        modes: ModesConfig,
        provider: Provider,
        rules: &Vec<Invariant>,
        entries: Vec<MemoryEntry>,
    ) -> (r: Result<Workspace, String>)
        ensures
            agrees(
                r,
                started(config@, modes@, provider, views(rules@), views(entries@)),
            ),
            r is Ok ==> r->Ok_0.wf(),
    {
        let mut config = config;
        let active_mode = match &config.last_mode {
            Some(name) => modes.position(name.as_str()),
            None => None,
        };
        let mode = match active_mode {
            Some(index) => if index < modes.modes.len() {
                Some(&modes.modes[index])
            } else {
                None
            },
            None => None,
        };
        let settings = match AgentSettings::from_config(&config, provider, mode) {
            Ok(settings) => settings,
            Err(message) => return Err(message),
        };
        config.last_provider = Some(provider);
        let mut agents = AgentPool::new(1, &settings);
        agents.set_invariants(rules);
        agents.set_memory(&ActiveMemory { profile: None, task: None, long_term_facts: entries });
        Ok(Workspace { config, modes, provider, active_mode, agents, session_id: None })
    }

    /// The settings of the agents.
    pub fn settings(&self) -> (r: Result<AgentSettings, String>)
        ensures
            agrees(r, workspace_settings(self@)),
    {
        let mode = match self.active_mode {
            Some(index) => if index < self.modes.modes.len() {
                Some(&self.modes.modes[index])
            } else {
                None
            },
            None => None,
        };
        AgentSettings::from_config(&self.config, self.provider, mode)
    }

    /// Has the agents take over the configuration: a new session with the same memory.
    pub fn reconfigure(&mut self) -> (r: Result<(), String>)
        requires
            old(self).wf(),
        ensures
            final(self).wf(),
            final(self)@ == reconfigured(old(self)@).0,
            agrees_outcome(r, reconfigured(old(self)@).1),
    {
        let settings = match self.settings() {
            Ok(settings) => settings,
            Err(message) => return Err(message),
        };
        let memory = self.agents.memory();
        self.agents.reconfigure(&settings);
        self.agents.set_memory(&memory);
        self.session_id = None;
        Ok(())
    }

    /// Starts a new session.
    pub fn new_session(&mut self)
        ensures
            final(self).wf(),
            final(self)@ == (WorkspaceModel {
                agents: pool_reset(old(self)@.agents),
                session_id: None,
                ..old(self)@
            }),
    {
        self.agents.reset();
        self.session_id = None;
    }

    /// Leaves a session that was deleted: `true` says that it was the current one.
    pub fn session_deleted(&mut self, id: i64) -> (r: bool)
        requires
            old(self).wf(),
        ensures
            final(self).wf(),
            r == (old(self)@.session_id == Some(id)),
            final(self)@ == if r {
                WorkspaceModel {
                    agents: pool_reset(old(self)@.agents),
                    session_id: None,
                    ..old(self)@
                }
            } else {
                old(self)@
            },
    {
        match self.session_id {
            Some(current) => if current == id {
                self.new_session();
                true
            } else {
                false
            },
            None => false,
        }
    }

    /// Goes over to another provider.
    pub fn change_provider(&mut self, provider: Provider) -> (r: Result<(), String>)
        requires
            old(self).wf(),
        ensures
            final(self).wf(),
            final(self)@ == provider_changed(old(self)@, provider).0,
            agrees_outcome(r, provider_changed(old(self)@, provider).1),
    {
        self.provider = provider;
        self.config.last_provider = Some(provider);
        self.reconfigure()
    }

    fn put_model(&mut self, model: String, temperature: String) -> (r: Result<(), String>)
        requires
            old(self).wf(),
        ensures
            final(self).wf(),
            match provider_settings(old(self)@.config, old(self)@.provider) {
                None => final(self)@ == old(self)@ && r is Err && r->Err_0@ == no_provider(
                    old(self)@.config,
                    old(self)@.provider,
                ),
                Some(settings) => r is Ok && final(self)@ == (WorkspaceModel {
                    config: with_settings(
                        old(self)@.config,
                        old(self)@.provider,
                        ProviderModel { model: model@, temperature: temperature@, ..settings },
                    ),
                    ..old(self)@
                }),
            },
    {
        let ghost start = self@;
        let ghost at = provider_index(start.config.providers, start.provider) as int;
        if let Err(message) = self.config.set_model(self.provider, model) {
            return Err(message);
        }
        proof {
            let middle = ProviderModel {
                model: model@,
                ..provider_settings(start.config, start.provider)->Some_0
            };
            lemma_provider_found(start.config.providers, start.provider);
            lemma_provider_kept(start.config, start.provider, middle);
        }
        let r = self.config.set_temperature(self.provider, temperature);
        proof {
            let settings = ProviderModel {
                model: model@,
                temperature: temperature@,
                ..provider_settings(start.config, start.provider)->Some_0
            };
            assert(self@.config.providers =~= start.config.providers.update(at, settings));
        }
        r
    }

    /// Goes over to another model, with the temperature it is used with.
    pub fn change_model(&mut self, model: String, temperature: String) -> (r: Result<(), String>)
        requires
            old(self).wf(),
        ensures
            final(self).wf(),
            final(self)@ == model_changed(old(self)@, model@, temperature@).0,
            agrees_outcome(r, model_changed(old(self)@, model@, temperature@).1),
    {
        match self.put_model(model, temperature) {
            Err(message) => Err(message),
            Ok(_) => self.reconfigure(),
        }
    }

    /// Goes over to another temperature.
    pub fn change_temperature(&mut self, temperature: String) -> (r: Result<(), String>)
        requires
            old(self).wf(),
        ensures
            final(self).wf(),
            final(self)@ == temperature_changed(old(self)@, temperature@).0,
            agrees_outcome(r, temperature_changed(old(self)@, temperature@).1),
    {
        if let Err(message) = self.config.set_temperature(self.provider, temperature) {
            return Err(message);
        }
        self.reconfigure()
    }

    /// Goes over to another mode.
    pub fn change_mode(&mut self, index: Option<usize>) -> (r: Result<(), String>)
        requires
            old(self).wf(),
        ensures
            final(self).wf(),
            final(self)@ == mode_changed(old(self)@, index).0,
            agrees_outcome(r, mode_changed(old(self)@, index).1),
    {
        self.active_mode = index;
        self.config.last_mode = match index {
            Some(index) => if index < self.modes.modes.len() {
                Some(self.modes.modes[index].name.clone())
            } else {
                None
            },
            None => None,
        };
        self.reconfigure()
    }

    /// Opens a saved session; `entries` are the long-term facts.
    pub fn open_session(&mut self, session: &SavedSession, entries: Vec<MemoryEntry>) -> (r: Result<
        (),
        String,
    >)
        requires
            old(self).wf(),
            session.wf(),
        ensures
            final(self).wf(),
            final(self)@ == session_opened(old(self)@, session@, views(entries@)).0,
            agrees_outcome(r, session_opened(old(self)@, session@, views(entries@)).1),
    {
        self.provider = session.provider;
        self.config.last_provider = Some(session.provider);
        let model = session.model.clone();
        let temperature = session.temperature.clone();
        if let Err(message) = self.put_model(model, temperature) {
            return Err(message);
        }
        self.config.compression_strategy = session.compression_strategy;
        self.config.context_messages = session.context_messages;
        self.active_mode = match &session.mode {
            Some(name) => self.modes.position(name.as_str()),
            None => None,
        };
        self.config.last_mode = match self.active_mode {
            Some(index) => if index < self.modes.modes.len() {
                Some(self.modes.modes[index].name.clone())
            } else {
                None
            },
            None => None,
        };
        let settings = match self.settings() {
            Ok(settings) => settings,
            Err(message) => return Err(message),
        };
        self.agents.reconfigure(&settings);
        self.agents.resume_session(session);
        let profile = match &session.profile {
            Some(profile) => Some(profile.clone()),
            None => None,
        };
        let task = match &session.task {
            Some(task) => Some(task.clone()),
            None => None,
        };
        self.agents.set_memory(&ActiveMemory { profile, task, long_term_facts: entries });
        self.session_id = Some(session.id);
        Ok(())
    }

    fn select_memory(&mut self, memory: &ActiveMemory) -> (r: Selection)
        requires
            old(self).wf(),
        ensures
            final(self).wf(),
            (final(self)@, r) == memory_selected(old(self)@, memory@),
    {
        let begun = activate_memory_context(&mut self.agents, &mut self.session_id, memory);
        if begun {
            Selection::NewSession
        } else {
            Selection::Changed
        }
    }

    /// Selects a profile, or none. Another profile starts a new session.
    pub fn select_profile(&mut self, profile: Option<Profile>) -> (r: Selection)
        requires
            old(self).wf(),
        ensures
            final(self).wf(),
            (final(self)@, r) == profile_selected(old(self)@, view_option(profile)),
    {
        let mut memory = self.agents.memory();
        if number_of_profile(&memory.profile) == number_of_profile(&profile) {
            return Selection::Kept;
        }
        memory.profile = profile;
        self.select_memory(&memory)
    }

    /// Renews what is known of the task.
    pub fn renew_task(&mut self, task: Option<Task>)
        requires
            old(self).wf(),
        ensures
            final(self).wf(),
            final(self)@ == task_renewed(old(self)@, view_option(task)),
    {
        let mut memory = self.agents.memory();
        memory.task = task;
        self.agents.set_memory(&memory);
    }

    /// Selects a task, or none. Another task starts a new session.
    pub fn select_task(&mut self, task: Option<Task>) -> (r: Selection)
        requires
            old(self).wf(),
        ensures
            final(self).wf(),
            (final(self)@, r) == task_selected(old(self)@, view_option(task)),
    {
        let mut memory = self.agents.memory();
        if number_of_task(&memory.task) == number_of_task(&task) {
            self.renew_task(task);
            return Selection::Kept;
        }
        memory.task = task;
        self.select_memory(&memory)
    }

    /// Takes over the task in its new phase: the instruction with which the phase starts, if it is
    /// one that starts by itself.
    pub fn enter_phase(&mut self, task: Task) -> (r: Option<&'static str>)
        requires
            old(self).wf(),
        ensures
            final(self).wf(),
            final(self)@ == task_renewed(old(self)@, Some(task@)),
            match task.phase {
                TaskPhase::Execution => r is Some && r->Some_0@ == START_EXECUTION@,
                TaskPhase::Validation => r is Some && r->Some_0@ == START_VALIDATION@,
                _ => r is None,
            },
    {
        let phase = task.phase;
        self.renew_task(Some(task));
        task_phase_start_instruction(phase)
    }

    /// Takes over other long-term facts.
    pub fn change_entries(&mut self, entries: Vec<MemoryEntry>)
        requires
            old(self).wf(),
        ensures
            final(self).wf(),
            final(self)@ == entries_changed(old(self)@, views(entries@)),
    {
        let mut memory = self.agents.memory();
        memory.long_term_facts = entries;
        self.agents.set_memory(&memory);
    }

    /// Changes how the context is kept short: `true` says that anything changed.
    pub fn change_compression(&mut self, strategy: CompressionStrategy, count: usize) -> (r: bool)
        requires
            old(self).wf(),
        ensures
            final(self).wf(),
            r == (old(self)@.config.compression_strategy != strategy
                || old(self)@.config.context_messages != count),
            final(self)@ == compression_changed(old(self)@, strategy, count),
    {
        let changed = self.config.compression_strategy != strategy || self.config.context_messages
            != count;
        self.config.compression_strategy = strategy;
        self.config.context_messages = count;
        self.agents.set_compression(strategy, count);
        changed
    }

    /// What is stored of the current session.
    pub fn snapshot(&self) -> (r: Result<SessionSnapshot, String>)
        requires
            self.wf(),
            self@.agents.len() > 0,
        ensures
            agrees(r, snapshot_of(self@)),
            r is Ok ==> r->Ok_0.wf(),
    {
        let model = match self.config.model(self.provider) {
            Ok(model) => model.to_owned(),
            Err(message) => return Err(message),
        };
        let temperature = match self.config.temperature(self.provider) {
            Ok(temperature) => temperature.to_owned(),
            Err(message) => return Err(message),
        };
        let mode = match self.active_mode {
            Some(index) => if index < self.modes.modes.len() {
                Some(self.modes.modes[index].name.clone())
            } else {
                None
            },
            None => None,
        };
        let agent = &self.agents.agents[0];
        proof {
            assert(self.agents.agents@[0].wf());
        }
        let summarized_count: usize = if agent.persisted_history.len() > agent.history.len() {
            agent.persisted_history.len() - agent.history.len()
        } else {
            0
        };
        Ok(
            SessionSnapshot {
                provider: self.provider,
                model,
                mode,
                temperature,
                messages: copy_all(&agent.persisted_history),
                summary: agent.summary.clone(),
                facts: agent.facts.clone(),
                summarized_count,
                compression_strategy: self.config.compression_strategy,
                context_messages: self.config.context_messages,
                branches: copy_branches(&agent.branches),
                checkpoint: copy_state(&agent.checkpoint),
                active_branch: agent.active_branch.clone(),
                branch_pending: agent.branch_pending,
                profile_id: number_of_profile(&agent.memory.profile),
                task_id: number_of_task(&agent.memory.task),
            },
        )
    }
}

// What the commands keep.

/// Another provider, model, temperature or mode starts a new session and keeps the memory.
pub proof fn law_reconfiguration_keeps_memory(w: WorkspaceModel)
    requires
        w.agents.len() > 0,
        reconfigured(w).1 is None,
    ensures
        pool_memory(reconfigured(w).0.agents) == pool_memory(w.agents),
        pool_history(reconfigured(w).0.agents).len() == 0,
        reconfigured(w).0.session_id is None,
        workspace_settings(w) == Ok::<SettingsModel, Seq<char>>(
            reconfigured(w).0.agents[0].settings,
        ),
{
}

/// Another profile or task never leaks into a dialogue that has begun: either the dialogue is
/// empty, or it is left for a new session. The other layers of the memory stay.
pub proof fn law_selection_starts_clean(
    w: WorkspaceModel,
    profile: Option<ProfileModel>,
    task: Option<TaskModel>,
)
    requires
        w.agents.len() > 0,
    ensures
        profile_selected(w, profile).1 != Selection::Kept ==> pool_history(
            profile_selected(w, profile).0.agents,
        ).len() == 0 && pool_memory(profile_selected(w, profile).0.agents) == (MemoryModel {
            profile,
            ..pool_memory(w.agents)
        }),
        task_selected(w, task).1 != Selection::Kept ==> pool_history(
            task_selected(w, task).0.agents,
        ).len() == 0 && pool_memory(task_selected(w, task).0.agents) == (MemoryModel {
            task,
            ..pool_memory(w.agents)
        }),
        task_selected(w, task).1 == Selection::Kept ==> pool_history(
            task_selected(w, task).0.agents,
        ) == pool_history(w.agents),
{
}

/// A saved session that is opened becomes the current one, with its dialogue and memory.
pub proof fn law_opened_session_is_current(
    w: WorkspaceModel,
    s: SavedModel,
    entries: Seq<EntryModel>,
)
    requires
        w.agents.len() > 0,
        s.compression_strategy != CompressionStrategy::Branching,
        session_opened(w, s, entries).1 is None,
    ensures
        session_opened(w, s, entries).0.session_id == Some(s.id),
        pool_history(session_opened(w, s, entries).0.agents) == s.messages,
        pool_memory(session_opened(w, s, entries).0.agents).profile == s.profile,
        pool_memory(session_opened(w, s, entries).0.agents).task == s.task,
{
}

// Branches of the dialogue.

/// The names of branches.
pub open spec fn branch_names(branches: Seq<BranchModel>) -> Seq<Seq<char>> {
    Seq::new(branches.len(), |i: int| branches[i].name)
}

/// The names of the branches of an agent, in order.
pub fn sorted_branch_names(agent: &Agent) -> (r: Vec<String>)
    ensures
        ascending(views(r@)),
        same_texts(views(r@), branch_names(agent@.branches)),
{
    let ghost model = agent@.branches;
    let mut names: Vec<String> = Vec::new();
    let mut i: usize = 0;
    while i < agent.branches.len()
        invariant
            i <= agent.branches@.len(),
            model == views(agent.branches@),
            views(names@) == branch_names(model).take(i as int),
        decreases agent.branches.len() - i,
    {
        let name = agent.branches[i].name.clone();
        proof {
            assert(branch_names(model).take(i as int).push(name@) =~= branch_names(model).take(
                i + 1,
            ));
        }
        names.push(name);
        i += 1;
    }
    proof {
        assert(branch_names(model).take(i as int) =~= branch_names(model));
    }
    sorted_texts(&names)
}

/// The line of a branch in the list of branches.
pub fn branch_line(name: &str, active: &str) -> (r: String)
    ensures
        r@ == "  "@ + (if name@ == active@ {
            "*"@
        } else {
            " "@
        }) + " "@ + name@,
{
    let marker = if same(name, active) {
        "*"
    } else {
        " "
    };
    "  ".to_owned().concat(marker).concat(" ").concat(name)
}

/// The branch that the status bar shows.
pub fn shown_branch(agent: &Agent) -> (r: &str)
    ensures
        r@ == if agent.branch_pending {
            "checkpoint"@
        } else {
            agent@.active_branch
        },
{
    if agent.branch_pending {
        "checkpoint"
    } else {
        agent.active_branch.as_str()
    }
}

/// Whether the branches of an agent have distinct names, and the active one is among them or is the
/// first one.
pub open spec fn branches_consistent(branches: Seq<BranchModel>, active: Seq<char>) -> bool {
    distinct_branches(branches) && (has_branch(branches, active) || active == "main"@)
}

proof fn lemma_branch_set_consistent(
    branches: Seq<BranchModel>,
    name: Seq<char>,
    state: StateModel,
    active: Seq<char>,
)
    requires
        distinct_branches(branches),
    ensures
        distinct_branches(branch_set(branches, name, state)),
        has_branch(branch_set(branches, name, state), name),
        has_branch(branches, active) ==> has_branch(branch_set(branches, name, state), active),
{
    let after = branch_set(branches, name, state);
    lemma_branch_index(branches, name);
    lemma_branch_index(branches, active);
    lemma_branch_index(after, name);
    lemma_branch_index(after, active);
    let at = branch_index(branches, name) as int;
    assert forall|i: int, j: int| 0 <= i < j < after.len() implies (#[trigger] after[i]).name != (
    #[trigger] after[j]).name by {
        if i != at && j != at {
            assert(branches[i].name != branches[j].name);
        } else if i == at && at < branches.len() {
            assert(branches[i].name != branches[j].name);
        } else if j == at && at < branches.len() {
            assert(branches[i].name != branches[j].name);
        } else {
            assert(branches[i].name != name);
        }
    }
    assert(after[at].name == name);
    if branch_index(after, name) == after.len() {
        assert(after[at].name != name);
    }
    if has_branch(branches, active) {
        let place = branch_index(branches, active) as int;
        assert(after[place].name == active);
        if branch_index(after, active) == after.len() {
            assert(after[place].name != active);
        }
    }
}

/// Nothing that is done with branches gives two of them the same name or loses the active one.
pub proof fn law_branches_stay_consistent(
    a: AgentModel,
    name: Seq<char>,
    state: StateModel,
    strategy: CompressionStrategy,
    count: usize,
)
    requires
        branches_consistent(a.branches, a.active_branch),
    ensures
        branches_consistent(agent_reset(a).branches, agent_reset(a).active_branch),
        branches_consistent(with_saved_branch(a).branches, a.active_branch),
        branches_consistent(with_checkpoint(a).branches, with_checkpoint(a).active_branch),
        branches_consistent(at_checkpoint(a, state).branches, a.active_branch),
        branches_consistent(on_new_branch(a, name, state).branches, name),
        branches_consistent(with_compression(a, strategy, count).branches, a.active_branch),
        branch_get(with_saved_branch(a).branches, name) == Some(state) ==> branches_consistent(
            on_branch(a, name, state).branches,
            on_branch(a, name, state).active_branch,
        ),
{
    lemma_branch_set_consistent(a.branches, a.active_branch, branch_state(a), a.active_branch);
    lemma_branch_set_consistent(a.branches, name, state, a.active_branch);
    let b = AgentModel {
        settings: SettingsModel {
            compression_strategy: strategy,
            context_messages: count,
            ..a.settings
        },
        history: a.persisted_history,
        summary: Seq::empty(),
        ..a
    };
    lemma_branch_set_consistent(b.branches, b.active_branch, branch_state(b), a.active_branch);
}

/// No turn, finished or failed, gives two branches the same name or loses the active one.
pub proof fn law_turn_keeps_branches_consistent(
    a: AgentModel,
    input: Seq<char>,
    turn: TurnModel,
    reply: Result<ReplyModel, Seq<char>>,
)
    requires
        branches_consistent(a.branches, a.active_branch),
        branches_consistent(turn.before.branches, turn.before.active_branch),
    ensures
        branches_consistent(
            started_turn(a, input).0.branches,
            started_turn(a, input).0.active_branch,
        ),
        branches_consistent(
            resumed_turn(a, turn, reply).0.branches,
            resumed_turn(a, turn, reply).0.active_branch,
        ),
{
    lemma_asked_consistent(
        trimmed_context(AgentModel { status: StatusModel::Running, ..a }),
        input,
        dialogue(a),
    );
    match (turn.stage, reply) {
        (StageModel::Summary(count), Ok(reply)) => {
            lemma_asked_consistent(
                with_summary(with_cost(a, reply), reply.text, count as int),
                turn.input,
                turn.before,
            );
        },
        (StageModel::Facts, Ok(reply)) => {
            if let Ok(facts) = answer_facts(reply.text) {
                lemma_asked_consistent(
                    AgentModel { facts, ..with_cost(a, reply) },
                    turn.input,
                    turn.before,
                );
            }
        },
        (StageModel::Answer, Ok(reply)) => {
            let b = with_cost(a, reply);
            lemma_finished_consistent(b, task_answer(b, plain_answer(reply)));
        },
        (StageModel::Check(answer), Ok(reply)) => {
            lemma_checked_consistent(with_cost(a, reply), turn.before, answer, reply);
        },
        _ => {},
    }
}

proof fn lemma_asked_consistent(a: AgentModel, input: Seq<char>, before: DialogueModel)
    requires
        branches_consistent(a.branches, a.active_branch),
        branches_consistent(before.branches, before.active_branch),
    ensures
        branches_consistent(
            asked(a, input, before).0.branches,
            asked(a, input, before).0.active_branch,
        ),
{
    if starts_branch(a) && a.checkpoint is Some {
        lemma_branch_set_consistent(
            a.branches,
            new_branch_name(a.branches, title_of(input)),
            a.checkpoint->Some_0,
            a.active_branch,
        );
    }
}

proof fn lemma_finished_consistent(a: AgentModel, answer: AnswerModel)
    requires
        branches_consistent(a.branches, a.active_branch),
    ensures
        branches_consistent(
            finished_turn(a, answer).0.branches,
            finished_turn(a, answer).0.active_branch,
        ),
{
    let b = with_message(a, assistant_message(answer.text));
    lemma_branch_set_consistent(b.branches, b.active_branch, branch_state(b), a.active_branch);
}

proof fn lemma_checked_consistent(
    a: AgentModel,
    before: DialogueModel,
    answer: AnswerModel,
    reply: ReplyModel,
)
    requires
        branches_consistent(a.branches, a.active_branch),
        branches_consistent(before.branches, before.active_branch),
    ensures
        branches_consistent(
            checked_turn(a, before, answer, reply).0.branches,
            checked_turn(a, before, answer, reply).0.active_branch,
        ),
{
    let answer = AnswerModel {
        input_tokens: (answer.input_tokens + reply.input_tokens) as u64,
        output_tokens: (answer.output_tokens + reply.output_tokens) as u64,
        ..answer
    };
    lemma_finished_consistent(a, task_answer(a, answer));
    lemma_finished_consistent(a, answer);
    if let Ok(result) = verdict_of(reply.text, a.invariants) {
        if let Ok(text) = refusal_text(a.invariants, result.invariant_ids) {
            lemma_finished_consistent(a, AnswerModel { text, ..answer });
        }
    }
}

/// As long as the branches are consistent, the current session can be stored, and its active branch
/// is restored.
pub proof fn law_current_session_can_be_stored(w: WorkspaceModel)
    requires
        w.agents.len() > 0,
        w.config.context_messages <= CONTEXT_MESSAGES_MAX,
        branches_consistent(w.agents[0].branches, w.agents[0].active_branch),
        w.agents[0].persisted_history.len() <= usize::MAX,
        snapshot_of(w) is Ok,
    ensures
        can_be_stored(snapshot_of(w)->Ok_0),
        restored_active(snapshot_of(w)->Ok_0) == w.agents[0].active_branch,
{
}

// After an answer.

/// What follows an answer.
#[derive(Debug, PartialEq, Eq)]
pub enum NextInput {
    Send(&'static str),
    Completed(String),
    Wait,
}

/// What follows an answer that moved the task on: the next request of the phase, the message that
/// the phase is completed, or nothing.
pub fn next_input(progress: Option<TaskUpdateProgress>) -> (r: NextInput)
    ensures
        match progress {
            Some(TaskUpdateProgress::Continue(TaskPhase::Execution)) => r matches NextInput::Send(
                text,
            ) && text@ == CONTINUE_EXECUTION@,
            Some(TaskUpdateProgress::Continue(TaskPhase::Validation)) => r matches NextInput::Send(
                text,
            ) && text@ == CONTINUE_VALIDATION@,
            Some(TaskUpdateProgress::Continue(_)) => r == NextInput::Wait,
            Some(TaskUpdateProgress::Completed(phase)) => match completion_text(phase) {
                Some(message) => r matches NextInput::Completed(text) && text@ == message,
                None => r == NextInput::Wait,
            },
            None => r == NextInput::Wait,
        },
{
    match progress {
        Some(TaskUpdateProgress::Continue(phase)) => {
            match task_phase_continue_instruction(phase) {
                Some(instruction) => NextInput::Send(instruction),
                None => NextInput::Wait,
            }
        },
        Some(TaskUpdateProgress::Completed(phase)) => {
            match task_phase_completion_message(phase) {
                Some(message) => NextInput::Completed(message),
                None => NextInput::Wait,
            }
        },
        None => NextInput::Wait,
    }
}

/// The settings of a provider are found again where they were put.
proof fn lemma_settings_put(config: ConfigModel, provider: Provider, settings: ProviderModel)
    requires
        provider_settings(config, provider) is Some,
        settings.provider == provider,
    ensures
        provider_settings(with_settings(config, provider, settings), provider) == Some(settings),
{
    let other = match provider {
        Provider::Openai => Provider::Claude,
        Provider::Claude => Provider::Openai,
    };
    law_settings_are_independent(config, provider, settings, other);
}

/// A change of the provider is kept and reaches every agent.
pub proof fn law_chosen_provider_is_used(w: WorkspaceModel, provider: Provider, i: int)
    requires
        0 <= i < w.agents.len(),
    ensures
        provider_changed(w, provider).0.provider == provider,
        provider_changed(w, provider).0.config.last_provider == Some(provider),
        provider_changed(w, provider).1 is None ==> provider_changed(
            w,
            provider,
        ).0.agents[i].settings.provider == provider && provider_api_key(
            w.config,
            provider,
        ) == Some(provider_changed(w, provider).0.agents[i].settings.api_key),
{
}

/// A change of the model is kept and reaches every agent; the other provider stays as it is.
pub proof fn law_chosen_model_is_used(
    w: WorkspaceModel,
    model: Seq<char>,
    temperature: Seq<char>,
    other: Provider,
    i: int,
)
    requires
        0 <= i < w.agents.len(),
        model_changed(w, model, temperature).1 is None,
    ensures
        ({
            let after = model_changed(w, model, temperature).0;
            &&& after.agents[i].settings.model == model
            &&& after.agents[i].settings.temperature == temperature
            &&& after.agents[i].settings.provider == w.provider
            &&& provider_settings(after.config, w.provider) matches Some(settings)
                && settings.model == model && settings.temperature == temperature
            &&& other != w.provider ==> provider_settings(after.config, other)
                == provider_settings(w.config, other)
        }),
{
    let settings = provider_settings(w.config, w.provider)->Some_0;
    let changed = ProviderModel { model, temperature, ..settings };
    lemma_provider_found(w.config.providers, w.provider);
    lemma_settings_put(w.config, w.provider, changed);
    if other != w.provider {
        law_settings_are_independent(w.config, w.provider, changed, other);
    }
}

/// A change of the temperature is kept and reaches every agent; the model stays.
pub proof fn law_chosen_temperature_is_used(w: WorkspaceModel, temperature: Seq<char>, i: int)
    requires
        0 <= i < w.agents.len(),
        temperature_changed(w, temperature).1 is None,
    ensures
        ({
            let after = temperature_changed(w, temperature).0;
            &&& after.agents[i].settings.temperature == temperature
            &&& provider_settings(after.config, w.provider) matches Some(settings)
                && settings.temperature == temperature && (provider_settings(w.config, w.provider)
                matches Some(earlier) && settings.model == earlier.model)
        }),
{
    let settings = provider_settings(w.config, w.provider)->Some_0;
    lemma_provider_found(w.config.providers, w.provider);
    lemma_settings_put(w.config, w.provider, ProviderModel { temperature, ..settings });
}

/// A change of the response mode is kept by its name and reaches every agent.
pub proof fn law_chosen_mode_is_used(w: WorkspaceModel, index: usize, i: int)
    requires
        0 <= i < w.agents.len(),
        index < w.modes.len(),
        mode_changed(w, Some(index)).1 is None,
    ensures
        ({
            let after = mode_changed(w, Some(index)).0;
            let mode = w.modes[index as int];
            &&& after.config.last_mode == Some(mode.name)
            &&& after.active_mode == Some(index)
            &&& trim(mode.instructions).len() > 0 ==> after.agents[i].settings.instructions == Some(
                trim(mode.instructions),
            )
        }),
        mode_changed(w, None).1 is None ==> mode_changed(w, None).0.agents[i].settings.instructions
            is None && mode_changed(w, None).0.config.last_mode is None,
{
}

/// A session that is opened brings back its provider, its model, its temperature and its way of
/// keeping the context short.
pub proof fn law_opened_session_brings_its_settings(
    w: WorkspaceModel,
    s: SavedModel,
    entries: Seq<EntryModel>,
    i: int,
)
    requires
        0 <= i < w.agents.len(),
        session_opened(w, s, entries).1 is None,
    ensures
        ({
            let after = session_opened(w, s, entries).0;
            &&& after.provider == s.provider
            &&& after.config.last_provider == Some(s.provider)
            &&& after.config.compression_strategy == s.compression_strategy
            &&& after.config.context_messages == s.context_messages
            &&& after.agents[i].settings.provider == s.provider
            &&& after.agents[i].settings.model == s.model
            &&& after.agents[i].settings.temperature == s.temperature
            &&& after.agents[i].settings.compression_strategy == s.compression_strategy
            &&& after.agents[i].settings.context_messages == s.context_messages
            &&& after.agents[i].memory.long_term_facts == entries
            &&& after.agents[i].branches == s.branches
        }),
{
    let chosen = ConfigModel { last_provider: Some(s.provider), ..w.config };
    let settings = provider_settings(chosen, s.provider)->Some_0;
    let changed = ProviderModel { model: s.model, temperature: s.temperature, ..settings };
    lemma_provider_found(chosen.providers, s.provider);
    lemma_settings_put(chosen, s.provider, changed);
    assert(provider_settings(session_config(w, s, settings), s.provider) == Some(changed));
}

/// What is saved of a workspace is its provider with its settings, and the dialogue and the memory of
/// its first agent.
pub proof fn law_saved_session_is_the_current_one(w: WorkspaceModel)
    requires
        w.agents.len() > 0,
        snapshot_of(w) is Ok,
    ensures
        ({
            let s = snapshot_of(w)->Ok_0;
            let a = w.agents[0];
            &&& s.provider == w.provider
            &&& provider_model(w.config, w.provider) == Ok::<Seq<char>, Seq<char>>(s.model)
            &&& provider_temperature(w.config, w.provider) == Ok::<Seq<char>, Seq<char>>(
                s.temperature,
            )
            &&& s.messages == a.persisted_history
            &&& s.summary == a.summary
            &&& s.facts == a.facts
            &&& s.branches == a.branches
            &&& s.checkpoint == a.checkpoint
            &&& s.active_branch == a.active_branch
            &&& s.branch_pending == a.branch_pending
            &&& s.compression_strategy == w.config.compression_strategy
            &&& s.context_messages == w.config.context_messages
            &&& a.memory.profile matches Some(profile) ==> s.profile_id == Some(profile.id)
            &&& a.memory.task matches Some(task) ==> s.task_id == Some(task.id)
            &&& a.memory.task is None ==> s.task_id is None
            &&& w.active_mode matches Some(index) ==> index < w.modes.len() ==> s.mode == Some(
                w.modes[index as int].name,
            )
            &&& a.history.len() <= a.persisted_history.len() <= usize::MAX ==> s.summarized_count
                == a.persisted_history.len() - a.history.len()
        }),
{
}

/// New long-term facts reach every agent; the profile and the task stay.
pub proof fn law_long_term_facts_reach_every_agent(
    w: WorkspaceModel,
    entries: Seq<EntryModel>,
    i: int,
)
    requires
        0 <= i < w.agents.len(),
    ensures
        entries_changed(w, entries).agents[i].memory.long_term_facts == entries,
        entries_changed(w, entries).agents[i].memory.profile == w.agents[0].memory.profile,
        entries_changed(w, entries).agents[i].memory.task == w.agents[0].memory.task,
        entries_changed(w, entries).agents[i].history == w.agents[i].history,
        entries_changed(w, entries).session_id == w.session_id,
{
}

/// A change of the strategy is kept in the configuration and reaches every agent.
pub proof fn law_chosen_strategy_is_used(
    w: WorkspaceModel,
    strategy: CompressionStrategy,
    count: usize,
    i: int,
)
    requires
        0 <= i < w.agents.len(),
    ensures
        ({
            let after = compression_changed(w, strategy, count);
            &&& after.config.compression_strategy == strategy
            &&& after.config.context_messages == count
            &&& after.agents[i].settings.compression_strategy == strategy
            &&& after.agents[i].settings.context_messages == count
            &&& after.agents[i].persisted_history == w.agents[i].persisted_history
            &&& after.session_id == w.session_id
        }),
{
}

/// A program starts with one agent that has the settings of the provider, the enabled rules and the
/// long-term facts; the response mode of the last time comes back.
pub proof fn law_start_uses_what_is_stored(
    config: ConfigModel,
    modes: Seq<ModeModel>,
    provider: Provider,
    rules: Seq<RuleModel>,
    entries: Seq<EntryModel>,
)
    ensures
        started(config, modes, provider, rules, entries) matches Ok(w) ==> {
            &&& w.agents.len() == 1
            &&& w.provider == provider
            &&& w.config.last_provider == Some(provider)
            &&& w.agents[0].settings.provider == provider
            &&& w.agents[0].invariants == enabled_rules(rules)
            &&& w.agents[0].memory.long_term_facts == entries
            &&& w.agents[0].persisted_history.len() == 0
            &&& w.session_id is None
            &&& config.last_mode is None ==> w.active_mode is None
        },
{
}

} // verus!
