//! The agent: its context, its branches, and the steps of one request to the model.

use vstd::prelude::*;

use crate::config::{
    provider_api_key, provider_model, provider_temperature, provider_title, CompressionStrategy,
    Config, ConfigModel, ModeModel, Provider, ResponseMode,
};
use crate::conversation::{copy_all, copy_messages, session_title, title_of, Message, MessageModel};
use crate::memory::TaskPhase;
use crate::numbers::{decimal, decimal_text, lemma_decimal_injective};
use crate::order::TextMap;
use crate::task_update::{answer_update, extract_task_update, visible_text, TaskUpdate, UpdateModel};
use crate::tasks::{copy_entries, empty_memory, ActiveMemory, Invariant, MemoryModel, RuleModel};
use crate::text::{
    agrees, lemma_views_push, prefix_of, same, take_chars, trim, trimmed, view_option, views,
};

verus! {

broadcast use lemma_views_push;

/// The greatest number of characters of a summary of the dialogue.
pub const SUMMARY_MAX_CHARS: usize = 4000;

/// The greatest number of branches of a dialogue.
pub const BRANCHES_MAX: usize = 0x7fff_fffd;

// Answers.

/// An answer of the model, with what it changes in the task and what it cost.
#[derive(Debug, PartialEq, Eq)]
pub struct ApiAnswer {
    pub text: String,
    pub task_update: Option<TaskUpdate>,
    pub task_update_warning: Option<String>,
    pub input_tokens: u64,
    pub output_tokens: u64,
    pub session_input_tokens: u64,
    pub session_output_tokens: u64,
}

/// An answer, mathematically.
pub ghost struct AnswerModel {
    pub text: Seq<char>,
    pub task_update: Option<UpdateModel>,
    pub task_update_warning: Option<Seq<char>>,
    pub input_tokens: u64,
    pub output_tokens: u64,
    pub session_input_tokens: u64,
    pub session_output_tokens: u64,
}

impl View for ApiAnswer {
    type V = AnswerModel;

    open spec fn view(&self) -> AnswerModel {
        AnswerModel {
            text: self.text@,
            task_update: view_option(self.task_update),
            task_update_warning: view_option(self.task_update_warning),
            input_tokens: self.input_tokens,
            output_tokens: self.output_tokens,
            session_input_tokens: self.session_input_tokens,
            session_output_tokens: self.session_output_tokens,
        }
    }
}

/// The answer with the update taken out of its text.
pub open spec fn processed_answer(answer: AnswerModel, phase: TaskPhase) -> AnswerModel {
    let text = visible_text(answer.text);
    match answer_update(answer.text) {
        Some(Ok(update)) => AnswerModel { text, task_update: Some(update), ..answer },
        Some(Err(warning)) => AnswerModel { text, task_update_warning: Some(warning), ..answer },
        None => if phase != TaskPhase::Done {
            AnswerModel {
                text,
                task_update_warning: Some("агент не вернул TASK_UPDATE; TODO не изменён"@),
                ..answer
            }
        } else {
            AnswerModel { text, ..answer }
        },
    }
}

/// Takes the update out of an answer to a request within a task.
pub fn process_task_answer(answer: &mut ApiAnswer, phase: TaskPhase)
    ensures
        final(answer)@ == processed_answer(old(answer)@, phase),
{
    let (text, extracted) = extract_task_update(answer.text.as_str());
    answer.text = text;
    match extracted {
        Some(Ok(update)) => {
            answer.task_update = Some(update);
        },
        Some(Err(warning)) => {
            answer.task_update_warning = Some(warning);
        },
        None => {
            if phase != TaskPhase::Done {
                answer.task_update_warning = Some(
                    "агент не вернул TASK_UPDATE; TODO не изменён".to_owned(),
                );
            }
        },
    }
}

// Settings.

/// What a request to the model is sent with. The temperature is the text of a number.
#[derive(Debug, PartialEq, Eq)]
pub struct AgentSettings {
    pub provider: Provider,
    pub api_key: String,
    pub model: String,
    pub temperature: String,
    pub instructions: Option<String>,
    pub compression_strategy: CompressionStrategy,
    pub context_messages: usize,
}

/// The settings, mathematically.
pub ghost struct SettingsModel {
    pub provider: Provider,
    pub api_key: Seq<char>,
    pub model: Seq<char>,
    pub temperature: Seq<char>,
    pub instructions: Option<Seq<char>>,
    pub compression_strategy: CompressionStrategy,
    pub context_messages: usize,
}

impl View for AgentSettings {
    type V = SettingsModel;

    open spec fn view(&self) -> SettingsModel {
        SettingsModel {
            provider: self.provider,
            api_key: self.api_key@,
            model: self.model@,
            temperature: self.temperature@,
            instructions: view_option(self.instructions),
            compression_strategy: self.compression_strategy,
            context_messages: self.context_messages,
        }
    }
}

impl Clone for AgentSettings {
    fn clone(&self) -> (r: Self)
        ensures
            r@ == self@,
    {
        let instructions = match &self.instructions {
            Some(text) => Some(text.clone()),
            None => None,
        };
        AgentSettings {
            provider: self.provider,
            api_key: self.api_key.clone(),
            model: self.model.clone(),
            temperature: self.temperature.clone(),
            instructions,
            compression_strategy: self.compression_strategy,
            context_messages: self.context_messages,
        }
    }
}

/// The settings that a configuration gives for a provider and a response mode.
pub open spec fn settings_from(
    config: ConfigModel,
    provider: Provider,
    mode: Option<ModeModel>,
) -> Result<SettingsModel, Seq<char>> {
    match provider_api_key(config, provider) {
        None => Err("нет ключа "@ + provider_title(provider, config.second)),
        Some(api_key) => match provider_model(config, provider) {
            Err(message) => Err(message),
            Ok(model) => match provider_temperature(config, provider) {
                Err(message) => Err(message),
                Ok(temperature) => Ok(
                    SettingsModel {
                        provider,
                        api_key,
                        model,
                        temperature,
                        instructions: mode_instructions(mode),
                        compression_strategy: config.compression_strategy,
                        context_messages: config.context_messages,
                    },
                ),
            },
        },
    }
}

/// The trimmed instructions of a mode, unless they are blank.
pub open spec fn mode_instructions(mode: Option<ModeModel>) -> Option<Seq<char>> {
    match mode {
        Some(mode) => if trim(mode.instructions).len() > 0 {
            Some(trim(mode.instructions))
        } else {
            None
        },
        None => None,
    }
}

impl AgentSettings {
    /// The settings that a configuration gives for a provider and a response mode.
    pub fn from_config(
        config: &Config,
        provider: Provider,
        mode: Option<&ResponseMode>,
    ) -> (r: Result<AgentSettings, String>)
        ensures
            agrees(
                r,
                settings_from(
                    config@,
                    provider,
                    match mode {
                        Some(mode) => Some(mode@),
                        None => None,
                    },
                ),
            ),
    {
        let api_key = match config.key(provider) {
            Some(key) => key.to_owned(),
            None => return Err("нет ключа ".to_owned().concat(provider.title(&config.second))),
        };
        let model = match config.model(provider) {
            Ok(model) => model.to_owned(),
            Err(message) => return Err(message),
        };
        let temperature = match config.temperature(provider) {
            Ok(text) => text.to_owned(),
            Err(message) => return Err(message),
        };
        let instructions = match mode {
            Some(mode) => {
                let text = trimmed(mode.instructions.as_str());
                if text.as_str().is_empty() {
                    None
                } else {
                    Some(text)
                }
            },
            None => None,
        };
        Ok(
            AgentSettings {
                provider,
                api_key,
                model,
                temperature,
                instructions,
                compression_strategy: config.compression_strategy,
                context_messages: config.context_messages,
            },
        )
    }
}

// The state of a dialogue.

/// The state of one branch of a dialogue.
#[derive(Debug, PartialEq, Eq)]
pub struct BranchState {
    pub history: Vec<Message>,
    pub persisted_history: Vec<Message>,
    pub summary: String,
    pub facts: TextMap,
}

/// The state of a branch, mathematically.
pub ghost struct StateModel {
    pub history: Seq<MessageModel>,
    pub persisted_history: Seq<MessageModel>,
    pub summary: Seq<char>,
    pub facts: Seq<(Seq<char>, Seq<char>)>,
}

impl View for BranchState {
    type V = StateModel;

    open spec fn view(&self) -> StateModel {
        StateModel {
            history: views(self.history@),
            persisted_history: views(self.persisted_history@),
            summary: self.summary@,
            facts: self.facts@,
        }
    }
}

impl BranchState {
    /// The facts are a map.
    pub open spec fn wf(&self) -> bool {
        self.facts.wf()
    }
}

impl Clone for BranchState {
    fn clone(&self) -> (r: Self)
        ensures
            r@ == self@,
            self.wf() ==> r.wf(),
    {
        BranchState {
            history: copy_all(&self.history),
            persisted_history: copy_all(&self.persisted_history),
            summary: self.summary.clone(),
            facts: self.facts.clone(),
        }
    }
}

/// A branch with its name.
#[derive(Debug, PartialEq, Eq)]
pub struct Branch {
    pub name: String,
    pub state: BranchState,
}

/// A branch with its name, mathematically.
pub ghost struct BranchModel {
    pub name: Seq<char>,
    pub state: StateModel,
}

impl View for Branch {
    type V = BranchModel;

    open spec fn view(&self) -> BranchModel {
        BranchModel { name: self.name@, state: self.state@ }
    }
}

impl Clone for Branch {
    fn clone(&self) -> (r: Self)
        ensures
            r@ == self@,
            self.state.wf() ==> r.state.wf(),
    {
        Branch { name: self.name.clone(), state: self.state.clone() }
    }
}

/// The facts of every branch are maps.
pub open spec fn branches_wf(branches: Seq<Branch>) -> bool {
    forall|i: int| 0 <= i < branches.len() ==> (#[trigger] branches[i]).state.wf()
}

/// A copy of a list of branches.
pub fn copy_branches(branches: &Vec<Branch>) -> (r: Vec<Branch>)
    ensures
        views(r@) == views(branches@),
        branches_wf(branches@) ==> branches_wf(r@),
{
    let mut out: Vec<Branch> = Vec::new();
    let ghost model = views(branches@);
    let mut i: usize = 0;
    while i < branches.len()
        invariant
            i <= branches@.len(),
            model == views(branches@),
            views(out@) == model.take(i as int),
            branches_wf(branches@) ==> branches_wf(out@),
        decreases branches.len() - i,
    {
        let copy = branches[i].clone();
        proof {
            assert(model.take(i as int).push(copy@) =~= model.take(i + 1));
        }
        out.push(copy);
        i += 1;
    }
    proof {
        assert(model.take(i as int) =~= model);
    }
    out
}

/// A copy of an optional state.
pub fn copy_state(state: &Option<BranchState>) -> (r: Option<BranchState>)
    ensures
        view_option(r) == view_option(*state),
        state is Some && state->Some_0.wf() ==> r->Some_0.wf(),
{
    match state {
        Some(state) => Some(state.clone()),
        None => None,
    }
}

/// The position of the first branch with a name, or the number of branches.
pub open spec fn branch_index(branches: Seq<BranchModel>, name: Seq<char>) -> nat
    decreases branches.len(),
{
    if branches.len() == 0 || branches[0].name == name {
        0
    } else {
        1 + branch_index(branches.skip(1), name)
    }
}

/// Whether there is a branch with a name.
pub open spec fn has_branch(branches: Seq<BranchModel>, name: Seq<char>) -> bool {
    branch_index(branches, name) < branches.len()
}

/// The state of the branch with a name.
pub open spec fn branch_get(branches: Seq<BranchModel>, name: Seq<char>) -> Option<StateModel> {
    let at = branch_index(branches, name) as int;
    if at < branches.len() {
        Some(branches[at].state)
    } else {
        None
    }
}

/// The branches with the state of one of them set; a new name is added at the end.
pub open spec fn branch_set(
    branches: Seq<BranchModel>,
    name: Seq<char>,
    state: StateModel,
) -> Seq<BranchModel> {
    let at = branch_index(branches, name) as int;
    if at < branches.len() {
        branches.update(at, BranchModel { name, state })
    } else {
        branches.push(BranchModel { name, state })
    }
}

/// `branch_index` is the least position of the name.
pub proof fn lemma_branch_index(branches: Seq<BranchModel>, name: Seq<char>)
    ensures
        branch_index(branches, name) <= branches.len(),
        branch_index(branches, name) < branches.len() ==> branches[branch_index(
            branches,
            name,
        ) as int].name == name,
        forall|i: int|
            0 <= i < branch_index(branches, name) ==> (#[trigger] branches[i]).name != name,
    decreases branches.len(),
{
    if branches.len() > 0 && branches[0].name != name {
        lemma_branch_index(branches.skip(1), name);
        assert forall|i: int| 0 <= i < branch_index(branches, name) implies (
        #[trigger] branches[i]).name != name by {
            if i > 0 {
                assert(branches[i] == branches.skip(1)[i - 1]);
            }
        }
    }
}

proof fn lemma_branch_unique(branches: Seq<BranchModel>, name: Seq<char>, at: int)
    requires
        0 <= at <= branches.len(),
        at < branches.len() ==> branches[at].name == name,
        forall|i: int| 0 <= i < at ==> (#[trigger] branches[i]).name != name,
    ensures
        branch_index(branches, name) == at,
{
    lemma_branch_index(branches, name);
    let found = branch_index(branches, name) as int;
    if found < at {
        assert(branches[found].name != name);
    }
    if at < found {
        assert(branches[at].name != name);
    }
}

/// A branch has the state that was set last; setting one branch changes no other.
pub proof fn law_branch_get_after_set(
    branches: Seq<BranchModel>,
    name: Seq<char>,
    state: StateModel,
    other: Seq<char>,
)
    ensures
        branch_get(branch_set(branches, name, state), other) == if other == name {
            Some(state)
        } else {
            branch_get(branches, other)
        },
{
    let after = branch_set(branches, name, state);
    lemma_branch_index(branches, name);
    lemma_branch_index(branches, other);
    let at = branch_index(branches, name) as int;
    let place = branch_index(branches, other) as int;
    if other == name {
        assert forall|i: int| 0 <= i < at implies (#[trigger] after[i]).name != name by {
            assert(after[i] == branches[i]);
        }
        lemma_branch_unique(after, name, at);
    } else {
        if place < branches.len() {
            assert forall|i: int| 0 <= i < place implies (#[trigger] after[i]).name != other by {
                if i != at {
                    assert(after[i] == branches[i]);
                }
            }
            assert(place != at || at == branches.len());
            lemma_branch_unique(after, other, place);
        } else {
            assert forall|i: int| 0 <= i < after.len() implies (#[trigger] after[i]).name
                != other by {
                if i != at {
                    assert(after[i] == branches[i]);
                }
            }
            lemma_branch_unique(after, other, after.len() as int);
        }
    }
}

pub(crate) fn find_branch(branches: &Vec<Branch>, name: &str) -> (r: usize)
    ensures
        r == branch_index(views(branches@), name@),
        r <= branches@.len(),
{
    let ghost model = views(branches@);
    let mut i: usize = 0;
    while i < branches.len()
        invariant
            i <= branches@.len(),
            model == views(branches@),
            forall|k: int| 0 <= k < i ==> (#[trigger] model[k]).name != name@,
        decreases branches.len() - i,
    {
        if same(branches[i].name.as_str(), name) {
            proof {
                lemma_branch_unique(model, name@, i as int);
            }
            return i;
        }
        proof {
            assert(model[i as int].name != name@);
        }
        i += 1;
    }
    proof {
        lemma_branch_unique(model, name@, i as int);
    }
    i
}

/// How the last request of an agent went.
#[derive(Debug, PartialEq, Eq)]
pub enum AgentStatus {
    Idle,
    Running,
    Completed,
    Failed(String),
}

/// How the last request went, mathematically.
pub ghost enum StatusModel {
    Idle,
    Running,
    Completed,
    Failed(Seq<char>),
}

impl View for AgentStatus {
    type V = StatusModel;

    open spec fn view(&self) -> StatusModel {
        match self {
            AgentStatus::Idle => StatusModel::Idle,
            AgentStatus::Running => StatusModel::Running,
            AgentStatus::Completed => StatusModel::Completed,
            AgentStatus::Failed(message) => StatusModel::Failed(message@),
        }
    }
}

/// An agent with its settings, its memory and the state of its dialogue.
#[derive(Debug, PartialEq, Eq)]
pub struct Agent {
    pub id: usize,
    pub settings: AgentSettings,
    pub invariants: Vec<Invariant>,
    pub history: Vec<Message>,
    pub persisted_history: Vec<Message>,
    pub summary: String,
    pub facts: TextMap,
    pub branches: Vec<Branch>,
    pub checkpoint: Option<BranchState>,
    pub active_branch: String,
    pub branch_pending: bool,
    pub session_input_tokens: u64,
    pub session_output_tokens: u64,
    pub status: AgentStatus,
    pub memory: ActiveMemory,
}

/// An agent, mathematically.
pub ghost struct AgentModel {
    pub id: usize,
    pub settings: SettingsModel,
    pub invariants: Seq<RuleModel>,
    pub history: Seq<MessageModel>,
    pub persisted_history: Seq<MessageModel>,
    pub summary: Seq<char>,
    pub facts: Seq<(Seq<char>, Seq<char>)>,
    pub branches: Seq<BranchModel>,
    pub checkpoint: Option<StateModel>,
    pub active_branch: Seq<char>,
    pub branch_pending: bool,
    pub session_input_tokens: u64,
    pub session_output_tokens: u64,
    pub status: StatusModel,
    pub memory: MemoryModel,
}

impl View for Agent {
    type V = AgentModel;

    open spec fn view(&self) -> AgentModel {
        AgentModel {
            id: self.id,
            settings: self.settings@,
            invariants: views(self.invariants@),
            history: views(self.history@),
            persisted_history: views(self.persisted_history@),
            summary: self.summary@,
            facts: self.facts@,
            branches: views(self.branches@),
            checkpoint: view_option(self.checkpoint),
            active_branch: self.active_branch@,
            branch_pending: self.branch_pending,
            session_input_tokens: self.session_input_tokens,
            session_output_tokens: self.session_output_tokens,
            status: self.status@,
            memory: self.memory@,
        }
    }
}

/// The agent as it is before its first request.
pub open spec fn new_agent(id: usize, settings: SettingsModel) -> AgentModel {
    AgentModel {
        id,
        settings,
        invariants: Seq::empty(),
        history: Seq::empty(),
        persisted_history: Seq::empty(),
        summary: Seq::empty(),
        facts: Seq::empty(),
        branches: Seq::empty(),
        checkpoint: None,
        active_branch: "main"@,
        branch_pending: false,
        session_input_tokens: 0,
        session_output_tokens: 0,
        status: StatusModel::Idle,
        memory: empty_memory(),
    }
}

/// The agent with an empty dialogue. The settings, the rules and the long-term facts stay.
pub open spec fn agent_reset(a: AgentModel) -> AgentModel {
    AgentModel {
        invariants: a.invariants,
        memory: MemoryModel {
            long_term_facts: a.memory.long_term_facts,
            ..empty_memory()
        },
        ..new_agent(a.id, a.settings)
    }
}

/// The agent with a dialogue of these messages.
pub open spec fn agent_restored(a: AgentModel, messages: Seq<MessageModel>) -> AgentModel {
    AgentModel { history: messages, persisted_history: messages, ..agent_reset(a) }
}

/// The state of the current branch.
pub open spec fn branch_state(a: AgentModel) -> StateModel {
    StateModel {
        history: a.history,
        persisted_history: a.persisted_history,
        summary: a.summary,
        facts: a.facts,
    }
}

/// The agent with the state of a branch.
pub open spec fn with_state(a: AgentModel, state: StateModel) -> AgentModel {
    AgentModel {
        history: state.history,
        persisted_history: state.persisted_history,
        summary: state.summary,
        facts: state.facts,
        ..a
    }
}

/// The agent with the current branch stored among its branches, where branches are used.
pub open spec fn with_saved_branch(a: AgentModel) -> AgentModel {
    if a.settings.compression_strategy == CompressionStrategy::Branching {
        AgentModel { branches: branch_set(a.branches, a.active_branch, branch_state(a)), ..a }
    } else {
        a
    }
}

/// The agent with a checkpoint at its current state, waiting for the first message of a branch.
pub open spec fn with_checkpoint(a: AgentModel) -> AgentModel {
    AgentModel {
        checkpoint: Some(branch_state(a)),
        branch_pending: true,
        ..with_saved_branch(a)
    }
}

/// The agent back at its checkpoint.
pub open spec fn at_checkpoint(a: AgentModel, state: StateModel) -> AgentModel {
    AgentModel { branch_pending: true, ..with_state(with_saved_branch(a), state) }
}

/// The agent on another branch.
pub open spec fn on_branch(a: AgentModel, name: Seq<char>, state: StateModel) -> AgentModel {
    AgentModel {
        active_branch: name,
        branch_pending: false,
        ..with_state(with_saved_branch(a), state)
    }
}

/// A name with a number behind it.
pub open spec fn numbered_name(base: Seq<char>, n: nat) -> Seq<char> {
    base + " · "@ + decimal(n)
}

/// Whether `name` is the name of a new branch: `base`, or else the first of its numbered forms
/// that no branch has.
pub open spec fn is_free_name(
    branches: Seq<BranchModel>,
    base: Seq<char>,
    name: Seq<char>,
) -> bool {
    &&& !has_branch(branches, name)
    &&& if has_branch(branches, base) {
        exists|n: nat|
            n >= 2 && name == #[trigger] numbered_name(base, n) && forall|k: nat|
                2 <= k < n ==> has_branch(branches, #[trigger] numbered_name(base, k))
    } else {
        name == base
    }
}

/// The name of a new branch.
pub open spec fn new_branch_name(branches: Seq<BranchModel>, base: Seq<char>) -> Seq<char> {
    choose|name: Seq<char>| is_free_name(branches, base, name)
}

/// There is only one name that a new branch can get.
pub proof fn lemma_free_name_unique(
    branches: Seq<BranchModel>,
    base: Seq<char>,
    a: Seq<char>,
    b: Seq<char>,
)
    requires
        is_free_name(branches, base, a),
        is_free_name(branches, base, b),
    ensures
        a == b,
{
    if has_branch(branches, base) {
        let m = choose|n: nat|
            n >= 2 && a == #[trigger] numbered_name(base, n) && forall|k: nat|
                2 <= k < n ==> has_branch(branches, #[trigger] numbered_name(base, k));
        let n = choose|n: nat|
            n >= 2 && b == #[trigger] numbered_name(base, n) && forall|k: nat|
                2 <= k < n ==> has_branch(branches, #[trigger] numbered_name(base, k));
        if m < n {
            assert(has_branch(branches, numbered_name(base, m)));
        }
        if n < m {
            assert(has_branch(branches, numbered_name(base, n)));
        }
    }
}

/// The agent on a new branch that starts at the checkpoint.
pub open spec fn on_new_branch(a: AgentModel, name: Seq<char>, state: StateModel) -> AgentModel {
    AgentModel {
        branches: branch_set(a.branches, name, state),
        active_branch: name,
        branch_pending: false,
        ..with_state(a, state)
    }
}

/// How many branches have a numbered name with at least this number.
spec fn taken_from(branches: Seq<BranchModel>, base: Seq<char>, from: nat) -> nat
    decreases branches.len(),
{
    if branches.len() == 0 {
        0
    } else {
        taken_from(branches.drop_last(), base, from) + if numbered_from(
            branches.last().name,
            base,
            from,
        ) {
            1nat
        } else {
            0nat
        }
    }
}

spec fn numbered_from(name: Seq<char>, base: Seq<char>, from: nat) -> bool {
    exists|k: nat| k >= from && name == #[trigger] numbered_name(base, k)
}

proof fn lemma_numbered_injective(base: Seq<char>, a: nat, b: nat)
    requires
        numbered_name(base, a) == numbered_name(base, b),
    ensures
        a == b,
{
    let head = base + " · "@;
    assert(numbered_name(base, a).skip(head.len() as int) =~= decimal(a));
    assert(numbered_name(base, b).skip(head.len() as int) =~= decimal(b));
    lemma_decimal_injective(a, b);
}

proof fn lemma_taken_from(branches: Seq<BranchModel>, base: Seq<char>, from: nat)
    ensures
        taken_from(branches, base, from + 1) <= taken_from(branches, base, from) <= branches.len(),
        has_branch(branches, numbered_name(base, from)) ==> taken_from(branches, base, from + 1)
            < taken_from(branches, base, from),
    decreases branches.len(),
{
    lemma_branch_index(branches, numbered_name(base, from));
    if branches.len() > 0 {
        let head = branches.drop_last();
        let last = branches.last().name;
        let wanted = numbered_name(base, from);
        lemma_taken_from(head, base, from);
        lemma_branch_index(head, wanted);
        if numbered_from(last, base, from + 1) {
            let k = choose|k: nat| k >= from + 1 && last == #[trigger] numbered_name(base, k);
            assert(k >= from && last == numbered_name(base, k));
            if last == wanted {
                lemma_numbered_injective(base, k, from);
            }
        }
        if has_branch(branches, wanted) {
            let at = branch_index(branches, wanted) as int;
            if at < head.len() {
                assert(head[at].name == wanted);
                let found = branch_index(head, wanted) as int;
                if found == head.len() {
                    assert(head[at].name != wanted);
                }
            } else {
                assert(last == wanted);
                assert(numbered_from(last, base, from));
                if numbered_from(last, base, from + 1) {
                    let k = choose|k: nat|
                        k >= from + 1 && last == #[trigger] numbered_name(base, k);
                    lemma_numbered_injective(base, k, from);
                }
            }
        }
    }
}

/// The messages that a window of this size keeps.
pub open spec fn recent(messages: Seq<MessageModel>, size: nat) -> Seq<MessageModel> {
    if messages.len() <= size {
        messages
    } else {
        messages.skip(messages.len() - size)
    }
}

/// The agent with only the recent messages in its context.
pub open spec fn with_recent(a: AgentModel, reserved: nat) -> AgentModel {
    let size = if a.settings.context_messages >= reserved {
        (a.settings.context_messages - reserved) as nat
    } else {
        0
    };
    AgentModel { history: recent(a.persisted_history, size), ..a }
}

/// The agent after the first messages of its context were replaced by a summary.
pub open spec fn with_summary(a: AgentModel, text: Seq<char>, count: int) -> AgentModel {
    AgentModel {
        summary: prefix_of(trim(text), SUMMARY_MAX_CHARS as nat),
        history: a.history.skip(count),
        ..a
    }
}

/// The agent with another way of keeping its context short.
pub open spec fn with_compression(
    a: AgentModel,
    strategy: CompressionStrategy,
    count: usize,
) -> AgentModel {
    if a.settings.compression_strategy == strategy && a.settings.context_messages == count {
        a
    } else {
        let b = AgentModel {
            settings: SettingsModel {
                compression_strategy: strategy,
                context_messages: count,
                ..a.settings
            },
            history: a.persisted_history,
            summary: Seq::empty(),
            ..a
        };
        if strategy == CompressionStrategy::Branching && !has_branch(b.branches, b.active_branch) {
            AgentModel {
                branches: branch_set(b.branches, b.active_branch, branch_state(b)),
                ..b
            }
        } else {
            b
        }
    }
}

/// The rules that are enabled.
pub open spec fn enabled_rules(rules: Seq<RuleModel>) -> Seq<RuleModel>
    decreases rules.len(),
{
    if rules.len() == 0 {
        Seq::empty()
    } else if rules.last().enabled {
        enabled_rules(rules.drop_last()).push(rules.last())
    } else {
        enabled_rules(rules.drop_last())
    }
}

/// The last message of the model.
pub open spec fn last_answer(messages: Seq<MessageModel>) -> Option<Seq<char>>
    decreases messages.len(),
{
    if messages.len() == 0 {
        None
    } else if messages.last().role == "assistant"@ {
        Some(messages.last().content)
    } else {
        last_answer(messages.drop_last())
    }
}

impl Agent {
    /// The facts of the agent, its branches and its checkpoint are maps.
    pub open spec fn wf(&self) -> bool {
        &&& self.facts.wf()
        &&& branches_wf(self.branches@)
        &&& self.checkpoint is Some ==> self.checkpoint->Some_0.wf()
    }

    /// A new agent.
    pub fn new(id: usize, settings: AgentSettings) -> (r: Agent)
        ensures
            r@ == new_agent(id, settings@),
            r.wf(),
    {
        let r = Agent {
            id,
            settings,
            invariants: Vec::new(),
            history: Vec::new(),
            persisted_history: Vec::new(),
            summary: String::new(),
            facts: TextMap::new(),
            branches: Vec::new(),
            checkpoint: None,
            active_branch: "main".to_owned(),
            branch_pending: false,
            session_input_tokens: 0,
            session_output_tokens: 0,
            status: AgentStatus::Idle,
            memory: ActiveMemory::default(),
        };
        proof {
            assert(r@.invariants =~= Seq::empty());
            assert(r@.history =~= Seq::empty());
            assert(r@.persisted_history =~= Seq::empty());
            assert(r@.branches =~= Seq::empty());
        }
        r
    }

    /// Starts an empty dialogue. The long-term facts stay.
    pub fn reset(&mut self)
        ensures
            final(self)@ == agent_reset(old(self)@),
            final(self).wf(),
    {
        let long_term_facts = copy_entries(&self.memory.long_term_facts);
        self.summary = String::new();
        self.facts.clear();
        self.history = Vec::new();
        self.persisted_history = Vec::new();
        self.branches = Vec::new();
        self.checkpoint = None;
        self.active_branch = "main".to_owned();
        self.branch_pending = false;
        self.session_input_tokens = 0;
        self.session_output_tokens = 0;
        self.status = AgentStatus::Idle;
        self.memory = ActiveMemory { profile: None, task: None, long_term_facts };
        proof {
            assert(self@.history =~= Seq::empty());
            assert(self@.persisted_history =~= Seq::empty());
            assert(self@.branches =~= Seq::empty());
        }
    }

    /// Starts a dialogue that consists of these messages.
    pub fn restore(&mut self, messages: &Vec<Message>)
        ensures
            final(self)@ == agent_restored(old(self)@, views(messages@)),
            final(self).wf(),
    {
        self.reset();
        self.history = copy_all(messages);
        self.persisted_history = copy_all(messages);
    }

    /// The state of the current branch.
    pub fn snapshot(&self) -> (r: BranchState)
        ensures
            r@ == branch_state(self@),
            self.wf() ==> r.wf(),
    {
        BranchState {
            history: copy_all(&self.history),
            persisted_history: copy_all(&self.persisted_history),
            summary: self.summary.clone(),
            facts: self.facts.clone(),
        }
    }

    /// Takes over the state of a branch.
    pub fn restore_state(&mut self, state: BranchState)
        requires
            old(self).wf(),
            state.wf(),
        ensures
            final(self)@ == with_state(old(self)@, state@),
            final(self).wf(),
    {
        self.history = state.history;
        self.persisted_history = state.persisted_history;
        self.summary = state.summary;
        self.facts = state.facts;
    }

    fn put_branch(&mut self, name: &str, state: BranchState)
        requires
            old(self).wf(),
            state.wf(),
        ensures
            final(self)@ == (AgentModel {
                branches: branch_set(old(self)@.branches, name@, state@),
                ..old(self)@
            }),
            final(self).wf(),
    {
        let ghost model = self@.branches;
        let at = find_branch(&self.branches, name);
        let branch = Branch { name: name.to_owned(), state };
        let ghost view = branch@;
        if at < self.branches.len() {
            self.branches.set(at, branch);
            proof {
                assert(self@.branches =~= model.update(at as int, view));
            }
        } else {
            self.branches.push(branch);
        }
    }

    /// Stores the current branch among the branches, where branches are used.
    pub fn save_active_branch(&mut self)
        requires
            old(self).wf(),
        ensures
            final(self)@ == with_saved_branch(old(self)@),
            final(self).wf(),
    {
        if self.settings.compression_strategy == CompressionStrategy::Branching {
            let state = self.snapshot();
            let name = self.active_branch.clone();
            self.put_branch(name.as_str(), state);
        }
    }

    /// Remembers the current state; the next message starts a new branch from it.
    pub fn create_checkpoint(&mut self)
        requires
            old(self).wf(),
        ensures
            final(self)@ == with_checkpoint(old(self)@),
            final(self).wf(),
    {
        self.save_active_branch();
        let state = self.snapshot();
        self.checkpoint = Some(state);
        self.branch_pending = true;
    }

    /// Starts a new branch at the checkpoint, named after its first message.
    pub fn start_branch(&mut self, input: &str) -> (r: Result<(), String>)
        requires
            old(self).wf(),
            old(self)@.branches.len() <= BRANCHES_MAX,
        ensures
            final(self).wf(),
            match old(self)@.checkpoint {
                None => r is Err && r->Err_0@ == "checkpoint не найден"@ && final(self)@ == old(self)@,
                Some(state) => r is Ok && is_free_name(
                    old(self)@.branches,
                    title_of(input@),
                    final(self)@.active_branch,
                ) && final(self)@ == on_new_branch(
                    old(self)@,
                    new_branch_name(old(self)@.branches, title_of(input@)),
                    state,
                ),
            },
    {
        let state = match copy_state(&self.checkpoint) {
            Some(state) => state,
            None => return Err("checkpoint не найден".to_owned()),
        };
        let base = session_title(input);
        let name = self.free_name(base.as_str());
        proof {
            lemma_free_name_unique(
                self@.branches,
                base@,
                name@,
                new_branch_name(self@.branches, base@),
            );
        }
        let copy = state.clone();
        self.restore_state(copy);
        self.put_branch(name.as_str(), state);
        self.active_branch = name;
        self.branch_pending = false;
        Ok(())
    }

    fn free_name(&self, base: &str) -> (r: String)
        requires
            self@.branches.len() <= BRANCHES_MAX,
        ensures
            is_free_name(self@.branches, base@, r@),
    {
        let ghost model = self@.branches;
        if find_branch(&self.branches, base) == self.branches.len() {
            return base.to_owned();
        }
        let mut suffix: u64 = 2;
        proof {
            lemma_taken_from(model, base@, 2);
        }
        loop
            invariant
                model == views(self.branches@),
                self@.branches == model,
                model.len() <= BRANCHES_MAX,
                has_branch(model, base@),
                suffix >= 2,
                suffix + taken_from(model, base@, suffix as nat) <= model.len() + 2,
                forall|k: nat|
                    2 <= k < suffix ==> has_branch(model, #[trigger] numbered_name(base@, k)),
            decreases taken_from(model, base@, suffix as nat),
        {
            let name = base.to_owned().concat(" · ").concat(decimal_text(suffix).as_str());
            if find_branch(&self.branches, name.as_str()) == self.branches.len() {
                proof {
                    assert(name@ == numbered_name(base@, suffix as nat));
                }
                return name;
            }
            proof {
                assert(has_branch(model, numbered_name(base@, suffix as nat)));
                lemma_taken_from(model, base@, suffix as nat);
            }
            suffix += 1;
        }
    }

    /// Goes over to another branch. The current branch is stored first.
    pub fn switch_branch(&mut self, name: &str) -> (r: Result<(), String>)
        requires
            old(self).wf(),
        ensures
            final(self).wf(),
            match branch_get(with_saved_branch(old(self)@).branches, name@) {
                None => r is Err && r->Err_0@ == "ветка «"@ + name@ + "» не найдена"@ && final(self)@ == with_saved_branch(old(self)@),
                Some(state) => r is Ok && final(self)@ == on_branch(old(self)@, name@, state),
            },
    {
        self.save_active_branch();
        let at = find_branch(&self.branches, name);
        if at == self.branches.len() {
            return Err("ветка «".to_owned().concat(name).concat("» не найдена"));
        }
        let state = self.branches[at].state.clone();
        self.restore_state(state);
        self.active_branch = name.to_owned();
        self.branch_pending = false;
        Ok(())
    }

    /// Goes back to the checkpoint; the next message starts a new branch from it.
    pub fn load_checkpoint(&mut self) -> (r: Result<(), String>)
        requires
            old(self).wf(),
        ensures
            final(self).wf(),
            match old(self)@.checkpoint {
                None => r is Err && r->Err_0@ == "checkpoint не найден"@ && final(self)@
                    == with_saved_branch(old(self)@),
                Some(state) => r is Ok && final(self)@ == at_checkpoint(old(self)@, state),
            },
    {
        self.save_active_branch();
        let state = match copy_state(&self.checkpoint) {
            Some(state) => state,
            None => return Err("checkpoint не найден".to_owned()),
        };
        self.restore_state(state);
        self.branch_pending = true;
        Ok(())
    }

    /// The last message of the model in the archive.
    pub fn last_assistant_message(&self) -> (r: Option<&str>)
        ensures
            match r {
                Some(text) => last_answer(self@.persisted_history) == Some(text@),
                None => last_answer(self@.persisted_history) is None,
            },
    {
        let ghost model = self@.persisted_history;
        let mut i: usize = self.persisted_history.len();
        proof {
            assert(model.take(i as int) =~= model);
        }
        while i > 0
            invariant
                i <= self.persisted_history@.len(),
                model == views(self.persisted_history@),
                last_answer(model) == last_answer(model.take(i as int)),
            decreases i,
        {
            proof {
                assert(model.take(i as int).drop_last() =~= model.take(i - 1));
                assert(model.take(i as int).last() == model[i - 1]);
            }
            if same(self.persisted_history[i - 1].role.as_str(), "assistant") {
                return Some(self.persisted_history[i - 1].content.as_str());
            }
            i -= 1;
        }
        None
    }

    /// Takes over other settings and starts an empty dialogue.
    pub fn reconfigure(&mut self, settings: AgentSettings)
        ensures
            final(self)@ == agent_reset(AgentModel { settings: settings@, ..old(self)@ }),
            final(self).wf(),
    {
        self.settings = settings;
        self.reset();
    }

    /// Takes over another memory.
    pub fn set_memory(&mut self, memory: ActiveMemory)
        ensures
            final(self)@ == (AgentModel { memory: memory@, ..old(self)@ }),
            old(self).wf() ==> final(self).wf(),
    {
        self.memory = memory;
    }

    /// Takes over the enabled ones of these rules.
    pub fn set_invariants(&mut self, invariants: &Vec<Invariant>)
        ensures
            final(self)@ == (AgentModel {
                invariants: enabled_rules(views(invariants@)),
                ..old(self)@
            }),
            old(self).wf() ==> final(self).wf(),
    {
        let ghost model = views(invariants@);
        let mut out: Vec<Invariant> = Vec::new();
        let mut i: usize = 0;
        proof {
            assert(model.take(0).len() == 0);
            assert(views(out@) =~= Seq::<RuleModel>::empty());
        }
        while i < invariants.len()
            invariant
                i <= invariants@.len(),
                model == views(invariants@),
                views(out@) == enabled_rules(model.take(i as int)),
            decreases invariants.len() - i,
        {
            proof {
                assert(model.take(i + 1).drop_last() =~= model.take(i as int));
                assert(model.take(i + 1).last() == model[i as int]);
            }
            if invariants[i].enabled {
                out.push(invariants[i].clone());
            }
            i += 1;
        }
        proof {
            assert(model.take(i as int) =~= model);
        }
        self.invariants = out;
    }

    /// Changes how the context is kept short. The whole archive becomes the context again.
    pub fn set_compression(&mut self, strategy: CompressionStrategy, count: usize)
        requires
            old(self).wf(),
        ensures
            final(self)@ == with_compression(old(self)@, strategy, count),
            final(self).wf(),
    {
        if self.settings.compression_strategy != strategy || self.settings.context_messages
            != count {
            self.settings.compression_strategy = strategy;
            self.settings.context_messages = count;
            self.history = copy_all(&self.persisted_history);
            self.summary = String::new();
            if strategy == CompressionStrategy::Branching {
                let name = self.active_branch.clone();
                if find_branch(&self.branches, name.as_str()) == self.branches.len() {
                    let state = self.snapshot();
                    self.put_branch(name.as_str(), state);
                }
            }
        }
    }

    /// Leaves only the recent messages in the context, with room for `reserved_slots` more. The
    /// archive stays.
    pub fn keep_recent_messages(&mut self, reserved_slots: usize)
        ensures
            final(self)@ == with_recent(old(self)@, reserved_slots as nat),
            old(self).wf() ==> final(self).wf(),
    {
        let size: usize = if self.settings.context_messages >= reserved_slots {
            self.settings.context_messages - reserved_slots
        } else {
            0
        };
        let n = self.persisted_history.len();
        let start: usize = if n <= size {
            0
        } else {
            n - size
        };
        self.history = copy_messages(&self.persisted_history, start);
        proof {
            assert(views(self.persisted_history@).skip(0) =~= views(self.persisted_history@));
        }
    }

    /// Replaces the first messages of the context by a summary. A blank summary changes nothing.
    pub fn apply_summary(&mut self, text: &str, count: usize) -> (r: Result<(), String>)
        requires
            count <= old(self)@.history.len(),
        ensures
            old(self).wf() ==> final(self).wf(),
            if trim(text@).len() == 0 {
                r is Err && r->Err_0@ == "модель вернула пустое summary; история сохранена"@
                    && final(self)@ == old(self)@
            } else {
                r is Ok && final(self)@ == with_summary(old(self)@, text@, count as int)
            },
    {
        let text = trimmed(text);
        if text.as_str().is_empty() {
            return Err("модель вернула пустое summary; история сохранена".to_owned());
        }
        self.summary = take_chars(text.as_str(), SUMMARY_MAX_CHARS);
        self.history = copy_messages(&self.history, count);
        Ok(())
    }
}

// What branches keep.

/// A checkpoint is loaded as it was saved, whatever happened on the branches since.
pub proof fn law_checkpoint_is_loaded_as_saved(a: AgentModel, later: AgentModel)
    requires
        later.checkpoint == with_checkpoint(a).checkpoint,
    ensures
        later.checkpoint == Some(branch_state(a)),
        branch_state(at_checkpoint(later, branch_state(a))) == branch_state(a),
        at_checkpoint(later, branch_state(a)).branch_pending,
{
}

/// Going to another branch and back again gives the branch as it was left.
pub proof fn law_switching_back_restores_branch(a: AgentModel, name: Seq<char>)
    requires
        a.settings.compression_strategy == CompressionStrategy::Branching,
        name != a.active_branch,
        has_branch(a.branches, name),
    ensures
        ({
            let there = on_branch(
                a,
                name,
                branch_get(with_saved_branch(a).branches, name)->Some_0,
            );
            let back = branch_get(with_saved_branch(there).branches, a.active_branch);
            &&& branch_state(there) == branch_get(a.branches, name)->Some_0
            &&& back == Some(branch_state(a))
            &&& branch_state(on_branch(there, a.active_branch, back->Some_0)) == branch_state(a)
        }),
{
    let saved = with_saved_branch(a).branches;
    law_branch_get_after_set(a.branches, a.active_branch, branch_state(a), name);
    law_branch_get_after_set(a.branches, a.active_branch, branch_state(a), a.active_branch);
    let there = on_branch(a, name, branch_get(saved, name)->Some_0);
    law_branch_get_after_set(there.branches, name, branch_state(there), a.active_branch);
}

/// A new branch starts at the checkpoint, and the branches that were there stay as they are.
pub proof fn law_new_branch_keeps_the_others(
    a: AgentModel,
    name: Seq<char>,
    state: StateModel,
    other: Seq<char>,
)
    requires
        !has_branch(a.branches, name),
        has_branch(a.branches, other),
    ensures
        branch_state(on_new_branch(a, name, state)) == state,
        branch_get(on_new_branch(a, name, state).branches, other) == branch_get(a.branches, other),
        branch_get(on_new_branch(a, name, state).branches, name) == Some(state),
{
    law_branch_get_after_set(a.branches, name, state, other);
    law_branch_get_after_set(a.branches, name, state, name);
}

/// However the context is kept short, the archive stays.
pub proof fn law_archive_is_kept(
    a: AgentModel,
    text: Seq<char>,
    count: int,
    reserved: nat,
    strategy: CompressionStrategy,
    size: usize,
)
    ensures
        with_summary(a, text, count).persisted_history == a.persisted_history,
        with_recent(a, reserved).persisted_history == a.persisted_history,
        with_compression(a, strategy, size).persisted_history == a.persisted_history,
        with_summary(a, text, count).summary.len() <= SUMMARY_MAX_CHARS,
        with_recent(a, reserved).history.len() <= a.settings.context_messages,
{
}

/// The rules that an agent keeps are the enabled ones, in their order, and no others.
pub proof fn law_enabled_rules_are_kept(rules: Seq<RuleModel>)
    ensures
        enabled_rules(rules) == rules.filter(|rule: RuleModel| rule.enabled),
    decreases rules.len(),
{
    reveal(Seq::filter);
    if rules.len() > 0 {
        law_enabled_rules_are_kept(rules.drop_last());
    } else {
        assert(enabled_rules(rules) =~= rules);
    }
}

/// A window keeps the last messages of the whole dialogue, as many as it holds.
pub proof fn law_window_keeps_the_last_messages(a: AgentModel, reserved: nat)
    ensures
        ({
            let b = with_recent(a, reserved);
            let size = a.settings.context_messages - reserved;
            let all = a.persisted_history;
            &&& b.persisted_history == all
            &&& size >= all.len() ==> b.history == all
            &&& 0 <= size < all.len() ==> b.history.len() == size && b.history == all.skip(
                all.len() - size,
            )
            &&& size < 0 ==> b.history.len() == 0
        }),
{
    let all = a.persisted_history;
    if all.len() > 0 {
        assert(all.skip(all.len() as int).len() == 0);
    }
}

/// A new way of keeping the context short starts with the whole dialogue and without a summary; the
/// archive stays, and the branches too.
pub proof fn law_new_strategy_starts_with_the_whole_dialogue(
    a: AgentModel,
    strategy: CompressionStrategy,
    count: usize,
    name: Seq<char>,
)
    requires
        a.settings.compression_strategy != strategy || a.settings.context_messages != count,
    ensures
        ({
            let b = with_compression(a, strategy, count);
            &&& b.settings.compression_strategy == strategy
            &&& b.settings.context_messages == count
            &&& b.history == a.persisted_history
            &&& b.persisted_history == a.persisted_history
            &&& b.summary.len() == 0
            &&& b.facts == a.facts
            &&& has_branch(a.branches, name) ==> branch_get(b.branches, name) == branch_get(
                a.branches,
                name,
            )
            &&& strategy == CompressionStrategy::Branching ==> has_branch(
                b.branches,
                a.active_branch,
            )
        }),
{
    let b = with_compression(a, strategy, count);
    let middle = AgentModel {
        settings: b.settings,
        history: a.persisted_history,
        summary: Seq::empty(),
        ..a
    };
    law_branch_get_after_set(a.branches, a.active_branch, branch_state(middle), name);
    law_branch_get_after_set(a.branches, a.active_branch, branch_state(middle), a.active_branch);
}

/// An agent that is reset has an empty dialogue and no cost; its settings, rules and long-term facts
/// stay.
pub proof fn law_reset_empties_the_dialogue(a: AgentModel)
    ensures
        ({
            let b = agent_reset(a);
            &&& b.history.len() == 0 && b.persisted_history.len() == 0
            &&& b.summary.len() == 0 && b.facts.len() == 0
            &&& b.branches.len() == 0 && b.checkpoint is None && !b.branch_pending
            &&& b.active_branch == "main"@
            &&& b.session_input_tokens == 0 && b.session_output_tokens == 0
            &&& b.memory.profile is None && b.memory.task is None
            &&& b.memory.long_term_facts == a.memory.long_term_facts
            &&& b.settings == a.settings
            &&& b.invariants == a.invariants
        }),
{
}

/// An agent that takes up a dialogue has its messages as context and as archive.
pub proof fn law_restored_dialogue_is_the_context(a: AgentModel, messages: Seq<MessageModel>)
    ensures
        agent_restored(a, messages).history == messages,
        agent_restored(a, messages).persisted_history == messages,
        agent_restored(a, messages).summary.len() == 0,
        agent_restored(a, messages).settings == a.settings,
{
}

/// The last answer is the newest message of the model.
pub proof fn law_last_answer_is_the_newest(messages: Seq<MessageModel>, at: int)
    requires
        0 <= at < messages.len(),
        messages[at].role == "assistant"@,
        forall|k: int| at < k < messages.len() ==> (#[trigger] messages[k]).role != "assistant"@,
    ensures
        last_answer(messages) == Some(messages[at].content),
    decreases messages.len(),
{
    if at < messages.len() - 1 {
        assert(messages[messages.len() - 1].role != "assistant"@);
        law_last_answer_is_the_newest(messages.drop_last(), at);
    }
}

/// The settings of a request are those of the configuration for the provider: its key, its model, its
/// temperature, and the instructions of the response mode.
pub proof fn law_settings_are_those_of_the_provider(
    config: ConfigModel,
    provider: Provider,
    mode: Option<ModeModel>,
)
    ensures
        settings_from(config, provider, mode) matches Ok(settings) ==> {
            &&& settings.provider == provider
            &&& provider_api_key(config, provider) == Some(settings.api_key)
            &&& provider_model(config, provider) == Ok::<Seq<char>, Seq<char>>(settings.model)
            &&& provider_temperature(config, provider) == Ok::<Seq<char>, Seq<char>>(
                settings.temperature,
            )
            &&& settings.compression_strategy == config.compression_strategy
            &&& settings.context_messages == config.context_messages
            &&& mode matches Some(mode) ==> trim(mode.instructions).len() > 0
                ==> settings.instructions == Some(trim(mode.instructions))
            &&& mode is None ==> settings.instructions is None
        },
        provider_api_key(config, provider) is None ==> settings_from(config, provider, mode) is Err,
{
}

/// An answer within a task is shown without the line of its update, and carries the update; one that
/// lacks it or holds a wrong one carries a warning, unless the task is done.
pub proof fn law_task_answer_carries_its_update(answer: AnswerModel, phase: TaskPhase)
    ensures
        ({
            let after = processed_answer(answer, phase);
            &&& after.text == visible_text(answer.text)
            &&& after.input_tokens == answer.input_tokens
            &&& after.output_tokens == answer.output_tokens
            &&& match answer_update(answer.text) {
                Some(Ok(update)) => after.task_update == Some(update)
                    && after.task_update_warning == answer.task_update_warning,
                Some(Err(warning)) => after.task_update == answer.task_update
                    && after.task_update_warning == Some(warning),
                None => after.task_update == answer.task_update && (phase != TaskPhase::Done
                    ==> after.task_update_warning is Some) && (phase == TaskPhase::Done
                    ==> after.task_update_warning == answer.task_update_warning),
            }
        }),
{
}

/// A new branch is called like the message that starts it; where a branch has that name already, a
/// number follows it.
pub proof fn law_branch_name_is_free(
    branches: Seq<BranchModel>,
    base: Seq<char>,
    name: Seq<char>,
)
    requires
        is_free_name(branches, base, name),
    ensures
        forall|i: int| 0 <= i < branches.len() ==> (#[trigger] branches[i]).name != name,
        (forall|i: int| 0 <= i < branches.len() ==> (#[trigger] branches[i]).name != base)
            ==> name == base,
        base.is_prefix_of(name),
{
    lemma_branch_index(branches, name);
    lemma_branch_index(branches, base);
    if has_branch(branches, base) {
        let at = branch_index(branches, base) as int;
        assert(branches[at].name == base);
        let n = choose|n: nat|
            n >= 2 && name == #[trigger] numbered_name(base, n) && forall|k: nat|
                2 <= k < n ==> has_branch(branches, #[trigger] numbered_name(base, k));
        assert(base =~= name.take(base.len() as int));
    } else {
        assert(base =~= name.take(base.len() as int));
    }
}

} // verus!
