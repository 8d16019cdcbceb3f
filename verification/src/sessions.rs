//! Saved sessions: what is stored of a dialogue, how it is read back, and how an agent goes on
//! with it.

use vstd::prelude::*;

use crate::agent::{
    agent_restored, branch_get, branch_index, branch_set, branches_wf, copy_branches, copy_state,
    find_branch, has_branch, lemma_branch_index, with_state, Agent, AgentModel, Branch,
    BranchModel, BranchState, StateModel,
};
use crate::config::{
    default_context_messages, law_provider_round_trip, law_strategy_round_trip,
    parse_compression_strategy, parse_provider, provider_id, provider_key, provider_stored,
    strategy_name, strategy_named, CompressionStrategy, NameModel, Provider, ProviderName,
    CONTEXT_MESSAGES_MAX,
};
use crate::conversation::{
    copy_all, copy_messages, decode_messages_toon, decoded_history, encode_messages_toon, facts_in,
    history_text, is_dialogue, read_facts, session_title, title_of, write_facts, Message,
    MessageModel,
};
use crate::json::map_text;
use crate::memory::{memory_text, validate_memory_text, Profile, ProfileModel};
use crate::numbers::{decimal, signed_decimal, signed_text, size_text};
use crate::order::TextMap;
use crate::tasks::{Task, TaskModel};
use crate::text::{agrees, holds_text, lemma_views_push, same, trim, view_option, views};
use crate::turn::opt_list;

verus! {

broadcast use lemma_views_push;

// The tables.

/// The statements that create the tables of the store.
pub const SCHEMA: &'static str = "PRAGMA journal_mode = WAL;
CREATE TABLE IF NOT EXISTS profiles (
    id INTEGER PRIMARY KEY AUTOINCREMENT,
    name TEXT NOT NULL UNIQUE,
    instructions TEXT NOT NULL,
    created_at TEXT NOT NULL DEFAULT CURRENT_TIMESTAMP,
    updated_at TEXT NOT NULL DEFAULT CURRENT_TIMESTAMP
);
CREATE TABLE IF NOT EXISTS memory_entries (
    id INTEGER PRIMARY KEY AUTOINCREMENT,
    content TEXT NOT NULL,
    created_at TEXT NOT NULL DEFAULT CURRENT_TIMESTAMP
);
CREATE TABLE IF NOT EXISTS invariants (
    id INTEGER PRIMARY KEY AUTOINCREMENT,
    content TEXT NOT NULL,
    enabled INTEGER NOT NULL DEFAULT 1 CHECK (enabled IN (0, 1)),
    created_at TEXT NOT NULL DEFAULT CURRENT_TIMESTAMP
);
CREATE TABLE IF NOT EXISTS tasks (
    id INTEGER PRIMARY KEY AUTOINCREMENT,
    title TEXT NOT NULL,
    todo TEXT NOT NULL,
    phase TEXT NOT NULL DEFAULT 'planning',
    plan_version INTEGER NOT NULL DEFAULT 0 CHECK (plan_version >= 0),
    approved_plan_version INTEGER CHECK (approved_plan_version IS NULL OR approved_plan_version >= 0),
    created_at TEXT NOT NULL DEFAULT CURRENT_TIMESTAMP,
    updated_at TEXT NOT NULL DEFAULT CURRENT_TIMESTAMP
);
CREATE TABLE IF NOT EXISTS task_step_results (
    task_id INTEGER NOT NULL REFERENCES tasks(id) ON DELETE CASCADE,
    phase TEXT NOT NULL CHECK (phase IN ('execution', 'validation')),
    item_id INTEGER NOT NULL,
    summary TEXT NOT NULL,
    content TEXT NOT NULL,
    PRIMARY KEY (task_id, phase, item_id)
);
CREATE TABLE IF NOT EXISTS sessions (
    id INTEGER PRIMARY KEY AUTOINCREMENT,
    title TEXT NOT NULL,
    provider TEXT NOT NULL,
    model TEXT NOT NULL,
    mode TEXT,
    temperature REAL NOT NULL,
    history_toon TEXT NOT NULL,
    profile_id INTEGER REFERENCES profiles(id) ON DELETE SET NULL,
    task_id INTEGER REFERENCES tasks(id) ON DELETE SET NULL,
    created_at TEXT NOT NULL DEFAULT CURRENT_TIMESTAMP,
    updated_at TEXT NOT NULL DEFAULT CURRENT_TIMESTAMP
);
CREATE TABLE IF NOT EXISTS session_context (
    session_id INTEGER PRIMARY KEY REFERENCES sessions(id) ON DELETE CASCADE,
    summary TEXT NOT NULL,
    summarized_count INTEGER NOT NULL,
    facts_json TEXT NOT NULL DEFAULT '{}',
    compression_strategy TEXT NOT NULL DEFAULT 'summary',
    context_messages INTEGER NOT NULL DEFAULT 10,
    branch_pending INTEGER NOT NULL DEFAULT 0
);
CREATE TABLE IF NOT EXISTS session_branches (
    session_id INTEGER NOT NULL REFERENCES sessions(id) ON DELETE CASCADE,
    name TEXT NOT NULL,
    history_toon TEXT NOT NULL,
    summary TEXT NOT NULL,
    facts_json TEXT NOT NULL,
    is_active INTEGER NOT NULL DEFAULT 0,
    PRIMARY KEY (session_id, name)
);
CREATE TABLE IF NOT EXISTS session_checkpoints (
    session_id INTEGER PRIMARY KEY REFERENCES sessions(id) ON DELETE CASCADE,
    history_toon TEXT NOT NULL,
    summary TEXT NOT NULL,
    facts_json TEXT NOT NULL
);
PRAGMA foreign_keys = ON;";

/// The columns of the tables that were extended.
pub struct TableColumns {
    pub tasks: Vec<String>,
    pub invariants: Vec<String>,
    pub sessions: Vec<String>,
    pub session_context: Vec<String>,
}

/// The columns of the tables, mathematically.
pub ghost struct ColumnsModel {
    pub tasks: Seq<Seq<char>>,
    pub invariants: Seq<Seq<char>>,
    pub sessions: Seq<Seq<char>>,
    pub session_context: Seq<Seq<char>>,
}

impl View for TableColumns {
    type V = ColumnsModel;

    open spec fn view(&self) -> ColumnsModel {
        ColumnsModel {
            tasks: views(self.tasks@),
            invariants: views(self.invariants@),
            sessions: views(self.sessions@),
            session_context: views(self.session_context@),
        }
    }
}

/// The statement that adds a column, if the table does not have it.
pub open spec fn column_change(
    columns: Seq<Seq<char>>,
    table: Seq<char>,
    column: Seq<char>,
    definition: Seq<char>,
) -> Option<Seq<char>> {
    if columns.contains(column) {
        None
    } else {
        Some("ALTER TABLE "@ + table + " ADD COLUMN "@ + column + " "@ + definition)
    }
}

/// The statements that bring the tables up to date.
pub open spec fn schema_steps(c: ColumnsModel) -> Seq<Seq<char>> {
    opt_list(
        column_change(
            c.tasks,
            "tasks"@,
            "plan_version"@,
            "INTEGER NOT NULL DEFAULT 0 CHECK (plan_version >= 0)"@,
        ),
    ) + opt_list(
        column_change(
            c.tasks,
            "tasks"@,
            "approved_plan_version"@,
            "INTEGER CHECK (approved_plan_version IS NULL OR approved_plan_version >= 0)"@,
        ),
    ) + opt_list(
        column_change(
            c.invariants,
            "invariants"@,
            "enabled"@,
            "INTEGER NOT NULL DEFAULT 1 CHECK (enabled IN (0, 1))"@,
        ),
    ) + opt_list(
        column_change(
            c.sessions,
            "sessions"@,
            "profile_id"@,
            "INTEGER REFERENCES profiles(id) ON DELETE SET NULL"@,
        ),
    ) + opt_list(
        column_change(
            c.sessions,
            "sessions"@,
            "task_id"@,
            "INTEGER REFERENCES tasks(id) ON DELETE SET NULL"@,
        ),
    ) + opt_list(
        column_change(
            c.session_context,
            "session_context"@,
            "facts_json"@,
            "TEXT NOT NULL DEFAULT '{}'"@,
        ),
    ) + opt_list(
        column_change(
            c.session_context,
            "session_context"@,
            "compression_strategy"@,
            "TEXT NOT NULL DEFAULT 'summary'"@,
        ),
    ) + opt_list(
        column_change(
            c.session_context,
            "session_context"@,
            "context_messages"@,
            "INTEGER NOT NULL DEFAULT 10"@,
        ),
    ) + opt_list(
        column_change(
            c.session_context,
            "session_context"@,
            "branch_pending"@,
            "INTEGER NOT NULL DEFAULT 0"@,
        ),
    )
}

fn push_change(
    changes: &mut Vec<String>,
    columns: &Vec<String>,
    table: &str,
    column: &str,
    definition: &str,
)
    ensures
        views(final(changes)@) == views(old(changes)@) + opt_list(
            column_change(views(columns@), table@, column@, definition@),
        ),
{
    let ghost before = views(changes@);
    if !holds_text(columns.as_slice(), column) {
        let change = "ALTER TABLE ".to_owned().concat(table).concat(" ADD COLUMN ").concat(
            column,
        ).concat(" ").concat(definition);
        changes.push(change);
        proof {
            assert(views(changes@) =~= before + seq![change@]);
        }
    } else {
        proof {
            assert(before + Seq::<Seq<char>>::empty() =~= before);
        }
    }
}

/// The statements that bring the tables of an older store up to date.
pub fn schema_changes(columns: &TableColumns) -> (r: Vec<String>)
    ensures
        views(r@) == schema_steps(columns@),
{
    let mut changes: Vec<String> = Vec::new();
    push_change(
        &mut changes,
        &columns.tasks,
        "tasks",
        "plan_version",
        "INTEGER NOT NULL DEFAULT 0 CHECK (plan_version >= 0)",
    );
    push_change(
        &mut changes,
        &columns.tasks,
        "tasks",
        "approved_plan_version",
        "INTEGER CHECK (approved_plan_version IS NULL OR approved_plan_version >= 0)",
    );
    push_change(
        &mut changes,
        &columns.invariants,
        "invariants",
        "enabled",
        "INTEGER NOT NULL DEFAULT 1 CHECK (enabled IN (0, 1))",
    );
    push_change(
        &mut changes,
        &columns.sessions,
        "sessions",
        "profile_id",
        "INTEGER REFERENCES profiles(id) ON DELETE SET NULL",
    );
    push_change(
        &mut changes,
        &columns.sessions,
        "sessions",
        "task_id",
        "INTEGER REFERENCES tasks(id) ON DELETE SET NULL",
    );
    push_change(
        &mut changes,
        &columns.session_context,
        "session_context",
        "facts_json",
        "TEXT NOT NULL DEFAULT '{}'",
    );
    push_change(
        &mut changes,
        &columns.session_context,
        "session_context",
        "compression_strategy",
        "TEXT NOT NULL DEFAULT 'summary'",
    );
    push_change(
        &mut changes,
        &columns.session_context,
        "session_context",
        "context_messages",
        "INTEGER NOT NULL DEFAULT 10",
    );
    push_change(
        &mut changes,
        &columns.session_context,
        "session_context",
        "branch_pending",
        "INTEGER NOT NULL DEFAULT 0",
    );
    proof {
        assert(views(changes@) =~= schema_steps(columns@));
    }
    changes
}

/// Tables that have all their columns are left alone.
pub proof fn law_complete_tables_are_unchanged(c: ColumnsModel)
    requires
        c.tasks.contains("plan_version"@),
        c.tasks.contains("approved_plan_version"@),
        c.invariants.contains("enabled"@),
        c.sessions.contains("profile_id"@),
        c.sessions.contains("task_id"@),
        c.session_context.contains("facts_json"@),
        c.session_context.contains("compression_strategy"@),
        c.session_context.contains("context_messages"@),
        c.session_context.contains("branch_pending"@),
    ensures
        schema_steps(c).len() == 0,
{
}

// What is stored of a session.

/// A session as it is to be stored. The temperature is the text of a number.
#[derive(Debug, PartialEq, Eq)]
pub struct SessionSnapshot {
    pub provider: Provider,
    pub model: String,
    pub mode: Option<String>,
    pub temperature: String,
    pub messages: Vec<Message>,
    pub summary: String,
    pub facts: TextMap,
    pub summarized_count: usize,
    pub compression_strategy: CompressionStrategy,
    pub context_messages: usize,
    pub branches: Vec<Branch>,
    pub checkpoint: Option<BranchState>,
    pub active_branch: String,
    pub branch_pending: bool,
    pub profile_id: Option<i64>,
    pub task_id: Option<i64>,
}

/// A session as it is to be stored, mathematically.
pub ghost struct SnapshotModel {
    pub provider: Provider,
    pub model: Seq<char>,
    pub mode: Option<Seq<char>>,
    pub temperature: Seq<char>,
    pub messages: Seq<MessageModel>,
    pub summary: Seq<char>,
    pub facts: Seq<(Seq<char>, Seq<char>)>,
    pub summarized_count: usize,
    pub compression_strategy: CompressionStrategy,
    pub context_messages: usize,
    pub branches: Seq<BranchModel>,
    pub checkpoint: Option<StateModel>,
    pub active_branch: Seq<char>,
    pub branch_pending: bool,
    pub profile_id: Option<i64>,
    pub task_id: Option<i64>,
}

impl View for SessionSnapshot {
    type V = SnapshotModel;

    open spec fn view(&self) -> SnapshotModel {
        SnapshotModel {
            provider: self.provider,
            model: self.model@,
            mode: view_option(self.mode),
            temperature: self.temperature@,
            messages: views(self.messages@),
            summary: self.summary@,
            facts: self.facts@,
            summarized_count: self.summarized_count,
            compression_strategy: self.compression_strategy,
            context_messages: self.context_messages,
            branches: views(self.branches@),
            checkpoint: view_option(self.checkpoint),
            active_branch: self.active_branch@,
            branch_pending: self.branch_pending,
            profile_id: self.profile_id,
            task_id: self.task_id,
        }
    }
}

impl SessionSnapshot {
    /// The facts are maps.
    pub open spec fn wf(&self) -> bool {
        &&& self.facts.wf()
        &&& branches_wf(self.branches@)
        &&& self.checkpoint is Some ==> self.checkpoint->Some_0.wf()
    }
}

/// The stored form of the context of a session.
#[derive(Debug, PartialEq, Eq)]
pub struct ContextRow {
    pub summary: String,
    pub summarized_count: usize,
    pub facts_json: String,
    pub compression_strategy: String,
    pub context_messages: usize,
    pub branch_pending: bool,
}

/// The stored form of the context, mathematically.
pub ghost struct ContextModel {
    pub summary: Seq<char>,
    pub summarized_count: usize,
    pub facts_json: Seq<char>,
    pub compression_strategy: Seq<char>,
    pub context_messages: usize,
    pub branch_pending: bool,
}

impl View for ContextRow {
    type V = ContextModel;

    open spec fn view(&self) -> ContextModel {
        ContextModel {
            summary: self.summary@,
            summarized_count: self.summarized_count,
            facts_json: self.facts_json@,
            compression_strategy: self.compression_strategy@,
            context_messages: self.context_messages,
            branch_pending: self.branch_pending,
        }
    }
}

/// The stored form of a branch.
#[derive(Debug, PartialEq, Eq)]
pub struct BranchRow {
    pub name: String,
    pub history_toon: String,
    pub summary: String,
    pub facts_json: String,
    pub is_active: bool,
}

/// The stored form of a branch, mathematically.
pub ghost struct BranchRowModel {
    pub name: Seq<char>,
    pub history_toon: Seq<char>,
    pub summary: Seq<char>,
    pub facts_json: Seq<char>,
    pub is_active: bool,
}

impl View for BranchRow {
    type V = BranchRowModel;

    open spec fn view(&self) -> BranchRowModel {
        BranchRowModel {
            name: self.name@,
            history_toon: self.history_toon@,
            summary: self.summary@,
            facts_json: self.facts_json@,
            is_active: self.is_active,
        }
    }
}

/// The stored form of a checkpoint.
#[derive(Debug, PartialEq, Eq)]
pub struct CheckpointRow {
    pub history_toon: String,
    pub summary: String,
    pub facts_json: String,
}

/// The stored form of a checkpoint, mathematically.
pub ghost struct CheckpointModel {
    pub history_toon: Seq<char>,
    pub summary: Seq<char>,
    pub facts_json: Seq<char>,
}

impl View for CheckpointRow {
    type V = CheckpointModel;

    open spec fn view(&self) -> CheckpointModel {
        CheckpointModel {
            history_toon: self.history_toon@,
            summary: self.summary@,
            facts_json: self.facts_json@,
        }
    }
}

/// Everything that is computed for storing a session.
#[derive(Debug, PartialEq, Eq)]
pub struct SessionRows {
    pub title: String,
    pub provider: String,
    pub history_toon: String,
    pub context: ContextRow,
    pub branches: Vec<BranchRow>,
    pub checkpoint: Option<CheckpointRow>,
}

/// Everything that is computed for storing a session, mathematically.
pub ghost struct RowsModel {
    pub title: Seq<char>,
    pub provider: Seq<char>,
    pub history_toon: Seq<char>,
    pub context: ContextModel,
    pub branches: Seq<BranchRowModel>,
    pub checkpoint: Option<CheckpointModel>,
}

impl View for SessionRows {
    type V = RowsModel;

    open spec fn view(&self) -> RowsModel {
        RowsModel {
            title: self.title@,
            provider: self.provider@,
            history_toon: self.history_toon@,
            context: self.context@,
            branches: views(self.branches@),
            checkpoint: view_option(self.checkpoint),
        }
    }
}

/// The title of a dialogue: that of its first message of the user.
pub open spec fn dialogue_title(messages: Seq<MessageModel>) -> Seq<char>
    decreases messages.len(),
{
    if messages.len() == 0 {
        "Новая сессия"@
    } else if messages[0].role == "user"@ {
        title_of(messages[0].content)
    } else {
        dialogue_title(messages.skip(1))
    }
}

/// The row of a branch.
pub open spec fn branch_row(branch: BranchModel, active: Seq<char>) -> BranchRowModel {
    BranchRowModel {
        name: branch.name,
        history_toon: history_text(branch.state.persisted_history),
        summary: branch.state.summary,
        facts_json: map_text(branch.state.facts),
        is_active: branch.name == active,
    }
}

/// The rows of the branches.
pub open spec fn branch_rows(branches: Seq<BranchModel>, active: Seq<char>) -> Seq<BranchRowModel> {
    Seq::new(branches.len(), |i: int| branch_row(branches[i], active))
}

/// The row of a checkpoint.
pub open spec fn checkpoint_row(state: StateModel) -> CheckpointModel {
    CheckpointModel {
        history_toon: history_text(state.persisted_history),
        summary: state.summary,
        facts_json: map_text(state.facts),
    }
}

/// The row of an optional checkpoint.
pub open spec fn checkpoint_rows(checkpoint: Option<StateModel>) -> Option<CheckpointModel> {
    match checkpoint {
        Some(state) => Some(checkpoint_row(state)),
        None => None,
    }
}

/// Everything that is computed for storing a session.
pub open spec fn rows_of(s: SnapshotModel, second: NameModel) -> RowsModel {
    RowsModel {
        title: dialogue_title(s.messages),
        provider: provider_key(s.provider, second),
        history_toon: history_text(s.messages),
        context: ContextModel {
            summary: s.summary,
            summarized_count: s.summarized_count,
            facts_json: map_text(s.facts),
            compression_strategy: strategy_name(s.compression_strategy),
            context_messages: s.context_messages,
            branch_pending: s.branch_pending,
        },
        branches: branch_rows(s.branches, s.active_branch),
        checkpoint: checkpoint_rows(s.checkpoint),
    }
}

/// Whether the stored form of a state is read back as the state.
pub open spec fn state_reads_back(state: StateModel) -> bool {
    &&& decoded_history(history_text(state.persisted_history)) == Ok::<
        Seq<MessageModel>,
        Seq<char>,
    >(state.persisted_history)
    &&& facts_in(map_text(state.facts)) == Some(state.facts)
}

/// Whether the stored forms of all histories and facts of a session are read back as these.
pub open spec fn session_reads_back(s: SnapshotModel) -> bool {
    &&& decoded_history(history_text(s.messages)) == Ok::<Seq<MessageModel>, Seq<char>>(s.messages)
    &&& facts_in(map_text(s.facts)) == Some(s.facts)
    &&& forall|i: int|
        0 <= i < s.branches.len() ==> state_reads_back((#[trigger] s.branches[i]).state)
    &&& s.checkpoint is Some ==> state_reads_back(s.checkpoint->Some_0)
}

/// Whether all histories of a session are dialogues of the user and the model.
pub open spec fn histories_are_dialogues(s: SnapshotModel) -> bool {
    &&& is_dialogue(s.messages)
    &&& branches_are_dialogues(s.branches)
    &&& s.checkpoint is Some ==> is_dialogue(s.checkpoint->Some_0.persisted_history)
}

/// Whether the histories of all branches are dialogues of the user and the model.
pub open spec fn branches_are_dialogues(branches: Seq<BranchModel>) -> bool {
    forall|i: int|
        0 <= i < branches.len() ==> is_dialogue((#[trigger] branches[i]).state.persisted_history)
}

/// The title under which a dialogue is listed.
pub fn title_for(messages: &Vec<Message>) -> (r: String)
    ensures
        r@ == dialogue_title(views(messages@)),
{
    let ghost model = views(messages@);
    let mut i: usize = 0;
    proof {
        assert(model.skip(0) =~= model);
    }
    while i < messages.len()
        invariant
            i <= messages@.len(),
            model == views(messages@),
            dialogue_title(model) == dialogue_title(model.skip(i as int)),
        decreases messages.len() - i,
    {
        if same(messages[i].role.as_str(), "user") {
            return session_title(messages[i].content.as_str());
        }
        proof {
            assert(model.skip(i as int).skip(1) =~= model.skip(i + 1));
        }
        i += 1;
    }
    "Новая сессия".to_owned()
}

/// The rows of the branches.
pub fn store_branches(branches: &Vec<Branch>, active: &str) -> (r: Vec<BranchRow>)
    requires
        branches_wf(branches@),
    ensures
        views(r@) == branch_rows(views(branches@), active@),
        branches_are_dialogues(views(branches@)) ==> forall|i: int|
            0 <= i < branches@.len() ==> state_reads_back(
                (#[trigger] views(branches@)[i]).state,
            ),
{
    let ghost model = views(branches@);
    let ghost all = branch_rows(model, active@);
    let mut rows: Vec<BranchRow> = Vec::new();
    let mut i: usize = 0;
    while i < branches.len()
        invariant
            i <= branches@.len(),
            branches_wf(branches@),
            model == views(branches@),
            all == branch_rows(model, active@),
            views(rows@) == all.take(i as int),
            branches_are_dialogues(model) ==> forall|k: int|
                0 <= k < i ==> state_reads_back((#[trigger] model[k]).state),
        decreases branches.len() - i,
    {
        let branch = &branches[i];
        proof {
            assert(branches@[i as int].state.wf());
            assert(model[i as int] == branch@);
        }
        let row = BranchRow {
            name: branch.name.clone(),
            history_toon: encode_messages_toon(&branch.state.persisted_history),
            summary: branch.state.summary.clone(),
            facts_json: write_facts(&branch.state.facts),
            is_active: same(branch.name.as_str(), active),
        };
        proof {
            assert(all.take(i as int).push(row@) =~= all.take(i + 1));
        }
        rows.push(row);
        i += 1;
    }
    proof {
        assert(all.take(i as int) =~= all);
    }
    rows
}

/// The row of the checkpoint.
pub fn store_checkpoint(checkpoint: &Option<BranchState>) -> (r: Option<CheckpointRow>)
    requires
        checkpoint is Some ==> checkpoint->Some_0.wf(),
    ensures
        view_option(r) == checkpoint_rows(view_option(*checkpoint)),
        checkpoint is Some && is_dialogue(view_option(*checkpoint)->Some_0.persisted_history)
            ==> state_reads_back(view_option(*checkpoint)->Some_0),
{
    match checkpoint {
        Some(state) => Some(
            CheckpointRow {
                history_toon: encode_messages_toon(&state.persisted_history),
                summary: state.summary.clone(),
                facts_json: write_facts(&state.facts),
            },
        ),
        None => None,
    }
}

/// Everything that is computed for storing a session. The rows of a session whose histories are
/// dialogues are read back as what was stored.
pub fn session_rows(snapshot: &SessionSnapshot, second: &ProviderName) -> (r: SessionRows)
    requires
        snapshot.wf(),
    ensures
        r@ == rows_of(snapshot@, second@),
        histories_are_dialogues(snapshot@) ==> session_reads_back(snapshot@),
{
    let title = title_for(&snapshot.messages);
    let history_toon = encode_messages_toon(&snapshot.messages);
    let facts_json = write_facts(&snapshot.facts);
    let branches = store_branches(&snapshot.branches, snapshot.active_branch.as_str());
    let checkpoint = store_checkpoint(&snapshot.checkpoint);
    SessionRows {
        title,
        provider: provider_id(snapshot.provider, second).to_owned(),
        history_toon,
        context: ContextRow {
            summary: snapshot.summary.clone(),
            summarized_count: snapshot.summarized_count,
            facts_json,
            compression_strategy: snapshot.compression_strategy.name().to_owned(),
            context_messages: snapshot.context_messages,
            branch_pending: snapshot.branch_pending,
        },
        branches,
        checkpoint,
    }
}

/// What is stored of the branches of a dialogue and of where it stands.
#[derive(Debug, PartialEq, Eq)]
pub struct BranchingRows {
    pub history_toon: String,
    pub summary: String,
    pub summarized_count: usize,
    pub facts_json: String,
    pub branch_pending: bool,
    pub branches: Vec<BranchRow>,
    pub checkpoint: Option<CheckpointRow>,
}

/// What is stored of the branches of a dialogue, mathematically.
pub ghost struct BranchingModel {
    pub history_toon: Seq<char>,
    pub summary: Seq<char>,
    pub summarized_count: usize,
    pub facts_json: Seq<char>,
    pub branch_pending: bool,
    pub branches: Seq<BranchRowModel>,
    pub checkpoint: Option<CheckpointModel>,
}

impl View for BranchingRows {
    type V = BranchingModel;

    open spec fn view(&self) -> BranchingModel {
        BranchingModel {
            history_toon: self.history_toon@,
            summary: self.summary@,
            summarized_count: self.summarized_count,
            facts_json: self.facts_json@,
            branch_pending: self.branch_pending,
            branches: views(self.branches@),
            checkpoint: view_option(self.checkpoint),
        }
    }
}

/// The number of messages that a context leaves out of the archive.
pub open spec fn left_out(persisted: nat, kept: nat) -> nat {
    if kept < persisted {
        (persisted - kept) as nat
    } else {
        0
    }
}

/// What is stored of an agent when its branches change.
pub open spec fn branching_of(a: AgentModel) -> BranchingModel {
    BranchingModel {
        history_toon: history_text(a.persisted_history),
        summary: a.summary,
        summarized_count: left_out(a.persisted_history.len(), a.history.len()) as usize,
        facts_json: map_text(a.facts),
        branch_pending: a.branch_pending,
        branches: branch_rows(a.branches, a.active_branch),
        checkpoint: checkpoint_rows(a.checkpoint),
    }
}

/// What is stored of an agent when its branches change.
pub fn branching_rows(agent: &Agent) -> (r: BranchingRows)
    requires
        agent.wf(),
    ensures
        r@ == branching_of(agent@),
{
    let kept: usize = agent.history.len();
    let persisted: usize = agent.persisted_history.len();
    let summarized_count: usize = if kept < persisted {
        persisted - kept
    } else {
        0
    };
    BranchingRows {
        history_toon: encode_messages_toon(&agent.persisted_history),
        summary: agent.summary.clone(),
        summarized_count,
        facts_json: write_facts(&agent.facts),
        branch_pending: agent.branch_pending,
        branches: store_branches(&agent.branches, agent.active_branch.as_str()),
        checkpoint: store_checkpoint(&agent.checkpoint),
    }
}

// What is read back of a session.

/// The row of a session.
#[derive(Debug, PartialEq, Eq)]
pub struct SessionRow {
    pub id: i64,
    pub title: String,
    pub provider: String,
    pub model: String,
    pub mode: Option<String>,
    pub temperature: String,
    pub history_toon: String,
}

/// The row of a session, mathematically.
pub ghost struct SessionRowModel {
    pub id: i64,
    pub title: Seq<char>,
    pub provider: Seq<char>,
    pub model: Seq<char>,
    pub mode: Option<Seq<char>>,
    pub temperature: Seq<char>,
    pub history_toon: Seq<char>,
}

impl View for SessionRow {
    type V = SessionRowModel;

    open spec fn view(&self) -> SessionRowModel {
        SessionRowModel {
            id: self.id,
            title: self.title@,
            provider: self.provider@,
            model: self.model@,
            mode: view_option(self.mode),
            temperature: self.temperature@,
            history_toon: self.history_toon@,
        }
    }
}

/// A session that was read back.
#[derive(Debug, PartialEq, Eq)]
pub struct SavedSession {
    pub id: i64,
    pub title: String,
    pub provider: Provider,
    pub model: String,
    pub mode: Option<String>,
    pub temperature: String,
    pub messages: Vec<Message>,
    pub summary: String,
    pub facts: TextMap,
    pub summarized_count: usize,
    pub compression_strategy: CompressionStrategy,
    pub context_messages: usize,
    pub branches: Vec<Branch>,
    pub checkpoint: Option<BranchState>,
    pub active_branch: String,
    pub branch_pending: bool,
    pub profile: Option<Profile>,
    pub task: Option<Task>,
}

/// A session that was read back, mathematically.
pub ghost struct SavedModel {
    pub id: i64,
    pub title: Seq<char>,
    pub provider: Provider,
    pub model: Seq<char>,
    pub mode: Option<Seq<char>>,
    pub temperature: Seq<char>,
    pub messages: Seq<MessageModel>,
    pub summary: Seq<char>,
    pub facts: Seq<(Seq<char>, Seq<char>)>,
    pub summarized_count: usize,
    pub compression_strategy: CompressionStrategy,
    pub context_messages: usize,
    pub branches: Seq<BranchModel>,
    pub checkpoint: Option<StateModel>,
    pub active_branch: Seq<char>,
    pub branch_pending: bool,
    pub profile: Option<ProfileModel>,
    pub task: Option<TaskModel>,
}

impl View for SavedSession {
    type V = SavedModel;

    open spec fn view(&self) -> SavedModel {
        SavedModel {
            id: self.id,
            title: self.title@,
            provider: self.provider,
            model: self.model@,
            mode: view_option(self.mode),
            temperature: self.temperature@,
            messages: views(self.messages@),
            summary: self.summary@,
            facts: self.facts@,
            summarized_count: self.summarized_count,
            compression_strategy: self.compression_strategy,
            context_messages: self.context_messages,
            branches: views(self.branches@),
            checkpoint: view_option(self.checkpoint),
            active_branch: self.active_branch@,
            branch_pending: self.branch_pending,
            profile: view_option(self.profile),
            task: view_option(self.task),
        }
    }
}

impl SavedSession {
    /// The facts are maps, and no more messages are summarized than there are.
    pub open spec fn wf(&self) -> bool {
        &&& self.facts.wf()
        &&& branches_wf(self.branches@)
        &&& self.checkpoint is Some ==> self.checkpoint->Some_0.wf()
        &&& self.summarized_count <= self.messages@.len()
    }
}

/// The context of a session that was stored without one.
pub open spec fn default_context() -> ContextModel {
    ContextModel {
        summary: Seq::empty(),
        summarized_count: 0,
        facts_json: "{}"@,
        compression_strategy: strategy_name(CompressionStrategy::Summary),
        context_messages: 10,
        branch_pending: false,
    }
}

/// The state that a stored history, summary and facts stand for.
pub open spec fn decoded_state(
    history_toon: Seq<char>,
    summary: Seq<char>,
    facts_json: Seq<char>,
    damaged: Seq<char>,
) -> Result<StateModel, Seq<char>> {
    match decoded_history(history_toon) {
        Err(message) => Err(message),
        Ok(messages) => match facts_in(facts_json) {
            None => Err(damaged),
            Some(facts) => Ok(
                StateModel { history: messages, persisted_history: messages, summary, facts },
            ),
        },
    }
}

/// The branches that rows stand for, and the name of the active one.
pub open spec fn decoded_branches(rows: Seq<BranchRowModel>) -> Result<
    (Seq<BranchModel>, Seq<char>),
    Seq<char>,
>
    decreases rows.len(),
{
    if rows.len() == 0 {
        Ok((Seq::empty(), "main"@))
    } else {
        let row = rows.last();
        match decoded_branches(rows.drop_last()) {
            Err(message) => Err(message),
            Ok(head) => match decoded_state(
                row.history_toon,
                row.summary,
                row.facts_json,
                "повреждены facts ветки сессии"@,
            ) {
                Err(message) => Err(message),
                Ok(state) => Ok(
                    (
                        branch_set(head.0, row.name, state),
                        if row.is_active {
                            row.name
                        } else {
                            head.1
                        },
                    ),
                ),
            },
        }
    }
}

/// The checkpoint that a row stands for.
pub open spec fn decoded_checkpoint(row: Option<CheckpointModel>) -> Result<
    Option<StateModel>,
    Seq<char>,
> {
    match row {
        None => Ok(None),
        Some(row) => match decoded_state(
            row.history_toon,
            row.summary,
            row.facts_json,
            "повреждены facts checkpoint сессии"@,
        ) {
            Err(message) => Err(message),
            Ok(state) => Ok(Some(state)),
        },
    }
}

/// The stored rows of a session and what it is linked with.
pub ghost struct StoredSession {
    pub row: SessionRowModel,
    pub context: Option<ContextModel>,
    pub branches: Seq<BranchRowModel>,
    pub checkpoint: Option<CheckpointModel>,
    pub profile: Result<Option<ProfileModel>, Seq<char>>,
    pub task: Result<Option<TaskModel>, Seq<char>>,
}

/// The session that the stored rows stand for, or what is wrong with them.
pub open spec fn decoded_session(s: StoredSession, second: NameModel) -> Result<
    SavedModel,
    Seq<char>,
> {
    let context = match s.context {
        Some(context) => context,
        None => default_context(),
    };
    if facts_in(context.facts_json) is None {
        Err("повреждены facts сессии"@)
    } else if strategy_named(context.compression_strategy) is Err {
        Err("повреждена стратегия контекста сессии"@)
    } else if context.context_messages > CONTEXT_MESSAGES_MAX {
        Err("повреждён размер окна сессии"@)
    } else {
        match decoded_history(s.row.history_toon) {
            Err(message) => Err(message),
            Ok(messages) => match s.profile {
                Err(message) => Err(message),
                Ok(profile) => match s.task {
                    Err(message) => Err(message),
                    Ok(task) => if context.summarized_count > messages.len() {
                        Err("повреждён контекст сессии"@)
                    } else {
                        match decoded_branches(s.branches) {
                            Err(message) => Err(message),
                            Ok(branches) => match decoded_checkpoint(s.checkpoint) {
                                Err(message) => Err(message),
                                Ok(checkpoint) => match provider_stored(s.row.provider, second) {
                                    Err(message) => Err(message),
                                    Ok(provider) => Ok(
                                        SavedModel {
                                            id: s.row.id,
                                            title: s.row.title,
                                            provider,
                                            model: s.row.model,
                                            mode: s.row.mode,
                                            temperature: s.row.temperature,
                                            messages,
                                            summary: context.summary,
                                            facts: facts_in(context.facts_json)->Some_0,
                                            summarized_count: context.summarized_count,
                                            compression_strategy: strategy_named(
                                                context.compression_strategy,
                                            )->Ok_0,
                                            context_messages: context.context_messages,
                                            branches: branches.0,
                                            checkpoint,
                                            active_branch: branches.1,
                                            branch_pending: context.branch_pending,
                                            profile,
                                            task,
                                        },
                                    ),
                                },
                            },
                        }
                    },
                },
            },
        }
    }
}

fn decode_state(history_toon: &str, summary: String, facts_json: &str, damaged: &str) -> (r: Result<
    BranchState,
    String,
>)
    ensures
        agrees(r, decoded_state(history_toon@, summary@, facts_json@, damaged@)),
        r is Ok ==> r->Ok_0.wf(),
{
    match decode_messages_toon(history_toon) {
        Err(message) => Err(message),
        Ok(messages) => match read_facts(facts_json) {
            None => Err(damaged.to_owned()),
            Some(facts) => Ok(
                BranchState {
                    history: copy_all(&messages),
                    persisted_history: messages,
                    summary,
                    facts,
                },
            ),
        },
    }
}

/// A list of branches with the name of the active one shows what a mathematical result says.
pub open spec fn agrees_branches(
    r: Result<(Vec<Branch>, String), String>,
    s: Result<(Seq<BranchModel>, Seq<char>), Seq<char>>,
) -> bool {
    match (r, s) {
        (Ok(pair), Ok(model)) => views(pair.0@) == model.0 && pair.1@ == model.1,
        (Err(message), Err(model)) => message@ == model,
        _ => false,
    }
}

proof fn lemma_branches_error(rows: Seq<BranchRowModel>, n: int)
    requires
        0 <= n <= rows.len(),
        decoded_branches(rows.take(n)) is Err,
    ensures
        decoded_branches(rows) == decoded_branches(rows.take(n)),
    decreases rows.len(),
{
    if n == rows.len() {
        assert(rows.take(n) =~= rows);
    } else {
        assert(rows.drop_last().take(n) =~= rows.take(n));
        lemma_branches_error(rows.drop_last(), n);
    }
}

/// Reads branches from their rows.
pub fn load_branches(rows: &Vec<BranchRow>) -> (r: Result<(Vec<Branch>, String), String>)
    ensures
        agrees_branches(r, decoded_branches(views(rows@))),
        r is Ok ==> branches_wf(r->Ok_0.0@),
{
    let ghost model = views(rows@);
    let mut branches: Vec<Branch> = Vec::new();
    let mut active = "main".to_owned();
    let mut i: usize = 0;
    proof {
        assert(model.take(0).len() == 0);
        assert(views(branches@) =~= Seq::<BranchModel>::empty());
    }
    while i < rows.len()
        invariant
            i <= rows@.len(),
            model == views(rows@),
            decoded_branches(model.take(i as int)) == Ok::<
                (Seq<BranchModel>, Seq<char>),
                Seq<char>,
            >((views(branches@), active@)),
            branches_wf(branches@),
        decreases rows.len() - i,
    {
        let row = &rows[i];
        proof {
            assert(model.take(i + 1).drop_last() =~= model.take(i as int));
            assert(model.take(i + 1).last() == row@);
        }
        let state = match decode_state(
            row.history_toon.as_str(),
            row.summary.clone(),
            row.facts_json.as_str(),
            "повреждены facts ветки сессии",
        ) {
            Ok(state) => state,
            Err(message) => {
                proof {
                    lemma_branches_error(model, i + 1);
                }
                return Err(message);
            },
        };
        if row.is_active {
            active = row.name.clone();
        }
        let ghost before = views(branches@);
        let at = find_branch(&branches, row.name.as_str());
        let branch = Branch { name: row.name.clone(), state };
        let ghost view = branch@;
        if at < branches.len() {
            branches.set(at, branch);
            proof {
                assert(views(branches@) =~= before.update(at as int, view));
            }
        } else {
            branches.push(branch);
        }
        i += 1;
    }
    proof {
        assert(model.take(i as int) =~= model);
    }
    Ok((branches, active))
}

/// The view of a link of a session, or of the message why it could not be followed.
pub open spec fn link_view<T: View>(link: Result<Option<T>, String>) -> Result<
    Option<T::V>,
    Seq<char>,
> {
    match link {
        Ok(value) => Ok(view_option(value)),
        Err(message) => Err(message@),
    }
}

/// Puts a session together from its stored rows.
pub fn load_session(
    row: SessionRow,
    context: Option<ContextRow>,
    branches: &Vec<BranchRow>,
    checkpoint: Option<CheckpointRow>,
    profile: Result<Option<Profile>, String>,
    task: Result<Option<Task>, String>,
    second: &ProviderName,
) -> (r: Result<SavedSession, String>)
    ensures
        agrees(
            r,
            decoded_session(
                StoredSession {
                    row: row@,
                    context: view_option(context),
                    branches: views(branches@),
                    checkpoint: view_option(checkpoint),
                    profile: link_view(profile),
                    task: link_view(task),
                },
                second@,
            ),
        ),
        r is Ok ==> r->Ok_0.wf(),
{
    let context = match context {
        Some(context) => context,
        None => ContextRow {
            summary: String::new(),
            summarized_count: 0,
            facts_json: "{}".to_owned(),
            compression_strategy: CompressionStrategy::Summary.name().to_owned(),
            context_messages: default_context_messages(),
            branch_pending: false,
        },
    };
    let facts = match read_facts(context.facts_json.as_str()) {
        Some(facts) => facts,
        None => return Err("повреждены facts сессии".to_owned()),
    };
    let compression_strategy = match parse_compression_strategy(
        context.compression_strategy.as_str(),
    ) {
        Ok(strategy) => strategy,
        Err(_) => return Err("повреждена стратегия контекста сессии".to_owned()),
    };
    if context.context_messages > CONTEXT_MESSAGES_MAX {
        return Err("повреждён размер окна сессии".to_owned());
    }
    let messages = match decode_messages_toon(row.history_toon.as_str()) {
        Ok(messages) => messages,
        Err(message) => return Err(message),
    };
    let profile = match profile {
        Ok(profile) => profile,
        Err(message) => return Err(message),
    };
    let task = match task {
        Ok(task) => task,
        Err(message) => return Err(message),
    };
    if context.summarized_count > messages.len() {
        return Err("повреждён контекст сессии".to_owned());
    }
    let (branches, active_branch) = match load_branches(branches) {
        Ok(pair) => pair,
        Err(message) => return Err(message),
    };
    let checkpoint = match checkpoint {
        None => None,
        Some(row) => match decode_state(
            row.history_toon.as_str(),
            row.summary,
            row.facts_json.as_str(),
            "повреждены facts checkpoint сессии",
        ) {
            Ok(state) => Some(state),
            Err(message) => return Err(message),
        },
    };
    let provider = match parse_provider(row.provider.as_str(), second) {
        Ok(provider) => provider,
        Err(message) => return Err(message),
    };
    Ok(
        SavedSession {
            id: row.id,
            title: row.title,
            provider,
            model: row.model,
            mode: row.mode,
            temperature: row.temperature,
            messages,
            summary: context.summary,
            facts,
            summarized_count: context.summarized_count,
            compression_strategy,
            context_messages: context.context_messages,
            branches,
            checkpoint,
            active_branch,
            branch_pending: context.branch_pending,
            profile,
            task,
        },
    )
}

// A session is restored as it was saved.

/// The row under which a session is stored.
pub open spec fn session_row(id: i64, s: SnapshotModel, second: NameModel) -> SessionRowModel {
    SessionRowModel {
        id,
        title: rows_of(s, second).title,
        provider: rows_of(s, second).provider,
        model: s.model,
        mode: s.mode,
        temperature: s.temperature,
        history_toon: rows_of(s, second).history_toon,
    }
}

/// The state of a branch as it is restored: the whole archive is the context.
pub open spec fn restored_state(state: StateModel) -> StateModel {
    StateModel { history: state.persisted_history, ..state }
}

/// An optional state as it is restored.
pub open spec fn restored_option(state: Option<StateModel>) -> Option<StateModel> {
    match state {
        Some(state) => Some(restored_state(state)),
        None => None,
    }
}

/// Whether no two branches have the same name.
pub open spec fn distinct_branches(branches: Seq<BranchModel>) -> bool {
    forall|i: int, j: int|
        0 <= i < j < branches.len() ==> (#[trigger] branches[i]).name != (
        #[trigger] branches[j]).name
}

/// Whether no two rows have the same name.
pub open spec fn distinct_rows(rows: Seq<BranchRowModel>) -> bool {
    forall|i: int, j: int|
        0 <= i < j < rows.len() ==> (#[trigger] rows[i]).name != (#[trigger] rows[j]).name
}

/// Whether a session can be stored: the limits hold, and the branches have different names.
pub open spec fn can_be_stored(s: SnapshotModel) -> bool {
    &&& s.context_messages <= CONTEXT_MESSAGES_MAX
    &&& s.summarized_count <= s.messages.len()
    &&& distinct_branches(s.branches)
}

/// The active branch as it is restored: a name that is not that of a branch gives way to the first
/// one.
pub open spec fn restored_active(s: SnapshotModel) -> Seq<char> {
    if has_branch(s.branches, s.active_branch) {
        s.active_branch
    } else {
        "main"@
    }
}

/// Whether two lists hold the same rows.
pub open spec fn same_rows(a: Seq<BranchRowModel>, b: Seq<BranchRowModel>) -> bool {
    forall|row: BranchRowModel| a.contains(row) <==> #[trigger] b.contains(row)
}

/// The branch that a row stands for, if its history and facts can be read.
pub open spec fn row_branch(row: BranchRowModel) -> BranchModel {
    BranchModel {
        name: row.name,
        state: decoded_state(row.history_toon, row.summary, row.facts_json, Seq::empty())->Ok_0,
    }
}

/// Whether the history and the facts of a row can be read.
pub open spec fn readable_row(row: BranchRowModel) -> bool {
    decoded_history(row.history_toon) is Ok && facts_in(row.facts_json) is Some
}

/// The name in the last active row.
pub open spec fn active_name(rows: Seq<BranchRowModel>) -> Seq<char>
    decreases rows.len(),
{
    if rows.len() == 0 {
        "main"@
    } else if rows.last().is_active {
        rows.last().name
    } else {
        active_name(rows.drop_last())
    }
}

proof fn lemma_decoded_branches(rows: Seq<BranchRowModel>)
    requires
        distinct_rows(rows),
        forall|i: int| 0 <= i < rows.len() ==> readable_row(#[trigger] rows[i]),
    ensures
        decoded_branches(rows) == Ok::<(Seq<BranchModel>, Seq<char>), Seq<char>>(
            (Seq::new(rows.len(), |i: int| row_branch(rows[i])), active_name(rows)),
        ),
    decreases rows.len(),
{
    let all = Seq::new(rows.len(), |i: int| row_branch(rows[i]));
    if rows.len() == 0 {
        assert(all =~= Seq::empty());
    } else {
        let head = rows.drop_last();
        let before = Seq::new(head.len(), |i: int| row_branch(head[i]));
        lemma_decoded_branches(head);
        lemma_branch_index(before, rows.last().name);
        let at = branch_index(before, rows.last().name) as int;
        if at < before.len() {
            assert(rows[at].name != rows[rows.len() - 1].name);
        }
        assert(readable_row(rows[rows.len() - 1]));
        assert(before.push(row_branch(rows.last())) =~= all);
    }
}

proof fn lemma_active_name(rows: Seq<BranchRowModel>, active: Seq<char>)
    requires
        distinct_rows(rows),
        forall|i: int| 0 <= i < rows.len() ==> (#[trigger] rows[i]).is_active == (rows[i].name == active),
    ensures
        (exists|i: int| 0 <= i < rows.len() && (#[trigger] rows[i]).name == active) ==> active_name(
            rows,
        ) == active,
        (forall|i: int| 0 <= i < rows.len() ==> (#[trigger] rows[i]).name != active) ==> active_name(
            rows,
        ) == "main"@,
    decreases rows.len(),
{
    if rows.len() > 0 {
        let head = rows.drop_last();
        lemma_active_name(head, active);
        assert(rows[rows.len() - 1] == rows.last());
        if !rows.last().is_active {
            if exists|i: int| 0 <= i < rows.len() && (#[trigger] rows[i]).name == active {
                let i = choose|i: int| 0 <= i < rows.len() && (#[trigger] rows[i]).name == active;
                assert(head[i].name == active);
            }
            if forall|i: int| 0 <= i < rows.len() ==> (#[trigger] rows[i]).name != active {
                assert forall|i: int| 0 <= i < head.len() implies (#[trigger] head[i]).name
                    != active by {
                    assert(head[i] == rows[i]);
                }
            }
        }
    }
}

proof fn lemma_rows_are_readable(s: SnapshotModel, rows: Seq<BranchRowModel>)
    requires
        session_reads_back(s),
        same_rows(rows, branch_rows(s.branches, s.active_branch)),
    ensures
        forall|i: int|
            0 <= i < rows.len() ==> readable_row(#[trigger] rows[i]) && has_branch_row(s, rows[i]),
{
    let stored = branch_rows(s.branches, s.active_branch);
    assert forall|i: int| 0 <= i < rows.len() implies readable_row(#[trigger] rows[i])
        && has_branch_row(s, rows[i]) by {
        assert(rows.contains(rows[i]));
        assert(stored.contains(rows[i]));
        let j = choose|j: int| 0 <= j < stored.len() && stored[j] == rows[i];
        assert(stored[j] == branch_row(s.branches[j], s.active_branch));
        assert(state_reads_back(s.branches[j].state));
    }
}

proof fn lemma_row_of_branch(s: SnapshotModel, rows: Seq<BranchRowModel>, j: int) -> (i: int)
    requires
        same_rows(rows, branch_rows(s.branches, s.active_branch)),
        0 <= j < s.branches.len(),
    ensures
        0 <= i < rows.len(),
        rows[i] == branch_row(s.branches[j], s.active_branch),
{
    let stored = branch_rows(s.branches, s.active_branch);
    assert(stored[j] == branch_row(s.branches[j], s.active_branch));
    assert(stored.contains(stored[j]));
    assert(rows.contains(stored[j]));
    choose|i: int| 0 <= i < rows.len() && rows[i] == stored[j]
}

proof fn lemma_rows_active(s: SnapshotModel, rows: Seq<BranchRowModel>)
    requires
        session_reads_back(s),
        distinct_rows(rows),
        same_rows(rows, branch_rows(s.branches, s.active_branch)),
    ensures
        active_name(rows) == restored_active(s),
{
    lemma_rows_are_readable(s, rows);
    assert forall|i: int| 0 <= i < rows.len() implies (#[trigger] rows[i]).is_active == (
    rows[i].name == s.active_branch) by {
        assert(has_branch_row(s, rows[i]));
    }
    lemma_active_name(rows, s.active_branch);
    lemma_branch_index(s.branches, s.active_branch);
    if has_branch(s.branches, s.active_branch) {
        let i = lemma_row_of_branch(
            s,
            rows,
            branch_index(s.branches, s.active_branch) as int,
        );
        assert(rows[i].name == s.active_branch);
    } else {
        assert forall|i: int| 0 <= i < rows.len() implies (#[trigger] rows[i]).name
            != s.active_branch by {
            assert(has_branch_row(s, rows[i]));
        }
    }
}

proof fn lemma_rows_branch(s: SnapshotModel, rows: Seq<BranchRowModel>, name: Seq<char>)
    requires
        distinct_branches(s.branches),
        session_reads_back(s),
        same_rows(rows, branch_rows(s.branches, s.active_branch)),
    ensures
        branch_get(Seq::new(rows.len(), |i: int| row_branch(rows[i])), name) == restored_option(
            branch_get(s.branches, name),
        ),
{
    let loaded = Seq::new(rows.len(), |i: int| row_branch(rows[i]));
    lemma_rows_are_readable(s, rows);
    lemma_branch_index(s.branches, name);
    lemma_branch_index(loaded, name);
    let found = branch_index(loaded, name) as int;
    let kept = branch_index(s.branches, name) as int;
    if found < loaded.len() {
        assert(has_branch_row(s, rows[found]));
        let j = choose|j: int|
            0 <= j < s.branches.len() && rows[found] == branch_row(
                #[trigger] s.branches[j],
                s.active_branch,
            );
        assert(loaded[found] == row_branch(rows[found]));
        assert(s.branches[j].name == name);
        assert(kept <= j);
        if kept < j {
            assert(s.branches[kept].name != s.branches[j].name);
        }
        assert(state_reads_back(s.branches[j].state));
        assert(loaded[found].state == restored_state(s.branches[j].state));
    } else if kept < s.branches.len() {
        let i = lemma_row_of_branch(s, rows, kept);
        assert(loaded[i] == row_branch(rows[i]));
        assert(loaded[i].name == name);
    }
}

proof fn lemma_checkpoint_restored(checkpoint: Option<StateModel>)
    requires
        checkpoint is Some ==> state_reads_back(checkpoint->Some_0),
    ensures
        decoded_checkpoint(checkpoint_rows(checkpoint)) == Ok::<Option<StateModel>, Seq<char>>(
            restored_option(checkpoint),
        ),
{
}

proof fn lemma_session_of_parts(
    stored: StoredSession,
    context: ContextModel,
    facts: Seq<(Seq<char>, Seq<char>)>,
    strategy: CompressionStrategy,
    messages: Seq<MessageModel>,
    profile: Option<ProfileModel>,
    task: Option<TaskModel>,
    branches: (Seq<BranchModel>, Seq<char>),
    checkpoint: Option<StateModel>,
    provider: Provider,
    second: NameModel,
)
    requires
        stored.context == Some(context),
        facts_in(context.facts_json) == Some(facts),
        strategy_named(context.compression_strategy) == Ok::<CompressionStrategy, Seq<char>>(
            strategy,
        ),
        context.context_messages <= CONTEXT_MESSAGES_MAX,
        decoded_history(stored.row.history_toon) == Ok::<Seq<MessageModel>, Seq<char>>(messages),
        stored.profile == Ok::<Option<ProfileModel>, Seq<char>>(profile),
        stored.task == Ok::<Option<TaskModel>, Seq<char>>(task),
        context.summarized_count <= messages.len(),
        decoded_branches(stored.branches) == Ok::<(Seq<BranchModel>, Seq<char>), Seq<char>>(
            branches,
        ),
        decoded_checkpoint(stored.checkpoint) == Ok::<Option<StateModel>, Seq<char>>(checkpoint),
        provider_stored(stored.row.provider, second) == Ok::<Provider, Seq<char>>(provider),
    ensures
        decoded_session(stored, second) == Ok::<SavedModel, Seq<char>>(
            SavedModel {
                id: stored.row.id,
                title: stored.row.title,
                provider,
                model: stored.row.model,
                mode: stored.row.mode,
                temperature: stored.row.temperature,
                messages,
                summary: context.summary,
                facts,
                summarized_count: context.summarized_count,
                compression_strategy: strategy,
                context_messages: context.context_messages,
                branches: branches.0,
                checkpoint,
                active_branch: branches.1,
                branch_pending: context.branch_pending,
                profile,
                task,
            },
        ),
{
}

/// A session that was saved is restored as it was, in whatever order the store returns the rows of
/// its branches. The archive of each branch becomes its context; where the active name is not that
/// of a branch, `main` is active.
pub proof fn law_saved_session_is_restored(
    id: i64,
    s: SnapshotModel,
    rows: Seq<BranchRowModel>,
    profile: Option<ProfileModel>,
    task: Option<TaskModel>,
    name: Seq<char>,
    second: NameModel,
)
    requires
        second.key != "openai"@,
        can_be_stored(s),
        session_reads_back(s),
        distinct_rows(rows),
        same_rows(rows, rows_of(s, second).branches),
    ensures
        ({
            let loaded = decoded_session(
                StoredSession {
                    row: session_row(id, s, second),
                    context: Some(rows_of(s, second).context),
                    branches: rows,
                    checkpoint: rows_of(s, second).checkpoint,
                    profile: Ok(profile),
                    task: Ok(task),
                },
                second,
            );
            &&& loaded is Ok
            &&& branch_get(loaded->Ok_0.branches, name) == restored_option(
                branch_get(s.branches, name),
            )
            &&& loaded->Ok_0 == SavedModel {
                id,
                title: dialogue_title(s.messages),
                provider: s.provider,
                model: s.model,
                mode: s.mode,
                temperature: s.temperature,
                messages: s.messages,
                summary: s.summary,
                facts: s.facts,
                summarized_count: s.summarized_count,
                compression_strategy: s.compression_strategy,
                context_messages: s.context_messages,
                branches: loaded->Ok_0.branches,
                checkpoint: restored_option(s.checkpoint),
                active_branch: restored_active(s),
                branch_pending: s.branch_pending,
                profile,
                task,
            }
        }),
{
    law_provider_round_trip(s.provider, second);
    law_strategy_round_trip(s.compression_strategy);
    lemma_rows_are_readable(s, rows);
    lemma_decoded_branches(rows);
    lemma_rows_active(s, rows);
    lemma_rows_branch(s, rows, name);
    lemma_checkpoint_restored(s.checkpoint);
    lemma_session_of_parts(
        StoredSession {
            row: session_row(id, s, second),
            context: Some(rows_of(s, second).context),
            branches: rows,
            checkpoint: rows_of(s, second).checkpoint,
            profile: Ok(profile),
            task: Ok(task),
        },
        rows_of(s, second).context,
        s.facts,
        s.compression_strategy,
        s.messages,
        profile,
        task,
        (Seq::new(rows.len(), |i: int| row_branch(rows[i])), active_name(rows)),
        restored_option(s.checkpoint),
        s.provider,
        second,
    );
}

spec fn has_branch_row(s: SnapshotModel, row: BranchRowModel) -> bool {
    exists|j: int|
        0 <= j < s.branches.len() && row == branch_row(#[trigger] s.branches[j], s.active_branch)
}

// Going on with a session.

/// The agent with a session: the part of the context that the summary stands for is left out,
/// unless too little of it would remain.
pub open spec fn with_session_summary(a: AgentModel, s: SavedModel) -> AgentModel {
    if a.settings.compression_strategy != CompressionStrategy::Summary {
        a
    } else {
        let rest = a.history.skip(s.summarized_count as int);
        if rest.len() < a.settings.context_messages && rest.len() < a.persisted_history.len() {
            AgentModel { history: a.persisted_history, summary: Seq::empty(), ..a }
        } else {
            AgentModel { history: rest, summary: s.summary, ..a }
        }
    }
}

/// The state that an agent goes on with, where branches are used.
pub open spec fn resumed_state(s: SavedModel) -> Option<StateModel> {
    if s.branch_pending {
        s.checkpoint
    } else {
        branch_get(s.branches, s.active_branch)
    }
}

/// The agent that goes on with a session.
pub open spec fn session_resumed(a: AgentModel, s: SavedModel) -> AgentModel {
    let b = with_session_summary(
        AgentModel { facts: s.facts, ..agent_restored(a, s.messages) },
        s,
    );
    let c = AgentModel {
        branches: s.branches,
        checkpoint: s.checkpoint,
        active_branch: s.active_branch,
        branch_pending: s.branch_pending,
        ..b
    };
    if c.settings.compression_strategy == CompressionStrategy::Branching {
        match resumed_state(s) {
            Some(state) => with_state(c, state),
            None => c,
        }
    } else {
        c
    }
}

impl Agent {
    /// Goes on with a saved session.
    pub fn resume_session(&mut self, session: &SavedSession)
        requires
            session.wf(),
        ensures
            final(self)@ == session_resumed(old(self)@, session@),
            final(self).wf(),
    {
        self.restore(&session.messages);
        self.facts = session.facts.clone();
        if self.settings.compression_strategy == CompressionStrategy::Summary {
            self.summary = session.summary.clone();
            self.history = copy_messages(&session.messages, session.summarized_count);
            if self.history.len() < self.settings.context_messages && self.history.len()
                < self.persisted_history.len() {
                self.history = copy_all(&self.persisted_history);
                self.summary = String::new();
            }
        }
        self.branches = copy_branches(&session.branches);
        self.checkpoint = copy_state(&session.checkpoint);
        self.active_branch = session.active_branch.clone();
        self.branch_pending = session.branch_pending;
        if self.settings.compression_strategy == CompressionStrategy::Branching {
            let state = if self.branch_pending {
                copy_state(&self.checkpoint)
            } else {
                let at = find_branch(&self.branches, self.active_branch.as_str());
                if at < self.branches.len() {
                    Some(self.branches[at].state.clone())
                } else {
                    None
                }
            };
            if let Some(state) = state {
                self.restore_state(state);
            }
        }
    }
}

/// Whatever the strategy, the archive of a session without branches is that of the agent that
/// goes on with it.
pub proof fn law_resumed_archive(a: AgentModel, s: SavedModel)
    ensures
        a.settings.compression_strategy != CompressionStrategy::Branching ==> session_resumed(
            a,
            s,
        ).persisted_history == s.messages,
        a.settings.compression_strategy == CompressionStrategy::Branching && resumed_state(
            s,
        ) is Some ==> session_resumed(a, s).persisted_history == resumed_state(
            s,
        )->Some_0.persisted_history,
{
}

// Rules of the store.

/// The greatest number of characters of a rule.
pub const INVARIANT_MAX_CHARS: usize = 1000;

/// The greatest number of rules.
pub const INVARIANTS_MAX: usize = 64;

/// The text of a rule that is to be stored.
pub fn validate_invariant(content: &str) -> (r: Result<String, String>)
    ensures
        agrees(
            r,
            memory_text(content@, "инвариант"@, INVARIANT_MAX_CHARS as nat),
        ),
{
    validate_memory_text(content, "инвариант", INVARIANT_MAX_CHARS)
}

/// The text of a rule that is to be stored beside `count` others, or why it is not.
pub open spec fn new_rule(content: Seq<char>, count: nat) -> Result<Seq<char>, Seq<char>> {
    match memory_text(content, "инвариант"@, INVARIANT_MAX_CHARS as nat) {
        Err(message) => Err(message),
        Ok(text) => if count < INVARIANTS_MAX {
            Ok(text)
        } else {
            Err("достигнут предел инвариантов ("@ + decimal(INVARIANTS_MAX as nat) + ")"@)
        },
    }
}

/// Checks a rule that is to be stored beside `count` others.
pub fn prepare_invariant(content: &str, count: usize) -> (r: Result<String, String>)
    ensures
        agrees(r, new_rule(content@, count as nat)),
{
    match validate_invariant(content) {
        Err(message) => Err(message),
        Ok(text) => if count < INVARIANTS_MAX {
            Ok(text)
        } else {
            Err(
                "достигнут предел инвариантов (".to_owned().concat(
                    size_text(INVARIANTS_MAX).as_str(),
                ).concat(")"),
            )
        },
    }
}

/// The message that a record is not in the store.
pub open spec fn not_found(kind: Seq<char>, id: int, ending: Seq<char>) -> Seq<char> {
    kind + " #"@ + signed_decimal(id) + " "@ + ending
}

/// The message that a record is not in the store.
pub fn not_found_message(kind: &str, id: i64, ending: &str) -> (r: String)
    ensures
        r@ == not_found(kind@, id as int, ending@),
{
    kind.to_owned().concat(" #").concat(signed_text(id).as_str()).concat(" ").concat(ending)
}

/// Checks that the number of a rule can be one.
pub fn check_invariant_id(id: i64) -> (r: Result<(), String>)
    ensures
        r is Ok <==> id > 0,
        r is Err ==> r->Err_0@ == "некорректный ID инварианта"@,
{
    if id > 0 {
        Ok(())
    } else {
        Err("некорректный ID инварианта".to_owned())
    }
}

/// Checks that a statement changed the rule with a number.
pub fn check_invariant_changed(id: i64, changed: usize) -> (r: Result<(), String>)
    ensures
        r is Ok <==> changed == 1,
        r is Err ==> r->Err_0@ == not_found("инвариант"@, id as int, "не найден"@),
{
    if changed == 1 {
        Ok(())
    } else {
        Err(not_found_message("инвариант", id, "не найден"))
    }
}

/// Checks that a statement deleted the long-term fact with a number.
pub fn check_entry_deleted(id: i64, deleted: usize) -> (r: Result<(), String>)
    ensures
        r is Ok <==> deleted == 1,
        r is Err ==> r->Err_0@ == not_found("долговременный факт"@, id as int, "не найден"@),
{
    if deleted == 1 {
        Ok(())
    } else {
        Err(not_found_message("долговременный факт", id, "не найден"))
    }
}

/// Checks that a statement changed the context of the current session.
pub fn check_context_changed(changed: usize) -> (r: Result<(), String>)
    ensures
        r is Ok <==> changed == 1,
        r is Err ==> r->Err_0@ == "контекст активной сессии не найден"@,
{
    if changed == 1 {
        Ok(())
    } else {
        Err("контекст активной сессии не найден".to_owned())
    }
}

/// A session is called like the first message of the user in it.
pub proof fn law_session_is_called_like_its_first_message(messages: Seq<MessageModel>, at: int)
    ensures
        0 <= at < messages.len() && messages[at].role == "user"@ && (forall|k: int|
            0 <= k < at ==> (#[trigger] messages[k]).role != "user"@) ==> dialogue_title(messages)
            == title_of(messages[at].content),
        (forall|k: int| 0 <= k < messages.len() ==> (#[trigger] messages[k]).role != "user"@)
            ==> dialogue_title(messages) == "Новая сессия"@,
    decreases messages.len(),
{
    if messages.len() > 0 && messages[0].role != "user"@ {
        let rest = messages.skip(1);
        law_session_is_called_like_its_first_message(rest, at - 1);
        assert forall|k: int| 0 <= k < rest.len() implies rest[k] == #[trigger] messages[k
            + 1] by {}
        if 0 < at < messages.len() {
            assert(rest[at - 1] == messages[at]);
        }
        if forall|k: int| 0 <= k < messages.len() ==> (#[trigger] messages[k]).role != "user"@ {
            assert forall|k: int| 0 <= k < rest.len() implies (#[trigger] rest[k]).role
                != "user"@ by {
                assert(messages[k + 1].role != "user"@);
            }
        }
        if 0 < at < messages.len() && forall|k: int|
            0 <= k < at ==> (#[trigger] messages[k]).role != "user"@ {
            assert forall|k: int| 0 <= k < at - 1 implies (#[trigger] rest[k]).role != "user"@ by {
                assert(messages[k + 1].role != "user"@);
            }
        }
    }
}

/// A column that a table lacks is added to that table.
pub proof fn law_missing_columns_are_added(c: ColumnsModel)
    ensures
        !c.tasks.contains("plan_version"@) ==> schema_steps(c).contains(
            "ALTER TABLE "@ + "tasks"@ + " ADD COLUMN "@ + "plan_version"@ + " "@
                + "INTEGER NOT NULL DEFAULT 0 CHECK (plan_version >= 0)"@,
        ),
        !c.invariants.contains("enabled"@) ==> schema_steps(c).contains(
            "ALTER TABLE "@ + "invariants"@ + " ADD COLUMN "@ + "enabled"@ + " "@
                + "INTEGER NOT NULL DEFAULT 1 CHECK (enabled IN (0, 1))"@,
        ),
        !c.session_context.contains("branch_pending"@) ==> schema_steps(c).contains(
            "ALTER TABLE "@ + "session_context"@ + " ADD COLUMN "@ + "branch_pending"@ + " "@
                + "INTEGER NOT NULL DEFAULT 0"@,
        ),
{
    let steps = schema_steps(c);
    let first = opt_list(
        column_change(
            c.tasks,
            "tasks"@,
            "plan_version"@,
            "INTEGER NOT NULL DEFAULT 0 CHECK (plan_version >= 0)"@,
        ),
    );
    let second = opt_list(
        column_change(
            c.tasks,
            "tasks"@,
            "approved_plan_version"@,
            "INTEGER CHECK (approved_plan_version IS NULL OR approved_plan_version >= 0)"@,
        ),
    );
    if !c.tasks.contains("plan_version"@) {
        assert(steps[0] == first[0]);
    }
    if !c.invariants.contains("enabled"@) {
        let at = (first + second).len() as int;
        assert(steps[at] == "ALTER TABLE "@ + "invariants"@ + " ADD COLUMN "@ + "enabled"@ + " "@
            + "INTEGER NOT NULL DEFAULT 1 CHECK (enabled IN (0, 1))"@);
    }
    if !c.session_context.contains("branch_pending"@) {
        assert(steps.last() == "ALTER TABLE "@ + "session_context"@ + " ADD COLUMN "@
            + "branch_pending"@ + " "@ + "INTEGER NOT NULL DEFAULT 0"@);
        assert(steps[steps.len() - 1] == steps.last());
    }
}

/// A session that is taken up again goes on where it was left: with its facts, its branches and its
/// checkpoint; with its messages, less those that the stored summary stands for; and with that
/// summary. Where that would leave less than the context may hold, all messages come back instead.
pub proof fn law_resumed_session_goes_on(a: AgentModel, s: SavedModel)
    requires
        s.summarized_count <= s.messages.len(),
    ensures
        ({
            let b = session_resumed(a, s);
            let strategy = a.settings.compression_strategy;
            let rest = s.messages.skip(s.summarized_count as int);
            &&& b.settings == a.settings
            &&& b.branches == s.branches
            &&& b.checkpoint == s.checkpoint
            &&& b.active_branch == s.active_branch
            &&& b.branch_pending == s.branch_pending
            &&& strategy != CompressionStrategy::Branching ==> b.facts == s.facts
            &&& strategy == CompressionStrategy::SlidingWindow || strategy
                == CompressionStrategy::StickyFacts ==> b.history == s.messages
            &&& strategy == CompressionStrategy::Summary && rest.len()
                >= a.settings.context_messages ==> b.history == rest && b.summary == s.summary
            &&& strategy == CompressionStrategy::Summary && s.summarized_count > 0 && rest.len()
                < a.settings.context_messages ==> b.history == s.messages && b.summary.len() == 0
            &&& strategy == CompressionStrategy::Branching && !s.branch_pending ==> (branch_get(
                s.branches,
                s.active_branch,
            ) matches Some(state) ==> b.history == state.history && b.summary == state.summary
                && b.facts == state.facts)
            &&& strategy == CompressionStrategy::Branching && s.branch_pending ==> (s.checkpoint
                matches Some(state) ==> b.history == state.history && b.summary == state.summary
                && b.facts == state.facts)
        }),
{
}

/// What is stored when branches change is what the agent holds.
pub proof fn law_stored_branches_are_the_agents(a: AgentModel, i: int)
    requires
        0 <= i < a.branches.len(),
        a.persisted_history.len() <= usize::MAX,
    ensures
        ({
            let stored = branching_of(a);
            &&& stored.history_toon == history_text(a.persisted_history)
            &&& stored.summary == a.summary
            &&& stored.branch_pending == a.branch_pending
            &&& stored.branches.len() == a.branches.len()
            &&& stored.branches[i].name == a.branches[i].name
            &&& stored.branches[i].history_toon == history_text(
                a.branches[i].state.persisted_history,
            )
            &&& stored.branches[i].summary == a.branches[i].state.summary
            &&& stored.branches[i].facts_json == map_text(a.branches[i].state.facts)
            &&& stored.branches[i].is_active <==> a.branches[i].name == a.active_branch
            &&& a.history.len() <= a.persisted_history.len() ==> stored.summarized_count
                == a.persisted_history.len() - a.history.len()
            &&& stored.checkpoint is Some <==> a.checkpoint is Some
        }),
{
}

/// A rule is taken without the white space around it, as long as it has a text that is not too long
/// and there is room for it.
pub proof fn law_new_rules_are_bounded(content: Seq<char>, count: nat)
    ensures
        match new_rule(content, count) {
            Ok(text) => text == trim(content) && 0 < text.len() <= 1000 && count < 64,
            Err(_) => trim(content).len() == 0 || trim(content).len() > 1000 || count >= 64,
        },
{
}

/// The branch that a session goes on with is the one that was marked; the first one is called so
/// when none was.
pub proof fn law_marked_branch_is_active(rows: Seq<BranchRowModel>, i: int)
    ensures
        0 <= i < rows.len() && rows[i].is_active && (forall|k: int|
            i < k < rows.len() ==> !(#[trigger] rows[k]).is_active) ==> active_name(rows)
            == rows[i].name,
        (forall|k: int| 0 <= k < rows.len() ==> !(#[trigger] rows[k]).is_active) ==> active_name(
            rows,
        ) == "main"@,
    decreases rows.len(),
{
    if rows.len() > 0 && !rows.last().is_active {
        let head = rows.drop_last();
        law_marked_branch_is_active(head, i);
        if 0 <= i < rows.len() && rows[i].is_active {
            assert(i < head.len());
            assert(head[i] == rows[i]);
            if forall|k: int| i < k < rows.len() ==> !(#[trigger] rows[k]).is_active {
                assert forall|k: int| i < k < head.len() implies !(
                #[trigger] head[k]).is_active by {
                    assert(!rows[k].is_active);
                }
            }
        }
        if forall|k: int| 0 <= k < rows.len() ==> !(#[trigger] rows[k]).is_active {
            assert forall|k: int| 0 <= k < head.len() implies !(#[trigger] head[k]).is_active by {
                assert(!rows[k].is_active);
            }
        }
    } else if rows.len() > 0 {
        assert(rows[rows.len() - 1].is_active);
    }
}

} // verus!
