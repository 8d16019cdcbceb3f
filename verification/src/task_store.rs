//! Saved tasks: how a task is stored and read back, and how an answer of the model moves it on.

use vstd::prelude::*;

use crate::agent::{AnswerModel, ApiAnswer};
use crate::memory::{
    first_open, law_phase_name_round_trip, next_phase, open_items, phase_items, phase_name,
    phase_named, task_parts, validate_task, ItemModel, TaskPhase, TaskTodo, TodoItem, TodoModel,
};
use crate::numbers::{decimal, signed_decimal, signed_text, size_text};
use crate::task_update::{TaskUpdate, UpdateModel};
use crate::tasks::{
    apply_task_update, following_phase, format_task_todo, law_finished_means_all_done,
    phase_finished, shortened, shown_todo, summary_source, task_result_summary, updated_todo,
    valid_todo, ResultModel, Task, TaskModel, TaskStepResult,
};
use crate::text::{
    agrees, has_part, is_blank, join, lemma_grown, lemma_middle_part, lemma_views_push, same, trim,
    view_option, views, words,
};
use crate::todo_format::{decode_task_todo, decoded_todo, encode_task_todo, todo_text};

verus! {

broadcast use lemma_views_push;

// Rows of tasks.

/// The row of a task.
#[derive(Debug, PartialEq, Eq)]
pub struct TaskRow {
    pub id: i64,
    pub title: String,
    pub todo: String,
    pub phase: String,
    pub plan_version: i64,
    pub approved_plan_version: Option<i64>,
}

/// The row of a task, mathematically.
pub ghost struct TaskRowModel {
    pub id: i64,
    pub title: Seq<char>,
    pub todo: Seq<char>,
    pub phase: Seq<char>,
    pub plan_version: i64,
    pub approved_plan_version: Option<i64>,
}

impl View for TaskRow {
    type V = TaskRowModel;

    open spec fn view(&self) -> TaskRowModel {
        TaskRowModel {
            id: self.id,
            title: self.title@,
            todo: self.todo@,
            phase: self.phase@,
            plan_version: self.plan_version,
            approved_plan_version: self.approved_plan_version,
        }
    }
}

/// The row of the result of a completed point.
#[derive(Debug, PartialEq, Eq)]
pub struct ResultRow {
    pub phase: String,
    pub item_id: u64,
    pub summary: String,
    pub content: String,
}

/// The row of a result, mathematically.
pub ghost struct ResultRowModel {
    pub phase: Seq<char>,
    pub item_id: u64,
    pub summary: Seq<char>,
    pub content: Seq<char>,
}

impl View for ResultRow {
    type V = ResultRowModel;

    open spec fn view(&self) -> ResultRowModel {
        ResultRowModel {
            phase: self.phase@,
            item_id: self.item_id,
            summary: self.summary@,
            content: self.content@,
        }
    }
}

/// The results that rows stand for.
pub open spec fn decoded_results(rows: Seq<ResultRowModel>) -> Result<Seq<ResultModel>, Seq<char>>
    decreases rows.len(),
{
    if rows.len() == 0 {
        Ok(Seq::empty())
    } else {
        let row = rows.last();
        match decoded_results(rows.drop_last()) {
            Err(message) => Err(message),
            Ok(head) => match phase_named(row.phase) {
                Err(message) => Err(message),
                Ok(phase) => Ok(
                    head.push(
                        ResultModel {
                            phase,
                            item_id: row.item_id,
                            summary: row.summary,
                            content: row.content,
                        },
                    ),
                ),
            },
        }
    }
}

/// The task that rows stand for, or what is wrong with them.
pub open spec fn decoded_task(row: TaskRowModel, results: Seq<ResultRowModel>) -> Result<
    TaskModel,
    Seq<char>,
> {
    match decoded_todo(row.todo) {
        Err(message) => Err(message),
        Ok(todo) => match phase_named(row.phase) {
            Err(message) => Err(message),
            Ok(phase) => match decoded_results(results) {
                Err(message) => Err(message),
                Ok(results) => Ok(
                    TaskModel {
                        id: row.id,
                        title: row.title,
                        todo,
                        phase,
                        plan_version: row.plan_version,
                        approved_plan_version: row.approved_plan_version,
                        results,
                    },
                ),
            },
        },
    }
}

proof fn lemma_results_error(rows: Seq<ResultRowModel>, n: int)
    requires
        0 <= n <= rows.len(),
        decoded_results(rows.take(n)) is Err,
    ensures
        decoded_results(rows) == decoded_results(rows.take(n)),
    decreases rows.len(),
{
    if n == rows.len() {
        assert(rows.take(n) =~= rows);
    } else {
        assert(rows.drop_last().take(n) =~= rows.take(n));
        lemma_results_error(rows.drop_last(), n);
    }
}

/// A list of results shows what a mathematical result says.
pub open spec fn agrees_results(
    r: Result<Vec<TaskStepResult>, String>,
    s: Result<Seq<ResultModel>, Seq<char>>,
) -> bool {
    match (r, s) {
        (Ok(results), Ok(model)) => views(results@) == model,
        (Err(message), Err(model)) => message@ == model,
        _ => false,
    }
}

/// Reads the results of a task from their rows.
pub fn load_task_results(rows: &Vec<ResultRow>) -> (r: Result<Vec<TaskStepResult>, String>)
    ensures
        agrees_results(r, decoded_results(views(rows@))),
{
    let ghost model = views(rows@);
    let mut results: Vec<TaskStepResult> = Vec::new();
    let mut i: usize = 0;
    proof {
        assert(model.take(0).len() == 0);
        assert(views(results@) =~= Seq::<ResultModel>::empty());
    }
    while i < rows.len()
        invariant
            i <= rows@.len(),
            model == views(rows@),
            decoded_results(model.take(i as int)) == Ok::<Seq<ResultModel>, Seq<char>>(
                views(results@),
            ),
        decreases rows.len() - i,
    {
        let row = &rows[i];
        proof {
            assert(model.take(i + 1).drop_last() =~= model.take(i as int));
            assert(model.take(i + 1).last() == row@);
        }
        let phase = match TaskPhase::parse(row.phase.as_str()) {
            Ok(phase) => phase,
            Err(message) => {
                proof {
                    lemma_results_error(model, i + 1);
                }
                return Err(message);
            },
        };
        results.push(
            TaskStepResult {
                phase,
                item_id: row.item_id,
                summary: row.summary.clone(),
                content: row.content.clone(),
            },
        );
        i += 1;
    }
    proof {
        assert(model.take(i as int) =~= model);
    }
    Ok(results)
}

/// Reads a task from its rows.
pub fn load_task(row: TaskRow, results: &Vec<ResultRow>) -> (r: Result<Task, String>)
    ensures
        agrees(r, decoded_task(row@, views(results@))),
{
    let todo = match decode_task_todo(row.todo.as_str()) {
        Ok(todo) => todo,
        Err(message) => return Err(message),
    };
    let phase = match TaskPhase::parse(row.phase.as_str()) {
        Ok(phase) => phase,
        Err(message) => return Err(message),
    };
    match load_task_results(results) {
        Ok(results) => Ok(
            Task {
                id: row.id,
                title: row.title,
                todo,
                phase,
                plan_version: row.plan_version,
                approved_plan_version: row.approved_plan_version,
                results,
            },
        ),
        Err(message) => Err(message),
    }
}

/// What is stored of a new task: its title and its TODO list. It starts in the first phase.
#[derive(Debug, PartialEq, Eq)]
pub struct NewTask {
    pub title: String,
    pub todo: String,
}

/// The row of a new task.
pub open spec fn new_task_row(id: i64, title: Seq<char>, todo: TodoModel) -> TaskRowModel {
    TaskRowModel {
        id,
        title,
        todo: todo_text(todo),
        phase: "planning"@,
        plan_version: 0,
        approved_plan_version: None,
    }
}

/// The new task as it is read back.
pub open spec fn fresh_task(id: i64, title: Seq<char>, todo: TodoModel) -> TaskModel {
    TaskModel {
        id,
        title,
        todo,
        phase: TaskPhase::Planning,
        plan_version: 0,
        approved_plan_version: None,
        results: Seq::empty(),
    }
}

/// Checks a new task. What is stored of it is read back as the task in its first phase.
pub fn prepare_task(title: &str, todo: &str) -> (r: Result<NewTask, String>)
    ensures
        match (r, task_parts(title@, todo@)) {
            (Ok(task), Ok(parts)) => {
                &&& task.title@ == parts.0
                &&& task.todo@ == todo_text(parts.1)
                &&& valid_todo(parts.1) ==> forall|id: i64|
                    decoded_task(
                        #[trigger] new_task_row(id, parts.0, parts.1),
                        Seq::empty(),
                    ) == Ok::<TaskModel, Seq<char>>(fresh_task(id, parts.0, parts.1))
            },
            (Err(message), Err(model)) => message@ == model,
            _ => false,
        },
{
    match validate_task(title, todo) {
        Err(message) => Err(message),
        Ok((title, todo)) => {
            let text = encode_task_todo(&todo);
            Ok(NewTask { title, todo: text })
        },
    }
}

// Updates of a task.

/// The numbers of the open points that are named as completed.
pub open spec fn newly_done(items: Seq<ItemModel>, ids: Seq<u64>) -> Seq<u64>
    decreases items.len(),
{
    if items.len() == 0 {
        Seq::empty()
    } else if !items.last().done && ids.contains(items.last().id) {
        newly_done(items.drop_last(), ids).push(items.last().id)
    } else {
        newly_done(items.drop_last(), ids)
    }
}

/// The numbers of the points that an update completes.
pub open spec fn completed_points(task: TaskModel, update: UpdateModel) -> Seq<u64> {
    match task.phase {
        TaskPhase::Execution => newly_done(task.todo.execution, update.ed),
        TaskPhase::Validation => newly_done(task.todo.validation, update.vd),
        _ => Seq::empty(),
    }
}

/// What an update changes in the stored task.
pub ghost struct ChangeModel {
    pub todo: TodoModel,
    pub plan_version: i64,
    pub results: Seq<ResultModel>,
}

/// The results that an answer gives to completed points.
pub open spec fn point_results(
    task: TaskModel,
    update: UpdateModel,
    answer: Seq<char>,
) -> Seq<ResultModel> {
    let ids = completed_points(task, update);
    Seq::new(
        ids.len(),
        |i: int|
            ResultModel {
                phase: task.phase,
                item_id: ids[i],
                summary: shortened(summary_source(update, answer)),
                content: answer,
            },
    )
}

/// Whether an update is a new version of the plan.
pub open spec fn changes_plan(task: TaskModel, todo: TodoModel) -> bool {
    task.phase == TaskPhase::Planning && !(todo == task.todo)
}

/// What an update, with the answer it came with, changes in a task; or why it is refused.
pub open spec fn task_change(
    task: TaskModel,
    expected: TaskPhase,
    update: UpdateModel,
    answer: Option<Seq<char>>,
) -> Result<ChangeModel, Seq<char>> {
    if task.phase != expected {
        Err("фаза задачи изменилась; обновление TODO отклонено"@)
    } else {
        match updated_todo(task.todo, task.phase, update) {
            Err(message) => Err(message),
            Ok(todo) => if changes_plan(task, todo) && task.plan_version == i64::MAX {
                Err("исчерпаны версии плана"@)
            } else if answer is Some && completed_points(task, update).len() > 0 && trim(
                answer->Some_0,
            ).len() == 0 {
                Err("результат завершённого пункта пуст"@)
            } else {
                Ok(
                    ChangeModel {
                        todo,
                        plan_version: if changes_plan(task, todo) {
                            (task.plan_version + 1) as i64
                        } else {
                            task.plan_version
                        },
                        results: match answer {
                            Some(answer) => point_results(task, update, answer),
                            None => Seq::empty(),
                        },
                    },
                )
            },
        }
    }
}

/// What an update changes in the stored task.
#[derive(Debug, PartialEq, Eq)]
pub struct TaskChange {
    pub todo: TaskTodo,
    pub todo_text: String,
    pub plan_version: i64,
    pub results: Vec<TaskStepResult>,
}

impl View for TaskChange {
    type V = ChangeModel;

    open spec fn view(&self) -> ChangeModel {
        ChangeModel {
            todo: self.todo@,
            plan_version: self.plan_version,
            results: views(self.results@),
        }
    }
}

fn same_items(a: &Vec<TodoItem>, b: &Vec<TodoItem>) -> (r: bool)
    ensures
        r == (views(a@) == views(b@)),
{
    if a.len() != b.len() {
        proof {
            assert(views(a@).len() != views(b@).len());
        }
        return false;
    }
    let mut i: usize = 0;
    while i < a.len()
        invariant
            i <= a@.len(),
            a@.len() == b@.len(),
            forall|k: int| 0 <= k < i ==> (#[trigger] views(a@)[k]) == views(b@)[k],
        decreases a.len() - i,
    {
        if a[i].id != b[i].id || a[i].done != b[i].done || !same(
            a[i].text.as_str(),
            b[i].text.as_str(),
        ) {
            proof {
                assert(views(a@)[i as int] != views(b@)[i as int]);
            }
            return false;
        }
        i += 1;
    }
    proof {
        assert(views(a@) =~= views(b@));
    }
    true
}

/// Whether two TODO lists are the same.
pub fn same_todo(a: &TaskTodo, b: &TaskTodo) -> (r: bool)
    ensures
        r == (a@ == b@),
{
    if a.facts.len() != b.facts.len() {
        proof {
            assert(views(a.facts@).len() != views(b.facts@).len());
        }
        return false;
    }
    let mut i: usize = 0;
    while i < a.facts.len()
        invariant
            i <= a.facts@.len(),
            a.facts@.len() == b.facts@.len(),
            forall|k: int| 0 <= k < i ==> (#[trigger] views(a.facts@)[k]) == views(b.facts@)[k],
        decreases a.facts.len() - i,
    {
        if !same(a.facts[i].as_str(), b.facts[i].as_str()) {
            proof {
                assert(views(a.facts@)[i as int] != views(b.facts@)[i as int]);
            }
            return false;
        }
        i += 1;
    }
    proof {
        assert(views(a.facts@) =~= views(b.facts@));
    }
    same_items(&a.execution, &b.execution) && same_items(&a.validation, &b.validation)
}

fn holds_id(ids: &Vec<u64>, id: u64) -> (r: bool)
    ensures
        r == ids@.contains(id),
{
    let mut i: usize = 0;
    while i < ids.len()
        invariant
            i <= ids@.len(),
            forall|k: int| 0 <= k < i ==> ids@[k] != id,
        decreases ids.len() - i,
    {
        if ids[i] == id {
            return true;
        }
        i += 1;
    }
    false
}

fn find_newly_done(items: &Vec<TodoItem>, ids: &Vec<u64>) -> (r: Vec<u64>)
    ensures
        r@ == newly_done(views(items@), ids@),
{
    let ghost model = views(items@);
    let mut out: Vec<u64> = Vec::new();
    let mut i: usize = 0;
    proof {
        assert(model.take(0).len() == 0);
    }
    while i < items.len()
        invariant
            i <= items@.len(),
            model == views(items@),
            out@ == newly_done(model.take(i as int), ids@),
        decreases items.len() - i,
    {
        proof {
            assert(model.take(i + 1).drop_last() =~= model.take(i as int));
            assert(model.take(i + 1).last() == items@[i as int]@);
        }
        if !items[i].done && holds_id(ids, items[i].id) {
            out.push(items[i].id);
        }
        i += 1;
    }
    proof {
        assert(model.take(i as int) =~= model);
    }
    out
}

/// Works out what an update, with the answer it came with, changes in a task. The TODO list is
/// also given as the text that is stored; a list within its limits is read back from it.
pub fn prepare_task_update(
    task: &Task,
    expected_phase: TaskPhase,
    update: &TaskUpdate,
    answer: Option<&str>,
) -> (r: Result<TaskChange, String>)
    ensures
        agrees(
            r,
            task_change(
                task@,
                expected_phase,
                update@,
                match answer {
                    Some(answer) => Some(answer@),
                    None => None,
                },
            ),
        ),
        r is Ok ==> r->Ok_0.todo_text@ == todo_text(r->Ok_0.todo@),
        r is Ok && valid_todo(r->Ok_0.todo@) ==> decoded_todo(r->Ok_0.todo_text@) == Ok::<
            TodoModel,
            Seq<char>,
        >(r->Ok_0.todo@),
{
    if task.phase != expected_phase {
        return Err("фаза задачи изменилась; обновление TODO отклонено".to_owned());
    }
    let todo = match apply_task_update(&task.todo, task.phase, update) {
        Ok(todo) => todo,
        Err(message) => return Err(message),
    };
    let mut plan_version: i64 = task.plan_version;
    if task.phase == TaskPhase::Planning && !same_todo(&todo, &task.todo) {
        if plan_version == i64::MAX {
            return Err("исчерпаны версии плана".to_owned());
        }
        plan_version = plan_version + 1;
    }
    let done = match task.phase {
        TaskPhase::Execution => find_newly_done(&task.todo.execution, &update.ed),
        TaskPhase::Validation => find_newly_done(&task.todo.validation, &update.vd),
        TaskPhase::Planning => Vec::new(),
        TaskPhase::Done => Vec::new(),
    };
    proof {
        assert(done@ =~= completed_points(task@, update@));
    }
    let mut results: Vec<TaskStepResult> = Vec::new();
    if let Some(answer) = answer {
        if done.len() > 0 && is_blank(answer) {
            return Err("результат завершённого пункта пуст".to_owned());
        }
        let summary = task_result_summary(update, answer);
        let ghost all = point_results(task@, update@, answer@);
        let mut i: usize = 0;
        while i < done.len()
            invariant
                i <= done@.len(),
                done@ == completed_points(task@, update@),
                summary@ == shortened(summary_source(update@, answer@)),
                all == point_results(task@, update@, answer@),
                views(results@) == all.take(i as int),
            decreases done.len() - i,
        {
            let result = TaskStepResult {
                phase: task.phase,
                item_id: done[i],
                summary: summary.clone(),
                content: answer.to_owned(),
            };
            proof {
                assert(all.take(i as int).push(result@) =~= all.take(i + 1));
            }
            results.push(result);
            i += 1;
        }
        proof {
            assert(all.take(i as int) =~= all);
        }
    } else {
        proof {
            assert(views(results@) =~= Seq::<ResultModel>::empty());
        }
    }
    let todo_text = encode_task_todo(&todo);
    Ok(TaskChange { todo, todo_text, plan_version, results })
}

/// Checks that the row of a task was still the one that the change was worked out for.
pub fn check_task_saved(changed: usize) -> (r: Result<(), String>)
    ensures
        r is Ok <==> changed == 1,
        r is Err ==> r->Err_0@ == "фаза задачи изменилась; обновление TODO отклонено"@,
{
    if changed == 1 {
        Ok(())
    } else {
        Err("фаза задачи изменилась; обновление TODO отклонено".to_owned())
    }
}

proof fn lemma_newly_done(items: Seq<ItemModel>, ids: Seq<u64>, id: u64)
    ensures
        newly_done(items, ids).contains(id) <==> exists|i: int|
            0 <= i < items.len() && (#[trigger] items[i]).id == id && !items[i].done
                && ids.contains(id),
    decreases items.len(),
{
    if items.len() > 0 {
        let head = items.drop_last();
        lemma_newly_done(head, ids, id);
        let before = newly_done(head, ids);
        let last = items.last();
        let all = newly_done(items, ids);
        assert(items[items.len() - 1] == last);
        if all.contains(id) {
            let k = choose|k: int| 0 <= k < all.len() && all[k] == id;
            if k < before.len() {
                assert(before[k] == id);
                assert(before.contains(id));
                let i = choose|i: int|
                    0 <= i < head.len() && (#[trigger] head[i]).id == id && !head[i].done
                        && ids.contains(id);
                assert(items[i] == head[i]);
            }
        }
        if exists|i: int|
            0 <= i < items.len() && (#[trigger] items[i]).id == id && !items[i].done
                && ids.contains(id) {
            let i = choose|i: int|
                0 <= i < items.len() && (#[trigger] items[i]).id == id && !items[i].done
                    && ids.contains(id);
            if i < head.len() {
                assert(head[i] == items[i]);
                assert(before.contains(id));
                let k = choose|k: int| 0 <= k < before.len() && before[k] == id;
                assert(all[k] == id);
            } else {
                assert(all[all.len() - 1] == id);
            }
        }
    }
}

/// The numbers that an update names as completed in a phase.
pub open spec fn named_points(phase: TaskPhase, update: UpdateModel) -> Seq<u64> {
    match phase {
        TaskPhase::Execution => update.ed,
        TaskPhase::Validation => update.vd,
        _ => Seq::empty(),
    }
}

/// Whether a list holds the result of a point.
pub open spec fn has_result(results: Seq<ResultModel>, id: u64) -> bool {
    exists|k: int| 0 <= k < results.len() && (#[trigger] results[k]).item_id == id
}

/// Whether a list holds an open point.
pub open spec fn has_open_point(items: Seq<ItemModel>, id: u64) -> bool {
    exists|i: int| 0 <= i < items.len() && (#[trigger] items[i]).id == id && !items[i].done
}

/// A result is stored for a point exactly when the point is open and the update completes it.
pub proof fn law_results_belong_to_completed_points(
    task: TaskModel,
    update: UpdateModel,
    answer: Seq<char>,
    id: u64,
)
    requires
        task_change(task, task.phase, update, Some(answer)) is Ok,
    ensures
        has_result(task_change(task, task.phase, update, Some(answer))->Ok_0.results, id)
            <==> has_open_point(phase_items(task.todo, task.phase), id) && named_points(
            task.phase,
            update,
        ).contains(id),
{
    let items = phase_items(task.todo, task.phase);
    let named = named_points(task.phase, update);
    lemma_newly_done(items, named, id);
    let ids = completed_points(task, update);
    assert(ids =~= newly_done(items, named));
    let results = task_change(task, task.phase, update, Some(answer))->Ok_0.results;
    assert(results == point_results(task, update, answer));
    if ids.contains(id) {
        let k = choose|k: int| 0 <= k < ids.len() && ids[k] == id;
        assert(results[k].item_id == id);
    }
    if has_result(results, id) {
        let k = choose|k: int| 0 <= k < results.len() && (#[trigger] results[k]).item_id == id;
        assert(ids[k] == id);
    }
}

/// The version of the plan grows by one when planning changes the TODO list, and never else.
pub proof fn law_plan_version(
    task: TaskModel,
    update: UpdateModel,
    answer: Option<Seq<char>>,
)
    requires
        task_change(task, task.phase, update, answer) is Ok,
    ensures
        ({
            let change = task_change(task, task.phase, update, answer)->Ok_0;
            &&& task.phase != TaskPhase::Planning ==> change.plan_version == task.plan_version
            &&& change.todo == task.todo ==> change.plan_version == task.plan_version
            &&& task.phase == TaskPhase::Planning && !(change.todo == task.todo)
                ==> change.plan_version == task.plan_version + 1
        }),
{
}

// Going over to the next phase.

/// The phase that a task goes over to and the version of the plan that is approved.
#[derive(Debug, PartialEq, Eq)]
pub struct TaskAdvance {
    pub phase: TaskPhase,
    pub approved_plan_version: Option<i64>,
}

/// The phase that a task goes over to and the version that is approved; or why it stays.
pub open spec fn task_advance(task: TaskModel, expected: TaskPhase, version: i64) -> Result<
    (TaskPhase, Option<i64>),
    Seq<char>,
> {
    if task.phase != expected || task.plan_version != version {
        Err("состояние или версия плана изменились; просмотрите задачу и повторите команду"@)
    } else {
        match following_phase(task) {
            Err(message) => Err(message),
            Ok(phase) => Ok(
                (
                    phase,
                    if task.phase == TaskPhase::Planning {
                        Some(task.plan_version)
                    } else {
                        task.approved_plan_version
                    },
                ),
            ),
        }
    }
}

/// Works out the next phase of a task that the user has seen in this phase and version.
pub fn prepare_advance(task: &Task, expected_phase: TaskPhase, expected_plan_version: i64) -> (r:
    Result<TaskAdvance, String>)
    ensures
        match (r, task_advance(task@, expected_phase, expected_plan_version)) {
            (Ok(advance), Ok(model)) => advance.phase == model.0 && advance.approved_plan_version
                == model.1,
            (Err(message), Err(model)) => message@ == model,
            _ => false,
        },
{
    if task.phase != expected_phase || task.plan_version != expected_plan_version {
        return Err(
            "состояние или версия плана изменились; просмотрите задачу и повторите команду".to_owned(),
        );
    }
    match task.next_phase_if_ready() {
        Err(message) => Err(message),
        Ok(phase) => Ok(
            TaskAdvance {
                phase,
                approved_plan_version: if task.phase == TaskPhase::Planning {
                    Some(task.plan_version)
                } else {
                    task.approved_plan_version
                },
            },
        ),
    }
}

/// Checks that the row of a task was still in the phase it left.
pub fn check_task_advanced(changed: usize) -> (r: Result<(), String>)
    ensures
        r is Ok <==> changed == 1,
        r is Err ==> r->Err_0@ == "фаза задачи изменилась; повторите команду"@,
{
    if changed == 1 {
        Ok(())
    } else {
        Err("фаза задачи изменилась; повторите команду".to_owned())
    }
}

/// A task goes from one phase to the very next one; leaving the first phase approves the plan as it
/// is, and no other step changes what was approved.
pub proof fn law_advance_is_one_step(task: TaskModel, expected: TaskPhase, version: i64)
    requires
        task_advance(task, expected, version) is Ok,
    ensures
        next_phase(task.phase) == Some(task_advance(task, expected, version)->Ok_0.0),
        task.phase == TaskPhase::Planning ==> task_advance(task, expected, version)->Ok_0.1 == Some(
            task.plan_version,
        ),
        task.phase != TaskPhase::Planning ==> task_advance(task, expected, version)->Ok_0.1
            == task.approved_plan_version,
{
}

// What an answer did for the task.

/// How an answer moved a task on: to the next point, or to the end of the phase.
#[derive(Debug, Clone, Copy, PartialEq, Eq, Structural)]
pub enum TaskUpdateProgress {
    Continue(TaskPhase),
    Completed(TaskPhase),
}

/// The number of the first open point of a phase.
pub open spec fn current_point(task: TaskModel, phase: TaskPhase) -> Option<u64> {
    let items = phase_items(task.todo, phase);
    let at = first_open(items) as int;
    if at < items.len() {
        Some(items[at].id)
    } else {
        None
    }
}

/// How a task was moved on.
pub open spec fn progress_of(before: TaskModel, after: TaskModel) -> Option<TaskUpdateProgress> {
    let phase = before.phase;
    let old_point = current_point(before, phase);
    let new_point = current_point(after, phase);
    if !phase_finished(before) && phase_finished(after) {
        Some(TaskUpdateProgress::Completed(phase))
    } else if (phase == TaskPhase::Execution || phase == TaskPhase::Validation) && old_point is Some
        && new_point is Some && old_point != new_point {
        Some(TaskUpdateProgress::Continue(phase))
    } else {
        None
    }
}

fn point_of(task: &Task, phase: TaskPhase) -> (r: Option<u64>)
    ensures
        r == current_point(task@, phase),
{
    match task.todo.current_for(phase) {
        Some((_, item)) => Some(item.id),
        None => None,
    }
}

/// How an update moved a task on.
pub fn task_progress(before: &Task, after: &Task) -> (r: Option<TaskUpdateProgress>)
    ensures
        r == progress_of(before@, after@),
{
    let phase = before.phase;
    let was_ready = before.ready_for_next();
    let became_ready = !was_ready && after.ready_for_next();
    let previous_step = point_of(before, phase);
    let next_step = point_of(after, phase);
    if became_ready {
        return Some(TaskUpdateProgress::Completed(phase));
    }
    if phase == TaskPhase::Execution || phase == TaskPhase::Validation {
        if let Some(previous) = previous_step {
            if let Some(next) = next_step {
                if previous != next {
                    return Some(TaskUpdateProgress::Continue(phase));
                }
            }
        }
    }
    None
}

/// The answer with a warning that the update of the task was refused.
pub open spec fn refused_update(answer: AnswerModel, error: Seq<char>) -> AnswerModel {
    let warning = "TODO не обновлён: "@ + error;
    AnswerModel {
        task_update_warning: Some(
            match answer.task_update_warning {
                Some(current) => current + "; "@ + warning,
                None => warning,
            },
        ),
        ..answer
    }
}

impl ApiAnswer {
    /// Takes the update out of the answer.
    pub fn take_update(&mut self) -> (r: Option<TaskUpdate>)
        ensures
            view_option(r) == old(self)@.task_update,
            final(self)@ == (AnswerModel { task_update: None, ..old(self)@ }),
    {
        let update = self.task_update.take();
        update
    }

    /// Adds a warning that the update of the task was refused.
    pub fn refuse_update(&mut self, error: &str)
        ensures
            final(self)@ == refused_update(old(self)@, error@),
    {
        let warning = "TODO не обновлён: ".to_owned().concat(error);
        let current = self.task_update_warning.take();
        self.task_update_warning = Some(
            match current {
                Some(current) => current.concat("; ").concat(warning.as_str()),
                None => warning,
            },
        );
    }
}

/// What is shown when all points of a phase are done.
pub open spec fn completion_text(phase: TaskPhase) -> Option<Seq<char>> {
    match next_phase(phase) {
        Some(next) => Some(
            "Все пункты этапа "@ + phase_name(phase) + " завершены. Для перехода к "@ + phase_name(
                next,
            ) + " используйте /task next."@,
        ),
        None => None,
    }
}

/// What is shown when all points of a phase are done.
pub fn task_phase_completion_message(phase: TaskPhase) -> (r: Option<String>)
    ensures
        view_option(r) == completion_text(phase),
{
    match phase.next() {
        Some(next) => Some(
            "Все пункты этапа ".to_owned().concat(phase.name()).concat(
                " завершены. Для перехода к ",
            ).concat(next.name()).concat(" используйте /task next."),
        ),
        None => None,
    }
}

/// What the model is asked to do next within a phase.
pub const CONTINUE_EXECUTION: &'static str = "Автоматически продолжи этап execution: выполни вычисленный текущий пункт e и сохрани его результат через TASK_UPDATE.";

/// What the model is asked to do next within the validation.
pub const CONTINUE_VALIDATION: &'static str = "Автоматически продолжи этап validation: выполни вычисленный текущий пункт v и сохрани его результат через TASK_UPDATE.";

/// What the model is asked to do at the beginning of the execution.
pub const START_EXECUTION: &'static str = "Начни этап execution: выполни первый применимый незавершённый пункт e из TODO и после фактического выполнения отметь его ID через TASK_UPDATE.";

/// What the model is asked to do at the beginning of the validation.
pub const START_VALIDATION: &'static str = "Начни этап validation: выполни первый применимый незавершённый пункт v из TODO и после полученного результата проверки отметь его ID через TASK_UPDATE.";

/// What the model is asked to do after a point of a phase is done.
pub fn task_phase_continue_instruction(phase: TaskPhase) -> (r: Option<&'static str>)
    ensures
        match phase {
            TaskPhase::Execution => r is Some && r->Some_0@ == CONTINUE_EXECUTION@,
            TaskPhase::Validation => r is Some && r->Some_0@ == CONTINUE_VALIDATION@,
            _ => r is None,
        },
{
    match phase {
        TaskPhase::Execution => Some(CONTINUE_EXECUTION),
        TaskPhase::Validation => Some(CONTINUE_VALIDATION),
        TaskPhase::Planning => None,
        TaskPhase::Done => None,
    }
}

/// What the model is asked to do at the beginning of a phase.
pub fn task_phase_start_instruction(phase: TaskPhase) -> (r: Option<&'static str>)
    ensures
        match phase {
            TaskPhase::Execution => r is Some && r->Some_0@ == START_EXECUTION@,
            TaskPhase::Validation => r is Some && r->Some_0@ == START_VALIDATION@,
            _ => r is None,
        },
{
    match phase {
        TaskPhase::Execution => Some(START_EXECUTION),
        TaskPhase::Validation => Some(START_VALIDATION),
        TaskPhase::Planning => None,
        TaskPhase::Done => None,
    }
}

/// The question before a task goes over to another phase.
pub open spec fn transition_text(task: TaskModel, next: TaskPhase) -> Seq<char> {
    let prompt = "Перейти "@ + phase_name(task.phase) + " -> "@ + phase_name(next)
        + "? Незавершённых пунктов текущего этапа: "@ + decimal(
        open_items(phase_items(task.todo, task.phase)),
    );
    if task.phase == TaskPhase::Planning {
        prompt + "\nУтвердить версию плана "@ + signed_decimal(task.plan_version as int) + ":\n"@
            + shown_todo(task.todo)
    } else {
        prompt
    }
}

/// The question before a task goes over to another phase.
pub fn task_transition_prompt(task: &Task, next: TaskPhase) -> (r: String)
    ensures
        r@ == transition_text(task@, next),
{
    let prompt = "Перейти ".to_owned().concat(task.phase.name()).concat(" -> ").concat(
        next.name(),
    ).concat("? Незавершённых пунктов текущего этапа: ").concat(
        size_text(task.todo.pending_for(task.phase)).as_str(),
    );
    if task.phase == TaskPhase::Planning {
        prompt.concat("\nУтвердить версию плана ").concat(
            signed_text(task.plan_version).as_str(),
        ).concat(":\n").concat(format_task_todo(&task.todo).as_str())
    } else {
        prompt
    }
}

/// What is stored of a task is read back: its number, title, phase and versions, and every result.
pub proof fn law_stored_task_is_loaded(
    row: TaskRowModel,
    results: Seq<ResultRowModel>,
    todo: TodoModel,
    phase: TaskPhase,
    i: int,
)
    requires
        decoded_todo(row.todo) == Ok::<TodoModel, Seq<char>>(todo),
        row.phase == phase_name(phase),
        forall|k: int| 0 <= k < results.len() ==> phase_named((#[trigger] results[k]).phase) is Ok,
    ensures
        decoded_task(row, results) matches Ok(task) && {
            &&& task.id == row.id
            &&& task.title == row.title
            &&& task.todo == todo
            &&& task.phase == phase
            &&& task.plan_version == row.plan_version
            &&& task.approved_plan_version == row.approved_plan_version
            &&& task.results.len() == results.len()
            &&& 0 <= i < results.len() ==> {
                &&& task.results[i].item_id == results[i].item_id
                &&& task.results[i].summary == results[i].summary
                &&& task.results[i].content == results[i].content
                &&& phase_named(results[i].phase) == Ok::<TaskPhase, Seq<char>>(
                    task.results[i].phase,
                )
            }
        },
{
    law_phase_name_round_trip(phase);
    lemma_results_read(results, i);
}

proof fn lemma_results_read(rows: Seq<ResultRowModel>, i: int)
    requires
        forall|k: int| 0 <= k < rows.len() ==> phase_named((#[trigger] rows[k]).phase) is Ok,
    ensures
        decoded_results(rows) matches Ok(results) && {
            &&& results.len() == rows.len()
            &&& 0 <= i < rows.len() ==> {
                &&& results[i].item_id == rows[i].item_id
                &&& results[i].summary == rows[i].summary
                &&& results[i].content == rows[i].content
                &&& phase_named(rows[i].phase) == Ok::<TaskPhase, Seq<char>>(results[i].phase)
            }
        },
    decreases rows.len(),
{
    if rows.len() > 0 {
        let head = rows.drop_last();
        assert forall|k: int| 0 <= k < head.len() implies phase_named((#[trigger] head[k]).phase)
            is Ok by {
            assert(head[k] == rows[k]);
        }
        lemma_results_read(head, i);
        assert(phase_named(rows[rows.len() - 1].phase) is Ok);
        if 0 <= i < head.len() {
            assert(head[i] == rows[i]);
        }
    }
}

/// A new task is read back from its row as a plan that was not approved yet.
pub proof fn law_new_task_is_loaded(id: i64, title: Seq<char>, todo: TodoModel)
    requires
        decoded_todo(todo_text(todo)) == Ok::<TodoModel, Seq<char>>(todo),
    ensures
        decoded_task(new_task_row(id, title, todo), Seq::empty()) matches Ok(task) && {
            &&& task.id == id
            &&& task.title == title
            &&& task.todo == todo
            &&& task.phase == TaskPhase::Planning
            &&& task.plan_version == 0
            &&& task.approved_plan_version is None
            &&& task.results.len() == 0
        },
{
}

/// The result of a point that an answer completes is the whole answer; its summary is what the model
/// says of it, or else the answer, with single spaces and cut to its greatest length.
pub proof fn law_result_holds_the_answer(
    task: TaskModel,
    update: UpdateModel,
    answer: Seq<char>,
    i: int,
)
    requires
        task_change(task, task.phase, update, Some(answer)) is Ok,
        0 <= i < task_change(task, task.phase, update, Some(answer))->Ok_0.results.len(),
    ensures
        ({
            let change = task_change(task, task.phase, update, Some(answer))->Ok_0;
            let result = change.results[i];
            let source = if update.s is Some && trim(update.s->Some_0).len() > 0 {
                update.s->Some_0
            } else {
                answer
            };
            let compact = join(words(source), " "@);
            &&& result.content == answer
            &&& result.phase == task.phase
            &&& compact.len() <= 300 ==> result.summary == compact
            &&& compact.len() > 300 ==> result.summary == compact.take(300).push('…')
            &&& trim(answer).len() > 0
        }),
{
}

/// An update is taken exactly where the task is still in the phase it was meant for and the phase
/// takes it; then the list of the task is the updated one.
pub proof fn law_update_belongs_to_its_phase(
    task: TaskModel,
    expected: TaskPhase,
    update: UpdateModel,
    answer: Option<Seq<char>>,
)
    ensures
        task_change(task, expected, update, answer) matches Ok(change) ==> {
            &&& task.phase == expected
            &&& updated_todo(task.todo, task.phase, update) == Ok::<TodoModel, Seq<char>>(
                change.todo,
            )
            &&& answer is None ==> change.results.len() == 0
        },
        task.phase != expected ==> task_change(task, expected, update, answer) is Err,
        task.phase == expected && updated_todo(task.todo, task.phase, update) is Ok
            && task.plan_version < i64::MAX && (answer is Some ==> trim(answer->Some_0).len() > 0)
            ==> task_change(task, expected, update, answer) is Ok,
{
}

/// The user's command takes a task on exactly where it is in the phase and has the plan that the user
/// saw, and all points of the phase are done.
pub proof fn law_advance_is_the_users(task: TaskModel, expected: TaskPhase, version: i64)
    ensures
        task_advance(task, expected, version) is Ok <==> {
            &&& task.phase == expected
            &&& task.plan_version == version
            &&& task.phase != TaskPhase::Done
            &&& forall|i: int|
                0 <= i < phase_items(task.todo, task.phase).len() ==> (
                #[trigger] phase_items(task.todo, task.phase)[i]).done
        },
{
    law_finished_means_all_done(phase_items(task.todo, task.phase));
}

/// The phase is reported as completed once, by the update that finishes it; an update that leaves
/// another point to be done next calls for going on.
pub proof fn law_progress_is_reported(before: TaskModel, after: TaskModel)
    ensures
        progress_of(before, after) matches Some(TaskUpdateProgress::Completed(phase)) ==> phase
            == before.phase && !phase_finished(before) && phase_finished(after),
        !phase_finished(before) && phase_finished(after) ==> progress_of(before, after) == Some(
            TaskUpdateProgress::Completed(before.phase),
        ),
        progress_of(before, after) matches Some(TaskUpdateProgress::Continue(phase)) ==> phase
            == before.phase && (phase == TaskPhase::Execution || phase == TaskPhase::Validation)
            && current_point(before, phase) != current_point(after, phase),
        (before.phase == TaskPhase::Execution || before.phase == TaskPhase::Validation)
            && !phase_finished(after) ==> (current_point(before, before.phase) matches Some(earlier)
            ==> (current_point(after, before.phase) matches Some(later) ==> (progress_of(
            before,
            after,
        ) is Some <==> earlier != later))),
        before == after ==> progress_of(before, after) is None,
{
}

/// An update that could not be stored is reported beside what was reported before.
pub proof fn law_refused_update_is_reported(answer: AnswerModel, error: Seq<char>)
    ensures
        refused_update(answer, error).text == answer.text,
        refused_update(answer, error).task_update_warning matches Some(warning) && has_part(
            warning,
            error,
        ) && (answer.task_update_warning matches Some(earlier) ==> earlier.is_prefix_of(warning)),
{
    let warning = refused_update(answer, error).task_update_warning->Some_0;
    let none = Seq::<char>::empty();
    match answer.task_update_warning {
        Some(earlier) => {
            let head = earlier + "; "@ + "TODO не обновлён: "@;
            lemma_middle_part(head, error, none);
            assert(head + error + none =~= warning);
            assert(earlier =~= warning.take(earlier.len() as int));
        },
        None => {
            lemma_middle_part("TODO не обновлён: "@, error, none);
            assert("TODO не обновлён: "@ + error + none =~= warning);
        },
    }
}

/// A task is asked to go on by the names of its phases, with the number of its open points; a plan is
/// shown whole before it is approved.
pub proof fn law_transition_is_explained(task: TaskModel, next: TaskPhase)
    ensures
        has_part(
            transition_text(task, next),
            phase_name(task.phase) + " -> "@ + phase_name(next),
        ),
        has_part(
            transition_text(task, next),
            decimal(open_items(phase_items(task.todo, task.phase))),
        ),
        task.phase == TaskPhase::Planning ==> has_part(
            transition_text(task, next),
            shown_todo(task.todo),
        ),
        completion_text(task.phase) matches Some(text) ==> next_phase(task.phase) is Some
            && has_part(text, phase_name(task.phase)) && has_part(
            text,
            phase_name(next_phase(task.phase)->Some_0),
        ),
        next_phase(task.phase) is Some ==> completion_text(task.phase) is Some,
{
    let names = phase_name(task.phase) + " -> "@ + phase_name(next);
    let count = decimal(open_items(phase_items(task.todo, task.phase)));
    let asked = "? Незавершённых пунктов текущего этапа: "@;
    let head = "Перейти "@ + phase_name(task.phase) + " -> "@ + phase_name(next);
    assert(head =~= "Перейти "@ + names);
    lemma_grown("Перейти "@, names);
    lemma_grown(head, asked);
    lemma_grown(head + asked, count);
    let prompt = head + asked + count;
    assert(has_part(head + asked, names));
    assert(has_part(prompt, names));
    assert(has_part(prompt, count));
    let version = signed_decimal(task.plan_version as int);
    lemma_grown(prompt, "\nУтвердить версию плана "@);
    lemma_grown(prompt + "\nУтвердить версию плана "@, version);
    lemma_grown(prompt + "\nУтвердить версию плана "@ + version, ":\n"@);
    lemma_grown(prompt + "\nУтвердить версию плана "@ + version + ":\n"@, shown_todo(task.todo));
    assert(has_part(prompt + "\nУтвердить версию плана "@, names));
    assert(has_part(prompt + "\nУтвердить версию плана "@, count));
    assert(has_part(prompt + "\nУтвердить версию плана "@ + version, names));
    assert(has_part(prompt + "\nУтвердить версию плана "@ + version, count));
    assert(has_part(prompt + "\nУтвердить версию плана "@ + version + ":\n"@, names));
    assert(has_part(prompt + "\nУтвердить версию плана "@ + version + ":\n"@, count));
    lemma_completion(task.phase);
}

/// The note on a finished phase names it and the one that follows.
proof fn lemma_completion(phase: TaskPhase)
    ensures
        completion_text(phase) matches Some(text) ==> next_phase(phase) is Some && has_part(
            text,
            phase_name(phase),
        ) && has_part(text, phase_name(next_phase(phase)->Some_0)),
{
    if let Some(next) = next_phase(phase) {
        let first = "Все пункты этапа "@ + phase_name(phase);
        let second = first + " завершены. Для перехода к "@;
        lemma_grown("Все пункты этапа "@, phase_name(phase));
        lemma_grown(first, " завершены. Для перехода к "@);
        lemma_grown(second, phase_name(next));
        lemma_grown(second + phase_name(next), " используйте /task next."@);
        assert(has_part(second, phase_name(phase)));
        assert(has_part(second + phase_name(next), phase_name(phase)));
    }
}

/// A new task begins with planning, without an approved plan and without results.
pub proof fn law_new_task_begins_with_planning(id: i64, title: Seq<char>, todo: TodoModel)
    ensures
        fresh_task(id, title, todo).id == id,
        fresh_task(id, title, todo).title == title,
        fresh_task(id, title, todo).todo == todo,
        fresh_task(id, title, todo).phase == TaskPhase::Planning,
        fresh_task(id, title, todo).approved_plan_version is None,
        fresh_task(id, title, todo).results.len() == 0,
{
}

/// The points that an update completes are those that it names and that were still open, in their
/// order.
pub proof fn law_open_points_are_completed(items: Seq<ItemModel>, ids: Seq<u64>)
    ensures
        newly_done(items, ids) == items.filter(
            |item: ItemModel| !item.done && ids.contains(item.id),
        ).map_values(|item: ItemModel| item.id),
    decreases items.len(),
{
    reveal(Seq::filter);
    if items.len() > 0 {
        law_open_points_are_completed(items.drop_last(), ids);
        assert(newly_done(items, ids) =~= items.filter(
            |item: ItemModel| !item.done && ids.contains(item.id),
        ).map_values(|item: ItemModel| item.id));
    }
}

} // verus!
