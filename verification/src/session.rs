//! The task session of a signed-in user as a state machine: each answer
//! typed at a prompt moves the session to its next stage and names what
//! is to be done with the task file.
use vstd::prelude::*;
use crate::menu::{
    edit_field, edit_field_of, is_confirmed, lemma_edit_field_answers,
    lemma_task_menu_items, lemma_task_number_reads_decimal, select_task, task_number,
    todo_action, todo_action_of, yes_word, EditField, TodoAction,
};
use crate::text::{decimal, parse_u32_spec, parse_unsigned_spec, trim, trim_chars};

verus! {

/// Where the session stands: the question the next answer replies to.
/// Indices are positions in the list of tasks shown at the task menu.
pub enum Stage {
    /// The task menu.
    Menu,
    /// The number of the task to edit.
    EditNumber,
    /// Which field of the task to edit.
    EditField(usize),
    /// The new time of the task.
    NewTime(usize),
    /// The new text of the task.
    NewText(usize),
    /// The number of the task to delete.
    DeleteNumber,
    /// Whether to delete the task.
    DeleteConfirm(usize),
    /// The time of a new task.
    CreateTime,
    /// The text of a new task with the given (trimmed) time.
    CreateText(Vec<char>),
    /// The number of the task to complete.
    CompleteNumber,
    /// Whether to complete the task.
    CompleteConfirm(usize),
    /// The session is over.
    Ended,
}

/// What is to be done after an answer.
pub enum Command {
    /// Nothing: the next question follows.
    Prompt,
    /// The number names no listed task; the session ends.
    InvalidNumber,
    /// The answer names no field of a task.
    InvalidField,
    /// The answer names no menu item.
    InvalidChoice,
    /// Set the time of the task.
    SetTime(usize, Vec<char>),
    /// Set the text of the task.
    SetText(usize, Vec<char>),
    /// Delete the task.
    Remove(usize),
    /// The deletion was not confirmed.
    KeepTask,
    /// Mark the task as completed.
    Complete(usize),
    /// Add a task with the given time and text.
    Create(Vec<char>, Vec<char>),
    /// Write the listing to the export file.
    Export,
    /// Leave the session.
    SignOut,
}

/// A stage, with text by its characters.
pub enum StageView {
    Menu,
    EditNumber,
    EditField(usize),
    NewTime(usize),
    NewText(usize),
    DeleteNumber,
    DeleteConfirm(usize),
    CreateTime,
    CreateText(Seq<char>),
    CompleteNumber,
    CompleteConfirm(usize),
    Ended,
}

/// A command, with text by its characters.
pub enum CommandView {
    Prompt,
    InvalidNumber,
    InvalidField,
    InvalidChoice,
    SetTime(usize, Seq<char>),
    SetText(usize, Seq<char>),
    Remove(usize),
    KeepTask,
    Complete(usize),
    Create(Seq<char>, Seq<char>),
    Export,
    SignOut,
}

impl View for Stage {
    type V = StageView;

    open spec fn view(&self) -> StageView {
        match self {
            Stage::Menu => StageView::Menu,
            Stage::EditNumber => StageView::EditNumber,
            Stage::EditField(i) => StageView::EditField(*i),
            Stage::NewTime(i) => StageView::NewTime(*i),
            Stage::NewText(i) => StageView::NewText(*i),
            Stage::DeleteNumber => StageView::DeleteNumber,
            Stage::DeleteConfirm(i) => StageView::DeleteConfirm(*i),
            Stage::CreateTime => StageView::CreateTime,
            Stage::CreateText(t) => StageView::CreateText(t@),
            Stage::CompleteNumber => StageView::CompleteNumber,
            Stage::CompleteConfirm(i) => StageView::CompleteConfirm(*i),
            Stage::Ended => StageView::Ended,
        }
    }
}

impl View for Command {
    type V = CommandView;

    open spec fn view(&self) -> CommandView {
        match self {
            Command::Prompt => CommandView::Prompt,
            Command::InvalidNumber => CommandView::InvalidNumber,
            Command::InvalidField => CommandView::InvalidField,
            Command::InvalidChoice => CommandView::InvalidChoice,
            Command::SetTime(i, t) => CommandView::SetTime(*i, t@),
            Command::SetText(i, t) => CommandView::SetText(*i, t@),
            Command::Remove(i) => CommandView::Remove(*i),
            Command::KeepTask => CommandView::KeepTask,
            Command::Complete(i) => CommandView::Complete(*i),
            Command::Create(t, x) => CommandView::Create(t@, x@),
            Command::Export => CommandView::Export,
            Command::SignOut => CommandView::SignOut,
        }
    }
}

/// The stage after a task number: `next` with the index of the task it
/// names, or the end of the session where it names none of the `count`
/// listed tasks.
pub open spec fn after_number(answer: Seq<char>, count: nat, next: spec_fn(usize) -> StageView) -> (
    StageView,
    CommandView,
) {
    let n = task_number(answer);
    if 1 <= n <= count {
        (next((n - 1) as usize), CommandView::Prompt)
    } else {
        (StageView::Ended, CommandView::InvalidNumber)
    }
}

/// One step of the session: the stage and command after `answer`, with
/// `count` tasks listed at the task menu.
pub open spec fn session_step_spec(stage: StageView, answer: Seq<char>, count: nat) -> (
    StageView,
    CommandView,
) {
    match stage {
        StageView::Menu => match todo_action_of(answer) {
            TodoAction::EditTask => (StageView::EditNumber, CommandView::Prompt),
            TodoAction::DeleteTask => (StageView::DeleteNumber, CommandView::Prompt),
            TodoAction::CreateTask => (StageView::CreateTime, CommandView::Prompt),
            TodoAction::CompleteTask => (StageView::CompleteNumber, CommandView::Prompt),
            TodoAction::ExportTasks => (StageView::Menu, CommandView::Export),
            TodoAction::SignOut => (StageView::Ended, CommandView::SignOut),
            TodoAction::Invalid => (StageView::Menu, CommandView::InvalidChoice),
        },
        StageView::EditNumber => after_number(answer, count, |i: usize| StageView::EditField(i)),
        StageView::EditField(i) => match edit_field_of(answer) {
            EditField::Time => (StageView::NewTime(i), CommandView::Prompt),
            EditField::Text => (StageView::NewText(i), CommandView::Prompt),
            EditField::Invalid => (StageView::Menu, CommandView::InvalidField),
        },
        StageView::NewTime(i) => (StageView::Menu, CommandView::SetTime(i, trim(answer))),
        StageView::NewText(i) => (StageView::Menu, CommandView::SetText(i, trim(answer))),
        StageView::DeleteNumber => after_number(
            answer,
            count,
            |i: usize| StageView::DeleteConfirm(i),
        ),
        StageView::DeleteConfirm(i) => if trim(answer) == yes_word() {
            (StageView::Menu, CommandView::Remove(i))
        } else {
            (StageView::Menu, CommandView::KeepTask)
        },
        StageView::CreateTime => (StageView::CreateText(trim(answer)), CommandView::Prompt),
        StageView::CreateText(t) => (StageView::Menu, CommandView::Create(t, trim(answer))),
        StageView::CompleteNumber => after_number(
            answer,
            count,
            |i: usize| StageView::CompleteConfirm(i),
        ),
        StageView::CompleteConfirm(i) => if trim(answer) == yes_word() {
            (StageView::Menu, CommandView::Complete(i))
        } else {
            (StageView::Menu, CommandView::Prompt)
        },
        StageView::Ended => (StageView::Ended, CommandView::Prompt),
    }
}

/// Moves the session on by one answer.
pub fn session_step(stage: &Stage, answer: &[char], count: usize) -> (r: (Stage, Command))
    ensures
        (r.0@, r.1@) == session_step_spec(stage@, answer@, count as nat),
{
    match stage {
        Stage::Menu => match todo_action(answer) {
            TodoAction::EditTask => (Stage::EditNumber, Command::Prompt),
            TodoAction::DeleteTask => (Stage::DeleteNumber, Command::Prompt),
            TodoAction::CreateTask => (Stage::CreateTime, Command::Prompt),
            TodoAction::CompleteTask => (Stage::CompleteNumber, Command::Prompt),
            TodoAction::ExportTasks => (Stage::Menu, Command::Export),
            TodoAction::SignOut => (Stage::Ended, Command::SignOut),
            TodoAction::Invalid => (Stage::Menu, Command::InvalidChoice),
        },
        Stage::EditNumber => match select_task(answer, count) {
            Some(i) => (Stage::EditField(i), Command::Prompt),
            None => (Stage::Ended, Command::InvalidNumber),
        },
        Stage::EditField(i) => match edit_field(answer) {
            EditField::Time => (Stage::NewTime(*i), Command::Prompt),
            EditField::Text => (Stage::NewText(*i), Command::Prompt),
            EditField::Invalid => (Stage::Menu, Command::InvalidField),
        },
        Stage::NewTime(i) => (Stage::Menu, Command::SetTime(*i, trim_chars(answer))),
        Stage::NewText(i) => (Stage::Menu, Command::SetText(*i, trim_chars(answer))),
        Stage::DeleteNumber => match select_task(answer, count) {
            Some(i) => (Stage::DeleteConfirm(i), Command::Prompt),
            None => (Stage::Ended, Command::InvalidNumber),
        },
        Stage::DeleteConfirm(i) => if is_confirmed(answer) {
            (Stage::Menu, Command::Remove(*i))
        } else {
            (Stage::Menu, Command::KeepTask)
        },
        Stage::CreateTime => (Stage::CreateText(trim_chars(answer)), Command::Prompt),
        Stage::CreateText(t) => (
            Stage::Menu,
            Command::Create(vstd::slice::slice_to_vec(t.as_slice()), trim_chars(answer)),
        ),
        Stage::CompleteNumber => match select_task(answer, count) {
            Some(i) => (Stage::CompleteConfirm(i), Command::Prompt),
            None => (Stage::Ended, Command::InvalidNumber),
        },
        Stage::CompleteConfirm(i) => if is_confirmed(answer) {
            (Stage::Menu, Command::Complete(*i))
        } else {
            (Stage::Menu, Command::Prompt)
        },
        Stage::Ended => (Stage::Ended, Command::Prompt),
    }
}


/// Whether the task index a stage holds, if any, is among `count` tasks.
pub open spec fn stage_within(stage: StageView, count: nat) -> bool {
    match stage {
        StageView::EditField(i) => i < count,
        StageView::NewTime(i) => i < count,
        StageView::NewText(i) => i < count,
        StageView::DeleteConfirm(i) => i < count,
        StageView::CompleteConfirm(i) => i < count,
        _ => true,
    }
}

/// Whether the task index a command holds, if any, is among `count` tasks.
pub open spec fn command_within(command: CommandView, count: nat) -> bool {
    match command {
        CommandView::SetTime(i, _t) => i < count,
        CommandView::SetText(i, _t) => i < count,
        CommandView::Remove(i) => i < count,
        CommandView::Complete(i) => i < count,
        _ => true,
    }
}

/// Every task a step names is one of the listed tasks, as long as the
/// stage it starts from names one.
pub proof fn lemma_step_names_listed_tasks(stage: StageView, answer: Seq<char>, count: nat)
    requires
        stage_within(stage, count),
    ensures
        stage_within(session_step_spec(stage, answer, count).0, count),
        command_within(session_step_spec(stage, answer, count).1, count),
{
}

/// The session ends exactly when the user signs out, or names a task
/// number that is not listed, and stays ended.
pub proof fn lemma_session_ends(stage: StageView, answer: Seq<char>, count: nat)
    ensures
        (session_step_spec(stage, answer, count).0 is Ended) <==> (stage is Ended
            || session_step_spec(stage, answer, count).1 is InvalidNumber
            || session_step_spec(stage, answer, count).1 is SignOut),
{
}

/// Creating a task from the menu: the menu choice to create, then a time
/// and a text, come back to the menu with the command to add a task with
/// the trimmed time and the trimmed text.
pub proof fn lemma_create_dialog(
    choice: Seq<char>,
    time: Seq<char>,
    text: Seq<char>,
    count: nat,
)
    requires
        todo_action_of(choice) == TodoAction::CreateTask,
    ensures
        ({
            let s1 = session_step_spec(StageView::Menu, choice, count).0;
            let s2 = session_step_spec(s1, time, count).0;
            session_step_spec(s2, text, count) == (
                StageView::Menu,
                CommandView::Create(trim(time), trim(text)),
            )
        }),
{
}


/// The task menu: the trimmed answer read as a number leads to the
/// question of that item (1 the number of the task to edit, 2 of the task
/// to delete, 3 the time of a new task, 4 the number of the task to
/// complete), 5 exports and stays at the menu, 6 signs out and ends the
/// session; any other answer is refused and the menu is shown again.
pub proof fn lemma_menu_step(answer: Seq<char>, count: nat)
    ensures
        parse_u32_spec(trim(answer)) == Some(1nat) ==> session_step_spec(
            StageView::Menu,
            answer,
            count,
        ) == (StageView::EditNumber, CommandView::Prompt),
        parse_u32_spec(trim(answer)) == Some(2nat) ==> session_step_spec(
            StageView::Menu,
            answer,
            count,
        ) == (StageView::DeleteNumber, CommandView::Prompt),
        parse_u32_spec(trim(answer)) == Some(3nat) ==> session_step_spec(
            StageView::Menu,
            answer,
            count,
        ) == (StageView::CreateTime, CommandView::Prompt),
        parse_u32_spec(trim(answer)) == Some(4nat) ==> session_step_spec(
            StageView::Menu,
            answer,
            count,
        ) == (StageView::CompleteNumber, CommandView::Prompt),
        parse_u32_spec(trim(answer)) == Some(5nat) ==> session_step_spec(
            StageView::Menu,
            answer,
            count,
        ) == (StageView::Menu, CommandView::Export),
        parse_u32_spec(trim(answer)) == Some(6nat) ==> session_step_spec(
            StageView::Menu,
            answer,
            count,
        ) == (StageView::Ended, CommandView::SignOut),
        (forall|n: nat| 1 <= n <= 6 ==> parse_u32_spec(trim(answer)) != Some(n))
            ==> session_step_spec(StageView::Menu, answer, count) == (
            StageView::Menu,
            CommandView::InvalidChoice,
        ),
{
    lemma_task_menu_items(answer);
}

/// Deleting from the menu: the answer 2, then the number `k` of a listed
/// task, then the confirmation "Так" removes task `k` (index `k - 1`);
/// any other last answer keeps it.
pub proof fn lemma_delete_dialog(
    choice: Seq<char>,
    number: Seq<char>,
    confirm: Seq<char>,
    k: nat,
    count: nat,
)
    requires
        parse_u32_spec(trim(choice)) == Some(2nat),
        trim(number) == decimal(k),
        1 <= k <= count,
        count <= usize::MAX,
    ensures
        ({
            let s1 = session_step_spec(StageView::Menu, choice, count).0;
            let s2 = session_step_spec(s1, number, count).0;
            &&& s2 == StageView::DeleteConfirm((k - 1) as usize)
            &&& session_step_spec(s2, confirm, count) == (if trim(confirm) == yes_word() {
                (StageView::Menu, CommandView::Remove((k - 1) as usize))
            } else {
                (StageView::Menu, CommandView::KeepTask)
            })
        }),
{
    lemma_menu_step(choice, count);
    lemma_task_number_reads_decimal(number, k);
}

/// Completing from the menu: the answer 4, then the number `k` of a
/// listed task, then the confirmation "Так" completes task `k` (index
/// `k - 1`); any other last answer does nothing.
pub proof fn lemma_complete_dialog(
    choice: Seq<char>,
    number: Seq<char>,
    confirm: Seq<char>,
    k: nat,
    count: nat,
)
    requires
        parse_u32_spec(trim(choice)) == Some(4nat),
        trim(number) == decimal(k),
        1 <= k <= count,
        count <= usize::MAX,
    ensures
        ({
            let s1 = session_step_spec(StageView::Menu, choice, count).0;
            let s2 = session_step_spec(s1, number, count).0;
            &&& s2 == StageView::CompleteConfirm((k - 1) as usize)
            &&& session_step_spec(s2, confirm, count) == (if trim(confirm) == yes_word() {
                (StageView::Menu, CommandView::Complete((k - 1) as usize))
            } else {
                (StageView::Menu, CommandView::Prompt)
            })
        }),
{
    lemma_menu_step(choice, count);
    lemma_task_number_reads_decimal(number, k);
}

/// Editing from the menu: the answer 1, then the number `k` of a listed
/// task, then `1` and a new time sets the trimmed time of task `k`, or
/// `2` and a new text sets its trimmed text.
pub proof fn lemma_edit_dialog(
    choice: Seq<char>,
    number: Seq<char>,
    field: Seq<char>,
    value: Seq<char>,
    k: nat,
    count: nat,
)
    requires
        parse_u32_spec(trim(choice)) == Some(1nat),
        trim(number) == decimal(k),
        1 <= k <= count,
        count <= usize::MAX,
        trim(field) == seq!['1'] || trim(field) == seq!['2'],
    ensures
        ({
            let s1 = session_step_spec(StageView::Menu, choice, count).0;
            let s2 = session_step_spec(s1, number, count).0;
            let s3 = session_step_spec(s2, field, count).0;
            session_step_spec(s3, value, count) == (if trim(field) == seq!['1'] {
                (StageView::Menu, CommandView::SetTime((k - 1) as usize, trim(value)))
            } else {
                (StageView::Menu, CommandView::SetText((k - 1) as usize, trim(value)))
            })
        }),
{
    lemma_menu_step(choice, count);
    lemma_task_number_reads_decimal(number, k);
    lemma_edit_field_answers(field);
}

/// A task number that names none of the listed tasks (0, a number above
/// the count, or no number) ends the session, whichever dialog asks it.
pub proof fn lemma_unlisted_number_ends(stage: StageView, number: Seq<char>, count: nat)
    requires
        stage is EditNumber || stage is DeleteNumber || stage is CompleteNumber,
        parse_unsigned_spec(trim(number), usize::MAX as nat) matches Some(n) ==> (n == 0 || n
            > count),
    ensures
        session_step_spec(stage, number, count) == (StageView::Ended, CommandView::InvalidNumber),
{
}

} // verus!
