//! The answers the user types at the prompts: menu choices, task numbers,
//! the field to edit, and confirmations.
use vstd::prelude::*;
use crate::text::{
    decimal, lemma_decimal_plain, lemma_parse_decimal, parse_u32, parse_u32_spec, parse_unsigned,
    parse_unsigned_spec, same_text, trim, trim_chars,
};

verus! {

/// The choices of the start menu.
#[derive(Clone, Copy, Debug, PartialEq, Eq, Structural)]
pub enum MainChoice {
    SignIn,
    Register,
    Quit,
    Invalid,
}

/// The choices of the task menu.
#[derive(Clone, Copy, Debug, PartialEq, Eq, Structural)]
pub enum TodoAction {
    EditTask,
    DeleteTask,
    CreateTask,
    CompleteTask,
    ExportTasks,
    SignOut,
    Invalid,
}

/// The fields of a task that can be edited.
#[derive(Clone, Copy, Debug, PartialEq, Eq, Structural)]
pub enum EditField {
    Time,
    Text,
    Invalid,
}

/// The start-menu choice an answer names: the trimmed answer read as a
/// `u32`, 1 to sign in, 2 to register, 3 to quit.
pub open spec fn main_choice_of(input: Seq<char>) -> MainChoice {
    match parse_u32_spec(trim(input)) {
        Some(n) => if n == 1 {
            MainChoice::SignIn
        } else if n == 2 {
            MainChoice::Register
        } else if n == 3 {
            MainChoice::Quit
        } else {
            MainChoice::Invalid
        },
        None => MainChoice::Invalid,
    }
}

/// The task-menu choice an answer names: the trimmed answer read as a
/// `u32`, 1 to 6 in the order of the menu.
pub open spec fn todo_action_of(input: Seq<char>) -> TodoAction {
    match parse_u32_spec(trim(input)) {
        Some(n) => if n == 1 {
            TodoAction::EditTask
        } else if n == 2 {
            TodoAction::DeleteTask
        } else if n == 3 {
            TodoAction::CreateTask
        } else if n == 4 {
            TodoAction::CompleteTask
        } else if n == 5 {
            TodoAction::ExportTasks
        } else if n == 6 {
            TodoAction::SignOut
        } else {
            TodoAction::Invalid
        },
        None => TodoAction::Invalid,
    }
}

/// The task number an answer names: the trimmed answer read as a `usize`,
/// or 0 where it is not one.
pub open spec fn task_number(input: Seq<char>) -> nat {
    match parse_unsigned_spec(trim(input), usize::MAX as nat) {
        Some(n) => n,
        None => 0,
    }
}

/// The field an answer names: exactly `1` for the time, `2` for the text,
/// once trimmed.
pub open spec fn edit_field_of(input: Seq<char>) -> EditField {
    if trim(input) == seq!['1'] {
        EditField::Time
    } else if trim(input) == seq!['2'] {
        EditField::Text
    } else {
        EditField::Invalid
    }
}

/// The word that confirms a deletion or a completion: "Так" (yes).
pub open spec fn yes_word() -> Seq<char> {
    seq!['\u{422}', '\u{430}', '\u{43a}']
}

/// Reads the answer to the start menu.
pub fn main_choice(input: &[char]) -> (r: MainChoice)
    ensures
        r == main_choice_of(input@),
{
    let t = trim_chars(input);
    match parse_u32(t.as_slice()) {
        Some(1) => MainChoice::SignIn,
        Some(2) => MainChoice::Register,
        Some(3) => MainChoice::Quit,
        _ => MainChoice::Invalid,
    }
}

/// Reads the answer to the task menu.
pub fn todo_action(input: &[char]) -> (r: TodoAction)
    ensures
        r == todo_action_of(input@),
{
    let t = trim_chars(input);
    match parse_u32(t.as_slice()) {
        Some(1) => TodoAction::EditTask,
        Some(2) => TodoAction::DeleteTask,
        Some(3) => TodoAction::CreateTask,
        Some(4) => TodoAction::CompleteTask,
        Some(5) => TodoAction::ExportTasks,
        Some(6) => TodoAction::SignOut,
        _ => TodoAction::Invalid,
    }
}

/// Reads a task number among `count` listed tasks and gives the index of
/// the task; a number that is not between 1 and `count` gives none.
pub fn select_task(input: &[char], count: usize) -> (r: Option<usize>)
    ensures
        match r {
            Some(i) => 1 <= task_number(input@) <= count && i == task_number(input@) - 1,
            None => task_number(input@) == 0 || task_number(input@) > count,
        },
{
    let t = trim_chars(input);
    let n: u64 = match parse_unsigned(t.as_slice(), usize::MAX as u64) {
        Some(v) => v,
        None => 0,
    };
    if n == 0 || n > count as u64 {
        None
    } else {
        Some((n - 1) as usize)
    }
}

/// Reads which field of a task to edit.
pub fn edit_field(input: &[char]) -> (r: EditField)
    ensures
        r == edit_field_of(input@),
{
    let t = trim_chars(input);
    let one = vec!['1'];
    let two = vec!['2'];
    assert(one@ =~= seq!['1']);
    assert(two@ =~= seq!['2']);
    if same_text(t.as_slice(), one.as_slice()) {
        EditField::Time
    } else if same_text(t.as_slice(), two.as_slice()) {
        EditField::Text
    } else {
        EditField::Invalid
    }
}

/// Whether an answer confirms: it is "Так" once trimmed.
pub fn is_confirmed(input: &[char]) -> (r: bool)
    ensures
        r == (trim(input@) == yes_word()),
{
    let t = trim_chars(input);
    let yes = vec!['\u{422}', '\u{430}', '\u{43a}'];
    assert(yes@ =~= yes_word());
    same_text(t.as_slice(), yes.as_slice())
}


/// A task number is read from the whole answer: an answer that is the
/// decimal digits of `n`, with white space around, names task `n`.
pub proof fn lemma_task_number_reads_decimal(input: Seq<char>, n: nat)
    requires
        trim(input) == decimal(n),
        n <= usize::MAX,
    ensures
        task_number(input) == n,
{
    lemma_parse_decimal(n, usize::MAX as nat);
}

/// The start menu: the trimmed answer read as a number picks 1 to sign
/// in, 2 to register, 3 to quit; any other answer picks nothing.
pub proof fn lemma_start_menu_items(input: Seq<char>)
    ensures
        parse_u32_spec(trim(input)) == Some(1nat) ==> main_choice_of(input) == MainChoice::SignIn,
        parse_u32_spec(trim(input)) == Some(2nat) ==> main_choice_of(input) == MainChoice::Register,
        parse_u32_spec(trim(input)) == Some(3nat) ==> main_choice_of(input) == MainChoice::Quit,
        (forall|n: nat| 1 <= n <= 3 ==> parse_u32_spec(trim(input)) != Some(n)) ==> main_choice_of(
            input,
        ) == MainChoice::Invalid,
{
}

/// The task menu: the trimmed answer read as a number picks the item of
/// that number, 1 edit, 2 delete, 3 create, 4 complete, 5 export,
/// 6 sign out; any other answer picks nothing.
pub proof fn lemma_task_menu_items(input: Seq<char>)
    ensures
        parse_u32_spec(trim(input)) == Some(1nat) ==> todo_action_of(input) == TodoAction::EditTask,
        parse_u32_spec(trim(input)) == Some(2nat) ==> todo_action_of(input)
            == TodoAction::DeleteTask,
        parse_u32_spec(trim(input)) == Some(3nat) ==> todo_action_of(input)
            == TodoAction::CreateTask,
        parse_u32_spec(trim(input)) == Some(4nat) ==> todo_action_of(input)
            == TodoAction::CompleteTask,
        parse_u32_spec(trim(input)) == Some(5nat) ==> todo_action_of(input)
            == TodoAction::ExportTasks,
        parse_u32_spec(trim(input)) == Some(6nat) ==> todo_action_of(input) == TodoAction::SignOut,
        (forall|n: nat| 1 <= n <= 6 ==> parse_u32_spec(trim(input)) != Some(n)) ==> todo_action_of(
            input,
        ) == TodoAction::Invalid,
{
}

/// The field to edit: the answer `1` is the time, `2` the text, anything
/// else neither.
pub proof fn lemma_edit_field_answers(input: Seq<char>)
    ensures
        trim(input) == seq!['1'] ==> edit_field_of(input) == EditField::Time,
        trim(input) == seq!['2'] ==> edit_field_of(input) == EditField::Text,
        trim(input) != seq!['1'] && trim(input) != seq!['2'] ==> edit_field_of(input)
            == EditField::Invalid,
{
    assert(seq!['2'][0] != seq!['1'][0]);
}


/// The confirmation word is "Так", the three letters Т, а, к.
pub proof fn lemma_yes_word()
    ensures
        yes_word() == seq!['\u{422}', '\u{430}', '\u{43a}'],
        yes_word().len() == 3,
{
}

} // verus!
