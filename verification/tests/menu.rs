use lib::menu::{edit_field, is_confirmed, main_choice, select_task, todo_action, EditField, MainChoice, TodoAction};

fn chars(s: &str) -> Vec<char> {
    s.chars().collect()
}

#[test]
fn start_menu_choices() {
    assert_eq!(main_choice(&chars("1\n")), MainChoice::SignIn);
    assert_eq!(main_choice(&chars(" 2 ")), MainChoice::Register);
    assert_eq!(main_choice(&chars("+3")), MainChoice::Quit);
    assert_eq!(main_choice(&chars("4")), MainChoice::Invalid);
    assert_eq!(main_choice(&chars("one")), MainChoice::Invalid);
    assert_eq!(main_choice(&chars("")), MainChoice::Invalid);
}

#[test]
fn task_menu_choices() {
    assert_eq!(todo_action(&chars("1\n")), TodoAction::EditTask);
    assert_eq!(todo_action(&chars("2")), TodoAction::DeleteTask);
    assert_eq!(todo_action(&chars("3")), TodoAction::CreateTask);
    assert_eq!(todo_action(&chars("4")), TodoAction::CompleteTask);
    assert_eq!(todo_action(&chars("5")), TodoAction::ExportTasks);
    assert_eq!(todo_action(&chars("06")), TodoAction::SignOut);
    assert_eq!(todo_action(&chars("7")), TodoAction::Invalid);
    assert_eq!(todo_action(&chars("-1")), TodoAction::Invalid);
}

#[test]
fn task_numbers() {
    assert_eq!(select_task(&chars("1\n"), 3), Some(0));
    assert_eq!(select_task(&chars("3"), 3), Some(2));
    assert_eq!(select_task(&chars("4"), 3), None);
    assert_eq!(select_task(&chars("0"), 3), None);
    assert_eq!(select_task(&chars("x"), 3), None);
    assert_eq!(select_task(&chars("1"), 0), None);
    assert_eq!(select_task(&chars("99999999999999999999999"), 3), None);
}

#[test]
fn edit_fields() {
    assert_eq!(edit_field(&chars("1\n")), EditField::Time);
    assert_eq!(edit_field(&chars(" 2")), EditField::Text);
    assert_eq!(edit_field(&chars("+1")), EditField::Invalid);
    assert_eq!(edit_field(&chars("3")), EditField::Invalid);
}

#[test]
fn confirmations() {
    assert!(is_confirmed(&chars("Так\n")));
    assert!(!is_confirmed(&chars("так")));
    assert!(!is_confirmed(&chars("Ні")));
    assert!(!is_confirmed(&chars("")));
}
