use lib::session::{session_step, Command, Stage};

fn chars(s: &str) -> Vec<char> {
    s.chars().collect()
}

fn string(v: &[char]) -> String {
    v.iter().collect()
}

fn step(stage: &Stage, answer: &str, count: usize) -> (Stage, Command) {
    session_step(stage, &chars(answer), count)
}

#[test]
fn create_dialog_trims_the_answers() {
    let (s1, c1) = step(&Stage::Menu, "3\n", 2);
    assert!(matches!(s1, Stage::CreateTime) && matches!(c1, Command::Prompt));
    let (s2, c2) = step(&s1, " 18:00 \n", 2);
    assert!(matches!(c2, Command::Prompt));
    let (s3, c3) = step(&s2, "  Cook dinner\n", 2);
    assert!(matches!(s3, Stage::Menu));
    match c3 {
        Command::Create(t, x) => {
            assert_eq!(string(&t), "18:00");
            assert_eq!(string(&x), "Cook dinner");
        }
        _ => panic!("expected a new task"),
    }
}

#[test]
fn unlisted_number_ends_the_session() {
    let (s, c) = step(&Stage::EditNumber, "3", 2);
    assert!(matches!(s, Stage::Ended) && matches!(c, Command::InvalidNumber));
    let (s, c) = step(&Stage::DeleteNumber, "0", 2);
    assert!(matches!(s, Stage::Ended) && matches!(c, Command::InvalidNumber));
    let (s, c) = step(&Stage::CompleteNumber, "x", 2);
    assert!(matches!(s, Stage::Ended) && matches!(c, Command::InvalidNumber));
}

#[test]
fn edit_dialog() {
    let (s, _) = step(&Stage::Menu, "1", 2);
    assert!(matches!(s, Stage::EditNumber));
    let (s, _) = step(&s, "2", 2);
    assert!(matches!(s, Stage::EditField(1)));
    let (s, _) = step(&s, "1", 2);
    assert!(matches!(s, Stage::NewTime(1)));
    let (s, c) = step(&s, " 07:30\n", 2);
    assert!(matches!(s, Stage::Menu));
    match c {
        Command::SetTime(1, t) => assert_eq!(string(&t), "07:30"),
        _ => panic!("expected a time change"),
    }
    let (s, c) = step(&Stage::EditField(0), "5", 2);
    assert!(matches!(s, Stage::Menu) && matches!(c, Command::InvalidField));
}

#[test]
fn delete_and_complete_need_confirmation() {
    let (s, c) = step(&Stage::DeleteConfirm(0), "Так\n", 1);
    assert!(matches!(s, Stage::Menu) && matches!(c, Command::Remove(0)));
    let (s, c) = step(&Stage::DeleteConfirm(0), "Ні", 1);
    assert!(matches!(s, Stage::Menu) && matches!(c, Command::KeepTask));
    let (_, c) = step(&Stage::CompleteConfirm(0), "Так", 1);
    assert!(matches!(c, Command::Complete(0)));
    let (_, c) = step(&Stage::CompleteConfirm(0), "так", 1);
    assert!(matches!(c, Command::Prompt));
}

#[test]
fn menu_export_sign_out_and_invalid() {
    let (s, c) = step(&Stage::Menu, "5", 0);
    assert!(matches!(s, Stage::Menu) && matches!(c, Command::Export));
    let (s, c) = step(&Stage::Menu, "6", 0);
    assert!(matches!(s, Stage::Ended) && matches!(c, Command::SignOut));
    let (s, c) = step(&Stage::Menu, "9", 0);
    assert!(matches!(s, Stage::Menu) && matches!(c, Command::InvalidChoice));
}
