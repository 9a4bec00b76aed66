use lib::tasks::{
    last_task_id_of, new_task_row, rewrite_tasks, rows_complete, task_line_chars, task_listing,
    user_tasks, Task, TaskChange,
};

fn chars(s: &str) -> Vec<char> {
    s.chars().collect()
}

fn string(v: &[char]) -> String {
    v.iter().collect()
}

fn lines(text: &[&str]) -> Vec<Vec<char>> {
    text.iter().map(|l| chars(l)).collect()
}

fn strings(v: &[Vec<char>]) -> Vec<String> {
    v.iter().map(|l| string(l)).collect()
}

fn fields(t: &Task) -> [String; 4] {
    [string(&t.id), string(&t.time), string(&t.text), string(&t.status)]
}

fn sample() -> Vec<Vec<char>> {
    lines(&[
        "1,10:00,Buy milk,alice, in progress",
        "2,11:30,Call mom,bob, in progress",
        "short,line",
        "3, 12:00 , Read book , alice ,completed",
    ])
}

#[test]
fn tasks_of_the_signed_in_user() {
    let tasks = user_tasks(&sample(), &chars("alice"));
    assert_eq!(tasks.len(), 2);
    assert_eq!(fields(&tasks[0]), ["1", "10:00", "Buy milk", "in progress"].map(String::from));
    assert_eq!(fields(&tasks[1]), ["3", "12:00", "Read book", "completed"].map(String::from));
    assert_eq!(user_tasks(&sample(), &chars("carol")).len(), 0);
}

#[test]
fn rows_without_status_are_found() {
    let l = lines(&["1,10:00,Buy milk,alice", "2,11:00,Walk,bob, in progress"]);
    assert!(!rows_complete(&l, 3, &chars("alice")));
    assert!(rows_complete(&l, 3, &chars("bob")));
    assert!(!rows_complete(&l, 0, &chars("1")));
    assert!(rows_complete(&l, 0, &chars("2")));
}

#[test]
fn last_task_id_skips_blank_lines() {
    assert_eq!(last_task_id_of(&lines(&[])), 0);
    assert_eq!(last_task_id_of(&lines(&["4,a,b,c, in progress", "  ", ""])), 4);
    assert_eq!(last_task_id_of(&lines(&["4,a,b,c, in progress", "x,a,b,c,d"])), 0);
    assert_eq!(last_task_id_of(&lines(&["9,a", " 5,a,b,c,d"])), 0);
}

#[test]
fn new_task_row_format() {
    let row = new_task_row(&sample(), &chars("18:00"), &chars("Cook dinner"), &chars("alice"));
    assert_eq!(string(&row), "4,18:00,Cook dinner,alice, in progress");
    let row = new_task_row(&Vec::new(), &chars("9"), &chars("x"), &chars("bob"));
    assert_eq!(string(&row), "1,9,x,bob, in progress");
}

#[test]
fn added_task_is_listed() {
    let mut l = sample();
    let row = new_task_row(&l, &chars("18:00"), &chars("Cook dinner"), &chars("alice"));
    l.push(row);
    let tasks = user_tasks(&l, &chars("alice"));
    assert_eq!(tasks.len(), 3);
    assert_eq!(fields(&tasks[2]), ["4", "18:00", "Cook dinner", "in progress"].map(String::from));
    assert_eq!(last_task_id_of(&l), 4);
    assert_eq!(user_tasks(&l, &chars("bob")).len(), 1);
}

#[test]
fn edit_time_rewrites_the_line() {
    let out = rewrite_tasks(&sample(), &chars("1"), &TaskChange::Time(chars("09:15")));
    assert_eq!(
        strings(&out),
        vec![
            "1,09:15,Buy milk,alice, in progress",
            "2,11:30,Call mom,bob, in progress",
            "3, 12:00 , Read book , alice ,completed",
        ]
    );
}

#[test]
fn edit_text_sets_text_and_owner() {
    let out = rewrite_tasks(&sample(), &chars("3"), &TaskChange::Text(chars("Read two books"), chars("alice")));
    assert_eq!(
        strings(&out),
        vec![
            "1,10:00,Buy milk,alice, in progress",
            "2,11:30,Call mom,bob, in progress",
            "3, 12:00 ,Read two books,alice,completed",
        ]
    );
}

#[test]
fn complete_sets_the_status() {
    let out = rewrite_tasks(&sample(), &chars("2"), &TaskChange::Complete);
    assert_eq!(strings(&out)[1], "2,11:30,Call mom,bob,completed");
    let tasks = user_tasks(&out, &chars("bob"));
    assert_eq!(fields(&tasks[0]), ["2", "11:30", "Call mom", "completed"].map(String::from));
}

#[test]
fn remove_drops_the_task() {
    let out = rewrite_tasks(&sample(), &chars("1"), &TaskChange::Remove);
    assert_eq!(
        strings(&out),
        vec!["2,11:30,Call mom,bob, in progress", "3, 12:00 , Read book , alice ,completed"]
    );
    let tasks = user_tasks(&out, &chars("alice"));
    assert_eq!(tasks.len(), 1);
    assert_eq!(string(&tasks[0].id), "3");
}

#[test]
fn rewrite_drops_extra_columns() {
    let l = lines(&["5,a,b,c,d,e"]);
    let out = rewrite_tasks(&l, &chars("5"), &TaskChange::Complete);
    assert_eq!(strings(&out), vec!["5,a,b,c,completed"]);
}

#[test]
fn listing_line_matches_format() {
    let t = Task { id: chars("1"), time: chars("10:00"), text: chars("Buy milk"), status: chars("in progress") };
    let expected = format!("{:<6} {:<8} {}  - {}", 1, "10:00", "Buy milk", "in progress");
    assert_eq!(string(&task_line_chars(1, &t)), expected);
    assert_eq!(string(&task_line_chars(1, &t)), "1      10:00    Buy milk  - in progress");
}

#[test]
fn listing_numbers_from_one() {
    let tasks = user_tasks(&sample(), &chars("alice"));
    let out = task_listing(&tasks);
    assert_eq!(
        strings(&out),
        vec!["1      10:00    Buy milk  - in progress", "2      12:00    Read book  - completed"]
    );
}

#[test]
fn complete_accepts_lines_without_status() {
    let l = lines(&["1,10:00,Buy milk,alice, in progress", "1,11:00,Gym,bob"]);
    let out = rewrite_tasks(&l, &chars("1"), &TaskChange::Complete);
    assert_eq!(strings(&out), vec!["1,10:00,Buy milk,alice,completed", "1,11:00,Gym,bob,completed"]);
}

#[test]
fn task_ids_keep_increasing() {
    let mut l = lines(&["1,a,b,alice, in progress", "4,c,d,bob, in progress"]);
    for _ in 0..3 {
        let before = last_task_id_of(&l);
        let row = new_task_row(&l, &chars("t"), &chars("x"), &chars("alice"));
        l.push(row);
        assert_eq!(last_task_id_of(&l), before + 1);
    }
    assert_eq!(last_task_id_of(&l), 7);
}

#[test]
fn other_users_lines_stay() {
    let l = sample();
    let out = rewrite_tasks(&l, &chars("1"), &TaskChange::Time(chars("08:00")));
    assert!(strings(&out).contains(&"2,11:30,Call mom,bob, in progress".to_string()));
    let out = rewrite_tasks(&l, &chars("3"), &TaskChange::Remove);
    assert_eq!(strings(&out)[1], "2,11:30,Call mom,bob, in progress");
}
