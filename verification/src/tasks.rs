//! Tasks: each line of the task file is `id,time,text,owner,status`.
//! The signed-in user sees the tasks whose owner is them; a new task is
//! appended with the next id; editing, completing and removing rewrite
//! the lines that carry a task's id.
use vstd::prelude::*;
use crate::menu::{lemma_task_number_reads_decimal, task_number};
use crate::text::{
    append_chars, comma_free, decimal, decimal_chars, is_white_space, join_columns, join_commas,
    lemma_decimal, lemma_decimal_plain, lemma_parse_decimal, lemma_split_comma_free,
    lemma_split_join, lemma_split_nonempty, lemma_trim_fixed, lemma_trim_part,
    lemma_join_starts_with_first, is_digit, pad_right, pad_right_chars, parse_u32, parse_u32_spec, same_text,
    split_columns, split_commas, strictly_increasing, texts, trim, trim_chars,
};

verus! {

/// A task as the listing shows it: trimmed id, time, text and status.
pub struct Task {
    pub id: Vec<char>,
    pub time: Vec<char>,
    pub text: Vec<char>,
    pub status: Vec<char>,
}

/// The text of a task's four fields.
pub struct TaskView {
    pub id: Seq<char>,
    pub time: Seq<char>,
    pub text: Seq<char>,
    pub status: Seq<char>,
}

impl View for Task {
    type V = TaskView;

    open spec fn view(&self) -> TaskView {
        TaskView { id: self.id@, time: self.time@, text: self.text@, status: self.status@ }
    }
}

/// The views of a sequence of tasks.
pub open spec fn task_views(v: Seq<Task>) -> Seq<TaskView> {
    Seq::new(v.len(), |i: int| v[i]@)
}

/// A change to the lines that carry one task's id.
pub enum TaskChange {
    /// Sets the time column.
    Time(Vec<char>),
    /// Sets the text column, and the owner column to the given user.
    Text(Vec<char>, Vec<char>),
    /// Sets the status column to `completed`.
    Complete,
    /// Removes the lines.
    Remove,
}

/// The status column of a new task (with its leading space).
pub open spec fn in_progress_field() -> Seq<char> {
    seq![' ', 'i', 'n', ' ', 'p', 'r', 'o', 'g', 'r', 'e', 's', 's']
}

/// The status of a task that is not done yet.
pub open spec fn in_progress_status() -> Seq<char> {
    seq!['i', 'n', ' ', 'p', 'r', 'o', 'g', 'r', 'e', 's', 's']
}

/// The status of a task that is done.
pub open spec fn completed_status() -> Seq<char> {
    seq!['c', 'o', 'm', 'p', 'l', 'e', 't', 'e', 'd']
}

/// Whether the columns of a task line name `user` as the owner.
pub open spec fn owned_by(cols: Seq<Seq<char>>, user: Seq<char>) -> bool {
    cols.len() >= 4 && trim(cols[3]) == user
}

/// The task that the columns of a task line describe.
pub open spec fn task_of_columns(cols: Seq<Seq<char>>) -> TaskView {
    TaskView {
        id: trim(cols[0]),
        time: trim(cols[1]),
        text: trim(cols[2]),
        status: trim(cols[4]),
    }
}

/// The tasks of `user`, in the order of their lines.
pub open spec fn tasks_of_user(lines: Seq<Seq<char>>, user: Seq<char>) -> Seq<TaskView>
    decreases lines.len(),
{
    if lines.len() == 0 {
        Seq::<TaskView>::empty()
    } else {
        let rest = tasks_of_user(lines.drop_last(), user);
        let cols = split_commas(lines.last());
        if owned_by(cols, user) {
            rest.push(task_of_columns(cols))
        } else {
            rest
        }
    }
}

/// Whether every line with at least four columns whose trimmed column
/// `column` is `key` also has a fifth column, the status. Reading the
/// tasks of a user, or editing the time or text of a task, takes that
/// column from such lines and fails on a line without it.
pub open spec fn keyed_rows_complete(lines: Seq<Seq<char>>, column: int, key: Seq<char>) -> bool {
    forall|i: int|
        0 <= i < lines.len() ==> {
            let cols = split_commas(#[trigger] lines[i]);
            cols.len() >= 4 && trim(cols[column]) == key ==> cols.len() >= 5
        }
}

/// The line for a new task.
pub open spec fn task_record(id: nat, time: Seq<char>, text: Seq<char>, user: Seq<char>) -> Seq<
    char,
> {
    join_commas(seq![decimal(id), time, text, user, in_progress_field()])
}

/// The id of the last task: the first column of the last line that is not
/// blank, read as a `u32`, or 0 where it is not one or there is no such
/// line.
pub open spec fn last_task_id(lines: Seq<Seq<char>>) -> nat
    decreases lines.len(),
{
    if lines.len() == 0 {
        0
    } else if trim(lines.last()).len() == 0 {
        last_task_id(lines.drop_last())
    } else {
        match parse_u32_spec(split_commas(lines.last())[0]) {
            Some(v) => v,
            None => 0,
        }
    }
}

/// The line that replaces a task line with the given columns.
pub open spec fn changed_row(cols: Seq<Seq<char>>, id: Seq<char>, change: TaskChange) -> Seq<char> {
    match change {
        TaskChange::Time(t) => join_commas(seq![id, t@, cols[2], cols[3], cols[4]]),
        TaskChange::Text(x, owner) => join_commas(seq![id, cols[1], x@, owner@, cols[4]]),
        TaskChange::Complete => join_commas(seq![id, cols[1], cols[2], cols[3], completed_status()]),
        TaskChange::Remove => Seq::<char>::empty(),
    }
}

/// The task lines after a change to the task `id`: lines with fewer than
/// four columns are dropped, lines whose trimmed first column is `id` are
/// replaced (or dropped, for a removal), the others are kept as they are.
pub open spec fn rewrite_lines(lines: Seq<Seq<char>>, id: Seq<char>, change: TaskChange) -> Seq<
    Seq<char>,
>
    decreases lines.len(),
{
    if lines.len() == 0 {
        Seq::<Seq<char>>::empty()
    } else {
        let rest = rewrite_lines(lines.drop_last(), id, change);
        let cols = split_commas(lines.last());
        if cols.len() < 4 {
            rest
        } else if trim(cols[0]) == id {
            if change is Remove {
                rest
            } else {
                rest.push(changed_row(cols, id, change))
            }
        } else {
            rest.push(lines.last())
        }
    }
}

/// A task after a change.
pub open spec fn change_task(t: TaskView, change: TaskChange) -> TaskView {
    match change {
        TaskChange::Time(x) => TaskView { time: trim(x@), ..t },
        TaskChange::Text(x, _owner) => TaskView { text: trim(x@), ..t },
        TaskChange::Complete => TaskView { status: completed_status(), ..t },
        TaskChange::Remove => t,
    }
}

/// A list of tasks after a change to the tasks with id `id`.
pub open spec fn apply_change(tasks: Seq<TaskView>, id: Seq<char>, change: TaskChange) -> Seq<
    TaskView,
>
    decreases tasks.len(),
{
    if tasks.len() == 0 {
        Seq::<TaskView>::empty()
    } else {
        let rest = apply_change(tasks.drop_last(), id, change);
        if tasks.last().id == id {
            if change is Remove {
                rest
            } else {
                rest.push(change_task(tasks.last(), change))
            }
        } else {
            rest.push(tasks.last())
        }
    }
}

/// One line of the task listing: the position padded to six characters,
/// the time padded to eight, the text, and the status after a dash.
pub open spec fn task_line(position: nat, t: TaskView) -> Seq<char> {
    pad_right(decimal(position), 6) + seq![' '] + pad_right(t.time, 8) + seq![' '] + t.text + seq![
        ' ',
        ' ',
        '-',
        ' ',
    ] + t.status
}

/// The lines of the task listing, numbered from 1.
pub open spec fn task_listing_spec(tasks: Seq<TaskView>) -> Seq<Seq<char>> {
    Seq::new(tasks.len(), |i: int| task_line((i + 1) as nat, tasks[i]))
}

/// Checks `keyed_rows_complete` for the column `column` and the key `key`.
pub fn rows_complete(lines: &Vec<Vec<char>>, column: usize, key: &[char]) -> (b: bool)
    requires
        column < 4,
    ensures
        b == keyed_rows_complete(texts(lines@), column as int, key@),
{
    let n = lines.len();
    for i in 0..n
        invariant
            n == lines@.len(),
            column < 4,
            forall|j: int|
                0 <= j < i ==> {
                    let cols = split_commas(#[trigger] texts(lines@)[j]);
                    cols.len() >= 4 && trim(cols[column as int]) == key@ ==> cols.len() >= 5
                },
    {
        assert(texts(lines@)[i as int] == lines@[i as int]@);
        let cols = split_columns(lines[i].as_slice());
        if cols.len() == 4 {
            assert(cols@[column as int]@ == texts(cols@)[column as int]);
            let k = trim_chars(cols[column].as_slice());
            if same_text(k.as_slice(), key) {
                return false;
            }
        }
    }
    true
}

/// The tasks of the signed-in user `user`, in the order of the task lines.
pub fn user_tasks(lines: &Vec<Vec<char>>, user: &[char]) -> (r: Vec<Task>)
    requires
        keyed_rows_complete(texts(lines@), 3, user@),
    ensures
        task_views(r@) == tasks_of_user(texts(lines@), user@),
{
    let n = lines.len();
    let mut r: Vec<Task> = Vec::new();
    assert(texts(lines@).take(0) =~= Seq::<Seq<char>>::empty());
    assert(task_views(r@) =~= Seq::<TaskView>::empty());
    for i in 0..n
        invariant
            n == lines@.len(),
            keyed_rows_complete(texts(lines@), 3, user@),
            task_views(r@) == tasks_of_user(texts(lines@).take(i as int), user@),
    {
        let ghost t = texts(lines@).take(i + 1);
        assert(t.drop_last() =~= texts(lines@).take(i as int));
        assert(t.last() == texts(lines@)[i as int]);
        assert(texts(lines@)[i as int] == lines@[i as int]@);
        let cols = split_columns(lines[i].as_slice());
        if cols.len() >= 4 {
            assert(cols@[3]@ == texts(cols@)[3]);
            let owner = trim_chars(cols[3].as_slice());
            if same_text(owner.as_slice(), user) {
                assert(cols@[0]@ == texts(cols@)[0]);
                assert(cols@[1]@ == texts(cols@)[1]);
                assert(cols@[2]@ == texts(cols@)[2]);
                assert(cols@[4]@ == texts(cols@)[4]);
                let task = Task {
                    id: trim_chars(cols[0].as_slice()),
                    time: trim_chars(cols[1].as_slice()),
                    text: trim_chars(cols[2].as_slice()),
                    status: trim_chars(cols[4].as_slice()),
                };
                let ghost before = task_views(r@);
                r.push(task);
                assert(task_views(r@) =~= before.push(task_of_columns(split_commas(t.last()))));
            }
        }
        assert(task_views(r@) == tasks_of_user(t, user@));
    }
    assert(texts(lines@).take(n as int) =~= texts(lines@));
    r
}


/// The id of the last task, as `last_task_id` gives it.
pub fn last_task_id_of(lines: &Vec<Vec<char>>) -> (r: u32)
    ensures
        r as nat == last_task_id(texts(lines@)),
{
    let n = lines.len();
    let mut id: u32 = 0;
    assert(texts(lines@).take(0) =~= Seq::<Seq<char>>::empty());
    for i in 0..n
        invariant
            n == lines@.len(),
            id as nat == last_task_id(texts(lines@).take(i as int)),
    {
        let ghost t = texts(lines@).take(i + 1);
        assert(t.drop_last() =~= texts(lines@).take(i as int));
        assert(t.last() == texts(lines@)[i as int]);
        assert(texts(lines@)[i as int] == lines@[i as int]@);
        let trimmed = trim_chars(lines[i].as_slice());
        if trimmed.len() > 0 {
            let cols = split_columns(lines[i].as_slice());
            proof {
                lemma_split_nonempty(lines@[i as int]@);
            }
            assert(cols@[0]@ == texts(cols@)[0]);
            id = match parse_u32(cols[0].as_slice()) {
                Some(v) => v,
                None => 0,
            };
        }
    }
    assert(texts(lines@).take(n as int) =~= texts(lines@));
    id
}

/// The status column of a new task.
fn in_progress_chars() -> (r: Vec<char>)
    ensures
        r@ == in_progress_field(),
{
    let r = vec![' ', 'i', 'n', ' ', 'p', 'r', 'o', 'g', 'r', 'e', 's', 's'];
    assert(r@ =~= in_progress_field());
    r
}

/// The status of a task that is done.
fn completed_chars() -> (r: Vec<char>)
    ensures
        r@ == completed_status(),
{
    let r = vec!['c', 'o', 'm', 'p', 'l', 'e', 't', 'e', 'd'];
    assert(r@ =~= completed_status());
    r
}

/// The line for a new task of `user`: the id after the last task's, the
/// time, the text, the user and the status `in progress`.
pub fn new_task_row(lines: &Vec<Vec<char>>, time: &[char], text: &[char], user: &[char]) -> (r:
    Vec<char>)
    requires
        last_task_id(texts(lines@)) < u32::MAX,
    ensures
        r@ == task_record(last_task_id(texts(lines@)) + 1, time@, text@, user@),
{
    let last = last_task_id_of(lines);
    let id: u32 = last + 1;
    let mut cols: Vec<Vec<char>> = Vec::new();
    cols.push(decimal_chars(id as u64));
    cols.push(vstd::slice::slice_to_vec(time));
    cols.push(vstd::slice::slice_to_vec(text));
    cols.push(vstd::slice::slice_to_vec(user));
    cols.push(in_progress_chars());
    assert(texts(cols@) =~= seq![decimal(id as nat), time@, text@, user@, in_progress_field()]);
    join_columns(&cols)
}

/// Builds a line from five columns.
fn join_five(a: Vec<char>, b: Vec<char>, c: Vec<char>, d: Vec<char>, e: Vec<char>) -> (r: Vec<char>)
    ensures
        r@ == join_commas(seq![a@, b@, c@, d@, e@]),
{
    let ghost g = seq![a@, b@, c@, d@, e@];
    let mut cols: Vec<Vec<char>> = Vec::new();
    cols.push(a);
    cols.push(b);
    cols.push(c);
    cols.push(d);
    cols.push(e);
    assert(texts(cols@) =~= g);
    join_columns(&cols)
}

/// Rewrites the task lines for a change to the task `id`, as
/// `rewrite_lines` says.
pub fn rewrite_tasks(lines: &Vec<Vec<char>>, id: &[char], change: &TaskChange) -> (r: Vec<
    Vec<char>,
>)
    requires
        (change is Time || change is Text) ==> keyed_rows_complete(texts(lines@), 0, id@),
    ensures
        texts(r@) == rewrite_lines(texts(lines@), id@, *change),
{
    let n = lines.len();
    let mut r: Vec<Vec<char>> = Vec::new();
    assert(texts(lines@).take(0) =~= Seq::<Seq<char>>::empty());
    assert(texts(r@) =~= Seq::<Seq<char>>::empty());
    for i in 0..n
        invariant
            n == lines@.len(),
            (change is Time || change is Text) ==> keyed_rows_complete(texts(lines@), 0, id@),
            texts(r@) == rewrite_lines(texts(lines@).take(i as int), id@, *change),
    {
        let ghost t = texts(lines@).take(i + 1);
        let ghost before = texts(r@);
        assert(t.drop_last() =~= texts(lines@).take(i as int));
        assert(t.last() == texts(lines@)[i as int]);
        assert(texts(lines@)[i as int] == lines@[i as int]@);
        let cols = split_columns(lines[i].as_slice());
        if cols.len() >= 4 {
            assert(cols@[0]@ == texts(cols@)[0]);
            let key = trim_chars(cols[0].as_slice());
            if same_text(key.as_slice(), id) {
                assert(cols@[1]@ == texts(cols@)[1]);
                assert(cols@[2]@ == texts(cols@)[2]);
                assert(cols@[3]@ == texts(cols@)[3]);
                match change {
                    TaskChange::Remove => {},
                    TaskChange::Time(new_time) => {
                        assert(cols@[4]@ == texts(cols@)[4]);
                        let row = join_five(
                            vstd::slice::slice_to_vec(id),
                            vstd::slice::slice_to_vec(new_time.as_slice()),
                            vstd::slice::slice_to_vec(cols[2].as_slice()),
                            vstd::slice::slice_to_vec(cols[3].as_slice()),
                            vstd::slice::slice_to_vec(cols[4].as_slice()),
                        );
                        r.push(row);
                        assert(texts(r@) =~= before.push(changed_row(split_commas(t.last()), id@, *change)));
                    },
                    TaskChange::Text(new_text, owner) => {
                        assert(cols@[4]@ == texts(cols@)[4]);
                        let row = join_five(
                            vstd::slice::slice_to_vec(id),
                            vstd::slice::slice_to_vec(cols[1].as_slice()),
                            vstd::slice::slice_to_vec(new_text.as_slice()),
                            vstd::slice::slice_to_vec(owner.as_slice()),
                            vstd::slice::slice_to_vec(cols[4].as_slice()),
                        );
                        r.push(row);
                        assert(texts(r@) =~= before.push(changed_row(split_commas(t.last()), id@, *change)));
                    },
                    TaskChange::Complete => {
                        let row = join_five(
                            vstd::slice::slice_to_vec(id),
                            vstd::slice::slice_to_vec(cols[1].as_slice()),
                            vstd::slice::slice_to_vec(cols[2].as_slice()),
                            vstd::slice::slice_to_vec(cols[3].as_slice()),
                            completed_chars(),
                        );
                        r.push(row);
                        assert(texts(r@) =~= before.push(changed_row(split_commas(t.last()), id@, *change)));
                    },
                }
            } else {
                r.push(vstd::slice::slice_to_vec(lines[i].as_slice()));
                assert(texts(r@) =~= before.push(t.last()));
            }
        }
        assert(texts(r@) == rewrite_lines(t, id@, *change));
    }
    assert(texts(lines@).take(n as int) =~= texts(lines@));
    r
}

/// One line of the task listing, as `task_line` says.
pub fn task_line_chars(position: u64, task: &Task) -> (r: Vec<char>)
    ensures
        r@ == task_line(position as nat, task@),
{
    let num = decimal_chars(position);
    let mut r = pad_right_chars(num.as_slice(), 6);
    r.push(' ');
    let time = pad_right_chars(task.time.as_slice(), 8);
    append_chars(&mut r, time.as_slice());
    r.push(' ');
    append_chars(&mut r, task.text.as_slice());
    r.push(' ');
    r.push(' ');
    r.push('-');
    r.push(' ');
    append_chars(&mut r, task.status.as_slice());
    assert(r@ =~= task_line(position as nat, task@));
    r
}

/// The lines of the task listing, numbered from 1.
pub fn task_listing(tasks: &Vec<Task>) -> (r: Vec<Vec<char>>)
    ensures
        texts(r@) == task_listing_spec(task_views(tasks@)),
{
    let n = tasks.len();
    let mut r: Vec<Vec<char>> = Vec::new();
    for i in 0..n
        invariant
            n == tasks@.len(),
            texts(r@) == task_listing_spec(task_views(tasks@)).take(i as int),
    {
        let ghost before = texts(r@);
        let line = task_line_chars(i as u64 + 1, &tasks[i]);
        assert(task_views(tasks@)[i as int] == tasks@[i as int]@);
        assert(line@ == task_listing_spec(task_views(tasks@))[i as int]);
        let ghost lv = line@;
        r.push(line);
        assert(texts(r@) =~= before.push(lv));
        assert(texts(r@) =~= task_listing_spec(task_views(tasks@)).take(i + 1));
    }
    assert(task_listing_spec(task_views(tasks@)).take(n as int) =~= task_listing_spec(task_views(tasks@)));
    r
}


/// The fixed status texts hold no comma, and trimming gives the statuses.
proof fn lemma_status_texts()
    ensures
        comma_free(in_progress_field()),
        trim(in_progress_field()) == in_progress_status(),
        comma_free(completed_status()),
        trim(completed_status()) == completed_status(),
{
    let f = in_progress_field();
    let s = in_progress_status();
    assert forall|c: char| f.contains(c) implies c != ',' by {
        let i = choose|i: int| 0 <= i < f.len() && f[i] == c;
    }
    let d = completed_status();
    assert forall|c: char| d.contains(c) implies c != ',' by {
        let i = choose|i: int| 0 <= i < d.len() && d[i] == c;
    }
    assert(is_white_space(f[0]));
    assert(f.drop_first() =~= s);
    lemma_trim_fixed(s);
    lemma_trim_fixed(d);
}

/// The columns of a new task line, when its fields hold no comma.
proof fn lemma_task_record_columns(id: nat, time: Seq<char>, text: Seq<char>, user: Seq<char>)
    requires
        comma_free(time),
        comma_free(text),
        comma_free(user),
    ensures
        split_commas(task_record(id, time, text, user)) == seq![
            decimal(id),
            time,
            text,
            user,
            in_progress_field(),
        ],
{
    lemma_decimal_plain(id);
    lemma_status_texts();
    let cols = seq![decimal(id), time, text, user, in_progress_field()];
    assert forall|k: int| 0 <= k < cols.len() implies comma_free(#[trigger] cols[k]) by {
        if k == 0 {
            assert(cols[k] == decimal(id));
        }
    }
    lemma_split_join(cols);
}

/// The tasks of a user after one more line: the task of the line joins
/// the end of the list where the line names the user as its owner, and
/// the list stays as it was otherwise.
pub proof fn lemma_tasks_push(lines: Seq<Seq<char>>, line: Seq<char>, user: Seq<char>)
    ensures
        tasks_of_user(lines.push(line), user) == (if owned_by(split_commas(line), user) {
            tasks_of_user(lines, user).push(task_of_columns(split_commas(line)))
        } else {
            tasks_of_user(lines, user)
        }),
{
    assert(lines.push(line).drop_last() =~= lines);
}

/// Adding a task and then listing: the new task of `user` (trimmed, with
/// fields free of commas) is listed last, with its id, trimmed time and
/// text and the status `in progress`; no other user's listing changes.
pub proof fn lemma_new_task_listed(
    lines: Seq<Seq<char>>,
    id: nat,
    time: Seq<char>,
    text: Seq<char>,
    user: Seq<char>,
)
    requires
        comma_free(time),
        comma_free(text),
        comma_free(user),
        trim(user) == user,
    ensures
        tasks_of_user(lines.push(task_record(id, time, text, user)), user) == tasks_of_user(
            lines,
            user,
        ).push(
            TaskView {
                id: decimal(id),
                time: trim(time),
                text: trim(text),
                status: in_progress_status(),
            },
        ),
        forall|other: Seq<char>|
            other != user ==> #[trigger] tasks_of_user(
                lines.push(task_record(id, time, text, user)),
                other,
            ) == tasks_of_user(lines, other),
{
    let rec = task_record(id, time, text, user);
    lemma_task_record_columns(id, time, text, user);
    lemma_decimal_plain(id);
    lemma_status_texts();
    lemma_tasks_push(lines, rec, user);
    assert forall|other: Seq<char>| other != user implies #[trigger] tasks_of_user(
        lines.push(rec),
        other,
    ) == tasks_of_user(lines, other) by {
        lemma_tasks_push(lines, rec, other);
    }
}

/// Adding a task line keeps every task line complete.
pub proof fn lemma_new_task_keeps_rows_complete(
    lines: Seq<Seq<char>>,
    id: nat,
    time: Seq<char>,
    text: Seq<char>,
    user: Seq<char>,
    column: int,
    key: Seq<char>,
)
    requires
        comma_free(time),
        comma_free(text),
        comma_free(user),
        keyed_rows_complete(lines, column, key),
    ensures
        keyed_rows_complete(lines.push(task_record(id, time, text, user)), column, key),
{
    let rec = task_record(id, time, text, user);
    lemma_task_record_columns(id, time, text, user);
    let all = lines.push(rec);
    assert forall|i: int| 0 <= i < all.len() implies {
        let cols = split_commas(#[trigger] all[i]);
        cols.len() >= 4 && trim(cols[column]) == key ==> cols.len() >= 5
    } by {
        if i < lines.len() {
            assert(all[i] == lines[i]);
        }
    }
}

/// A new task line is not blank and its first column reads back as its id.
proof fn lemma_task_record_read_back(id: nat, time: Seq<char>, text: Seq<char>, user: Seq<char>)
    requires
        id <= u32::MAX,
        comma_free(time),
        comma_free(text),
        comma_free(user),
    ensures
        trim(task_record(id, time, text, user)).len() > 0,
        parse_u32_spec(split_commas(task_record(id, time, text, user))[0]) == Some(id),
{
    let rec = task_record(id, time, text, user);
    let cols = seq![decimal(id), time, text, user, in_progress_field()];
    lemma_task_record_columns(id, time, text, user);
    lemma_decimal(id);
    lemma_parse_decimal(id, u32::MAX as nat);
    lemma_join_starts_with_first(cols);
    assert(cols[0] == decimal(id));
    assert(rec[0] == decimal(id)[0]);
    assert(is_digit(decimal(id)[0]));
    lemma_trim_part(rec);
}

/// Task ids run on: after a task line is added with an id that fits a
/// `u32`, that id is the last task id, so the next task gets one more.
pub proof fn lemma_new_task_id_is_last(
    lines: Seq<Seq<char>>,
    id: nat,
    time: Seq<char>,
    text: Seq<char>,
    user: Seq<char>,
)
    requires
        id <= u32::MAX,
        comma_free(time),
        comma_free(text),
        comma_free(user),
    ensures
        last_task_id(lines.push(task_record(id, time, text, user))) == id,
{
    let rec = task_record(id, time, text, user);
    lemma_task_record_read_back(id, time, text, user);
    assert(lines.push(rec).drop_last() =~= lines);
    assert(lines.push(rec).last() == rec);
}

/// The ids of the task lines that are not blank and whose first column
/// reads as a `u32`, in the order of the lines.
pub open spec fn task_ids(lines: Seq<Seq<char>>) -> Seq<nat>
    decreases lines.len(),
{
    if lines.len() == 0 {
        Seq::<nat>::empty()
    } else {
        let rest = task_ids(lines.drop_last());
        if trim(lines.last()).len() == 0 {
            rest
        } else {
            match parse_u32_spec(split_commas(lines.last())[0]) {
                Some(v) => rest.push(v),
                None => rest,
            }
        }
    }
}

/// Whether every task line that is not blank begins with an id that reads
/// as a `u32`.
pub open spec fn task_ids_well_formed(lines: Seq<Seq<char>>) -> bool {
    forall|i: int|
        0 <= i < lines.len() && trim(#[trigger] lines[i]).len() > 0 ==> parse_u32_spec(
            split_commas(lines[i])[0],
        ) is Some
}

/// In a well-formed task file the last task id is the last of the ids,
/// or 0 where there is none.
proof fn lemma_last_task_id_is_last_id(lines: Seq<Seq<char>>)
    requires
        task_ids_well_formed(lines),
    ensures
        last_task_id(lines) == (if task_ids(lines).len() == 0 {
            0
        } else {
            task_ids(lines).last()
        }),
    decreases lines.len(),
{
    if lines.len() > 0 {
        let p = lines.drop_last();
        assert(task_ids_well_formed(p)) by {
            assert forall|i: int| 0 <= i < p.len() && trim(#[trigger] p[i]).len() > 0 implies parse_u32_spec(
                split_commas(p[i])[0],
            ) is Some by {
                assert(p[i] == lines[i]);
            }
        }
        lemma_last_task_id_is_last_id(p);
        assert(lines[lines.len() - 1] == lines.last());
    }
}

/// Task ids keep increasing: in a well-formed task file whose ids
/// strictly increase, the line for a new task gets an id above every id
/// there, and the ids still strictly increase afterwards.
pub proof fn lemma_task_ids_increase(
    lines: Seq<Seq<char>>,
    time: Seq<char>,
    text: Seq<char>,
    user: Seq<char>,
)
    requires
        comma_free(time),
        comma_free(text),
        comma_free(user),
        task_ids_well_formed(lines),
        strictly_increasing(task_ids(lines)),
        last_task_id(lines) < u32::MAX,
    ensures
        forall|k: int|
            0 <= k < task_ids(lines).len() ==> #[trigger] task_ids(lines)[k] < last_task_id(lines)
                + 1,
        task_ids(lines.push(task_record((last_task_id(lines) + 1) as nat, time, text, user)))
            == task_ids(lines).push((last_task_id(lines) + 1) as nat),
        task_ids_well_formed(
            lines.push(task_record((last_task_id(lines) + 1) as nat, time, text, user)),
        ),
        strictly_increasing(
            task_ids(lines.push(task_record((last_task_id(lines) + 1) as nat, time, text, user))),
        ),
{
    let id = (last_task_id(lines) + 1) as nat;
    let rec = task_record(id, time, text, user);
    let all = lines.push(rec);
    let ids = task_ids(lines);
    lemma_last_task_id_is_last_id(lines);
    lemma_task_record_read_back(id, time, text, user);
    assert(all.drop_last() =~= lines);
    assert(all.last() == rec);
    assert forall|k: int| 0 <= k < ids.len() implies #[trigger] ids[k] < id by {
        if k < ids.len() - 1 {
            assert(ids[k] < ids[ids.len() - 1]);
        }
    }
    assert forall|i: int| 0 <= i < all.len() && trim(#[trigger] all[i]).len() > 0 implies parse_u32_spec(
        split_commas(all[i])[0],
    ) is Some by {
        if i < lines.len() {
            assert(all[i] == lines[i]);
        }
    }
    let ids2 = ids.push(id);
    assert forall|i: int, j: int| 0 <= i < j < ids2.len() implies ids2[i] < ids2[j] by {
        if j < ids.len() {
            assert(ids2[i] == ids[i] && ids2[j] == ids[j]);
        } else {
            assert(ids2[i] == ids[i]);
        }
    }
}

/// The task lines of users other than `user`: the lines with at least
/// four columns whose trimmed owner column is not `user`, in order.
pub open spec fn lines_of_others(lines: Seq<Seq<char>>, user: Seq<char>) -> Seq<Seq<char>>
    decreases lines.len(),
{
    if lines.len() == 0 {
        Seq::<Seq<char>>::empty()
    } else {
        let rest = lines_of_others(lines.drop_last(), user);
        let cols = split_commas(lines.last());
        if cols.len() >= 4 && trim(cols[3]) != user {
            rest.push(lines.last())
        } else {
            rest
        }
    }
}

/// The lines of others after one more line.
proof fn lemma_others_push(lines: Seq<Seq<char>>, line: Seq<char>, user: Seq<char>)
    ensures
        lines_of_others(lines.push(line), user) == (if split_commas(line).len() >= 4 && trim(
            split_commas(line)[3],
        ) != user {
            lines_of_others(lines, user).push(line)
        } else {
            lines_of_others(lines, user)
        }),
{
    assert(lines.push(line).drop_last() =~= lines);
}

/// Adding a task of `user` leaves every line of every other user as it
/// was, in the same order.
pub proof fn lemma_new_task_leaves_others(
    lines: Seq<Seq<char>>,
    id: nat,
    time: Seq<char>,
    text: Seq<char>,
    user: Seq<char>,
)
    requires
        comma_free(time),
        comma_free(text),
        comma_free(user),
        trim(user) == user,
    ensures
        lines_of_others(lines.push(task_record(id, time, text, user)), user) == lines_of_others(
            lines,
            user,
        ),
{
    let rec = task_record(id, time, text, user);
    lemma_task_record_columns(id, time, text, user);
    lemma_others_push(lines, rec, user);
}

/// Whether every task line with the id `id` names `owner` as its owner.
pub open spec fn id_rows_owned_by(lines: Seq<Seq<char>>, id: Seq<char>, owner: Seq<char>) -> bool {
    forall|i: int|
        0 <= i < lines.len() ==> {
            let cols = split_commas(#[trigger] lines[i]);
            cols.len() >= 4 && trim(cols[0]) == id ==> trim(cols[3]) == owner
        }
}

/// The conditions under which rewriting the task lines is the same as
/// changing the listed tasks: the id is trimmed and free of commas, the
/// lines with the id have a status column where an edit keeps it, new
/// values hold no comma, and a new owner is the one the lines already
/// name.
pub open spec fn change_fits(lines: Seq<Seq<char>>, id: Seq<char>, change: TaskChange) -> bool {
    &&& trim(id) == id
    &&& comma_free(id)
    &&& ((change is Time || change is Text) ==> keyed_rows_complete(lines, 0, id))
    &&& match change {
        TaskChange::Time(x) => comma_free(x@),
        TaskChange::Text(x, owner) => comma_free(x@) && comma_free(owner@) && id_rows_owned_by(
            lines,
            id,
            trim(owner@),
        ),
        _ => true,
    }
}

/// What a rewritten task line reads as.
proof fn lemma_changed_row(cols: Seq<Seq<char>>, id: Seq<char>, change: TaskChange, user: Seq<char>)
    requires
        cols.len() >= 5 || (cols.len() >= 4 && change is Complete),
        forall|k: int| 0 <= k < cols.len() ==> comma_free(#[trigger] cols[k]),
        trim(cols[0]) == id,
        trim(id) == id,
        comma_free(id),
        !(change is Remove),
        change matches TaskChange::Time(x) ==> comma_free(x@),
        change matches TaskChange::Text(x, owner) ==> comma_free(x@) && comma_free(owner@) && trim(
            cols[3],
        ) == trim(owner@),
    ensures
        owned_by(split_commas(changed_row(cols, id, change)), user) == owned_by(cols, user),
        task_of_columns(split_commas(changed_row(cols, id, change))) == change_task(
            task_of_columns(cols),
            change,
        ),
{
    lemma_status_texts();
    let nc = match change {
        TaskChange::Time(t) => seq![id, t@, cols[2], cols[3], cols[4]],
        TaskChange::Text(x, owner) => seq![id, cols[1], x@, owner@, cols[4]],
        _ => seq![id, cols[1], cols[2], cols[3], completed_status()],
    };
    assert(changed_row(cols, id, change) == join_commas(nc));
    assert forall|k: int| 0 <= k < nc.len() implies comma_free(#[trigger] nc[k]) by {
        assert(comma_free(cols[1]));
        assert(comma_free(cols[2]));
        assert(comma_free(cols[3]));
        if !(change is Complete) {
            assert(comma_free(cols[4]));
        }
    }
    lemma_split_join(nc);
}

/// Rewriting the task lines for a change to a task is the same, for the
/// listing of any user, as applying the change to the listed tasks with
/// that id; a removal leaves none of them.
pub proof fn lemma_rewrite_is_change(
    lines: Seq<Seq<char>>,
    id: Seq<char>,
    change: TaskChange,
    user: Seq<char>,
)
    requires
        change_fits(lines, id, change),
    ensures
        tasks_of_user(rewrite_lines(lines, id, change), user) == apply_change(
            tasks_of_user(lines, user),
            id,
            change,
        ),
    decreases lines.len(),
{
    if lines.len() > 0 {
        let p = lines.drop_last();
        let line = lines.last();
        let cols = split_commas(line);
        assert(change_fits(p, id, change)) by {
            if change is Time || change is Text {
                assert forall|i: int| 0 <= i < p.len() implies {
                    let c = split_commas(#[trigger] p[i]);
                    c.len() >= 4 && trim(c[0]) == id ==> c.len() >= 5
                } by {
                    assert(p[i] == lines[i]);
                }
            }
            if change is Text {
                assert forall|i: int| 0 <= i < p.len() implies {
                    let c = split_commas(#[trigger] p[i]);
                    c.len() >= 4 && trim(c[0]) == id ==> trim(c[3]) == trim(change->Text_1@)
                } by {
                    assert(p[i] == lines[i]);
                }
            }
        }
        lemma_rewrite_is_change(p, id, change, user);
        let r = rewrite_lines(p, id, change);
        let t = tasks_of_user(p, user);
        assert(lines == p.push(line));
        lemma_tasks_push(p, line, user);
        if cols.len() >= 4 {
            if owned_by(cols, user) {
                let tk = task_of_columns(cols);
                assert(t.push(tk).drop_last() =~= t);
                assert(t.push(tk).last() == tk);
            }
            if trim(cols[0]) == id {
                if !(change is Remove) {
                    assert(lines[lines.len() - 1] == line);
                    lemma_split_comma_free(line);
                    lemma_changed_row(cols, id, change, user);
                    lemma_tasks_push(r, changed_row(cols, id, change), user);
                }
            } else {
                lemma_tasks_push(r, line, user);
            }
        }
    }
}

/// After a removal, no listed task has the removed id.
pub proof fn lemma_removed_task_gone(tasks: Seq<TaskView>, id: Seq<char>)
    ensures
        forall|k: int|
            0 <= k < apply_change(tasks, id, TaskChange::Remove).len() ==> (#[trigger] apply_change(
                tasks,
                id,
                TaskChange::Remove,
            )[k]).id != id,
    decreases tasks.len(),
{
    if tasks.len() > 0 {
        lemma_removed_task_gone(tasks.drop_last(), id);
        let rest = apply_change(tasks.drop_last(), id, TaskChange::Remove);
        let all = apply_change(tasks, id, TaskChange::Remove);
        assert forall|k: int| 0 <= k < all.len() implies (#[trigger] all[k]).id != id by {
            if k < rest.len() {
                assert(all[k] == rest[k]);
            }
        }
    }
}


/// A change that `user` makes to one of their own tasks (every line with
/// the id is theirs, and a new owner is `user`) leaves every line of every
/// other user as it was, in the same order.
pub proof fn lemma_change_leaves_others(
    lines: Seq<Seq<char>>,
    id: Seq<char>,
    change: TaskChange,
    user: Seq<char>,
)
    requires
        change_fits(lines, id, change),
        id_rows_owned_by(lines, id, user),
        change matches TaskChange::Text(_x, owner) ==> trim(owner@) == user,
    ensures
        lines_of_others(rewrite_lines(lines, id, change), user) == lines_of_others(lines, user),
    decreases lines.len(),
{
    if lines.len() > 0 {
        let p = lines.drop_last();
        let line = lines.last();
        let cols = split_commas(line);
        assert(change_fits(p, id, change) && id_rows_owned_by(p, id, user)) by {
            assert forall|i: int| 0 <= i < p.len() implies {
                let c = split_commas(#[trigger] p[i]);
                c.len() >= 4 && trim(c[0]) == id ==> trim(c[3]) == user
            } by {
                assert(p[i] == lines[i]);
            }
            if change is Time || change is Text {
                assert forall|i: int| 0 <= i < p.len() implies {
                    let c = split_commas(#[trigger] p[i]);
                    c.len() >= 4 && trim(c[0]) == id ==> c.len() >= 5
                } by {
                    assert(p[i] == lines[i]);
                }
            }
            if change is Text {
                assert forall|i: int| 0 <= i < p.len() implies {
                    let c = split_commas(#[trigger] p[i]);
                    c.len() >= 4 && trim(c[0]) == id ==> trim(c[3]) == trim(change->Text_1@)
                } by {
                    assert(p[i] == lines[i]);
                }
            }
        }
        lemma_change_leaves_others(p, id, change, user);
        let r = rewrite_lines(p, id, change);
        assert(lines == p.push(line));
        lemma_others_push(p, line, user);
        assert(lines[lines.len() - 1] == line);
        if cols.len() >= 4 {
            if trim(cols[0]) == id {
                if !(change is Remove) {
                    lemma_split_comma_free(line);
                    lemma_changed_row(cols, id, change, user);
                    lemma_others_push(r, changed_row(cols, id, change), user);
                }
            } else {
                lemma_others_push(r, line, user);
            }
        }
    }
}


/// No lines, no tasks.
pub proof fn lemma_no_lines_no_tasks(user: Seq<char>)
    ensures
        tasks_of_user(Seq::<Seq<char>>::empty(), user) == Seq::<TaskView>::empty(),
{
}

/// The task listing has one line per task, and line `k` shows the number
/// `k + 1` padded to six characters, the time padded to eight, the text,
/// and the status after a dash, whatever the tasks hold.
pub proof fn lemma_listing_lines(ts: Seq<TaskView>)
    ensures
        task_listing_spec(ts).len() == ts.len(),
        forall|k: int|
            0 <= k < ts.len() ==> #[trigger] task_listing_spec(ts)[k] == pad_right(
                decimal((k + 1) as nat),
                6,
            ) + seq![' '] + pad_right(ts[k].time, 8) + seq![' '] + ts[k].text + seq![
                ' ',
                ' ',
                '-',
                ' ',
            ] + ts[k].status,
{
}

/// The number a listing line begins with is the task number that selects
/// it: line `k` begins with the digits of `k + 1` and a space, and that
/// number read back as a task number is `k + 1`.
pub proof fn lemma_listed_number_selects(ts: Seq<TaskView>, k: int)
    requires
        0 <= k < ts.len(),
        ts.len() <= usize::MAX,
    ensures
        task_listing_spec(ts)[k].len() > decimal((k + 1) as nat).len(),
        task_listing_spec(ts)[k].subrange(0, decimal((k + 1) as nat).len() as int) == decimal(
            (k + 1) as nat,
        ),
        task_listing_spec(ts)[k][decimal((k + 1) as nat).len() as int] == ' ',
        task_number(decimal((k + 1) as nat)) == k + 1,
{
    let d = decimal((k + 1) as nat);
    let line = task_listing_spec(ts)[k];
    lemma_listing_lines(ts);
    lemma_decimal_plain((k + 1) as nat);
    lemma_task_number_reads_decimal(d, (k + 1) as nat);
    let p = pad_right(d, 6);
    assert(p.subrange(0, d.len() as int) =~= d);
    assert(p.len() > d.len() ==> p[d.len() as int] == ' ');
    assert(line.subrange(0, d.len() as int) =~= d);
}


/// How the last task id follows the task lines: with no lines it is 0; a
/// blank line leaves it as it was; after any other line it is that line's
/// first column read as a `u32`, or 0 where it does not read as one.
pub proof fn lemma_last_task_id_follows_last_line(lines: Seq<Seq<char>>, line: Seq<char>)
    ensures
        last_task_id(Seq::<Seq<char>>::empty()) == 0,
        trim(line).len() == 0 ==> last_task_id(lines.push(line)) == last_task_id(lines),
        trim(line).len() > 0 ==> last_task_id(lines.push(line)) == (match parse_u32_spec(
            split_commas(line)[0],
        ) {
            Some(v) => v,
            None => 0,
        }),
{
    assert(lines.push(line).drop_last() =~= lines);
    assert(lines.push(line).last() == line);
}

/// The status words: a new task line ends in ", in progress", listed as
/// "in progress"; a completed task is listed as "completed".
pub proof fn lemma_status_words()
    ensures
        in_progress_field() == seq![' ', 'i', 'n', ' ', 'p', 'r', 'o', 'g', 'r', 'e', 's', 's'],
        trim(in_progress_field()) == seq!['i', 'n', ' ', 'p', 'r', 'o', 'g', 'r', 'e', 's', 's'],
        completed_status() == seq!['c', 'o', 'm', 'p', 'l', 'e', 't', 'e', 'd'],
        trim(completed_status()) == completed_status(),
{
    lemma_status_texts();
}

} // verus!
