//! Accounts: each line of the account file is `id,username,password`.
//! Signing in looks a username and password up there; registering checks
//! a new username and password and builds the line that records them.
use vstd::prelude::*;
use crate::text::{
    comma_free, decimal, decimal_chars, join_columns, join_commas, lemma_decimal_plain,
    lemma_parse_decimal, lemma_split_join, lemma_split_nonempty, parse_u32, parse_u32_spec, same_text, split_columns, split_commas,
    strictly_increasing, texts, trim, trim_chars,
};

verus! {

/// The fewest characters a username or a password may have.
pub const MIN_CREDENTIAL_CHARS: usize = 8;

/// Why a registration is refused.
#[derive(Clone, Copy, Debug, PartialEq, Eq, Structural)]
pub enum RegisterError {
    /// The username has fewer than eight characters.
    UsernameTooShort,
    /// An account line already holds the username.
    UsernameTaken,
    /// The password has fewer than eight characters.
    PasswordTooShort,
    /// The repeated password differs from the password.
    PasswordMismatch,
}

/// Whether an account line holds `user` and `pass` as its (trimmed)
/// second and third columns.
pub open spec fn login_row_matches(line: Seq<char>, user: Seq<char>, pass: Seq<char>) -> bool {
    let cols = split_commas(line);
    cols.len() >= 3 && trim(cols[1]) == user && trim(cols[2]) == pass
}

/// Whether some account line holds `user` and `pass`.
pub open spec fn credentials_known(lines: Seq<Seq<char>>, user: Seq<char>, pass: Seq<char>) -> bool {
    exists|i: int| 0 <= i < lines.len() && login_row_matches(#[trigger] lines[i], user, pass)
}

/// Whether some account line holds `user` as its (trimmed) second column.
pub open spec fn username_in_use(lines: Seq<Seq<char>>, user: Seq<char>) -> bool {
    exists|i: int|
        0 <= i < lines.len() && split_commas(#[trigger] lines[i]).len() >= 2 && trim(
            split_commas(lines[i])[1],
        ) == user
}

/// The verdict on a username typed for a new account: it is trimmed,
/// must have at least eight characters, and must not be in use.
pub open spec fn username_verdict(lines: Seq<Seq<char>>, input: Seq<char>) -> Result<
    Seq<char>,
    RegisterError,
> {
    let u = trim(input);
    if u.len() < MIN_CREDENTIAL_CHARS {
        Err(RegisterError::UsernameTooShort)
    } else if username_in_use(lines, u) {
        Err(RegisterError::UsernameTaken)
    } else {
        Ok(u)
    }
}

/// The verdict on a password typed for a new account: it is trimmed and
/// must have at least eight characters.
pub open spec fn password_verdict(input: Seq<char>) -> Result<Seq<char>, RegisterError> {
    let p = trim(input);
    if p.len() < MIN_CREDENTIAL_CHARS {
        Err(RegisterError::PasswordTooShort)
    } else {
        Ok(p)
    }
}

/// The id of an account line: its trimmed first column read as a `u32`.
pub open spec fn row_user_id(line: Seq<char>) -> Option<nat> {
    parse_u32_spec(trim(split_commas(line)[0]))
}

/// The id of the last account line that has one.
pub open spec fn last_user_id(lines: Seq<Seq<char>>) -> Option<nat>
    decreases lines.len(),
{
    if lines.len() == 0 {
        None
    } else {
        match row_user_id(lines.last()) {
            Some(v) => Some(v),
            None => last_user_id(lines.drop_last()),
        }
    }
}

/// The id a new account gets: one more than the id of the last account
/// line that has one, or 1.
pub open spec fn next_user_id(lines: Seq<Seq<char>>) -> nat {
    match last_user_id(lines) {
        Some(v) => v + 1,
        None => 1,
    }
}

/// Whether no account line has the largest `u32` as its id, the one id
/// that cannot be followed.
pub open spec fn user_ids_below_max(lines: Seq<Seq<char>>) -> bool {
    forall|i: int| 0 <= i < lines.len() ==> row_user_id(#[trigger] lines[i]) != Some(u32::MAX as nat)
}

/// The account line for a new account.
pub open spec fn user_record(id: nat, user: Seq<char>, pass: Seq<char>) -> Seq<char> {
    join_commas(seq![decimal(id), user, pass])
}

/// Signs in: trims the typed username and password and looks for an
/// account line that holds both. On success gives the username.
pub fn authenticate(lines: &Vec<Vec<char>>, username_input: &[char], password_input: &[char]) -> (r:
    Option<Vec<char>>)
    ensures
        r is Some <==> credentials_known(
            texts(lines@),
            trim(username_input@),
            trim(password_input@),
        ),
        r matches Some(u) ==> u@ == trim(username_input@),
{
    let user = trim_chars(username_input);
    let pass = trim_chars(password_input);
    let n = lines.len();
    for i in 0..n
        invariant
            n == lines@.len(),
            user@ == trim(username_input@),
            pass@ == trim(password_input@),
            forall|j: int|
                0 <= j < i ==> !login_row_matches(#[trigger] texts(lines@)[j], user@, pass@),
    {
        let cols = split_columns(lines[i].as_slice());
        assert(texts(lines@)[i as int] == lines@[i as int]@);
        if cols.len() >= 3 {
            assert(cols@[1]@ == texts(cols@)[1]);
            assert(cols@[2]@ == texts(cols@)[2]);
            let file_user = trim_chars(cols[1].as_slice());
            let file_pass = trim_chars(cols[2].as_slice());
            if same_text(file_user.as_slice(), user.as_slice()) && same_text(
                file_pass.as_slice(),
                pass.as_slice(),
            ) {
                assert(login_row_matches(texts(lines@)[i as int], user@, pass@));
                return Some(file_user);
            }
        }
    }
    None
}

/// Checks the username typed for a new account against the account lines.
pub fn check_new_username(lines: &Vec<Vec<char>>, username_input: &[char]) -> (r: Result<
    Vec<char>,
    RegisterError,
>)
    ensures
        match r {
            Ok(u) => username_verdict(texts(lines@), username_input@) == Ok::<
                Seq<char>,
                RegisterError,
            >(u@),
            Err(e) => username_verdict(texts(lines@), username_input@) == Err::<
                Seq<char>,
                RegisterError,
            >(e),
        },
{
    let user = trim_chars(username_input);
    if user.len() < MIN_CREDENTIAL_CHARS {
        return Err(RegisterError::UsernameTooShort);
    }
    let n = lines.len();
    for i in 0..n
        invariant
            n == lines@.len(),
            user@ == trim(username_input@),
            user@.len() >= MIN_CREDENTIAL_CHARS,
            forall|j: int|
                0 <= j < i ==> !(split_commas(#[trigger] texts(lines@)[j]).len() >= 2 && trim(
                    split_commas(texts(lines@)[j])[1],
                ) == user@),
    {
        let cols = split_columns(lines[i].as_slice());
        assert(texts(lines@)[i as int] == lines@[i as int]@);
        if cols.len() >= 2 {
            assert(cols@[1]@ == texts(cols@)[1]);
            let file_user = trim_chars(cols[1].as_slice());
            if same_text(file_user.as_slice(), user.as_slice()) {
                assert(split_commas(texts(lines@)[i as int]).len() >= 2 && trim(
                    split_commas(texts(lines@)[i as int])[1],
                ) == user@);
                return Err(RegisterError::UsernameTaken);
            }
        }
    }
    Ok(user)
}

/// Checks the password typed for a new account.
pub fn check_new_password(password_input: &[char]) -> (r: Result<Vec<char>, RegisterError>)
    ensures
        match r {
            Ok(p) => password_verdict(password_input@) == Ok::<Seq<char>, RegisterError>(p@),
            Err(e) => password_verdict(password_input@) == Err::<Seq<char>, RegisterError>(e),
        },
{
    let pass = trim_chars(password_input);
    if pass.len() < MIN_CREDENTIAL_CHARS {
        return Err(RegisterError::PasswordTooShort);
    }
    Ok(pass)
}

/// Checks that the repeated password, once trimmed, is the password.
pub fn check_confirmation(password: &[char], confirm_input: &[char]) -> (r: Result<
    (),
    RegisterError,
>)
    ensures
        r is Ok <==> password@ == trim(confirm_input@),
        r matches Err(e) ==> e == RegisterError::PasswordMismatch,
{
    let confirm = trim_chars(confirm_input);
    if same_text(password, confirm.as_slice()) {
        Ok(())
    } else {
        Err(RegisterError::PasswordMismatch)
    }
}

/// The id of an account line, as `row_user_id` reads it.
fn user_id_of(line: &[char]) -> (r: Option<u32>)
    ensures
        match r {
            Some(v) => row_user_id(line@) == Some(v as nat),
            None => row_user_id(line@) is None,
        },
{
    let cols = split_columns(line);
    proof {
        lemma_split_nonempty(line@);
    }
    assert(cols@[0]@ == texts(cols@)[0]);
    let first = trim_chars(cols[0].as_slice());
    parse_u32(first.as_slice())
}

/// Whether some account line has the largest `u32` as its id, the one id
/// after which no next id fits a `u32`.
pub fn user_id_at_limit(lines: &Vec<Vec<char>>) -> (b: bool)
    ensures
        b == !user_ids_below_max(texts(lines@)),
{
    let n = lines.len();
    for i in 0..n
        invariant
            n == lines@.len(),
            forall|j: int|
                0 <= j < i ==> row_user_id(#[trigger] texts(lines@)[j]) != Some(u32::MAX as nat),
    {
        assert(texts(lines@)[i as int] == lines@[i as int]@);
        match user_id_of(lines[i].as_slice()) {
            Some(v) => {
                if v == 0xffff_ffff {
                    return true;
                }
            },
            None => {},
        }
    }
    false
}

/// The account line for a new account: the next id, the username and the
/// password, separated by commas.
pub fn new_user_row(lines: &Vec<Vec<char>>, username: &[char], password: &[char]) -> (row: Vec<
    char,
>)
    requires
        user_ids_below_max(texts(lines@)),
    ensures
        row@ == user_record(next_user_id(texts(lines@)), username@, password@),
{
    let n = lines.len();
    let mut id: u32 = 1;
    assert(texts(lines@).take(0) =~= Seq::<Seq<char>>::empty());
    for i in 0..n
        invariant
            n == lines@.len(),
            user_ids_below_max(texts(lines@)),
            id as nat == next_user_id(texts(lines@).take(i as int)),
    {
        let ghost t = texts(lines@).take(i + 1);
        assert(t.drop_last() =~= texts(lines@).take(i as int));
        assert(t.last() == texts(lines@)[i as int]);
        assert(texts(lines@)[i as int] == lines@[i as int]@);
        match user_id_of(lines[i].as_slice()) {
            Some(v) => {
                assert(row_user_id(texts(lines@)[i as int]) != Some(u32::MAX as nat));
                id = v + 1;
            },
            None => {},
        }
    }
    assert(texts(lines@).take(n as int) =~= texts(lines@));
    let mut cols: Vec<Vec<char>> = Vec::new();
    cols.push(decimal_chars(id as u64));
    cols.push(vstd::slice::slice_to_vec(username));
    cols.push(vstd::slice::slice_to_vec(password));
    assert(texts(cols@) =~= seq![decimal(id as nat), username@, password@]);
    join_columns(&cols)
}


/// The columns of a new account line, when the username and password hold
/// no comma.
proof fn lemma_user_record_columns(id: nat, user: Seq<char>, pass: Seq<char>)
    requires
        comma_free(user),
        comma_free(pass),
    ensures
        split_commas(user_record(id, user, pass)) == seq![decimal(id), user, pass],
{
    lemma_decimal_plain(id);
    let cols = seq![decimal(id), user, pass];
    assert forall|k: int| 0 <= k < cols.len() implies comma_free(#[trigger] cols[k]) by {
        if k == 0 {
            assert(cols[k] == decimal(id));
        }
    }
    lemma_split_join(cols);
}

/// Registering and then signing in: once the line for a new account with
/// a trimmed username and password without commas is added, those
/// credentials sign in, and the username counts as taken for any later
/// registration that types it.
pub proof fn lemma_registered_user_can_sign_in(
    lines: Seq<Seq<char>>,
    id: nat,
    user: Seq<char>,
    pass: Seq<char>,
)
    requires
        trim(user) == user,
        trim(pass) == pass,
        comma_free(user),
        comma_free(pass),
    ensures
        credentials_known(lines.push(user_record(id, user, pass)), user, pass),
        username_in_use(lines.push(user_record(id, user, pass)), user),
        forall|input: Seq<char>|
            trim(input) == user ==> (#[trigger] username_verdict(
                lines.push(user_record(id, user, pass)),
                input,
            )) is Err,
{
    let rec = user_record(id, user, pass);
    let all = lines.push(rec);
    lemma_user_record_columns(id, user, pass);
    assert(all[lines.len() as int] == rec);
    assert(login_row_matches(all[lines.len() as int], user, pass));
    assert(split_commas(all[lines.len() as int]).len() >= 2 && trim(
        split_commas(all[lines.len() as int])[1],
    ) == user);
}

/// Registering keeps every account that could sign in able to sign in.
pub proof fn lemma_registration_keeps_accounts(
    lines: Seq<Seq<char>>,
    row: Seq<char>,
    user: Seq<char>,
    pass: Seq<char>,
)
    requires
        credentials_known(lines, user, pass),
    ensures
        credentials_known(lines.push(row), user, pass),
{
    let i = choose|i: int| 0 <= i < lines.len() && login_row_matches(lines[i], user, pass);
    assert(lines.push(row)[i] == lines[i]);
}

/// Account ids run on: after the line for a new account is added with the
/// next id, the id after that is one more.
pub proof fn lemma_next_user_id_advances(lines: Seq<Seq<char>>, user: Seq<char>, pass: Seq<char>)
    requires
        comma_free(user),
        comma_free(pass),
        next_user_id(lines) <= u32::MAX,
    ensures
        next_user_id(lines.push(user_record(next_user_id(lines), user, pass))) == next_user_id(
            lines,
        ) + 1,
{
    let id = next_user_id(lines);
    let rec = user_record(id, user, pass);
    lemma_user_record_columns(id, user, pass);
    lemma_decimal_plain(id);
    lemma_parse_decimal(id, u32::MAX as nat);
    assert(row_user_id(rec) == Some(id));
    assert(lines.push(rec).last() == rec);
}


/// The ids of the account lines that have one, in the order of the lines.
pub open spec fn user_ids(lines: Seq<Seq<char>>) -> Seq<nat>
    decreases lines.len(),
{
    if lines.len() == 0 {
        Seq::<nat>::empty()
    } else {
        let rest = user_ids(lines.drop_last());
        match row_user_id(lines.last()) {
            Some(v) => rest.push(v),
            None => rest,
        }
    }
}

/// The id of the last account line that has one is the last of the ids.
proof fn lemma_last_user_id_is_last_id(lines: Seq<Seq<char>>)
    ensures
        last_user_id(lines) == (if user_ids(lines).len() == 0 {
            None
        } else {
            Some(user_ids(lines).last())
        }),
    decreases lines.len(),
{
    if lines.len() > 0 {
        lemma_last_user_id_is_last_id(lines.drop_last());
    }
}

/// Account ids keep increasing: where the ids of the account lines
/// strictly increase, the line for a new account gets an id above every id
/// there, and the ids still strictly increase afterwards.
pub proof fn lemma_user_ids_increase(lines: Seq<Seq<char>>, user: Seq<char>, pass: Seq<char>)
    requires
        comma_free(user),
        comma_free(pass),
        strictly_increasing(user_ids(lines)),
        next_user_id(lines) <= u32::MAX,
    ensures
        forall|k: int|
            0 <= k < user_ids(lines).len() ==> #[trigger] user_ids(lines)[k] < next_user_id(lines),
        user_ids(lines.push(user_record(next_user_id(lines), user, pass))) == user_ids(lines).push(
            next_user_id(lines),
        ),
        strictly_increasing(user_ids(lines.push(user_record(next_user_id(lines), user, pass)))),
{
    let id = next_user_id(lines);
    let rec = user_record(id, user, pass);
    let ids = user_ids(lines);
    lemma_last_user_id_is_last_id(lines);
    lemma_user_record_columns(id, user, pass);
    lemma_decimal_plain(id);
    lemma_parse_decimal(id, u32::MAX as nat);
    assert(row_user_id(rec) == Some(id));
    assert(lines.push(rec).drop_last() =~= lines);
    assert(lines.push(rec).last() == rec);
    assert forall|k: int| 0 <= k < ids.len() implies #[trigger] ids[k] < id by {
        if k < ids.len() - 1 {
            assert(ids[k] < ids[ids.len() - 1]);
        }
    }
    let ids2 = ids.push(id);
    assert forall|i: int, j: int| 0 <= i < j < ids2.len() implies ids2[i] < ids2[j] by {
        if j < ids.len() {
            assert(ids2[i] == ids[i] && ids2[j] == ids[j]);
        } else {
            assert(ids2[i] == ids[i]);
        }
    }
}


/// A username is refused as taken whenever it is long enough and any
/// account line, wherever it stands, already holds it (trimmed) as its
/// second column.
pub proof fn lemma_username_taken(lines: Seq<Seq<char>>, input: Seq<char>, i: int)
    requires
        trim(input).len() >= MIN_CREDENTIAL_CHARS,
        0 <= i < lines.len(),
        split_commas(lines[i]).len() >= 2,
        trim(split_commas(lines[i])[1]) == trim(input),
    ensures
        username_verdict(lines, input) == Err::<Seq<char>, RegisterError>(
            RegisterError::UsernameTaken,
        ),
{
}

/// A username refused as taken stays taken when account lines are added.
pub proof fn lemma_taken_stays_taken(lines: Seq<Seq<char>>, row: Seq<char>, input: Seq<char>)
    requires
        username_verdict(lines, input) == Err::<Seq<char>, RegisterError>(
            RegisterError::UsernameTaken,
        ),
    ensures
        username_verdict(lines.push(row), input) == Err::<Seq<char>, RegisterError>(
            RegisterError::UsernameTaken,
        ),
{
    let u = trim(input);
    let i = choose|i: int|
        0 <= i < lines.len() && split_commas(#[trigger] lines[i]).len() >= 2 && trim(
            split_commas(lines[i])[1],
        ) == u;
    assert(lines.push(row)[i] == lines[i]);
    lemma_username_taken(lines.push(row), input, i);
}

/// What an accepted username is: the trimmed answer, at least eight
/// characters long, held by no account line; and an answer shorter than
/// eight characters once trimmed is refused as too short.
pub proof fn lemma_username_accepted(lines: Seq<Seq<char>>, input: Seq<char>)
    ensures
        trim(input).len() < MIN_CREDENTIAL_CHARS ==> username_verdict(lines, input) == Err::<
            Seq<char>,
            RegisterError,
        >(RegisterError::UsernameTooShort),
        username_verdict(lines, input) is Ok ==> {
            let u = username_verdict(lines, input)->Ok_0;
            &&& u == trim(input)
            &&& u.len() >= MIN_CREDENTIAL_CHARS
            &&& forall|i: int|
                0 <= i < lines.len() ==> !(split_commas(#[trigger] lines[i]).len() >= 2 && trim(
                    split_commas(lines[i])[1],
                ) == u)
        },
{
}

/// What an accepted password is: the trimmed answer, at least eight
/// characters long; an answer shorter than eight characters once trimmed
/// is refused, and a longer one is accepted.
pub proof fn lemma_password_accepted(input: Seq<char>)
    ensures
        trim(input).len() < MIN_CREDENTIAL_CHARS ==> password_verdict(input) == Err::<
            Seq<char>,
            RegisterError,
        >(RegisterError::PasswordTooShort),
        trim(input).len() >= MIN_CREDENTIAL_CHARS ==> password_verdict(input) == Ok::<
            Seq<char>,
            RegisterError,
        >(trim(input)),
        password_verdict(input) matches Ok(p) ==> p == trim(input) && p.len()
            >= MIN_CREDENTIAL_CHARS,
{
}

/// Signing in succeeds exactly when some account line, wherever it
/// stands, holds the trimmed username and password as its trimmed second
/// and third columns.
pub proof fn lemma_sign_in_lines(lines: Seq<Seq<char>>, user: Seq<char>, pass: Seq<char>)
    ensures
        credentials_known(lines, user, pass) <==> exists|i: int|
            0 <= i < lines.len() && split_commas(#[trigger] lines[i]).len() >= 3 && trim(
                split_commas(lines[i])[1],
            ) == user && trim(split_commas(lines[i])[2]) == pass,
{
    if credentials_known(lines, user, pass) {
        let i = choose|i: int| 0 <= i < lines.len() && login_row_matches(lines[i], user, pass);
        assert(split_commas(lines[i]).len() >= 3);
    }
    if exists|i: int|
        0 <= i < lines.len() && split_commas(#[trigger] lines[i]).len() >= 3 && trim(
            split_commas(lines[i])[1],
        ) == user && trim(split_commas(lines[i])[2]) == pass {
        let i = choose|i: int|
            0 <= i < lines.len() && split_commas(#[trigger] lines[i]).len() >= 3 && trim(
                split_commas(lines[i])[1],
            ) == user && trim(split_commas(lines[i])[2]) == pass;
        assert(login_row_matches(lines[i], user, pass));
    }
}


/// How the next account id follows the account lines: with no lines it is
/// 1; after a line whose trimmed first column reads as a `u32` it is one
/// more than that number, whatever came before; after any other line it
/// is what it was before that line.
pub proof fn lemma_next_user_id_follows_last_line(lines: Seq<Seq<char>>, row: Seq<char>)
    ensures
        next_user_id(Seq::<Seq<char>>::empty()) == 1,
        parse_u32_spec(trim(split_commas(row)[0])) matches Some(v) ==> next_user_id(lines.push(row))
            == v + 1,
        parse_u32_spec(trim(split_commas(row)[0])) is None ==> next_user_id(lines.push(row))
            == next_user_id(lines),
{
    assert(lines.push(row).drop_last() =~= lines);
    assert(lines.push(row).last() == row);
}

} // verus!
