use lib::accounts::{
    authenticate, check_confirmation, check_new_password, check_new_username, new_user_row,
    user_id_at_limit, RegisterError,
};

fn chars(s: &str) -> Vec<char> {
    s.chars().collect()
}

fn string(v: &[char]) -> String {
    v.iter().collect()
}

fn lines(text: &[&str]) -> Vec<Vec<char>> {
    text.iter().map(|l| chars(l)).collect()
}

#[test]
fn sign_in_finds_the_account() {
    let users = lines(&["1,alice_smith,secret123", "2, bob_jones , hunter22 "]);
    let r = authenticate(&users, &chars("alice_smith\n"), &chars("secret123\n"));
    assert_eq!(r.map(|u| string(&u)), Some("alice_smith".to_string()));
    let r = authenticate(&users, &chars("bob_jones"), &chars("hunter22"));
    assert_eq!(r.map(|u| string(&u)), Some("bob_jones".to_string()));
}

#[test]
fn sign_in_refuses_a_wrong_password() {
    let users = lines(&["1,alice_smith,secret123"]);
    assert!(authenticate(&users, &chars("alice_smith"), &chars("secret124")).is_none());
    assert!(authenticate(&users, &chars("alice"), &chars("secret123")).is_none());
    assert!(authenticate(&Vec::new(), &chars("alice_smith"), &chars("secret123")).is_none());
}

#[test]
fn sign_in_skips_short_lines() {
    let users = lines(&["alice_smith,secret123", "", "3,carol_one,password1"]);
    assert!(authenticate(&users, &chars("secret123"), &chars("")).is_none());
    assert!(authenticate(&users, &chars("carol_one"), &chars("password1")).is_some());
}

#[test]
fn new_username_too_short() {
    let users = lines(&[]);
    assert_eq!(check_new_username(&users, &chars("  bob  \n")), Err(RegisterError::UsernameTooShort));
}

#[test]
fn new_username_counts_characters() {
    let users = lines(&[]);
    // Five Cyrillic letters take ten bytes but are five characters.
    assert_eq!(check_new_username(&users, &chars("абвгд\n")), Err(RegisterError::UsernameTooShort));
    assert_eq!(
        check_new_username(&users, &chars("олександр\n")).map(|u| string(&u)),
        Ok("олександр".to_string())
    );
    assert_eq!(check_new_username(&users, &chars("abcdefg")), Err(RegisterError::UsernameTooShort));
    assert_eq!(check_new_username(&users, &chars("abcdefgh")).map(|u| string(&u)), Ok("abcdefgh".to_string()));
}

#[test]
fn new_username_taken() {
    let users = lines(&["1, alice_smith ,secret123"]);
    assert_eq!(check_new_username(&users, &chars("alice_smith\n")), Err(RegisterError::UsernameTaken));
    assert_eq!(
        check_new_username(&users, &chars(" carol_one ")).map(|u| string(&u)),
        Ok("carol_one".to_string())
    );
}

#[test]
fn new_password_checks() {
    assert_eq!(check_new_password(&chars("short\n")), Err(RegisterError::PasswordTooShort));
    assert_eq!(check_new_password(&chars("пароль1")), Err(RegisterError::PasswordTooShort));
    assert_eq!(check_new_password(&chars("пароль12")).map(|p| string(&p)), Ok("пароль12".to_string()));
    assert_eq!(check_new_password(&chars(" longenough \n")).map(|p| string(&p)), Ok("longenough".to_string()));
    assert_eq!(check_confirmation(&chars("longenough"), &chars("longenough\n")), Ok(()));
    assert_eq!(
        check_confirmation(&chars("longenough"), &chars("longenougH")),
        Err(RegisterError::PasswordMismatch)
    );
}

#[test]
fn first_account_gets_id_one() {
    let row = new_user_row(&Vec::new(), &chars("alice_smith"), &chars("secret123"));
    assert_eq!(string(&row), "1,alice_smith,secret123");
}

#[test]
fn next_id_follows_the_last_numbered_line() {
    let users = lines(&["7,a,b", " 3 ,c,d", "x,e,f", ""]);
    let row = new_user_row(&users, &chars("carol_one"), &chars("password1"));
    assert_eq!(string(&row), "4,carol_one,password1");
}

#[test]
fn id_limit_is_detected() {
    assert!(user_id_at_limit(&lines(&["4294967295,a,b", "2,c,d"])));
    assert!(!user_id_at_limit(&lines(&["4294967294,a,b", "4294967296,c,d"])));
}

#[test]
fn registered_user_can_sign_in() {
    let mut users = lines(&["1,alice_smith,secret123"]);
    let name = check_new_username(&users, &chars(" dave_brown\n")).unwrap();
    let pass = check_new_password(&chars("correct horse\n")).unwrap();
    assert_eq!(check_confirmation(&pass, &chars("correct horse")), Ok(()));
    let row = new_user_row(&users, &name, &pass);
    assert_eq!(string(&row), "2,dave_brown,correct horse");
    users.push(row);
    let r = authenticate(&users, &chars("dave_brown"), &chars("correct horse"));
    assert_eq!(r.map(|u| string(&u)), Some("dave_brown".to_string()));
    assert_eq!(check_new_username(&users, &chars("dave_brown")), Err(RegisterError::UsernameTaken));
    assert!(authenticate(&users, &chars("alice_smith"), &chars("secret123")).is_some());
}

#[test]
fn account_ids_keep_increasing() {
    let mut users = lines(&["1,a,b", "5,c,d"]);
    let row = new_user_row(&users, &chars("eeeeeeee"), &chars("ffffffff"));
    assert_eq!(string(&row), "6,eeeeeeee,ffffffff");
    users.push(row);
    let row = new_user_row(&users, &chars("gggggggg"), &chars("hhhhhhhh"));
    assert_eq!(string(&row), "7,gggggggg,hhhhhhhh");
}
