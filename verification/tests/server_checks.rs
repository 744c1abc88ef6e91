use joes_book::db::book::BookRole;
use joes_book::server::chapter::{
    answer_list, check_closing_time, check_closing_time_now, group_by_event_type,
    require_chapter_owner, require_closed_chapter, require_open_chapter,
};
use joes_book::server::user::{
    check_login_password, check_password_confirmation, login_decision, signup_password_hash,
    LoginError, SignupError,
};
use joes_book::server::ServerFnError;

fn message(e: ServerFnError) -> (u8, String) {
    match e {
        ServerFnError::Request(m) => (0, m),
        ServerFnError::Args(m) => (1, m),
        ServerFnError::ServerError(m) => (2, m),
    }
}

#[test]
fn picks_need_an_open_chapter() {
    assert!(require_open_chapter(true, false).is_ok());
    assert_eq!(message(require_open_chapter(false, false).unwrap_err()), (0, "You're too late to make picks".to_string()));
    assert_eq!(message(require_open_chapter(false, true).unwrap_err()), (0, "You're too late to update picks".to_string()));
    assert!(require_closed_chapter(false).is_ok());
    assert_eq!(
        message(require_closed_chapter(true).unwrap_err()).1,
        "The chapter isn't closed yet! You can't see everyone's picks!"
    );
    assert!(require_chapter_owner(BookRole::Owner, "no").is_ok());
    assert_eq!(message(require_chapter_owner(BookRole::Admin, "not yours").unwrap_err()), (0, "not yours".to_string()));
}

// 2024-09-01T12:00:00Z
const NOW: (i64, u32) = (1725192000, 0);

#[test]
fn closing_time_in_the_future_is_kept() {
    assert_eq!(check_closing_time("2024-09-07T19:30:00Z", NOW).unwrap(), (1725737400, 0));
    assert_eq!(check_closing_time("2024-09-01T12:00:00.5+00:00", NOW).unwrap(), (1725192000, 500_000_000));
    assert_eq!(check_closing_time("2024-09-01T08:00:01-04:00", NOW).unwrap(), (1725192001, 0));
}

#[test]
fn closing_time_not_after_now_is_refused() {
    let e = check_closing_time("2024-09-01T12:00:00Z", NOW).unwrap_err();
    assert_eq!(message(e), (1, "Your closing time can't be in the past".to_string()));
    let e = check_closing_time("2023-01-01T00:00:00Z", NOW).unwrap_err();
    assert_eq!(message(e).0, 1);
}

#[test]
fn closing_time_that_is_not_a_date_is_a_server_error() {
    let (kind, msg) = message(check_closing_time("next saturday", NOW).unwrap_err());
    assert_eq!(kind, 2);
    let parse_error = chrono::DateTime::parse_from_rfc3339("next saturday").unwrap_err();
    assert_eq!(msg, format!("Could not parse closing time: {parse_error}"));
    let (_, msg) = message(check_closing_time("2024-13-01T00:00:00Z", NOW).unwrap_err());
    let parse_error = chrono::DateTime::parse_from_rfc3339("2024-13-01T00:00:00Z").unwrap_err();
    assert_eq!(msg, format!("Could not parse closing time: {parse_error}"));
}

#[test]
fn closing_time_against_the_clock() {
    assert_eq!(check_closing_time_now("9999-01-01T00:00:00Z").unwrap(), (253370764800, 0));
    assert_eq!(message(check_closing_time_now("2000-01-01T00:00:00Z").unwrap_err()).0, 1);
    assert_eq!(message(check_closing_time_now("2000-01-01").unwrap_err()).0, 2);
}

#[test]
fn answers_are_quoted_and_joined() {
    let answers = vec!["Hunter".to_string(), "Travis".to_string()];
    assert_eq!(answer_list(&answers), "'Hunter','Travis'");
    assert_eq!(answer_list(&vec!["x".to_string()]), "'x'");
    assert_eq!(answer_list(&vec![]), "");
}

#[test]
fn events_group_by_consecutive_type() {
    let items = vec![
        ("SpreadGroup".to_string(), 1),
        ("SpreadGroup".to_string(), 2),
        ("UserInput".to_string(), 3),
        ("SpreadGroup".to_string(), 4),
    ];
    let groups = group_by_event_type(items);
    assert_eq!(
        groups,
        vec![
            ("SpreadGroup".to_string(), vec![1, 2]),
            ("UserInput".to_string(), vec![3]),
            ("SpreadGroup".to_string(), vec![4]),
        ]
    );
    assert!(group_by_event_type::<i32>(vec![]).is_empty());
}

#[test]
fn password_confirmation_must_match() {
    assert!(check_password_confirmation(&"a".to_string(), &"a".to_string()).is_ok());
    let e = check_password_confirmation(&"a".to_string(), &"b".to_string()).unwrap_err();
    assert_eq!(message(e), (2, "Passwords did not match.".to_string()));
}

#[test]
fn signed_up_password_logs_in() {
    let hash = signup_password_hash(&"hunter2".to_string(), &"hunter2".to_string()).unwrap();
    assert_ne!(hash, "hunter2");
    assert!(hash.starts_with("$2b$12$"));
    assert!(check_login_password("hunter2", &hash).is_ok());
    match check_login_password("hunter3", &hash) {
        Err(LoginError::WrongPassword(e)) => assert_eq!(message(e), (2, "Password does not match.".to_string())),
        other => panic!("unexpected {other:?}"),
    }
}

#[test]
fn mismatched_signup_is_refused_before_hashing() {
    match signup_password_hash(&"a".to_string(), &"b".to_string()) {
        Err(SignupError::Mismatch(e)) => assert_eq!(message(e), (2, "Passwords did not match.".to_string())),
        other => panic!("unexpected {other:?}"),
    }
}

#[test]
fn known_hash_verifies() {
    let hash = "$2a$04$UuTkLRZZ6QofpDOlMz32MuuxEHA43WOemOYHPz6.SjsVsyO1tDU96";
    assert!(check_login_password("password", hash).is_ok());
    assert!(matches!(check_login_password("Password", hash), Err(LoginError::WrongPassword(_))));
}

#[test]
fn unreadable_hash_is_its_own_error() {
    assert!(matches!(check_login_password("password", "not a hash"), Err(LoginError::Hash(_))));
}

#[test]
fn login_decision_follows_the_check() {
    assert!(login_decision(Ok(true)).is_ok());
    assert!(matches!(login_decision(Ok(false)), Err(LoginError::WrongPassword(_))));
}

#[test]
fn grouping_keeps_every_value_in_order() {
    let items: Vec<(String, i32)> = ["a", "a", "b", "b", "b", "a", "c"]
        .iter()
        .enumerate()
        .map(|(i, k)| (k.to_string(), i as i32))
        .collect();
    let groups = group_by_event_type(items);
    let flat: Vec<i32> = groups.iter().flat_map(|g| g.1.clone()).collect();
    assert_eq!(flat, (0..7).collect::<Vec<i32>>());
    assert!(groups.iter().all(|g| !g.1.is_empty()));
    assert!(groups.windows(2).all(|w| w[0].0 != w[1].0));
}
