use joes_book::db::book::{BookRole, BookSubscription};
use joes_book::db::chapter::Chapter;
use joes_book::error::Status;
use joes_book::routes::book::create::validate_book_name;
use joes_book::routes::chapter::create::validate_name;
use joes_book::routes::book::mw::{admit_member, book_id_param, chapter_found, require_admin};
use joes_book::routes::book::page::chapter_lists;
use joes_book::routes::finish_signup::{check_finish_signup, FinishSignupForm};
use joes_book::routes::session::check_robot;
use joes_book::routes::signup::{check_signup_form, is_allowed_username, SignUpForm};
use joes_book::server::admin_app::{has_permission, require_site_owner};
use joes_book::server::admin_book::{
    promote_plan, require_owner, subscription_or_unauthorized, OwnerAction, PromotePlan,
};
use joes_book::server::book::{require_book_creator, require_member};
use joes_book::server::ServerFnError;

fn sub(role: BookRole) -> BookSubscription {
    BookSubscription { book_id: 3, user_id: 9, name: "Family".to_string(), role }
}

#[test]
fn book_id_comes_from_the_path() {
    assert_eq!(book_id_param(Some("12")).unwrap(), 12);
    let e = book_id_param(Some("twelve")).unwrap_err();
    assert_eq!((e.status, e.message.as_deref()), (Status::BadRequest, Some("Could not find Book ID")));
    let e = book_id_param(None).unwrap_err();
    assert_eq!(e.message.as_deref(), Some("Could not find Book ID"));
}

#[test]
fn members_are_let_in() {
    let s = admit_member(Some(sub(BookRole::Participant))).unwrap();
    assert_eq!((s.book_id, s.user_id, s.role), (3, 9, BookRole::Participant));
    assert!(admit_member(Some(sub(BookRole::Owner))).is_ok());
    let e = admit_member(Some(sub(BookRole::Unauthorized))).unwrap_err();
    assert_eq!((e.status, e.message.as_deref()), (Status::Unauthorized, Some("Not a member of this book")));
    let e = admit_member(None).unwrap_err();
    assert_eq!((e.status, e.message.as_deref()), (Status::NotFound, Some("Could not find book")));
}

#[test]
fn admin_pages_need_the_admin_role() {
    assert!(require_admin(BookRole::Admin).is_ok());
    for role in [BookRole::Owner, BookRole::Participant, BookRole::Unauthorized] {
        let e = require_admin(role).unwrap_err();
        assert_eq!(e.status, Status::Unauthorized);
        assert_eq!(e.message.as_deref(), Some("You do not have admin privilages for this book"));
    }
}

#[test]
fn chapter_must_exist() {
    let c = Chapter { chapter_id: 4, book_id: 3, title: "Week".to_string(), is_open: true, is_visible: false };
    assert_eq!(chapter_found(Some(c)).unwrap().chapter_id, 4);
    let e = chapter_found(None).unwrap_err();
    assert_eq!((e.status, e.message.as_deref()), (Status::NotFound, Some("Could not find chapter")));
}

#[test]
fn book_names() {
    assert!(validate_book_name("The Family Book").is_ok());
    let msg = Some("Book name must be less than 30 characters and be alphabetic & spaces");
    assert_eq!(validate_book_name("Book 2").unwrap_err().message.as_deref(), msg);
    assert_eq!(validate_book_name(&"a".repeat(31)).unwrap_err().message.as_deref(), msg);
    assert!(validate_book_name(&"a".repeat(30)).is_ok());
}

#[test]
fn robot_check() {
    assert!(check_robot(true).is_ok());
    let e = check_robot(false).unwrap_err();
    assert_eq!((e.status, e.message.as_deref()), (Status::Unauthorized, Some("You did not pass our check for robots")));
}

fn form(username: &str, password: &str, confirmation: &str) -> SignUpForm {
    SignUpForm {
        username: username.to_string(),
        password: password.to_string(),
        password_confirmation: confirmation.to_string(),
        turnstile_response: "token".to_string(),
    }
}

#[test]
fn usernames_are_ascii_letters_and_digits() {
    assert!(is_allowed_username("JoeSmith42"));
    assert!(is_allowed_username(""));
    assert!(!is_allowed_username("joe smith"));
    assert!(!is_allowed_username("joe_smith"));
    assert!(!is_allowed_username("josé"));
}

#[test]
fn signup_form_checks_in_order() {
    assert_eq!(check_signup_form(&form("JoeSmith", "pw", "pw"), true).unwrap(), "joesmith");
    let e = check_signup_form(&form("joe smith", "pw", "other"), false).unwrap_err();
    assert_eq!(e.status, Status::Unauthorized);
    let e = check_signup_form(&form("joe smith", "pw", "other"), true).unwrap_err();
    assert_eq!((e.status, e.message.as_deref()), (Status::BadRequest, Some("Username is not allowed")));
    let e = check_signup_form(&form("joe", "pw", "other"), true).unwrap_err();
    assert_eq!((e.status, e.message.as_deref()), (Status::Conflict, Some("Password does not match confirmation")));
}

#[test]
fn finish_signup_needs_a_name() {
    let ok = FinishSignupForm { username: "Joe".to_string(), turnstile_response: String::new() };
    assert!(check_finish_signup(&ok, true).is_ok());
    assert_eq!(check_finish_signup(&ok, false).unwrap_err().status, Status::Unauthorized);
    let empty = FinishSignupForm { username: String::new(), turnstile_response: String::new() };
    let e = check_finish_signup(&empty, true).unwrap_err();
    assert_eq!((e.status, e.message.as_deref()), (Status::BadRequest, Some("Username is not allowed")));
    let spaced = FinishSignupForm { username: "Jo e".to_string(), turnstile_response: String::new() };
    assert!(check_finish_signup(&spaced, true).is_err());
}

fn request_message(e: ServerFnError) -> String {
    match e {
        ServerFnError::Request(m) => m,
        other => panic!("unexpected {other:?}"),
    }
}

#[test]
fn owner_actions_need_the_owner() {
    assert!(require_owner(BookRole::Owner, OwnerAction::DeleteBook).is_ok());
    let e = require_owner(BookRole::Admin, OwnerAction::DeleteBook).unwrap_err();
    assert_eq!(request_message(e), "You can't just delete someone else's book! Rude!!!");
    let e = require_owner(BookRole::Participant, OwnerAction::GetSubscription).unwrap_err();
    assert_eq!(request_message(e), "I can't just give out info willy nilly");
    let e = require_owner(BookRole::Unauthorized, OwnerAction::AddUser).unwrap_err();
    assert_eq!(request_message(e), "I love your enthusiasm, but you can't add people to a book you don't own");
}

#[test]
fn promoting_depends_on_the_role() {
    assert_eq!(promote_plan(BookRole::Admin).unwrap(), PromotePlan::AlreadyAdmin);
    assert_eq!(promote_plan(BookRole::Participant).unwrap(), PromotePlan::Promote);
    assert_eq!(promote_plan(BookRole::Unauthorized).unwrap(), PromotePlan::AddThenPromote);
    let e = promote_plan(BookRole::Owner).unwrap_err();
    assert_eq!(request_message(e), "You are already kind of an admin (you're the owner)");
}

#[test]
fn missing_subscription_has_no_role() {
    let s = subscription_or_unauthorized(None, 3, 9, "Family".to_string());
    assert_eq!((s.book_id, s.user_id, s.name.as_str(), s.role), (3, 9, "Family", BookRole::Unauthorized));
    let s = subscription_or_unauthorized(Some(sub(BookRole::Admin)), 1, 1, "x".to_string());
    assert_eq!((s.book_id, s.role), (3, BookRole::Admin));
}

#[test]
fn permissions() {
    let perms = vec!["admin".to_string(), "owner".to_string()];
    assert!(has_permission(&perms, "owner"));
    assert!(!has_permission(&perms, "own"));
    assert!(!has_permission(&vec![], "owner"));
    assert!(require_site_owner(Some(&perms)).is_ok());
    let e = require_site_owner(Some(&vec!["admin".to_string()])).unwrap_err();
    assert_eq!(request_message(e), "You can't go in there!");
    assert!(require_site_owner(None).is_err());
}

#[test]
fn book_access_checks() {
    assert!(require_member(BookRole::Participant, "no").is_ok());
    assert_eq!(request_message(require_member(BookRole::Unauthorized, "no entry").unwrap_err()), "no entry");
    assert!(require_book_creator(true).is_ok());
    assert_eq!(request_message(require_book_creator(false).unwrap_err()), "Not permitted to create books");
}

#[test]
fn book_and_chapter_names_follow_one_rule() {
    let long = "x".repeat(31);
    let samples = ["Family Book", "Week 3", "", "Ünïcödé names", "tab\there", long.as_str(), "ok"];
    for s in samples {
        assert_eq!(validate_book_name(s).is_ok(), validate_name(s).is_ok(), "name {s:?}");
    }
}

#[test]
fn stored_username_is_lowercase_and_allowed() {
    let name = check_signup_form(&form("MiXeD123", "p", "p"), true).unwrap();
    assert_eq!(name, "mixed123");
    assert!(is_allowed_username(&name));
}

fn chapter(id: i32, visible: bool) -> Chapter {
    Chapter { chapter_id: id, book_id: 3, title: format!("Week {id}"), is_open: false, is_visible: visible }
}

#[test]
fn admins_also_see_unpublished_chapters() {
    let chapters = vec![chapter(1, true), chapter(2, false), chapter(3, true), chapter(4, false)];
    let lists = chapter_lists(BookRole::Admin, chapters);
    let published: Vec<i32> = lists.published.iter().map(|c| c.chapter_id).collect();
    assert_eq!(published, vec![1, 3]);
    let unpublished: Vec<i32> = lists.unpublished.unwrap().iter().map(|c| c.chapter_id).collect();
    assert_eq!(unpublished, vec![2, 4]);
}

#[test]
fn members_see_published_chapters_only() {
    let chapters = vec![chapter(1, false), chapter(2, true)];
    let lists = chapter_lists(BookRole::Participant, chapters);
    assert!(lists.unpublished.is_none());
    assert_eq!(lists.published.len(), 1);
    assert_eq!(lists.published[0].chapter_id, 2);
    let owner = chapter_lists(BookRole::Owner, vec![chapter(1, false)]);
    assert!(owner.unpublished.is_none() && owner.published.is_empty());
}
