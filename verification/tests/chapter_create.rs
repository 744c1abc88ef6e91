use joes_book::db::event::EventContent;
use joes_book::db::spread::SpreadAmount;
use joes_book::error::Status;
use joes_book::routes::chapter::create::{
    validate_events, validate_name, validate_submission, EventSubmissionType, EventSubmissions,
    SpreadSubmission,
};

fn game(home: &str, away: &str, spread: SpreadAmount) -> SpreadSubmission {
    SpreadSubmission { home_id: home.to_string(), away_id: away.to_string(), home_spread: spread }
}

fn question(title: &str, description: &str, points: &str) -> EventSubmissionType {
    EventSubmissionType::UserInput {
        title: title.to_string(),
        description: description.to_string(),
        points: points.to_string(),
    }
}

#[test]
fn letters_and_spaces_make_a_name() {
    assert!(validate_name("Week One").is_ok());
    assert!(validate_name("").is_ok());
    assert!(validate_name("Semaine Été").is_ok());
}

#[test]
fn invalid_characters_are_listed() {
    let e = validate_name("Week 1!").unwrap_err();
    assert_eq!(e.status, Status::BadRequest);
    assert_eq!(e.message.as_deref(), Some("Chaper name includes invalid characters: 1,!"));
    let e = validate_name("a-b").unwrap_err();
    assert_eq!(e.message.as_deref(), Some("Chaper name includes invalid characters: -"));
}

#[test]
fn long_names_are_refused_by_bytes() {
    let e = validate_name("abcdefghijklmnopqrstuvwxyzabcde").unwrap_err();
    assert_eq!(e.status, Status::BadRequest);
    assert_eq!(e.message.as_deref(), Some("Chapter Name too long (> 30 chars)"));
    assert!(validate_name("abcdefghijklmnopqrstuvwxyzabcd").is_ok());
    let accented = "é".repeat(16);
    assert_eq!(accented.chars().count(), 16);
    let e = validate_name(&accented).unwrap_err();
    assert_eq!(e.message.as_deref(), Some("Chapter Name too long (> 30 chars)"));
    let e = validate_name("1234567890123456789012345678901").unwrap_err();
    assert_eq!(e.message.as_deref(), Some("Chapter Name too long (> 30 chars)"));
}

#[test]
fn events_are_read_in_order() {
    let events = vec![
        EventSubmissionType::SpreadGroup {
            spreads: vec![game("12", "34", SpreadAmount::Halves(-7)), game("5", "6", SpreadAmount::Halves(0))],
        },
        question("Heisman", "", "3"),
        question("MVP", "best player", "-2"),
    ];
    let contents = validate_events(events).unwrap();
    assert_eq!(contents.len(), 3);
    match &contents[0] {
        EventContent::SpreadGroup(spreads) => {
            assert_eq!(spreads.len(), 2);
            assert_eq!((spreads[0].home_id, spreads[0].away_id, spreads[0].home_spread_halves), (12, 34, -7));
            assert_eq!((spreads[1].home_id, spreads[1].away_id, spreads[1].home_spread_halves), (5, 6, 0));
            assert!(spreads[0].notes.is_none() && spreads[0].answer.is_none());
        }
        other => panic!("unexpected {other:?}"),
    }
    match &contents[1] {
        EventContent::UserInput(u) => {
            assert_eq!(u.title, "Heisman");
            assert_eq!(u.description, None);
            assert_eq!(u.points, 3);
            assert!(u.acceptable_answers.is_none());
        }
        other => panic!("unexpected {other:?}"),
    }
    match &contents[2] {
        EventContent::UserInput(u) => {
            assert_eq!(u.description.as_deref(), Some("best player"));
            assert_eq!(u.points, -2);
        }
        other => panic!("unexpected {other:?}"),
    }
}

#[test]
fn bad_team_id_is_a_bare_bad_request() {
    let r = validate_events(vec![EventSubmissionType::SpreadGroup {
        spreads: vec![game("x", "34", SpreadAmount::Halves(1))],
    }]);
    let e = r.unwrap_err();
    assert_eq!(e.status, Status::BadRequest);
    assert_eq!(e.message, None);
}

#[test]
fn bad_amount_is_explained() {
    let r = validate_events(vec![EventSubmissionType::SpreadGroup {
        spreads: vec![game("1", "2", SpreadAmount::Invalid)],
    }]);
    let e = r.unwrap_err();
    assert_eq!(e.status, Status::BadRequest);
    assert_eq!(e.message.as_deref(), Some("Could not parse amount"));
}

#[test]
fn team_ids_are_read_before_the_amount() {
    let r = validate_events(vec![EventSubmissionType::SpreadGroup {
        spreads: vec![game("1", "y", SpreadAmount::Invalid)],
    }]);
    assert_eq!(r.unwrap_err().message, None);
}

#[test]
fn first_refused_event_decides() {
    let r = validate_events(vec![
        question("Q", "", "many"),
        EventSubmissionType::SpreadGroup { spreads: vec![game("1", "2", SpreadAmount::Invalid)] },
    ]);
    assert_eq!(r.unwrap_err().message, None);
}

#[test]
fn name_is_checked_before_events() {
    let r = validate_submission(EventSubmissions {
        chapter_name: "Week 2".to_string(),
        events: vec![question("Q", "", "many")],
    });
    assert_eq!(r.unwrap_err().message.as_deref(), Some("Chaper name includes invalid characters: 2"));
    let (name, events) = validate_submission(EventSubmissions {
        chapter_name: "Week Two".to_string(),
        events: vec![question("Q", "", "4")],
    })
    .unwrap();
    assert_eq!(name, "Week Two");
    assert_eq!(events.len(), 1);
}
