use joes_book::db::event::{PickChoice, PickWager};
use joes_book::error::Status;
use joes_book::routes::chapter::page::{
    require_known_events, validate_picks, PickError, SpreadGroupSpread, SubmissionEvent,
};
use joes_book::routes::session::sign_in_destination;

fn game(points: &str, selection: &str) -> SpreadGroupSpread {
    SpreadGroupSpread { num_points: points.to_string(), selection: selection.to_string() }
}

fn group(id: &str, games: Vec<SpreadGroupSpread>) -> SubmissionEvent {
    SubmissionEvent::SpreadGroup { event_id: id.to_string(), spreads: games }
}

fn question(id: &str, answer: &str) -> SubmissionEvent {
    SubmissionEvent::UserInput { user_input: answer.to_string(), event_id: id.to_string() }
}

#[test]
fn ranked_group_and_question_are_accepted() {
    let events = vec![
        group("7", vec![game("2", "home"), game("1", "away")]),
        question("8", "Ohio State"),
    ];
    let (ids, choices, wagers) = validate_picks(events).unwrap();
    assert_eq!(ids, vec![7, 8]);
    assert!(matches!(&choices[0], PickChoice::Selections(s) if s == &vec!["home".to_string(), "away".to_string()]));
    assert!(matches!(&choices[1], PickChoice::Input(s) if s == "Ohio State"));
    assert!(matches!(&wagers[0], PickWager::Ranks(r) if r == &vec![2, 1]));
    assert!(matches!(&wagers[1], PickWager::Flat(1)));
}

#[test]
fn empty_submission_is_accepted() {
    let (ids, choices, wagers) = validate_picks(vec![]).unwrap();
    assert!(ids.is_empty() && choices.is_empty() && wagers.is_empty());
}

#[test]
fn repeated_points_are_refused() {
    let r = validate_picks(vec![group("1", vec![game("1", "home"), game("1", "away")])]);
    assert_eq!(r.unwrap_err(), PickError::InvalidPoints);
}

#[test]
fn points_out_of_range_are_refused() {
    let too_high = validate_picks(vec![group("1", vec![game("3", "home"), game("1", "away")])]);
    assert_eq!(too_high.unwrap_err(), PickError::InvalidPoints);
    let zero = validate_picks(vec![group("1", vec![game("0", "home")])]);
    assert_eq!(zero.unwrap_err(), PickError::InvalidPoints);
    let negative = validate_picks(vec![group("1", vec![game("-1", "home")])]);
    assert_eq!(negative.unwrap_err(), PickError::InvalidPoints);
}

#[test]
fn unparsable_points_are_refused() {
    let r = validate_picks(vec![group("1", vec![game("one", "home")])]);
    assert_eq!(r.unwrap_err(), PickError::UnparsablePoints);
    let spaced = validate_picks(vec![group("1", vec![game(" 1", "home")])]);
    assert_eq!(spaced.unwrap_err(), PickError::UnparsablePoints);
}

#[test]
fn unparsable_event_id_is_refused() {
    let r = validate_picks(vec![question("abc", "x")]);
    assert_eq!(r.unwrap_err(), PickError::UnparsableEventId);
}

#[test]
fn points_are_checked_before_event_ids() {
    let r = validate_picks(vec![
        group("not a number", vec![game("1", "home")]),
        group("2", vec![game("5", "home")]),
    ]);
    assert_eq!(r.unwrap_err(), PickError::InvalidPoints);
}

#[test]
fn first_bad_point_decides_the_error() {
    let r = validate_picks(vec![group("1", vec![game("x", "home"), game("9", "away")])]);
    assert_eq!(r.unwrap_err(), PickError::UnparsablePoints);
    let r = validate_picks(vec![group("1", vec![game("9", "home"), game("x", "away")])]);
    assert_eq!(r.unwrap_err(), PickError::InvalidPoints);
}

#[test]
fn accepted_group_ranks_its_games() {
    let games = vec![game("3", "home"), game("1", "away"), game("4", "home"), game("2", "away")];
    let (_, _, wagers) = validate_picks(vec![group("3", games)]).unwrap();
    match &wagers[0] {
        PickWager::Ranks(r) => {
            let mut sorted = r.clone();
            sorted.sort();
            assert_eq!(sorted, vec![1, 2, 3, 4]);
            assert_eq!(r, &vec![3, 1, 4, 2]);
        }
        other => panic!("unexpected wager {other:?}"),
    }
}

#[test]
fn pick_errors_are_bad_requests_with_messages() {
    let cases = [
        (PickError::UnparsablePoints, "Could not parse Spread Group Points"),
        (PickError::InvalidPoints, "Points must be valid and cannot be repeated"),
        (PickError::UnparsableEventId, "Could not parse event id"),
    ];
    for (e, msg) in cases {
        let r = e.rejection();
        assert_eq!(r.status, Status::BadRequest);
        assert_eq!(r.message.as_deref(), Some(msg));
    }
}

#[test]
fn unknown_event_ids_are_refused() {
    assert!(require_known_events(&vec![3, 5], &vec![5, 3, 9]).is_ok());
    assert!(require_known_events(&vec![], &vec![]).is_ok());
    let e = require_known_events(&vec![3, 4], &vec![3]).unwrap_err();
    assert_eq!((e.status, e.message.as_deref()), (Status::BadRequest, Some("Event not found")));
}

#[test]
fn sign_in_goes_to_next_or_home() {
    assert_eq!(sign_in_destination(Some("/book/3/".to_string())), "/book/3/");
    assert_eq!(sign_in_destination(None), "/");
}
