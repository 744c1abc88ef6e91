use joes_book::db::event::{PickChoice, PickWager};
use joes_book::db::single_game::SingleGameContent;
use joes_book::db::spread::SpreadAmount;
use joes_book::error::Status;
use joes_book::routes::book::chapter::create::{validate_events, EventSubmissionType};
use joes_book::routes::book::chapter::page::{validate_picks, SpreadGroupSpread, SubmissionEvent};

#[test]
fn book_page_ranks_each_group() {
    let events = vec![
        SubmissionEvent::SpreadGroup {
            event_id: "4".to_string(),
            spreads: vec![
                SpreadGroupSpread { num_points: "2".to_string(), selection: "home".to_string() },
                SpreadGroupSpread { num_points: "1".to_string(), selection: "away".to_string() },
            ],
        },
        SubmissionEvent::UserInput { user_input: "yes".to_string(), event_id: "-5".to_string() },
    ];
    let (ids, choices, wagers) = validate_picks(events).unwrap();
    assert_eq!(ids, vec![4, -5]);
    assert!(matches!(&choices[0], PickChoice::Selections(s) if s == &vec!["home".to_string(), "away".to_string()]));
    assert!(matches!(&choices[1], PickChoice::Input(s) if s == "yes"));
    assert!(matches!(&wagers[0], PickWager::Ranks(p) if p == &vec![2, 1]));
    assert!(matches!(&wagers[1], PickWager::Flat(1)));
}

fn group(points: &[&str]) -> SubmissionEvent {
    SubmissionEvent::SpreadGroup {
        event_id: "4".to_string(),
        spreads: points
            .iter()
            .map(|p| SpreadGroupSpread { num_points: p.to_string(), selection: "home".to_string() })
            .collect(),
    }
}

#[test]
fn book_page_refuses_repeated_or_out_of_range_points() {
    for points in [&["1", "1"][..], &["0", "1"][..], &["1", "3"][..]] {
        let e = validate_picks(vec![group(points)]).unwrap_err();
        assert_eq!(e.status, Status::BadRequest);
        assert_eq!(e.message.as_deref(), Some("Points must be valid and cannot be repeated"));
    }
    let e = validate_picks(vec![group(&["one"])]).unwrap_err();
    assert_eq!((e.status, e.message.as_deref()), (Status::BadRequest, Some("Could not parse Spread Group Points")));
}

#[test]
fn book_page_refuses_bad_event_ids() {
    let events = vec![SubmissionEvent::UserInput { user_input: "x".to_string(), event_id: "4a".to_string() }];
    let e = validate_picks(events).unwrap_err();
    assert_eq!(e.status, Status::BadRequest);
    assert_eq!(e.message.as_deref(), Some("Could not parse event id"));
}

#[test]
fn book_page_events_each_hold_one_game() {
    let events = vec![
        EventSubmissionType::Spread {
            home_id: "1".to_string(),
            away_id: "2".to_string(),
            home_spread: SpreadAmount::Halves(-3),
        },
        EventSubmissionType::UserInput {
            title: "T".to_string(),
            description: "".to_string(),
            points: "7".to_string(),
        },
    ];
    let contents = validate_events(events).unwrap();
    match &contents[0] {
        SingleGameContent::SpreadGroup(s) => {
            assert_eq!((s.home_id, s.away_id, s.home_spread_halves), (1, 2, -3));
            assert!(s.notes.is_none());
        }
        other => panic!("unexpected {other:?}"),
    }
    match &contents[1] {
        SingleGameContent::UserInput(u) => {
            assert_eq!(u.title, "T");
            assert!(u.description.is_none());
            assert_eq!(u.points, 7);
        }
        other => panic!("unexpected {other:?}"),
    }
}

#[test]
fn book_page_event_refusals() {
    let bad_id = validate_events(vec![EventSubmissionType::Spread {
        home_id: "1".to_string(),
        away_id: "two".to_string(),
        home_spread: SpreadAmount::Halves(0),
    }]);
    let e = bad_id.unwrap_err();
    assert_eq!((e.status, e.message), (Status::BadRequest, None));
    let bad_amount = validate_events(vec![EventSubmissionType::Spread {
        home_id: "1".to_string(),
        away_id: "2".to_string(),
        home_spread: SpreadAmount::Invalid,
    }]);
    assert_eq!(bad_amount.unwrap_err().message.as_deref(), Some("Could not parse amount"));
    let bad_points = validate_events(vec![EventSubmissionType::UserInput {
        title: "T".to_string(),
        description: "d".to_string(),
        points: "".to_string(),
    }]);
    assert_eq!(bad_points.unwrap_err().message, None);
}
