use joes_book::db::event::{ChapterPick, EventContent, PickChoice, PickWager};
use joes_book::db::spread::Spread;
use joes_book::routes::chapter::admin::{award, Award};
use joes_book::routes::chapter::page::{validate_picks, SpreadGroupSpread, SubmissionEvent};

fn answered(answers: &[&str]) -> EventContent {
    EventContent::SpreadGroup(
        answers
            .iter()
            .enumerate()
            .map(|(i, a)| Spread {
                home_id: i as i32,
                away_id: 10 + i as i32,
                home_spread_halves: 0,
                notes: None,
                answer: Some(a.to_string()),
            })
            .collect(),
    )
}

fn ranked_pick(games: &[(&str, &str)]) -> ChapterPick {
    let event = SubmissionEvent::SpreadGroup {
        event_id: "1".to_string(),
        spreads: games
            .iter()
            .map(|(points, side)| SpreadGroupSpread { num_points: points.to_string(), selection: side.to_string() })
            .collect(),
    };
    let (_, mut choices, mut wagers) = validate_picks(vec![event]).unwrap();
    match (choices.remove(0), wagers.remove(0)) {
        (PickChoice::Selections(choice), PickWager::Ranks(wager)) => ChapterPick::SpreadGroup { choice, wager, points: None },
        other => panic!("unexpected {other:?}"),
    }
}

#[test]
fn ranking_earns_the_ranks_of_right_games() {
    let content = answered(&["home", "away", "home", "away"]);
    let pick = ranked_pick(&[("4", "home"), ("3", "home"), ("2", "home"), ("1", "away")]);
    assert_eq!(award(&content, &pick), Some(Award::Points(Some(4 + 2 + 1))));
}

#[test]
fn perfect_ranking_earns_the_triangle_number() {
    let content = answered(&["home", "away", "home", "away", "home"]);
    let pick = ranked_pick(&[("2", "home"), ("5", "away"), ("1", "home"), ("3", "away"), ("4", "home")]);
    assert_eq!(award(&content, &pick), Some(Award::Points(Some(15))));
}

#[test]
fn wrong_ranking_earns_nothing() {
    let content = answered(&["home", "home"]);
    let pick = ranked_pick(&[("1", "away"), ("2", "away")]);
    assert_eq!(award(&content, &pick), Some(Award::Points(Some(0))));
}
