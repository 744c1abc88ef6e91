use joes_book::db::event::{ChapterPick, ChapterPickEntry, Event, EventContent};
use joes_book::db::spread::Spread;
use joes_book::db::user_input::UserInput;
use joes_book::routes::chapter::page::{table_header, table_rows, CellColor, HeaderCell, TableCell};

fn spread(home: i32, away: i32, halves: i64, answer: Option<&str>) -> Spread {
    Spread {
        home_id: home,
        away_id: away,
        home_spread_halves: halves,
        notes: None,
        answer: answer.map(|a| a.to_string()),
    }
}

fn events() -> Vec<Event> {
    vec![
        Event {
            id: 10,
            book_id: 1,
            chapter_id: 2,
            contents: EventContent::SpreadGroup(vec![
                spread(100, 200, -7, Some("home")),
                spread(300, 400, 3, None),
            ]),
        },
        Event {
            id: 11,
            book_id: 1,
            chapter_id: 2,
            contents: EventContent::UserInput(UserInput {
                title: "Who wins the Heisman?".to_string(),
                description: None,
                points: 3,
                acceptable_answers: Some(vec!["Hunter".to_string()]),
            }),
        },
    ]
}

fn group_pick(user: i32, choice: [&str; 2], wager: [i32; 2]) -> ChapterPickEntry {
    ChapterPickEntry {
        event_id: 10,
        user_id: user,
        pick: ChapterPick::SpreadGroup {
            choice: choice.iter().map(|c| c.to_string()).collect(),
            wager: wager.to_vec(),
            points: None,
        },
    }
}

#[test]
fn header_has_one_column_per_game_and_question() {
    let header = table_header(&events());
    assert_eq!(header.len(), 4);
    assert!(matches!(header[0], HeaderCell::Corner));
    assert!(matches!(header[1], HeaderCell::Game { away_id: 200, home_id: 100, home_spread_halves: -7 }));
    assert!(matches!(header[2], HeaderCell::Game { away_id: 400, home_id: 300, home_spread_halves: 3 }));
    assert!(matches!(&header[3], HeaderCell::Question { title } if title == "Who wins the Heisman?"));
}

#[test]
fn rows_shade_picks_against_answers() {
    let users = vec![(1, "ann".to_string()), (2, "bob".to_string())];
    let picks = vec![
        group_pick(1, ["home", "away"], [2, 1]),
        ChapterPickEntry {
            event_id: 11,
            user_id: 1,
            pick: ChapterPick::UserInput { choice: "Hunter".to_string(), wager: 3, points: Some(3) },
        },
    ];
    let rows = table_rows(&events(), &users, &picks).unwrap();
    assert_eq!(rows.len(), 2);
    let ann = &rows[0];
    assert_eq!(ann.len(), 4);
    assert!(matches!(&ann[0], TableCell::UserName { name } if name == "ann"));
    assert!(matches!(ann[1], TableCell::Game { color: CellColor::Correct, team_id: 100, wager: 2 }));
    assert!(matches!(ann[2], TableCell::Game { color: CellColor::Unanswered, team_id: 400, wager: 1 }));
    assert!(matches!(&ann[3], TableCell::Question { color: CellColor::Correct, choice, wager: 3 } if choice == "Hunter"));
    let bob = &rows[1];
    assert_eq!(bob.len(), 4);
    assert!(matches!(&bob[0], TableCell::UserName { name } if name == "bob"));
    assert!(bob[1..].iter().all(|c| matches!(c, TableCell::DidNotAnswer)));
}

#[test]
fn wrong_side_and_unscored_question() {
    let users = vec![(5, "cy".to_string())];
    let picks = vec![
        group_pick(5, ["away", "home"], [1, 2]),
        ChapterPickEntry {
            event_id: 11,
            user_id: 5,
            pick: ChapterPick::UserInput { choice: "Nobody".to_string(), wager: 1, points: None },
        },
    ];
    let rows = table_rows(&events(), &users, &picks).unwrap();
    assert!(matches!(rows[0][1], TableCell::Game { color: CellColor::Wrong, team_id: 200, wager: 1 }));
    assert!(matches!(rows[0][2], TableCell::Game { color: CellColor::Unanswered, team_id: 300, wager: 2 }));
    assert!(matches!(&rows[0][3], TableCell::Question { color: CellColor::Plain, .. }));
}

#[test]
fn question_scored_below_wager_is_wrong() {
    let users = vec![(5, "cy".to_string())];
    let picks = vec![ChapterPickEntry {
        event_id: 11,
        user_id: 5,
        pick: ChapterPick::UserInput { choice: "Nobody".to_string(), wager: 2, points: Some(0) },
    }];
    let rows = table_rows(&events(), &users, &picks).unwrap();
    assert!(matches!(&rows[0][3], TableCell::Question { color: CellColor::Wrong, wager: 2, .. }));
}

#[test]
fn later_entry_for_the_same_pick_wins() {
    let users = vec![(1, "ann".to_string())];
    let picks = vec![group_pick(1, ["home", "away"], [2, 1]), group_pick(1, ["away", "away"], [1, 2])];
    let rows = table_rows(&events(), &users, &picks).unwrap();
    assert!(matches!(rows[0][1], TableCell::Game { color: CellColor::Wrong, team_id: 200, wager: 1 }));
}

#[test]
fn pick_of_the_wrong_shape_is_flagged() {
    let users = vec![(1, "ann".to_string())];
    let picks = vec![ChapterPickEntry {
        event_id: 10,
        user_id: 1,
        pick: ChapterPick::UserInput { choice: "x".to_string(), wager: 1, points: None },
    }];
    let rows = table_rows(&events(), &users, &picks).unwrap();
    assert_eq!(rows[0].len(), 3);
    assert!(matches!(rows[0][1], TableCell::Mismatch));
    assert!(matches!(rows[0][2], TableCell::DidNotAnswer));
}

#[test]
fn pick_naming_no_side_cannot_be_drawn() {
    let users = vec![(1, "ann".to_string())];
    let picks = vec![group_pick(1, ["home", "neither"], [2, 1])];
    assert!(table_rows(&events(), &users, &picks).is_none());
}

#[test]
fn short_pick_cannot_be_drawn() {
    let users = vec![(1, "ann".to_string())];
    let picks = vec![ChapterPickEntry {
        event_id: 10,
        user_id: 1,
        pick: ChapterPick::SpreadGroup { choice: vec!["home".to_string()], wager: vec![1], points: None },
    }];
    assert!(table_rows(&events(), &users, &picks).is_none());
}

#[test]
fn no_users_no_rows() {
    let rows = table_rows(&events(), &vec![], &vec![]).unwrap();
    assert!(rows.is_empty());
}

#[test]
fn rows_line_up_with_the_header() {
    let users = vec![(1, "ann".to_string()), (2, "bob".to_string()), (3, "cy".to_string())];
    let picks = vec![group_pick(1, ["home", "away"], [2, 1]), group_pick(3, ["away", "away"], [1, 2])];
    let header = table_header(&events());
    let rows = table_rows(&events(), &users, &picks).unwrap();
    assert_eq!(rows.len(), users.len());
    for row in &rows {
        assert_eq!(row.len(), header.len());
    }
}

#[test]
fn fitting_picks_always_draw_a_table() {
    let users = vec![(1, "ann".to_string()), (2, "bob".to_string())];
    let picks = vec![
        group_pick(2, ["away", "home"], [1, 2]),
        ChapterPickEntry {
            event_id: 11,
            user_id: 1,
            pick: ChapterPick::UserInput { choice: "x".to_string(), wager: 1, points: None },
        },
    ];
    let header = table_header(&events());
    let rows = table_rows(&events(), &users, &picks).expect("fitting picks are drawn");
    assert_eq!(rows.len(), 2);
    for (row, (_, name)) in rows.iter().zip(&users) {
        assert!(matches!(&row[0], TableCell::UserName { name: n } if n == name));
        assert_eq!(row.len(), header.len());
    }
}
