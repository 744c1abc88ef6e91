//! Creating a chapter from the book pages, where each spread event is one game.

use vstd::prelude::*;

use crate::db::single_game::{SingleGameContent, SingleGameSpread, SingleGameInput};
use crate::db::spread::SpreadAmount;
use crate::error::{bare_rejection, is_bare_rejection, is_rejection, rejection, Rejection, Status};
use crate::text::{parse_i32, spec_parse_i32};

verus! {

/// Which blank event the create page adds.
#[derive(Clone, Copy, Debug, PartialEq, Eq, Structural)]
pub enum AddEventType {
    SpreadGroup,
    UserInput,
}

/// The create page for a user.
pub struct CreateChapter {
    pub username: String,
}

/// A blank event of the given kind.
pub struct AddEvent {
    pub ty: AddEventType,
}

/// A team offered by the team search.
pub struct TeamParams {
    pub id: String,
    pub name: String,
    pub logo: Option<String>,
}

/// A team chosen for one side of a game.
pub struct TeamSelect {
    pub location: String,
    pub team: TeamParams,
}

/// A submitted event: one game against the spread, or a question.
pub enum EventSubmissionType {
    Spread { home_id: String, away_id: String, home_spread: SpreadAmount },
    UserInput { title: String, description: String, points: String },
}

/// A submitted chapter: its name and events.
pub struct EventSubmissions {
    pub chapter_name: String,
    pub events: Vec<EventSubmissionType>,
}

/// Why a submitted event is refused.
#[derive(Clone, Copy, Debug, PartialEq, Eq, Structural)]
pub enum SingleGameError {
    UnparsableNumber,
    UnparsableAmount,
}

/// How a refused event is answered.
pub open spec fn answers_single_game_error(r: Rejection, k: SingleGameError) -> bool {
    match k {
        SingleGameError::UnparsableNumber => is_bare_rejection(r, Status::BadRequest),
        SingleGameError::UnparsableAmount => is_rejection(
            r,
            Status::BadRequest,
            "Could not parse amount"@,
        ),
    }
}

/// The stored form of an event, with its inner values as submitted ones.
pub enum SingleGameContentView {
    SpreadGroup { home_id: i32, away_id: i32, home_spread_halves: i64, notes: Option<String> },
    UserInput { title: String, description: Option<String>, points: i32 },
}

/// The view of stored contents.
pub open spec fn single_game_view(c: SingleGameContent) -> SingleGameContentView {
    match c {
        SingleGameContent::SpreadGroup(s) => SingleGameContentView::SpreadGroup {
            home_id: s.home_id,
            away_id: s.away_id,
            home_spread_halves: s.home_spread_halves,
            notes: s.notes,
        },
        SingleGameContent::UserInput(u) => SingleGameContentView::UserInput {
            title: u.title,
            description: u.description,
            points: u.points,
        },
    }
}

/// A submitted event as stored: team ids, then the spread; or the question's
/// points, with an empty description dropped. Stored games carry no notes.
pub open spec fn spec_single_game_event(e: EventSubmissionType) -> Result<
    SingleGameContentView,
    SingleGameError,
> {
    match e {
        EventSubmissionType::Spread { home_id, away_id, home_spread } => match spec_parse_i32(
            home_id@,
        ) {
            None => Err(SingleGameError::UnparsableNumber),
            Some(h) => match spec_parse_i32(away_id@) {
                None => Err(SingleGameError::UnparsableNumber),
                Some(a) => match home_spread {
                    SpreadAmount::Invalid => Err(SingleGameError::UnparsableAmount),
                    SpreadAmount::Halves(x) => Ok(
                        SingleGameContentView::SpreadGroup {
                            home_id: h,
                            away_id: a,
                            home_spread_halves: x,
                            notes: None,
                        },
                    ),
                },
            },
        },
        EventSubmissionType::UserInput { title, description, points } => match spec_parse_i32(
            points@,
        ) {
            None => Err(SingleGameError::UnparsableNumber),
            Some(p) => Ok(
                SingleGameContentView::UserInput {
                    title,
                    description: if description@.len() == 0 {
                        None
                    } else {
                        Some(description)
                    },
                    points: p,
                },
            ),
        },
    }
}

/// The first `k` events as stored, stopping at the first refused one.
pub open spec fn spec_single_game_prefix(es: Seq<EventSubmissionType>, k: nat) -> Result<
    Seq<SingleGameContentView>,
    SingleGameError,
>
    decreases k,
{
    if k == 0 {
        Ok(Seq::empty())
    } else {
        match spec_single_game_prefix(es, (k - 1) as nat) {
            Err(e) => Err(e),
            Ok(prev) => match spec_single_game_event(es[k - 1]) {
                Err(e) => Err(e),
                Ok(c) => Ok(prev.push(c)),
            },
        }
    }
}

proof fn lemma_single_game_error_persists(es: Seq<EventSubmissionType>, k: nat, m: nat)
    requires
        k <= m,
        spec_single_game_prefix(es, k) is Err,
    ensures
        spec_single_game_prefix(es, m) == spec_single_game_prefix(es, k),
    decreases m - k,
{
    if k < m {
        lemma_single_game_error_persists(es, k, (m - 1) as nat);
    }
}

fn single_game_rejection(k: SingleGameError) -> (r: Rejection)
    ensures
        answers_single_game_error(r, k),
{
    match k {
        SingleGameError::UnparsableNumber => bare_rejection(Status::BadRequest),
        SingleGameError::UnparsableAmount => rejection(Status::BadRequest, "Could not parse amount"),
    }
}

fn validate_event(e: EventSubmissionType) -> (r: Result<SingleGameContent, SingleGameError>)
    ensures
        match spec_single_game_event(e) {
            Err(k) => r == Err::<SingleGameContent, SingleGameError>(k),
            Ok(c) => r matches Ok(v) && single_game_view(v) == c,
        },
{
    match e {
        EventSubmissionType::Spread { home_id, away_id, home_spread } => {
            let home_id = match parse_i32(home_id.as_str()) {
                Some(v) => v,
                None => return Err(SingleGameError::UnparsableNumber),
            };
            let away_id = match parse_i32(away_id.as_str()) {
                Some(v) => v,
                None => return Err(SingleGameError::UnparsableNumber),
            };
            match home_spread {
                SpreadAmount::Halves(h) => Ok(
                    SingleGameContent::SpreadGroup(
                        SingleGameSpread { home_id, away_id, home_spread_halves: h, notes: None },
                    ),
                ),
                SpreadAmount::Invalid => Err(SingleGameError::UnparsableAmount),
            }
        },
        EventSubmissionType::UserInput { title, description, points } => {
            let description = if description.as_str().is_empty() {
                None
            } else {
                Some(description)
            };
            let points = match parse_i32(points.as_str()) {
                Some(p) => p,
                None => return Err(SingleGameError::UnparsableNumber),
            };
            Ok(SingleGameContent::UserInput(SingleGameInput { title, description, points }))
        },
    }
}

/// Reads the submitted events in order; the first refused event decides the answer.
pub fn validate_events(events: Vec<EventSubmissionType>) -> (r: Result<
    Vec<SingleGameContent>,
    Rejection,
>)
    ensures
        match spec_single_game_prefix(events@, events@.len()) {
            Err(k) => r matches Err(e) && answers_single_game_error(e, k),
            Ok(cs) => r matches Ok(v) && v@.map_values(|c: SingleGameContent| single_game_view(c))
                == cs,
        },
{
    let ghost orig = events@;
    let mut out: Vec<SingleGameContent> = Vec::new();
    assert(out@.map_values(|c: SingleGameContent| single_game_view(c)) =~= Seq::<
        SingleGameContentView,
    >::empty());
    for e in it: events.into_iter()
        invariant
            it.seq() == orig,
            spec_single_game_prefix(orig, it.index() as nat) == Ok::<
                Seq<SingleGameContentView>,
                SingleGameError,
            >(out@.map_values(|c: SingleGameContent| single_game_view(c))),
    {
        let ghost i = it.index();
        assert(e == orig[i]);
        match validate_event(e) {
            Err(k) => {
                proof {
                    lemma_single_game_error_persists(orig, (i + 1) as nat, orig.len());
                }
                return Err(single_game_rejection(k));
            },
            Ok(c) => {
                let ghost before = out@.map_values(|c: SingleGameContent| single_game_view(c));
                out.push(c);
                assert(out@.map_values(|c: SingleGameContent| single_game_view(c)) =~= before.push(
                    single_game_view(c),
                ));
            },
        }
    }
    Ok(out)
}

/// A question submitted from the book pages is stored with its title, its
/// points read as a number, and its description exactly when the submitted
/// description is not empty; it is refused only when its points are not a
/// number.
pub proof fn lemma_question_keeps_description(title: String, description: String, points: String)
    ensures
        spec_single_game_event((EventSubmissionType::UserInput { title, description, points }))
            is Ok <==> spec_parse_i32(points@) is Some,
        spec_parse_i32(points@) matches Some(n) ==> spec_single_game_event(
            (EventSubmissionType::UserInput { title, description, points }),
        ) == Ok::<SingleGameContentView, SingleGameError>(
            (SingleGameContentView::UserInput {
                title,
                description: if description@.len() > 0 {
                    Some(description)
                } else {
                    None
                },
                points: n,
            }),
        ),
        description@.len() > 0 && spec_parse_i32(points@) is Some ==> (spec_single_game_event(
            (EventSubmissionType::UserInput { title, description, points }),
        ) matches Ok(SingleGameContentView::UserInput { description: d, .. }) && d == Some(
            description,
        )),
{
}

} // verus!
