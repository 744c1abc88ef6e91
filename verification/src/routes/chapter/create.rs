//! Creating a chapter: its name and the events an admin lays out.

use vstd::prelude::*;
use vstd::string::*;
use vstd::utf8::encode_utf8;

use crate::db::event::{EventContent, EventContentView};
use crate::db::spread::{Spread, SpreadAmount};
use crate::db::user_input::{UserInput, UserInputView};
use crate::error::{bare_rejection, is_bare_rejection, is_rejection, rejection, Rejection, Status};
use crate::text::{
    char_is_alphabetic, chars_of, is_alphabetic, join, join_chars, parse_i32, spec_parse_i32,
};

verus! {

/// Which blank event the create page adds.
#[derive(Clone, Copy, Debug, PartialEq, Eq, Structural)]
pub enum AddEventType {
    SpreadGroup,
    SpreadGroupAppend,
    UserInput,
}

/// A team offered by the team search.
pub struct TeamParams {
    pub id: String,
    pub name: String,
    pub logo: Option<String>,
}

/// A team chosen for one side of a game.
pub struct TeamSelect {
    pub location: String,
    pub team: TeamParams,
}

/// One game of a submitted spread group.
pub struct SpreadSubmission {
    pub home_id: String,
    pub away_id: String,
    pub home_spread: SpreadAmount,
}

/// A submitted event.
pub enum EventSubmissionType {
    SpreadGroup { spreads: Vec<SpreadSubmission> },
    UserInput { title: String, description: String, points: String },
}

/// A submitted chapter: its name and events.
pub struct EventSubmissions {
    pub chapter_name: String,
    pub events: Vec<EventSubmissionType>,
}

/// A character a chapter name may hold: a letter or a space.
pub open spec fn name_char_ok(c: char) -> bool {
    char_is_alphabetic(c) || c == ' '
}

/// The characters of `s` a chapter name may not hold, in order.
pub open spec fn invalid_name_chars(s: Seq<char>) -> Seq<char>
    decreases s.len(),
{
    if s.len() == 0 {
        Seq::empty()
    } else if name_char_ok(s.last()) {
        invalid_name_chars(s.drop_last())
    } else {
        invalid_name_chars(s.drop_last()).push(s.last())
    }
}

/// The message for a chapter name holding characters it may not.
pub open spec fn spec_invalid_chars_message(s: Seq<char>) -> Seq<char> {
    "Chaper name includes invalid characters: "@ + join_chars(invalid_name_chars(s), ","@)
}

/// A chapter name is accepted: at most 30 bytes, and only letters and spaces.
pub open spec fn name_accepted(s: Seq<char>) -> bool {
    encode_utf8(s).len() <= 30 && invalid_name_chars(s).len() == 0
}

/// How a refused chapter name is answered: a name over 30 bytes is too long;
/// otherwise the message lists the characters it may not hold.
pub open spec fn answers_bad_name(r: Rejection, s: Seq<char>) -> bool {
    if encode_utf8(s).len() > 30 {
        is_rejection(r, Status::BadRequest, "Chapter Name too long (> 30 chars)"@)
    } else {
        is_rejection(r, Status::BadRequest, spec_invalid_chars_message(s))
    }
}

/// Checks a chapter name: at most 30 bytes long, and only letters and spaces.
pub fn validate_name(chapter_name: &str) -> (r: Result<(), Rejection>)
    ensures
        r is Ok <==> name_accepted(chapter_name@),
        r matches Err(e) ==> answers_bad_name(e, chapter_name@),
{
    if chapter_name.as_bytes().len() > 30 {
        return Err(rejection(Status::BadRequest, "Chapter Name too long (> 30 chars)"));
    }
    let chars = chars_of(chapter_name);
    let mut invalid: Vec<char> = Vec::new();
    let mut i: usize = 0;
    while i < chars.len()
        invariant
            i <= chars@.len(),
            chars@ == chapter_name@,
            invalid@ == invalid_name_chars(chars@.take(i as int)),
        decreases chars@.len() - i,
    {
        let c = chars[i];
        assert(chars@.take(i + 1).drop_last() =~= chars@.take(i as int));
        if !is_alphabetic(c) && c != ' ' {
            invalid.push(c);
        }
        i = i + 1;
    }
    assert(chars@.take(chars@.len() as int) =~= chars@);
    if invalid.len() > 0 {
        let joined = join(&invalid, ",");
        let mut msg = "Chaper name includes invalid characters: ".to_owned();
        msg.append(joined.as_str());
        return Err(Rejection { status: Status::BadRequest, message: Some(msg) });
    }
    Ok(())
}

/// Why a submitted event is refused.
#[derive(Clone, Copy, Debug, PartialEq, Eq, Structural)]
pub enum EventError {
    UnparsableNumber,
    UnparsableAmount,
}

/// How a refused event is answered.
pub open spec fn answers_event_error(r: Rejection, k: EventError) -> bool {
    match k {
        EventError::UnparsableNumber => is_bare_rejection(r, Status::BadRequest),
        EventError::UnparsableAmount => is_rejection(r, Status::BadRequest, "Could not parse amount"@),
    }
}

/// A submitted game as stored: both team ids must be numbers, then the
/// spread must be a multiple of one half.
pub open spec fn spec_spread(s: SpreadSubmission) -> Result<Spread, EventError> {
    match spec_parse_i32(s.home_id@) {
        None => Err(EventError::UnparsableNumber),
        Some(home_id) => match spec_parse_i32(s.away_id@) {
            None => Err(EventError::UnparsableNumber),
            Some(away_id) => match s.home_spread {
                SpreadAmount::Invalid => Err(EventError::UnparsableAmount),
                SpreadAmount::Halves(h) => Ok(
                    Spread {
                        home_id,
                        away_id,
                        home_spread_halves: h,
                        notes: None,
                        answer: None,
                    },
                ),
            },
        },
    }
}

/// The first `k` games of a group as stored, stopping at the first refused one.
pub open spec fn spec_spreads_prefix(ss: Seq<SpreadSubmission>, k: nat) -> Result<
    Seq<Spread>,
    EventError,
>
    decreases k,
{
    if k == 0 {
        Ok(Seq::empty())
    } else {
        match spec_spreads_prefix(ss, (k - 1) as nat) {
            Err(e) => Err(e),
            Ok(prev) => match spec_spread(ss[k - 1]) {
                Err(e) => Err(e),
                Ok(s) => Ok(prev.push(s)),
            },
        }
    }
}

/// A submitted event as stored. A question's description is kept only when it
/// is not empty, and its points must be a number.
pub open spec fn spec_event(e: EventSubmissionType) -> Result<EventContentView, EventError> {
    match e {
        EventSubmissionType::SpreadGroup { spreads } => match spec_spreads_prefix(
            spreads@,
            spreads@.len(),
        ) {
            Err(err) => Err(err),
            Ok(ss) => Ok(EventContentView::SpreadGroup(ss)),
        },
        EventSubmissionType::UserInput { title, description, points } => match spec_parse_i32(
            points@,
        ) {
            None => Err(EventError::UnparsableNumber),
            Some(p) => Ok(
                EventContentView::UserInput(
                    UserInputView {
                        title,
                        description: if description@.len() == 0 {
                            None
                        } else {
                            Some(description)
                        },
                        points: p,
                        acceptable_answers: None,
                    },
                ),
            ),
        },
    }
}

/// The first `k` events as stored, stopping at the first refused one.
pub open spec fn spec_events_prefix(es: Seq<EventSubmissionType>, k: nat) -> Result<
    Seq<EventContentView>,
    EventError,
>
    decreases k,
{
    if k == 0 {
        Ok(Seq::empty())
    } else {
        match spec_events_prefix(es, (k - 1) as nat) {
            Err(e) => Err(e),
            Ok(prev) => match spec_event(es[k - 1]) {
                Err(e) => Err(e),
                Ok(c) => Ok(prev.push(c)),
            },
        }
    }
}

/// All submitted events as stored, or the first refusal.
pub open spec fn spec_validate_events(es: Seq<EventSubmissionType>) -> Result<
    Seq<EventContentView>,
    EventError,
> {
    spec_events_prefix(es, es.len())
}

proof fn lemma_spreads_error_persists(ss: Seq<SpreadSubmission>, k: nat, m: nat)
    requires
        k <= m,
        spec_spreads_prefix(ss, k) is Err,
    ensures
        spec_spreads_prefix(ss, m) == spec_spreads_prefix(ss, k),
    decreases m - k,
{
    if k < m {
        lemma_spreads_error_persists(ss, k, (m - 1) as nat);
    }
}

proof fn lemma_events_error_persists(es: Seq<EventSubmissionType>, k: nat, m: nat)
    requires
        k <= m,
        spec_events_prefix(es, k) is Err,
    ensures
        spec_events_prefix(es, m) == spec_events_prefix(es, k),
    decreases m - k,
{
    if k < m {
        lemma_events_error_persists(es, k, (m - 1) as nat);
    }
}

/// The answer for a refused event.
fn event_rejection(k: EventError) -> (r: Rejection)
    ensures
        answers_event_error(r, k),
{
    match k {
        EventError::UnparsableNumber => bare_rejection(Status::BadRequest),
        EventError::UnparsableAmount => rejection(Status::BadRequest, "Could not parse amount"),
    }
}

/// Reads one submitted game.
fn validate_spread(s: SpreadSubmission) -> (r: Result<Spread, EventError>)
    ensures
        r == spec_spread(s),
{
    let home_id = match parse_i32(s.home_id.as_str()) {
        Some(v) => v,
        None => return Err(EventError::UnparsableNumber),
    };
    let away_id = match parse_i32(s.away_id.as_str()) {
        Some(v) => v,
        None => return Err(EventError::UnparsableNumber),
    };
    match s.home_spread {
        SpreadAmount::Halves(h) => Ok(
            Spread { home_id, away_id, home_spread_halves: h, notes: None, answer: None },
        ),
        SpreadAmount::Invalid => Err(EventError::UnparsableAmount),
    }
}

/// Reads the games of one submitted group.
fn validate_spreads(spreads: Vec<SpreadSubmission>) -> (r: Result<Vec<Spread>, EventError>)
    ensures
        match spec_spreads_prefix(spreads@, spreads@.len()) {
            Err(e) => r == Err::<Vec<Spread>, EventError>(e),
            Ok(ss) => r matches Ok(v) && v@ == ss,
        },
{
    let ghost orig = spreads@;
    let mut out: Vec<Spread> = Vec::new();
    for s in it: spreads.into_iter()
        invariant
            it.seq() == orig,
            spec_spreads_prefix(orig, it.index() as nat) == Ok::<Seq<Spread>, EventError>(out@),
    {
        let ghost i = it.index();
        assert(s == orig[i]);
        match validate_spread(s) {
            Err(e) => {
                proof {
                    lemma_spreads_error_persists(orig, (i + 1) as nat, orig.len());
                }
                return Err(e);
            },
            Ok(sp) => {
                out.push(sp);
            },
        }
    }
    Ok(out)
}

/// Reads one submitted event.
fn validate_event(e: EventSubmissionType) -> (r: Result<EventContent, EventError>)
    ensures
        match spec_event(e) {
            Err(k) => r == Err::<EventContent, EventError>(k),
            Ok(c) => r matches Ok(v) && v@ == c,
        },
{
    match e {
        EventSubmissionType::SpreadGroup { spreads } => {
            let v = validate_spreads(spreads)?;
            Ok(EventContent::SpreadGroup(v))
        },
        EventSubmissionType::UserInput { title, description, points } => {
            let description = if description.as_str().is_empty() {
                None
            } else {
                Some(description)
            };
            let points = match parse_i32(points.as_str()) {
                Some(p) => p,
                None => return Err(EventError::UnparsableNumber),
            };
            Ok(
                EventContent::UserInput(
                    UserInput { title, description, points, acceptable_answers: None },
                ),
            )
        },
    }
}

/// Reads the submitted events in order: each game's team ids and spread, each
/// question's points. The first refused event decides the answer.
pub fn validate_events(events: Vec<EventSubmissionType>) -> (r: Result<Vec<EventContent>, Rejection>)
    ensures
        match spec_validate_events(events@) {
            Err(k) => r matches Err(e) && answers_event_error(e, k),
            Ok(cs) => r matches Ok(v) && v@.map_values(|c: EventContent| c@) == cs,
        },
{
    let ghost orig = events@;
    let mut out: Vec<EventContent> = Vec::new();
    assert(out@.map_values(|c: EventContent| c@) =~= Seq::<EventContentView>::empty());
    for e in it: events.into_iter()
        invariant
            it.seq() == orig,
            spec_events_prefix(orig, it.index() as nat) == Ok::<Seq<EventContentView>, EventError>(
                out@.map_values(|c: EventContent| c@),
            ),
    {
        let ghost i = it.index();
        assert(e == orig[i]);
        match validate_event(e) {
            Err(k) => {
                proof {
                    lemma_events_error_persists(orig, (i + 1) as nat, orig.len());
                }
                return Err(event_rejection(k));
            },
            Ok(c) => {
                let ghost before = out@.map_values(|c: EventContent| c@);
                out.push(c);
                assert(out@.map_values(|c: EventContent| c@) =~= before.push(c@));
            },
        }
    }
    Ok(out)
}

/// The checks a chapter submission passes before anything is stored: its name,
/// then its events.
pub fn validate_submission(submission: EventSubmissions) -> (r: Result<
    (String, Vec<EventContent>),
    Rejection,
>)
    ensures
        !name_accepted(submission.chapter_name@) ==> (r matches Err(e) && answers_bad_name(
            e,
            submission.chapter_name@,
        )),
        name_accepted(submission.chapter_name@) ==> match spec_validate_events(
            submission.events@,
        ) {
            Err(k) => r matches Err(e) && answers_event_error(e, k),
            Ok(cs) => r matches Ok(t) && t.0 == submission.chapter_name && t.1@.map_values(
                |c: EventContent| c@,
            ) == cs,
        },
{
    let name = submission.chapter_name;
    validate_name(name.as_str())?;
    let events = validate_events(submission.events)?;
    Ok((name, events))
}

/// A question submitted for a new chapter is stored with its title, its
/// points read as a number, no recorded answers, and its description exactly
/// when the submitted description is not empty; it is refused only when its
/// points are not a number.
pub proof fn lemma_question_keeps_description(title: String, description: String, points: String)
    ensures
        spec_event((EventSubmissionType::UserInput { title, description, points })) is Ok
            <==> spec_parse_i32(points@) is Some,
        spec_parse_i32(points@) matches Some(n) ==> spec_event(
            (EventSubmissionType::UserInput { title, description, points }),
        ) == Ok::<EventContentView, EventError>(
            EventContentView::UserInput(
                (UserInputView {
                    title,
                    description: if description@.len() > 0 {
                        Some(description)
                    } else {
                        None
                    },
                    points: n,
                    acceptable_answers: None,
                }),
            ),
        ),
{
}

} // verus!
