//! The admin side of a chapter: recording the answers of its events, and
//! seeing who has not picked yet.

use std::collections::HashMap;

use vstd::prelude::*;

use crate::db::event::{ChapterPick, Event, EventContent, EventContentView};
use crate::db::spread::Spread;
use crate::db::user_input::UserInputView;
use crate::routes::chapter::page::{
    lemma_accepted_group_is_ranking, spec_group_points, spec_selections, SpreadGroupSpread,
};
use crate::error::{is_rejection, rejection, Rejection, Status};
use crate::text::{parse_i32, spec_parse_i32, text_eq};
use vstd::set_lib::*;

verus! {

broadcast use vstd::std_specs::hash::group_hash_axioms;

/// The answers submitted for a chapter.
pub struct AnswerSubmission {
    pub events: Vec<AnswerEvent>,
}

/// The answers submitted for one event.
pub struct AnswerEvent {
    pub event_id: String,
    pub content: AnswerEventContent,
}

/// The answers of one event: the winning side of each game of a group, or the
/// answers accepted for a question.
pub enum AnswerEventContent {
    SpreadGroup { selections: Vec<String> },
    UserInput { choices: Option<Vec<String>> },
}

/// Which way a chapter toggle is set.
pub struct ToggleParam {
    pub toggle: bool,
}

/// Which question's submitted answers to list.
pub struct UserInputParams {
    pub event_id: i32,
}

/// Why an answer submission is refused.
#[derive(Clone, Copy, Debug, PartialEq, Eq, Structural)]
pub enum AnswerError {
    UnparsableEventId,
    MissingEvent,
    SpreadCountMismatch,
    TypeMismatch,
}

/// The message for a refused answer submission.
pub open spec fn spec_answer_error_message(e: AnswerError) -> Seq<char> {
    match e {
        AnswerError::UnparsableEventId => "Could not parse event id"@,
        AnswerError::MissingEvent => "Not all events were included in request"@,
        AnswerError::SpreadCountMismatch => "Spread Group Submissions do not cover all games"@,
        AnswerError::TypeMismatch => "Submitted event does not match its actual type"@,
    }
}

impl AnswerError {
    /// How the request is answered: a bad request with the error's message.
    pub fn rejection(&self) -> (r: Rejection)
        ensures
            is_rejection(r, Status::BadRequest, spec_answer_error_message(*self)),
    {
        match self {
            AnswerError::UnparsableEventId => rejection(Status::BadRequest, "Could not parse event id"),
            AnswerError::MissingEvent => rejection(
                Status::BadRequest,
                "Not all events were included in request",
            ),
            AnswerError::SpreadCountMismatch => rejection(
                Status::BadRequest,
                "Spread Group Submissions do not cover all games",
            ),
            AnswerError::TypeMismatch => rejection(
                Status::BadRequest,
                "Submitted event does not match its actual type",
            ),
        }
    }
}

/// The submissions with their event ids read as numbers, or `None` when one is not a number.
pub open spec fn spec_parse_submissions(subs: Seq<AnswerEvent>) -> Option<
    Seq<(i32, AnswerEventContent)>,
> {
    if forall|i: int| 0 <= i < subs.len() ==> (#[trigger] spec_parse_i32(subs[i].event_id@)) is Some {
        Some(
            subs.map_values(
                |s: AnswerEvent| (spec_parse_i32(s.event_id@)->0, s.content),
            ),
        )
    } else {
        None
    }
}

/// The submissions keyed by event id; a later submission for an id replaces an earlier one.
pub open spec fn spec_submission_map(pairs: Seq<(i32, AnswerEventContent)>) -> Map<
    i32,
    AnswerEventContent,
>
    decreases pairs.len(),
{
    if pairs.len() == 0 {
        Map::empty()
    } else {
        spec_submission_map(pairs.drop_last()).insert(pairs.last().0, pairs.last().1)
    }
}

/// The games of a group with each game's answer set to the selection at its position.
pub open spec fn spec_answered_spreads(spreads: Seq<Spread>, selections: Seq<String>) -> Seq<
    Spread,
> {
    Seq::new(
        spreads.len(),
        |i: int| Spread { answer: Some(selections[i]), ..spreads[i] },
    )
}

/// An event's contents with its submitted answers recorded. A group needs one
/// selection per game; a question takes its accepted answers, none if none were sent.
pub open spec fn spec_answer_event(c: EventContentView, sub: AnswerEventContent) -> Result<
    EventContentView,
    AnswerError,
> {
    match (c, sub) {
        (
            EventContentView::SpreadGroup(spreads),
            AnswerEventContent::SpreadGroup { selections },
        ) => if spreads.len() != selections@.len() {
            Err(AnswerError::SpreadCountMismatch)
        } else {
            Ok(EventContentView::SpreadGroup(spec_answered_spreads(spreads, selections@)))
        },
        (EventContentView::UserInput(u), AnswerEventContent::UserInput { choices }) => Ok(
            EventContentView::UserInput(
                UserInputView {
                    acceptable_answers: Some(
                        match choices {
                            Some(v) => v@,
                            None => Seq::empty(),
                        },
                    ),
                    ..u
                },
            ),
        ),
        _ => Err(AnswerError::TypeMismatch),
    }
}

/// The first `k` events with their answers recorded, in event order, and the
/// submissions not yet used. Each event takes its submission out of the map.
pub open spec fn spec_apply_prefix(
    events: Seq<Event>,
    m0: Map<i32, AnswerEventContent>,
    k: nat,
) -> Result<(Seq<(i32, EventContentView)>, Map<i32, AnswerEventContent>), AnswerError>
    decreases k,
{
    if k == 0 {
        Ok((Seq::empty(), m0))
    } else {
        match spec_apply_prefix(events, m0, (k - 1) as nat) {
            Err(e) => Err(e),
            Ok((done, m)) => {
                let e = events[k - 1];
                if !m.contains_key(e.id) {
                    Err(AnswerError::MissingEvent)
                } else {
                    match spec_answer_event(e.contents@, m[e.id]) {
                        Err(x) => Err(x),
                        Ok(c) => Ok((done.push((e.id, c)), m.remove(e.id))),
                    }
                }
            },
        }
    }
}

/// The chapter's events with their answers recorded, in event order, or why
/// the submission is refused.
pub open spec fn spec_apply_answers(events: Seq<Event>, subs: Seq<AnswerEvent>) -> Result<
    Seq<(i32, EventContentView)>,
    AnswerError,
> {
    match spec_parse_submissions(subs) {
        None => Err(AnswerError::UnparsableEventId),
        Some(pairs) => match spec_apply_prefix(events, spec_submission_map(pairs), events.len()) {
            Err(e) => Err(e),
            Ok((done, _)) => Ok(done),
        },
    }
}

proof fn lemma_apply_error_persists(
    events: Seq<Event>,
    m0: Map<i32, AnswerEventContent>,
    k: nat,
    m: nat,
)
    requires
        k <= m,
        spec_apply_prefix(events, m0, k) is Err,
    ensures
        spec_apply_prefix(events, m0, m) == spec_apply_prefix(events, m0, k),
    decreases m - k,
{
    if k < m {
        lemma_apply_error_persists(events, m0, k, (m - 1) as nat);
    }
}

/// What an accepted prefix of the events holds: one entry per event, in order,
/// each the event's id with the answers submitted for it recorded; the
/// submissions left are the unused ones, and no event id came twice.
proof fn lemma_apply_prefix_shape(events: Seq<Event>, m0: Map<i32, AnswerEventContent>, k: nat)
    requires
        k <= events.len(),
        spec_apply_prefix(events, m0, k) is Ok,
    ensures
        ({
            let (done, m) = spec_apply_prefix(events, m0, k)->Ok_0;
            &&& done.len() == k
            &&& forall|i: int|
                0 <= i < k ==> (#[trigger] done[i]).0 == events[i].id && m0.contains_key(events[i].id)
                    && spec_answer_event(events[i].contents@, m0[events[i].id]) == Ok::<
                    EventContentView,
                    AnswerError,
                >(done[i].1) && !m.contains_key(events[i].id)
            &&& forall|x: i32| #[trigger] m.contains_key(x) ==> m0.contains_key(x) && m[x] == m0[x]
            &&& forall|i: int, j: int| 0 <= i < j < k ==> events[i].id != events[j].id
        }),
    decreases k,
{
    if k > 0 {
        lemma_apply_prefix_shape(events, m0, (k - 1) as nat);
        let (prev, pm) = spec_apply_prefix(events, m0, (k - 1) as nat)->Ok_0;
        let (done, m) = spec_apply_prefix(events, m0, k)->Ok_0;
        let e = events[k - 1];
        assert(pm.contains_key(e.id));
        assert(m == pm.remove(e.id));
        assert(done == prev.push((e.id, spec_answer_event(e.contents@, pm[e.id])->Ok_0)));
        assert forall|i: int| 0 <= i < k implies (#[trigger] done[i]).0 == events[i].id && m0.contains_key(
            events[i].id,
        ) && spec_answer_event(events[i].contents@, m0[events[i].id]) == Ok::<
            EventContentView,
            AnswerError,
        >(done[i].1) && !m.contains_key(events[i].id) by {
            if i < k - 1 {
                assert(done[i] == prev[i]);
                assert(!pm.contains_key(events[i].id));
            }
        }
        assert forall|i: int, j: int| 0 <= i < j < k implies events[i].id != events[j].id by {
            if j == k - 1 {
                assert(prev[i].0 == events[i].id);
                assert(!pm.contains_key(events[i].id));
            }
        }
    }
}

/// Recording answers changes only what the events hold: an accepted
/// submission gives back every event of the chapter once, in order, each with
/// exactly the answers submitted for it recorded.
pub proof fn lemma_each_event_gets_its_answers(events: Seq<Event>, subs: Seq<AnswerEvent>)
    requires
        spec_apply_answers(events, subs) is Ok,
    ensures
        ({
            let done = spec_apply_answers(events, subs)->Ok_0;
            let m0 = spec_submission_map(spec_parse_submissions(subs)->0);
            &&& done.map_values(|d: (i32, EventContentView)| d.0) == events.map_values(
                |e: Event| e.id,
            )
            &&& forall|i: int| 0 <= i < events.len() ==> #[trigger] m0.contains_key(events[i].id)
            &&& forall|i: int|
                0 <= i < events.len() ==> spec_answer_event(events[i].contents@, m0[events[i].id])
                    == Ok::<EventContentView, AnswerError>((#[trigger] done[i]).1)
        }),
{
    let m0 = spec_submission_map(spec_parse_submissions(subs)->0);
    lemma_apply_prefix_shape(events, m0, events.len());
    let done = spec_apply_answers(events, subs)->Ok_0;
    let (d, m) = spec_apply_prefix(events, m0, events.len())->Ok_0;
    assert(done == d);
    assert forall|i: int| 0 <= i < events.len() implies spec_answer_event(
        events[i].contents@,
        m0[events[i].id],
    ) == Ok::<EventContentView, AnswerError>((#[trigger] done[i]).1) by {
        assert(d[i].0 == events[i].id);
    }
    assert forall|i: int| 0 <= i < events.len() implies #[trigger] m0.contains_key(events[i].id) by {
        assert(d[i].0 == events[i].id);
    }
    assert(done.map_values(|x: (i32, EventContentView)| x.0) =~= events.map_values(|e: Event| e.id));
}

/// Reads the event ids of the submissions and keys the submissions by them.
fn submission_map(subs: Vec<AnswerEvent>) -> (r: Option<HashMap<i32, AnswerEventContent>>)
    ensures
        match spec_parse_submissions(subs@) {
            None => r is None,
            Some(pairs) => r matches Some(m) && m@ == spec_submission_map(pairs),
        },
{
    let ghost orig = subs@;
    let mut m: HashMap<i32, AnswerEventContent> = HashMap::new();
    let ghost mut pairs: Seq<(i32, AnswerEventContent)> = Seq::empty();
    for s in it: subs.into_iter()
        invariant
            it.seq() == orig,
            pairs.len() == it.index(),
            forall|j: int|
                0 <= j < it.index() ==> (#[trigger] spec_parse_i32(orig[j].event_id@)) == Some(
                    pairs[j].0,
                ) && pairs[j].1 == orig[j].content,
            m@ == spec_submission_map(pairs),
    {
        let ghost i = it.index();
        assert(s == orig[i]);
        match parse_i32(s.event_id.as_str()) {
            None => {
                assert(spec_parse_i32(orig[i as int].event_id@) is None);
                return None;
            },
            Some(id) => {
                let ghost old_pairs = pairs;
                proof {
                    pairs = pairs.push((id, s.content));
                    assert(pairs.drop_last() =~= old_pairs);
                }
                m.insert(id, s.content);
            },
        }
    }
    assert(pairs =~= orig.map_values(
        |s: AnswerEvent| (spec_parse_i32(s.event_id@)->0, s.content),
    ));
    Some(m)
}

/// Sets each game's answer to the selection at its position.
fn answered_spreads(spreads: Vec<Spread>, selections: Vec<String>) -> (r: Vec<Spread>)
    requires
        spreads@.len() == selections@.len(),
    ensures
        r@ == spec_answered_spreads(spreads@, selections@),
{
    let ghost sp = spreads@;
    let ghost sel = selections@;
    let mut rest = selections;
    let mut out: Vec<Spread> = Vec::new();
    for spread in it: spreads.into_iter()
        invariant
            it.seq() == sp,
            sel.len() == sp.len(),
            rest@ == sel.skip(it.index() as int),
            out@.len() == it.index(),
            forall|j: int|
                0 <= j < it.index() ==> #[trigger] out@[j] == (Spread {
                    answer: Some(sel[j]),
                    ..sp[j]
                }),
    {
        let ghost i = it.index();
        assert(spread == sp[i]);
        assert(rest@[0] == sel[i as int]);
        let selection = rest.remove(0);
        assert(rest@ =~= sel.skip(i + 1));
        let mut answered = spread;
        answered.answer = Some(selection);
        out.push(answered);
    }
    assert(out@ =~= spec_answered_spreads(sp, sel));
    out
}

/// Records the submitted answers in one event's contents.
fn answer_event(c: EventContent, sub: AnswerEventContent) -> (r: Result<EventContent, AnswerError>)
    ensures
        match spec_answer_event(c@, sub) {
            Err(e) => r == Err::<EventContent, AnswerError>(e),
            Ok(v) => r matches Ok(x) && x@ == v,
        },
{
    match (c, sub) {
        (EventContent::SpreadGroup(spreads), AnswerEventContent::SpreadGroup { selections }) => {
            if spreads.len() != selections.len() {
                return Err(AnswerError::SpreadCountMismatch);
            }
            Ok(EventContent::SpreadGroup(answered_spreads(spreads, selections)))
        },
        (EventContent::UserInput(input), AnswerEventContent::UserInput { choices }) => {
            let answers = match choices {
                Some(v) => v,
                None => Vec::new(),
            };
            let mut input = input;
            input.acceptable_answers = Some(answers);
            Ok(EventContent::UserInput(input))
        },
        _ => Err(AnswerError::TypeMismatch),
    }
}

/// Records a chapter's submitted answers: every event of the chapter must have
/// a submission of its own kind, and a group one selection per game. Returns
/// the event ids and their updated contents in event order.
pub fn apply_answers(events: Vec<Event>, submissions: Vec<AnswerEvent>) -> (r: Result<
    (Vec<i32>, Vec<EventContent>),
    AnswerError,
>)
    ensures
        match spec_apply_answers(events@, submissions@) {
            Err(k) => r == Err::<(Vec<i32>, Vec<EventContent>), AnswerError>(k),
            Ok(done) => r matches Ok(t) && t.0@ == done.map_values(
                |d: (i32, EventContentView)| d.0,
            ) && t.1@.map_values(|c: EventContent| c@) == done.map_values(
                |d: (i32, EventContentView)| d.1,
            ),
        },
{
    let ghost orig = events@;
    let ghost subs = submissions@;
    let mut map = match submission_map(submissions) {
        Some(m) => m,
        None => return Err(AnswerError::UnparsableEventId),
    };
    let ghost m0 = map@;
    let mut ids: Vec<i32> = Vec::new();
    let mut contents: Vec<EventContent> = Vec::new();
    let ghost mut done: Seq<(i32, EventContentView)> = Seq::empty();
    for e in it: events.into_iter()
        invariant
            it.seq() == orig,
            orig == events@,
            subs == submissions@,
            spec_parse_submissions(subs) is Some,
            m0 == spec_submission_map(spec_parse_submissions(subs)->0),
            spec_apply_prefix(orig, m0, it.index() as nat) == Ok::<
                (Seq<(i32, EventContentView)>, Map<i32, AnswerEventContent>),
                AnswerError,
            >((done, map@)),
            ids@.len() == done.len(),
            contents@.len() == done.len(),
            forall|j: int| 0 <= j < done.len() ==> #[trigger] done[j] == (ids@[j], contents@[j]@),
    {
        let ghost i = it.index();
        assert(e == orig[i]);
        let ghost before = map@;
        match map.remove(&e.id) {
            None => {
                proof {
                    lemma_apply_error_persists(orig, m0, (i + 1) as nat, orig.len());
                }
                return Err(AnswerError::MissingEvent);
            },
            Some(sub) => {
                assert(sub == before[e.id]);
                match answer_event(e.contents, sub) {
                    Err(x) => {
                        proof {
                            lemma_apply_error_persists(orig, m0, (i + 1) as nat, orig.len());
                        }
                        return Err(x);
                    },
                    Ok(c) => {
                        proof {
                            done = done.push((e.id, c@));
                        }
                        ids.push(e.id);
                        contents.push(c);
                    },
                }
            },
        }
    }
    assert(ids@ =~= done.map_values(|d: (i32, EventContentView)| d.0));
    assert(contents@.map_values(|c: EventContent| c@) =~= done.map_values(
        |d: (i32, EventContentView)| d.1,
    ));
    Ok((ids, contents))
}

/// Who has submitted picks on a chapter, as the admin page shows it.
#[derive(Debug)]
pub enum SubmissionSummary {
    AllSubmitted,
    NoneSubmitted,
    Partial { unpicked: Vec<String>, picked: Vec<String> },
}

/// The position of the first user who has picked on every event, or the
/// length when there is none.
pub open spec fn spec_first_complete(statuses: Seq<(String, bool)>) -> nat
    decreases statuses.len(),
{
    if statuses.len() == 0 {
        0
    } else if statuses[0].1 {
        0
    } else {
        1 + spec_first_complete(statuses.drop_first())
    }
}

/// The first complete position splits the list: everyone before it is
/// incomplete, and the user at it (if any) is complete.
pub proof fn lemma_first_complete_splits(statuses: Seq<(String, bool)>)
    ensures
        spec_first_complete(statuses) <= statuses.len(),
        forall|i: int| 0 <= i < spec_first_complete(statuses) ==> !(#[trigger] statuses[i]).1,
        spec_first_complete(statuses) < statuses.len() ==> statuses[spec_first_complete(
            statuses,
        ) as int].1,
    decreases statuses.len(),
{
    if statuses.len() > 0 && !statuses[0].1 {
        let rest = statuses.drop_first();
        lemma_first_complete_splits(rest);
        assert forall|i: int| 0 <= i < spec_first_complete(statuses) implies !(
        #[trigger] statuses[i]).1 by {
            if i > 0 {
                assert(statuses[i] == rest[i - 1]);
            }
        }
        if spec_first_complete(statuses) < statuses.len() {
            assert(statuses[spec_first_complete(statuses) as int] == rest[spec_first_complete(
                rest,
            ) as int]);
        }
    }
}

/// The usernames of a list of statuses.
pub open spec fn usernames(statuses: Seq<(String, bool)>) -> Seq<String> {
    statuses.map_values(|p: (String, bool)| p.0)
}

/// Splits the users, listed incomplete ones first, at the first one who has
/// picked on every event. With nobody before that point all picks are in;
/// with nobody after it none are; otherwise both lists are shown.
pub fn summarize_submissions(statuses: Vec<(String, bool)>) -> (r: SubmissionSummary)
    ensures
        ({
            let st = statuses@;
            let k = spec_first_complete(st);
            &&& k == 0 ==> r is AllSubmitted
            &&& (0 < k && k == st.len()) ==> r is NoneSubmitted
            &&& (0 < k && k < st.len()) ==> (r matches SubmissionSummary::Partial {
                unpicked,
                picked,
            } && unpicked@ == usernames(st.take(k as int)) && picked@ == usernames(
                st.skip(k as int),
            ))
        }),
{
    let ghost st = statuses@;
    proof {
        lemma_first_complete_splits(st);
    }
    let n = statuses.len();
    let mut first: usize = 0;
    while first < n && !statuses[first].1
        invariant
            n == st.len(),
            statuses@ == st,
            first <= n,
            forall|i: int| 0 <= i < first ==> !(#[trigger] st[i]).1,
            first <= spec_first_complete(st),
            spec_first_complete(st) <= st.len(),
            spec_first_complete(st) < st.len() ==> st[spec_first_complete(st) as int].1,
        decreases n - first,
    {
        first = first + 1;
    }
    assert(first == spec_first_complete(st));
    if first == 0 {
        return SubmissionSummary::AllSubmitted;
    }
    if first == n {
        return SubmissionSummary::NoneSubmitted;
    }
    let mut unpicked: Vec<String> = Vec::new();
    let mut picked: Vec<String> = Vec::new();
    for p in it: statuses.into_iter()
        invariant
            it.seq() == st,
            first < st.len(),
            it.index() <= first ==> unpicked@ =~= usernames(st.take(it.index() as int)),
            it.index() <= first ==> picked@.len() == 0,
            it.index() > first ==> unpicked@ =~= usernames(st.take(first as int)),
            it.index() > first ==> picked@ =~= usernames(st.subrange(first as int, it.index() as int)),
    {
        let ghost i = it.index();
        assert(p == st[i]);
        if unpicked.len() < first {
            assert(i < first);
            unpicked.push(p.0);
            assert(st.take(i + 1) =~= st.take(i as int).push(st[i as int]));
        } else {
            proof {
                if i == first {
                    assert(unpicked@.len() == first);
                } else {
                    assert(unpicked@.len() == first);
                }
            }
            picked.push(p.0);
        }
    }
    assert(st.subrange(first as int, st.len() as int) =~= st.skip(first as int));
    SubmissionSummary::Partial { unpicked, picked }
}

/// The summary loses nobody and lists nobody twice: the users before the
/// first complete one, followed by the rest, are all the users in order.
pub proof fn lemma_summary_lists_everyone(statuses: Seq<(String, bool)>)
    ensures
        usernames(statuses.take(spec_first_complete(statuses) as int)) + usernames(
            statuses.skip(spec_first_complete(statuses) as int),
        ) == usernames(statuses),
{
    lemma_first_complete_splits(statuses);
    let k = spec_first_complete(statuses) as int;
    assert(statuses.take(k) + statuses.skip(k) =~= statuses);
    assert(usernames(statuses.take(k)) + usernames(statuses.skip(k)) =~= usernames(statuses));
}

/// What recording the answers does to the points of one stored pick: nothing,
/// or set them (possibly to none).
#[derive(Clone, Copy, Debug, PartialEq, Eq, Structural)]
pub enum Award {
    Unchanged,
    Points(Option<i128>),
}

/// The value of position `i` of a group's scoring: the games, the pick's sides
/// and its wagers are read side by side, a missing entry counting as unknown.
/// A right side wins its wager (unknown without one); anything else wins nothing.
pub open spec fn spec_row_value(spreads: Seq<Spread>, choice: Seq<String>, wager: Seq<i32>, i: int) -> Option<int> {
    let right = i < spreads.len() && i < choice.len() && spreads[i].answer is Some
        && spreads[i].answer->0@ == choice[i]@;
    if right {
        if i < wager.len() {
            Some(wager[i] as int)
        } else {
            None
        }
    } else {
        Some(0)
    }
}

/// The longest of the three lists a group's scoring reads side by side.
pub open spec fn spec_row_count(spreads: Seq<Spread>, choice: Seq<String>, wager: Seq<i32>) -> nat {
    let a = if spreads.len() >= choice.len() { spreads.len() } else { choice.len() };
    if a >= wager.len() { a } else { wager.len() }
}

/// The known values among the first `k` positions: whether there is one, and their sum.
pub open spec fn spec_row_sum(spreads: Seq<Spread>, choice: Seq<String>, wager: Seq<i32>, k: nat) -> (bool, int)
    decreases k,
{
    if k == 0 {
        (false, 0)
    } else {
        let (any, total) = spec_row_sum(spreads, choice, wager, (k - 1) as nat);
        match spec_row_value(spreads, choice, wager, k - 1) {
            Some(v) => (true, total + v),
            None => (any, total),
        }
    }
}

/// What a group pick is awarded: with nothing to read nothing changes;
/// otherwise the sum of the known values, none if no value is known.
pub open spec fn spec_group_award(spreads: Seq<Spread>, choice: Seq<String>, wager: Seq<i32>) -> Award {
    let n = spec_row_count(spreads, choice, wager);
    if n == 0 {
        Award::Unchanged
    } else {
        let (any, total) = spec_row_sum(spreads, choice, wager, n);
        if any {
            Award::Points(Some(total as i128))
        } else {
            Award::Points(None)
        }
    }
}

/// Whether the accepted answers hold the given text.
pub open spec fn spec_accepts(answers: Option<Seq<String>>, choice: Seq<char>) -> bool {
    match answers {
        Some(a) => holds_text(a, choice),
        None => false,
    }
}

/// Whether one of `texts` is `t`.
pub open spec fn holds_text(texts: Seq<String>, t: Seq<char>) -> bool {
    exists|j: int| 0 <= j < texts.len() && (#[trigger] texts[j])@ == t
}

/// What a question pick is awarded: its wager when its text is an accepted
/// answer, nothing otherwise.
pub open spec fn spec_input_award(answers: Option<Seq<String>>, choice: Seq<char>, wager: i32) -> Award {
    if spec_accepts(answers, choice) {
        Award::Points(Some(wager as i128))
    } else {
        Award::Points(Some(0))
    }
}

/// What a pick is awarded once its event's answers are recorded, or `None`
/// when the pick's shape is not its event's, which makes the whole update fail.
pub open spec fn spec_award(c: EventContentView, pick: ChapterPick) -> Option<Award> {
    match (c, pick) {
        (EventContentView::SpreadGroup(spreads), ChapterPick::SpreadGroup { choice, wager, .. }) => Some(
            spec_group_award(spreads, choice@, wager@),
        ),
        (EventContentView::UserInput(u), ChapterPick::UserInput { choice, wager, .. }) => Some(
            spec_input_award(u.acceptable_answers, choice@, wager),
        ),
        _ => None,
    }
}

/// Scores a group pick against the recorded answers.
fn group_award(spreads: &Vec<Spread>, choice: &Vec<String>, wager: &Vec<i32>) -> (r: Award)
    ensures
        r == spec_group_award(spreads@, choice@, wager@),
{
    let a = if spreads.len() >= choice.len() {
        spreads.len()
    } else {
        choice.len()
    };
    let n = if a >= wager.len() {
        a
    } else {
        wager.len()
    };
    if n == 0 {
        return Award::Unchanged;
    }
    let mut any = false;
    let mut total: i128 = 0;
    let mut i: usize = 0;
    while i < n
        invariant
            n == spec_row_count(spreads@, choice@, wager@),
            i <= n,
            (any, total as int) == spec_row_sum(spreads@, choice@, wager@, i as nat),
            -2147483648 * (i as int) <= total <= 2147483647 * (i as int),
        decreases n - i,
    {
        let right = i < spreads.len() && i < choice.len() && match &spreads[i].answer {
            Some(ans) => text_eq(ans.as_str(), choice[i].as_str()),
            None => false,
        };
        if right {
            if i < wager.len() {
                total = total + wager[i] as i128;
                any = true;
            }
        } else {
            any = true;
        }
        i = i + 1;
    }
    if any {
        Award::Points(Some(total))
    } else {
        Award::Points(None)
    }
}

/// Whether one of `texts` is `t`.
fn has_text(texts: &Vec<String>, t: &str) -> (r: bool)
    ensures
        r == holds_text(texts@, t@),
{
    let mut j: usize = 0;
    while j < texts.len()
        invariant
            j <= texts@.len(),
            forall|m: int| 0 <= m < j ==> (#[trigger] texts@[m])@ != t@,
        decreases texts@.len() - j,
    {
        if text_eq(texts[j].as_str(), t) {
            assert((texts@[j as int])@ == t@);
            return true;
        }
        j = j + 1;
    }
    false
}

/// Whether a question's recorded answers accept a submitted text; a question
/// without recorded answers accepts none. The admin page marks the accepted ones.
pub fn is_accepted_answer(answers: &Option<Vec<String>>, choice: &str) -> (r: bool)
    ensures
        r == spec_accepts(
            match answers {
                Some(v) => Some(v@),
                None => None,
            },
            choice@,
        ),
{
    match answers {
        None => false,
        Some(list) => has_text(list, choice),
    }
}

/// Scores a question pick against the accepted answers.
fn input_award(answers: &Option<Vec<String>>, choice: &String, wager: i32) -> (r: Award)
    ensures
        r == spec_input_award(
            match answers {
                Some(v) => Some(v@),
                None => None,
            },
            choice@,
            wager,
        ),
{
    match answers {
        None => Award::Points(Some(0)),
        Some(list) => if has_text(list, choice.as_str()) {
            Award::Points(Some(wager as i128))
        } else {
            Award::Points(Some(0))
        },
    }
}

/// What a stored pick is awarded once its event's answers are recorded: a
/// group pick the wagers of the games it got right, a question pick its wager
/// when its text is accepted. `None` when the pick does not have its event's shape.
pub fn award(c: &EventContent, pick: &ChapterPick) -> (r: Option<Award>)
    ensures
        r == spec_award(c@, *pick),
        match (c@, *pick) {
            (EventContentView::UserInput(u), ChapterPick::UserInput { choice, wager, .. }) => r
                == Some(
                Award::Points(
                    Some(
                        if u.acceptable_answers matches Some(a) && exists|j: int|
                            0 <= j < a.len() && (#[trigger] a[j])@ == choice@ {
                            wager as i128
                        } else {
                            0
                        },
                    ),
                ),
            ),
            _ => true,
        },
{
    match (c, pick) {
        (EventContent::SpreadGroup(spreads), ChapterPick::SpreadGroup { choice, wager, .. }) => Some(
            group_award(spreads, choice, wager),
        ),
        (EventContent::UserInput(u), ChapterPick::UserInput { choice, wager, .. }) => Some(
            input_award(&u.acceptable_answers, choice, *wager),
        ),
        _ => None,
    }
}

/// Whether the pick got game `i` right: the game has an answer and the pick names it.
pub open spec fn game_right(spreads: Seq<Spread>, choice: Seq<String>, i: int) -> bool {
    spreads[i].answer is Some && spreads[i].answer->0@ == choice[i]@
}

/// The wagers on the first `k` games the pick got right.
pub open spec fn right_wagers(spreads: Seq<Spread>, choice: Seq<String>, wager: Seq<i32>, k: nat) -> int
    decreases k,
{
    if k == 0 {
        0
    } else {
        right_wagers(spreads, choice, wager, (k - 1) as nat) + if game_right(spreads, choice, k - 1) {
            wager[k - 1] as int
        } else {
            0
        }
    }
}

/// The wagers on the first `k` games.
pub open spec fn total_wagers(wager: Seq<i32>, k: nat) -> int
    decreases k,
{
    if k == 0 {
        0
    } else {
        total_wagers(wager, (k - 1) as nat) + wager[k - 1] as int
    }
}

proof fn lemma_aligned_row_sum(spreads: Seq<Spread>, choice: Seq<String>, wager: Seq<i32>, k: nat)
    requires
        choice.len() == spreads.len(),
        wager.len() == spreads.len(),
        k <= spreads.len(),
    ensures
        spec_row_sum(spreads, choice, wager, k) == (k > 0, right_wagers(spreads, choice, wager, k)),
    decreases k,
{
    if k > 0 {
        lemma_aligned_row_sum(spreads, choice, wager, (k - 1) as nat);
    }
}

/// A pick that names a side and a wager for every game of a group is awarded
/// exactly the wagers on the games it got right.
pub proof fn lemma_aligned_pick_wins_right_wagers(
    spreads: Seq<Spread>,
    choice: Seq<String>,
    wager: Seq<i32>,
)
    requires
        spreads.len() > 0,
        choice.len() == spreads.len(),
        wager.len() == spreads.len(),
    ensures
        spec_group_award(spreads, choice, wager) == Award::Points(
            Some(right_wagers(spreads, choice, wager, spreads.len()) as i128),
        ),
{
    lemma_aligned_row_sum(spreads, choice, wager, spreads.len());
}

/// With positive wagers, the wagers on the games a pick got right never exceed
/// all its wagers, and reach them exactly when it got every game right.
pub proof fn lemma_right_wagers_bounded(
    spreads: Seq<Spread>,
    choice: Seq<String>,
    wager: Seq<i32>,
    k: nat,
)
    requires
        k <= spreads.len(),
        k <= choice.len(),
        k <= wager.len(),
        forall|i: int| 0 <= i < k ==> #[trigger] wager[i] >= 1,
    ensures
        0 <= right_wagers(spreads, choice, wager, k) <= total_wagers(wager, k),
        right_wagers(spreads, choice, wager, k) == total_wagers(wager, k) <==> forall|i: int|
            0 <= i < k ==> #[trigger] game_right(spreads, choice, i),
    decreases k,
{
    if k > 0 {
        lemma_right_wagers_bounded(spreads, choice, wager, (k - 1) as nat);
        assert(wager[k - 1] >= 1);
        if forall|i: int| 0 <= i < k ==> #[trigger] game_right(spreads, choice, i) {
            assert forall|i: int| 0 <= i < k - 1 implies #[trigger] game_right(spreads, choice, i) by {
                assert(game_right(spreads, choice, i));
            }
            assert(game_right(spreads, choice, k - 1));
        }
    }
}

/// Recording a group's answers and then scoring a pick that named every
/// recorded answer, with a wager per game, awards it all its wagers.
pub proof fn lemma_pick_matching_answers_wins_all(
    spreads: Seq<Spread>,
    selections: Seq<String>,
    choice: Seq<String>,
    wager: Seq<i32>,
)
    requires
        spreads.len() > 0,
        selections.len() == spreads.len(),
        choice.len() == spreads.len(),
        wager.len() == spreads.len(),
        forall|i: int| 0 <= i < spreads.len() ==> (#[trigger] choice[i])@ == selections[i]@,
        forall|i: int| 0 <= i < spreads.len() ==> #[trigger] wager[i] >= 1,
    ensures
        spec_group_award(spec_answered_spreads(spreads, selections), choice, wager) == Award::Points(
            Some(total_wagers(wager, spreads.len()) as i128),
        ),
{
    let answered = spec_answered_spreads(spreads, selections);
    lemma_aligned_pick_wins_right_wagers(answered, choice, wager);
    assert forall|i: int| 0 <= i < answered.len() implies #[trigger] game_right(answered, choice, i) by {
        assert(answered[i].answer == Some(selections[i]));
        assert(choice[i]@ == selections[i]@);
    }
    lemma_right_wagers_bounded(answered, choice, wager, answered.len());
}

/// The sum of the first `k` wagers reads only those wagers.
proof fn lemma_total_reads_prefix(a: Seq<i32>, b: Seq<i32>, k: nat)
    requires
        k <= a.len(),
        k <= b.len(),
        forall|i: int| 0 <= i < k ==> a[i] == b[i],
    ensures
        total_wagers(a, k) == total_wagers(b, k),
    decreases k,
{
    if k > 0 {
        lemma_total_reads_prefix(a, b, (k - 1) as nat);
    }
}

/// Taking one wager out of a list takes it out of the sum.
proof fn lemma_total_remove(s: Seq<i32>, j: int)
    requires
        0 <= j < s.len(),
    ensures
        total_wagers(s, s.len()) == total_wagers(s.remove(j), (s.len() - 1) as nat) + s[j],
    decreases s.len(),
{
    let n = s.len() as int;
    let t = s.remove(j);
    if j == n - 1 {
        assert forall|i: int| 0 <= i < n - 1 implies s[i] == t[i] by {}
        lemma_total_reads_prefix(s, t, (n - 1) as nat);
    } else {
        let d = s.drop_last();
        lemma_total_remove(d, j);
        assert forall|i: int| 0 <= i < n - 1 implies s[i] == d[i] by {}
        lemma_total_reads_prefix(s, d, (n - 1) as nat);
        let dr = d.remove(j);
        assert forall|i: int| 0 <= i < n - 2 implies t[i] == dr[i] by {
            if i < j {
                assert(t[i] == s[i]);
                assert(dr[i] == d[i]);
            } else {
                assert(t[i] == s[i + 1]);
                assert(dr[i] == d[i + 1]);
            }
        }
        lemma_total_reads_prefix(t, dr, (n - 2) as nat);
        assert(t[n - 2] == s[n - 1]);
    }
}

/// The ranks of a group of `n` games, `1..=n` each used once, add up to n(n+1)/2.
proof fn lemma_ranking_total(s: Seq<i32>)
    requires
        s.no_duplicates(),
        forall|i: int| 0 <= i < s.len() ==> 1 <= #[trigger] s[i] <= s.len(),
    ensures
        2 * total_wagers(s, s.len()) == s.len() * (s.len() + 1),
    decreases s.len(),
{
    let n = s.len() as int;
    if n > 0 {
        let ips = s.map_values(|x: i32| x as int);
        assert(exists|j: int| 0 <= j < n && s[j] == n) by {
            if forall|j: int| 0 <= j < n ==> s[j] != n {
                assert(ips.no_duplicates()) by {
                    assert forall|a: int, b: int| 0 <= a < ips.len() && 0 <= b < ips.len() && a != b
                        implies ips[a] != ips[b] by {
                        assert(s[a] != s[b]);
                    }
                }
                ips.unique_seq_to_set();
                lemma_int_range(1, n);
                assert(ips.to_set().subset_of(set_int_range(1, n))) by {
                    assert forall|x: int| ips.to_set().contains(x) implies set_int_range(1, n).contains(
                        x,
                    ) by {
                        let k = choose|k: int| 0 <= k < ips.len() && ips[k] == x;
                        assert(1 <= s[k] <= n);
                        assert(s[k] != n);
                    }
                }
                lemma_len_subset(ips.to_set(), set_int_range(1, n));
            }
        }
        let j = choose|j: int| 0 <= j < n && s[j] == n;
        let t = s.remove(j);
        assert forall|i: int| 0 <= i < t.len() implies 1 <= #[trigger] t[i] <= t.len() by {
            let k = if i < j { i } else { i + 1 };
            assert(t[i] == s[k]);
            assert(k != j);
            assert(s[k] != s[j]);
        }
        assert(t.no_duplicates()) by {
            assert forall|a: int, b: int| 0 <= a < t.len() && 0 <= b < t.len() && a != b implies t[a]
                != t[b] by {
                let ka = if a < j { a } else { a + 1 };
                let kb = if b < j { b } else { b + 1 };
                assert(t[a] == s[ka]);
                assert(t[b] == s[kb]);
            }
        }
        lemma_ranking_total(t);
        lemma_total_remove(s, j);
        assert(2 * total_wagers(s, s.len()) == n * (n + 1)) by (nonlinear_arith)
            requires
                2 * total_wagers(t, t.len()) == t.len() * (t.len() + 1),
                t.len() == n - 1,
                total_wagers(s, s.len()) == total_wagers(t, t.len()) + n,
        ;
    }
}

/// The scoring rule: a ranking accepted on the chapter page, scored once the
/// group's answers are recorded, earns exactly the ranks of the games it got
/// right. The ranks of a group of `n` games add up to n(n+1)/2; the pick earns
/// between nothing and all of them, and all of them exactly when it got every
/// game right.
pub proof fn lemma_accepted_ranking_scores(spreads: Seq<Spread>, submitted: Seq<SpreadGroupSpread>)
    requires
        submitted.len() > 0,
        spreads.len() == submitted.len(),
        spec_group_points(submitted) is Ok,
    ensures
        ({
            let n = spreads.len();
            let ranks = spec_group_points(submitted)->Ok_0;
            let sides = spec_selections(submitted);
            let won = right_wagers(spreads, sides, ranks, n);
            &&& spec_group_award(spreads, sides, ranks) == Award::Points(Some(won as i128))
            &&& 2 * total_wagers(ranks, n) == n * (n + 1)
            &&& 0 <= won <= total_wagers(ranks, n)
            &&& won == total_wagers(ranks, n) <==> forall|i: int|
                0 <= i < n ==> #[trigger] game_right(spreads, sides, i)
        }),
{
    let n = spreads.len();
    let ranks = spec_group_points(submitted)->Ok_0;
    let sides = spec_selections(submitted);
    lemma_accepted_group_is_ranking(submitted);
    lemma_aligned_pick_wins_right_wagers(spreads, sides, ranks);
    lemma_right_wagers_bounded(spreads, sides, ranks, n);
    lemma_ranking_total(ranks);
}

/// A question pick is scored by its own wager: once a question's answers are
/// recorded, a pick whose text is one of them earns exactly the wager the pick
/// was stored with, and any other pick earns nothing. The question's own
/// points play no part.
pub proof fn lemma_question_award_is_its_wager(
    u: UserInputView,
    choice: String,
    wager: i32,
    points: Option<i32>,
)
    ensures
        spec_award(
            EventContentView::UserInput(u),
            ChapterPick::UserInput { choice, wager, points },
        ) == Some(
            Award::Points(
                Some(
                    if u.acceptable_answers matches Some(a) && exists|j: int|
                        0 <= j < a.len() && (#[trigger] a[j])@ == choice@ {
                        wager as i128
                    } else {
                        0
                    },
                ),
            ),
        ),
        forall|q: i32|
            spec_award(
                EventContentView::UserInput(UserInputView { points: q, ..u }),
                ChapterPick::UserInput { choice, wager, points },
            ) == spec_award(
                EventContentView::UserInput(u),
                ChapterPick::UserInput { choice, wager, points },
            ),
{
}

} // verus!
