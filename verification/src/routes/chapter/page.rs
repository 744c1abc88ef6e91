//! A player's picks on a chapter: checking a submission before it is stored.
//!
//! In a spread group of `n` games the player ranks the games: each game gets a
//! distinct number of points from `1..=n`, won when the pick is right.

use vstd::prelude::*;

use crate::db::event::{
    ChapterPick, ChapterPickEntry, Event, EventContent, EventContentView, PickChoice,
    PickChoiceView, PickWager, PickWagerView,
};
use crate::db::spread::Spread;
use crate::db::user_input::UserInputView;
use crate::error::{rejection, is_rejection, Rejection, Status};
use crate::text::{parse_i32, spec_parse_i32, text_eq};
use vstd::set_lib::*;

verus! {

/// A player's submitted picks for a chapter.
pub struct PickSubmission {
    pub events: Vec<SubmissionEvent>,
}

/// The picks submitted for one event.
pub enum SubmissionEvent {
    SpreadGroup { event_id: String, spreads: Vec<SpreadGroupSpread> },
    UserInput { user_input: String, event_id: String },
}

/// One game of a spread group: the points put on it and the team picked.
pub struct SpreadGroupSpread {
    pub num_points: String,
    pub selection: String,
}

/// Why a pick submission is refused.
#[derive(Clone, Copy, Debug, PartialEq, Eq, Structural)]
pub enum PickError {
    UnparsablePoints,
    InvalidPoints,
    UnparsableEventId,
}

/// The answer to a refused pick submission.
pub open spec fn spec_pick_error_message(e: PickError) -> Seq<char> {
    match e {
        PickError::UnparsablePoints => "Could not parse Spread Group Points"@,
        PickError::InvalidPoints => "Points must be valid and cannot be repeated"@,
        PickError::UnparsableEventId => "Could not parse event id"@,
    }
}

impl PickError {
    /// How the request is answered: a bad request with the error's message.
    pub fn rejection(&self) -> (r: Rejection)
        ensures
            is_rejection(r, Status::BadRequest, spec_pick_error_message(*self)),
    {
        match self {
            PickError::UnparsablePoints => rejection(
                Status::BadRequest,
                "Could not parse Spread Group Points",
            ),
            PickError::InvalidPoints => rejection(
                Status::BadRequest,
                "Points must be valid and cannot be repeated",
            ),
            PickError::UnparsableEventId => rejection(Status::BadRequest, "Could not parse event id"),
        }
    }
}

/// The points of the first `k` games of a group, checked in order: each must
/// parse, lie in `1..=n` for a group of `n` games, and not repeat an earlier one.
pub open spec fn spec_points_prefix(spreads: Seq<SpreadGroupSpread>, k: nat) -> Result<
    Seq<i32>,
    PickError,
>
    decreases k,
{
    if k == 0 {
        Ok(Seq::empty())
    } else {
        match spec_points_prefix(spreads, (k - 1) as nat) {
            Err(e) => Err(e),
            Ok(prev) => match spec_parse_i32(spreads[k - 1].num_points@) {
                None => Err(PickError::UnparsablePoints),
                Some(a) => if a < 1 || a > spreads.len() || prev.contains(a) {
                    Err(PickError::InvalidPoints)
                } else {
                    Ok(prev.push(a))
                },
            },
        }
    }
}

/// The points of a whole spread group, or why they are refused.
pub open spec fn spec_group_points(spreads: Seq<SpreadGroupSpread>) -> Result<Seq<i32>, PickError> {
    spec_points_prefix(spreads, spreads.len())
}

/// The teams picked in a spread group, in game order.
pub open spec fn spec_selections(spreads: Seq<SpreadGroupSpread>) -> Seq<String> {
    spreads.map_values(|s: SpreadGroupSpread| s.selection)
}

/// One event's pick: its event id text, the choice and the wager.
pub open spec fn spec_event_pick(e: SubmissionEvent) -> Result<
    (String, PickChoiceView, PickWagerView),
    PickError,
> {
    match e {
        SubmissionEvent::SpreadGroup { event_id, spreads } => match spec_group_points(spreads@) {
            Err(err) => Err(err),
            Ok(points) => Ok(
                (
                    event_id,
                    PickChoiceView::Selections(spec_selections(spreads@)),
                    PickWagerView::Ranks(points),
                ),
            ),
        },
        SubmissionEvent::UserInput { user_input, event_id } => Ok(
            (event_id, PickChoiceView::Input(user_input), PickWagerView::Flat(1)),
        ),
    }
}

/// The picks of the first `k` events, stopping at the first refused one.
pub open spec fn spec_event_picks(events: Seq<SubmissionEvent>, k: nat) -> Result<
    Seq<(String, PickChoiceView, PickWagerView)>,
    PickError,
>
    decreases k,
{
    if k == 0 {
        Ok(Seq::empty())
    } else {
        match spec_event_picks(events, (k - 1) as nat) {
            Err(e) => Err(e),
            Ok(prev) => match spec_event_pick(events[k - 1]) {
                Err(e) => Err(e),
                Ok(p) => Ok(prev.push(p)),
            },
        }
    }
}

/// Every event id text of `items` parses as an `i32`.
pub open spec fn all_ids_parse(items: Seq<(String, PickChoiceView, PickWagerView)>) -> bool {
    forall|i: int| 0 <= i < items.len() ==> (#[trigger] spec_parse_i32(items[i].0@)) is Some
}

/// The checked picks of a submission, as event ids, choices and wagers in
/// event order, or why the submission is refused.
pub open spec fn spec_validate_picks(events: Seq<SubmissionEvent>) -> Result<
    (Seq<i32>, Seq<PickChoiceView>, Seq<PickWagerView>),
    PickError,
> {
    match spec_event_picks(events, events.len()) {
        Err(e) => Err(e),
        Ok(items) => if all_ids_parse(items) {
            Ok(
                (
                    items.map_values(
                        |it: (String, PickChoiceView, PickWagerView)| spec_parse_i32(it.0@)->0,
                    ),
                    items.map_values(|it: (String, PickChoiceView, PickWagerView)| it.1),
                    items.map_values(|it: (String, PickChoiceView, PickWagerView)| it.2),
                ),
            )
        } else {
            Err(PickError::UnparsableEventId)
        },
    }
}

/// Once a prefix of a group is refused, every longer prefix is refused the same way.
pub proof fn lemma_points_error_persists(spreads: Seq<SpreadGroupSpread>, k: nat, m: nat)
    requires
        k <= m,
        spec_points_prefix(spreads, k) is Err,
    ensures
        spec_points_prefix(spreads, m) == spec_points_prefix(spreads, k),
    decreases m - k,
{
    if k < m {
        lemma_points_error_persists(spreads, k, (m - 1) as nat);
    }
}

/// Once a prefix of the events is refused, every longer prefix is refused the same way.
pub proof fn lemma_event_error_persists(events: Seq<SubmissionEvent>, k: nat, m: nat)
    requires
        k <= m,
        spec_event_picks(events, k) is Err,
    ensures
        spec_event_picks(events, m) == spec_event_picks(events, k),
    decreases m - k,
{
    if k < m {
        lemma_event_error_persists(events, k, (m - 1) as nat);
    }
}

/// Each accepted prefix of `k` games holds `k` distinct points, all in `1..=n`.
proof fn lemma_points_prefix_shape(spreads: Seq<SpreadGroupSpread>, k: nat)
    requires
        k <= spreads.len(),
        spec_points_prefix(spreads, k) is Ok,
    ensures
        ({
            let ps = spec_points_prefix(spreads, k)->Ok_0;
            &&& ps.len() == k
            &&& ps.no_duplicates()
            &&& forall|j: int| 0 <= j < ps.len() ==> 1 <= #[trigger] ps[j] <= spreads.len()
        }),
    decreases k,
{
    if k > 0 {
        lemma_points_prefix_shape(spreads, (k - 1) as nat);
        let prev = spec_points_prefix(spreads, (k - 1) as nat)->Ok_0;
        let ps = spec_points_prefix(spreads, k)->Ok_0;
        let a = spec_parse_i32(spreads[k - 1].num_points@)->0;
        assert(ps == prev.push(a));
        assert forall|i: int, j: int| 0 <= i < ps.len() && 0 <= j < ps.len() && i != j implies ps[i]
            != ps[j] by {
            if i == ps.len() - 1 {
                assert(prev[j] == ps[j]);
            } else if j == ps.len() - 1 {
                assert(prev[i] == ps[i]);
            } else {
                assert(prev[i] == ps[i] && prev[j] == ps[j]);
            }
        }
        assert forall|j: int| 0 <= j < ps.len() implies 1 <= #[trigger] ps[j] <= spreads.len() by {
            if j < ps.len() - 1 {
                assert(prev[j] == ps[j]);
            }
        }
    }
}

/// An accepted spread group is a ranking of its `n` games: the points are
/// `1..=n`, each used by exactly one game.
pub proof fn lemma_accepted_group_is_ranking(spreads: Seq<SpreadGroupSpread>)
    requires
        spec_group_points(spreads) is Ok,
    ensures
        ({
            let ps = spec_group_points(spreads)->Ok_0;
            &&& ps.len() == spreads.len()
            &&& ps.no_duplicates()
            &&& forall|j: int| 0 <= j < ps.len() ==> 1 <= #[trigger] ps[j] <= spreads.len()
            &&& ps.map_values(|x: i32| x as int).to_set() == set_int_range(1, spreads.len() as int + 1)
        }),
{
    let n: int = spreads.len() as int;
    lemma_points_prefix_shape(spreads, spreads.len());
    let ps = spec_group_points(spreads)->Ok_0;
    let ips = ps.map_values(|x: i32| x as int);
    assert(ips.no_duplicates()) by {
        assert forall|i: int, j: int| 0 <= i < ips.len() && 0 <= j < ips.len() && i != j implies ips[i]
            != ips[j] by {
            assert(ps[i] != ps[j]);
        }
    }
    ips.unique_seq_to_set();
    let range = set_int_range(1, n + 1);
    lemma_int_range(1, n + 1);
    assert(ips.to_set().subset_of(range)) by {
        assert forall|x: int| ips.to_set().contains(x) implies range.contains(x) by {
            let j = choose|j: int| 0 <= j < ips.len() && ips[j] == x;
            assert(1 <= ps[j] <= n);
        }
    }
    lemma_len_subset(ips.to_set(), range);
    lemma_subset_equality(ips.to_set(), range);
    assert(ips.to_set() =~= range);
}

/// An accepted prefix of the events holds one pick per event, each the pick
/// of its own event.
proof fn lemma_event_picks_pointwise(events: Seq<SubmissionEvent>, k: nat)
    requires
        k <= events.len(),
        spec_event_picks(events, k) is Ok,
    ensures
        spec_event_picks(events, k)->Ok_0.len() == k,
        forall|i: int|
            0 <= i < k ==> spec_event_pick(#[trigger] events[i]) == Ok::<
                (String, PickChoiceView, PickWagerView),
                PickError,
            >(spec_event_picks(events, k)->Ok_0[i]),
    decreases k,
{
    if k > 0 {
        lemma_event_picks_pointwise(events, (k - 1) as nat);
        let prev = spec_event_picks(events, (k - 1) as nat)->Ok_0;
        let items = spec_event_picks(events, k)->Ok_0;
        assert forall|i: int| 0 <= i < k implies spec_event_pick(#[trigger] events[i]) == Ok::<
            (String, PickChoiceView, PickWagerView),
            PickError,
        >(items[i]) by {
            if i < k - 1 {
                assert(items[i] == prev[i]);
            }
        }
    }
}

/// Every accepted pick submission ranks each of its spread groups: the wager
/// of a group of `n` games is `1..=n`, each number on exactly one game.
pub proof fn lemma_accepted_submission_ranks_groups(events: Seq<SubmissionEvent>)
    requires
        spec_validate_picks(events) is Ok,
    ensures
        forall|i: int|
            0 <= i < events.len() ==> match #[trigger] events[i] {
                SubmissionEvent::SpreadGroup { spreads, .. } => {
                    let w = spec_validate_picks(events)->Ok_0.2[i];
                    &&& w matches PickWagerView::Ranks(ps)
                    &&& ps.len() == spreads@.len()
                    &&& ps.no_duplicates()
                    &&& ps.map_values(|x: i32| x as int).to_set() == set_int_range(1, spreads@.len() as int + 1)
                },
                SubmissionEvent::UserInput { .. } => spec_validate_picks(events)->Ok_0.2[i]
                    == PickWagerView::Flat(1),
            },
{
    lemma_event_picks_pointwise(events, events.len());
    let items = spec_event_picks(events, events.len())->Ok_0;
    assert forall|i: int| 0 <= i < events.len() implies match #[trigger] events[i] {
        SubmissionEvent::SpreadGroup { spreads, .. } => {
            let w = spec_validate_picks(events)->Ok_0.2[i];
            &&& w matches PickWagerView::Ranks(ps)
            &&& ps.len() == spreads@.len()
            &&& ps.no_duplicates()
            &&& ps.map_values(|x: i32| x as int).to_set() == set_int_range(1, spreads@.len() as int + 1)
        },
        SubmissionEvent::UserInput { .. } => spec_validate_picks(events)->Ok_0.2[i]
            == PickWagerView::Flat(1),
    } by {
        assert(spec_validate_picks(events)->Ok_0.2[i] == items[i].2);
        match events[i] {
            SubmissionEvent::SpreadGroup { spreads, .. } => {
                lemma_accepted_group_is_ranking(spreads@);
            },
            SubmissionEvent::UserInput { .. } => {},
        }
    }
}

/// Checks the points of one spread group and collects its picked teams.
fn spread_group_picks(spreads: Vec<SpreadGroupSpread>) -> (r: Result<
    (Vec<String>, Vec<i32>),
    PickError,
>)
    ensures
        match spec_group_points(spreads@) {
            Err(e) => r == Err::<(Vec<String>, Vec<i32>), PickError>(e),
            Ok(points) => r matches Ok(t) && t.1@ == points && t.0@ == spec_selections(spreads@),
        },
{
    let n = spreads.len();
    let ghost orig = spreads@;
    let mut used: Vec<bool> = Vec::new();
    let mut k: usize = 0;
    while k < n
        invariant
            k <= n,
            used@.len() == k,
            forall|j: int| 0 <= j < k ==> !used@[j],
        decreases n - k,
    {
        used.push(false);
        k = k + 1;
    }
    let mut selections: Vec<String> = Vec::new();
    let mut points: Vec<i32> = Vec::new();
    for spread in it: spreads.into_iter()
        invariant
            it.seq() == orig,
            n == orig.len(),
            used@.len() == n,
            spec_points_prefix(orig, it.index() as nat) == Ok::<Seq<i32>, PickError>(points@),
            selections@ =~= spec_selections(orig.take(it.index() as int)),
            forall|a: i32| 1 <= a <= n ==> (#[trigger] used@[a - 1] <==> points@.contains(a)),
            forall|j: int| 0 <= j < points@.len() ==> 1 <= #[trigger] points@[j] <= n,
    {
        let ghost i = it.index();
        assert(spread == orig[i]);
        match parse_i32(spread.num_points.as_str()) {
            None => {
                proof {
                    lemma_points_error_persists(orig, (i + 1) as nat, n as nat);
                }
                return Err(PickError::UnparsablePoints);
            },
            Some(a) => {
                if a < 1 || (a as usize) > n || used[(a - 1) as usize] {
                    proof {
                        lemma_points_error_persists(orig, (i + 1) as nat, n as nat);
                    }
                    return Err(PickError::InvalidPoints);
                }
                assert(!points@.contains(a));
                let ghost old_points = points@;
                let ghost old_used = used@;
                used.set((a - 1) as usize, true);
                points.push(a);
                selections.push(spread.selection);
                assert(orig.take(i + 1) =~= orig.take(i as int).push(orig[i as int]));
                assert(points@ == old_points.push(a));
                assert forall|b: i32| 1 <= b <= n implies (#[trigger] used@[b - 1]
                    <==> points@.contains(b)) by {
                    if b != a {
                        assert(used@[b - 1] == old_used[b - 1]);
                        if points@.contains(b) {
                            let j = choose|j: int| 0 <= j < points@.len() && points@[j] == b;
                            assert(j != points@.len() - 1);
                            assert(old_points[j] == b);
                            assert(old_points.contains(b));
                        }
                        if old_points.contains(b) {
                            let j = choose|j: int| 0 <= j < old_points.len() && old_points[j] == b;
                            assert(points@[j] == b);
                        }
                    } else {
                        assert(points@[points@.len() - 1] == a);
                    }
                }
            },
        }
    }
    assert(orig.take(n as int) =~= orig);
    Ok((selections, points))
}

/// The exec result of [`validate_picks`] agrees with the spec result.
pub open spec fn picks_agree(
    t: (Vec<i32>, Vec<PickChoice>, Vec<PickWager>),
    s: (Seq<i32>, Seq<PickChoiceView>, Seq<PickWagerView>),
) -> bool {
    &&& t.0@ == s.0
    &&& t.1@.map_values(|c: PickChoice| c@) == s.1
    &&& t.2@.map_values(|w: PickWager| w@) == s.2
}

/// Checks a pick submission: every spread group's points are a ranking of its
/// games, and every event id is a number. The ids still have to be checked
/// against the stored events.
pub fn validate_picks(events: Vec<SubmissionEvent>) -> (r: Result<
    (Vec<i32>, Vec<PickChoice>, Vec<PickWager>),
    PickError,
>)
    ensures
        r is Ok <==> spec_validate_picks(events@) is Ok,
        r matches Err(e) ==> spec_validate_picks(events@) == Err::<
            (Seq<i32>, Seq<PickChoiceView>, Seq<PickWagerView>),
            PickError,
        >(e),
        r matches Ok(t) ==> picks_agree(t, spec_validate_picks(events@)->Ok_0),
{
    let ghost orig = events@;
    let mut id_texts: Vec<String> = Vec::new();
    let mut choices: Vec<PickChoice> = Vec::new();
    let mut wagers: Vec<PickWager> = Vec::new();
    let ghost mut items: Seq<(String, PickChoiceView, PickWagerView)> = Seq::empty();
    for event in it: events.into_iter()
        invariant
            it.seq() == orig,
            spec_event_picks(orig, it.index() as nat) == Ok::<
                Seq<(String, PickChoiceView, PickWagerView)>,
                PickError,
            >(items),
            id_texts@.len() == items.len(),
            choices@.len() == items.len(),
            wagers@.len() == items.len(),
            forall|j: int|
                0 <= j < items.len() ==> #[trigger] items[j] == (id_texts@[j], choices@[j]@, wagers@[j]@),
    {
        let ghost i = it.index();
        assert(event == orig[i]);
        match event {
            SubmissionEvent::SpreadGroup { event_id, spreads } => {
                match spread_group_picks(spreads) {
                    Err(e) => {
                        proof {
                            lemma_event_error_persists(orig, (i + 1) as nat, orig.len());
                        }
                        return Err(e);
                    },
                    Ok((selections, points)) => {
                        proof {
                            items = items.push(
                                (
                                    event_id,
                                    PickChoiceView::Selections(selections@),
                                    PickWagerView::Ranks(points@),
                                ),
                            );
                        }
                        id_texts.push(event_id);
                        choices.push(PickChoice::Selections(selections));
                        wagers.push(PickWager::Ranks(points));
                    },
                }
            },
            SubmissionEvent::UserInput { user_input, event_id } => {
                proof {
                    items = items.push(
                        (event_id, PickChoiceView::Input(user_input), PickWagerView::Flat(1)),
                    );
                }
                id_texts.push(event_id);
                choices.push(PickChoice::Input(user_input));
                wagers.push(PickWager::Flat(1));
            },
        }
    }
    let mut ids: Vec<i32> = Vec::new();
    let mut j: usize = 0;
    while j < id_texts.len()
        invariant
            j <= id_texts@.len(),
            id_texts@.len() == items.len(),
            spec_event_picks(orig, orig.len()) == Ok::<
                Seq<(String, PickChoiceView, PickWagerView)>,
                PickError,
            >(items),
            forall|m: int| 0 <= m < items.len() ==> #[trigger] items[m].0 == id_texts@[m],
            orig == events@,
            ids@.len() == j,
            forall|m: int|
                0 <= m < j ==> (#[trigger] spec_parse_i32(items[m].0@)) == Some(ids@[m]),
        decreases id_texts@.len() - j,
    {
        match parse_i32(id_texts[j].as_str()) {
            None => {
                assert(spec_parse_i32(items[j as int].0@) is None);
                assert(!all_ids_parse(items));
                assert(spec_validate_picks(orig) == Err::<
                    (Seq<i32>, Seq<PickChoiceView>, Seq<PickWagerView>),
                    PickError,
                >(PickError::UnparsableEventId));
                return Err(PickError::UnparsableEventId);
            },
            Some(id) => {
                ids.push(id);
            },
        }
        j = j + 1;
    }
    assert(all_ids_parse(items));
    let ghost s = spec_validate_picks(orig)->Ok_0;
    assert(ids@ =~= s.0);
    assert forall|m: int| 0 <= m < items.len() implies choices@.map_values(|c: PickChoice| c@)[m]
        == s.1[m] && wagers@.map_values(|w: PickWager| w@)[m] == s.2[m] by {
        assert(items[m] == (id_texts@[m], choices@[m]@, wagers@[m]@));
    }
    assert(choices@.map_values(|c: PickChoice| c@) =~= s.1);
    assert(wagers@.map_values(|w: PickWager| w@) =~= s.2);
    Ok((ids, choices, wagers))
}

/// Every id of `ids` is one of `stored`.
pub open spec fn all_known(ids: Seq<i32>, stored: Seq<i32>) -> bool {
    forall|i: int| 0 <= i < ids.len() ==> stored.contains(#[trigger] ids[i])
}

/// The event ids of an accepted submission must name stored events: given the
/// ids of the stored events among them, an id that is not one is refused as a
/// bad request, "Event not found".
pub fn require_known_events(ids: &Vec<i32>, stored: &Vec<i32>) -> (r: Result<(), Rejection>)
    ensures
        r is Ok <==> all_known(ids@, stored@),
        r matches Err(e) ==> is_rejection(e, Status::BadRequest, "Event not found"@),
{
    let mut i: usize = 0;
    while i < ids.len()
        invariant
            i <= ids@.len(),
            forall|m: int| 0 <= m < i ==> stored@.contains(#[trigger] ids@[m]),
        decreases ids@.len() - i,
    {
        let id = ids[i];
        let mut j: usize = 0;
        let mut found = false;
        while j < stored.len()
            invariant
                j <= stored@.len(),
                found ==> stored@.contains(id),
                !found ==> forall|m: int| 0 <= m < j ==> stored@[m] != id,
            decreases stored@.len() - j,
        {
            if stored[j] == id {
                found = true;
                assert(stored@[j as int] == id);
            }
            j = j + 1;
        }
        if !found {
            assert(!stored@.contains(ids@[i as int]));
            return Err(rejection(Status::BadRequest, "Event not found"));
        }
        i = i + 1;
    }
    Ok(())
}

} // verus!

verus! {

/// How a results cell is shaded: a right pick, a wrong one, a game without an
/// answer yet, or no shading.
#[derive(Clone, Copy, Debug, PartialEq, Eq, Structural)]
pub enum CellColor {
    Correct,
    Wrong,
    Unanswered,
    Plain,
}

/// One cell of a user's row in the results table of a closed chapter; a row
/// starts with the user's name.
#[derive(Debug)]
pub enum TableCell {
    UserName { name: String },
    Game { color: CellColor, team_id: i32, wager: i32 },
    Question { color: CellColor, choice: String, wager: i32 },
    DidNotAnswer,
    Mismatch,
}

/// A [`TableCell`] with its text taken as characters.
pub enum TableCellView {
    UserName { name: Seq<char> },
    Game { color: CellColor, team_id: i32, wager: i32 },
    Question { color: CellColor, choice: Seq<char>, wager: i32 },
    DidNotAnswer,
    Mismatch,
}

impl View for TableCell {
    type V = TableCellView;

    open spec fn view(&self) -> TableCellView {
        match self {
            TableCell::UserName { name } => TableCellView::UserName { name: name@ },
            TableCell::Game { color, team_id, wager } => TableCellView::Game {
                color: *color,
                team_id: *team_id,
                wager: *wager,
            },
            TableCell::Question { color, choice, wager } => TableCellView::Question {
                color: *color,
                choice: choice@,
                wager: *wager,
            },
            TableCell::DidNotAnswer => TableCellView::DidNotAnswer,
            TableCell::Mismatch => TableCellView::Mismatch,
        }
    }
}

/// One column of the results table: the corner above the names, a game of a
/// group, or a question.
#[derive(Debug)]
pub enum HeaderCell {
    Corner,
    Game { away_id: i32, home_id: i32, home_spread_halves: i64 },
    Question { title: String },
}

/// The columns one event contributes: one per game of a group, one for a question.
pub open spec fn spec_event_header(c: EventContentView) -> Seq<HeaderCell> {
    match c {
        EventContentView::SpreadGroup(spreads) => spreads.map_values(
            |s: Spread| HeaderCell::Game {
                away_id: s.away_id,
                home_id: s.home_id,
                home_spread_halves: s.home_spread_halves,
            },
        ),
        EventContentView::UserInput(u) => seq![HeaderCell::Question { title: u.title }],
    }
}

/// The columns of the first `k` events.
pub open spec fn spec_header_prefix(events: Seq<Event>, k: nat) -> Seq<HeaderCell>
    decreases k,
{
    if k == 0 {
        Seq::empty()
    } else {
        spec_header_prefix(events, (k - 1) as nat) + spec_event_header(events[k - 1].contents@)
    }
}

/// A header cell without regard to the identity of its title string.
pub open spec fn header_cell_view(h: HeaderCell) -> (int, i32, i32, i64, Seq<char>) {
    match h {
        HeaderCell::Game { away_id, home_id, home_spread_halves } => (
            0,
            away_id,
            home_id,
            home_spread_halves,
            Seq::empty(),
        ),
        HeaderCell::Question { title } => (1, 0, 0, 0, title@),
        HeaderCell::Corner => (2, 0, 0, 0, Seq::empty()),
    }
}

/// Two header rows show the same columns.
pub open spec fn same_headers(a: Seq<HeaderCell>, b: Seq<HeaderCell>) -> bool {
    &&& a.len() == b.len()
    &&& forall|i: int| 0 <= i < a.len() ==> header_cell_view(#[trigger] a[i]) == header_cell_view(b[i])
}

/// The header row of the results table: the corner above the names, then
/// the columns of the events in order.
pub open spec fn spec_table_header(events: Seq<Event>) -> Seq<HeaderCell> {
    seq![HeaderCell::Corner] + spec_header_prefix(events, events.len())
}

/// The header row of the results table: the corner, then the events' columns.
pub fn table_header(events: &Vec<Event>) -> (r: Vec<HeaderCell>)
    ensures
        same_headers(r@, spec_table_header(events@)),
{
    let mut cols = event_columns(events);
    let ghost c = cols@;
    let mut out: Vec<HeaderCell> = Vec::new();
    out.push(HeaderCell::Corner);
    out.append(&mut cols);
    let ghost want = spec_table_header(events@);
    assert forall|i: int| 0 <= i < out@.len() implies header_cell_view(#[trigger] out@[i])
        == header_cell_view(want[i]) by {
        if i > 0 {
            assert(out@[i] == c[i - 1]);
            assert(want[i] == spec_header_prefix(events@, events@.len())[i - 1]);
        }
    }
    out
}

/// The columns of the events, in event order.
fn event_columns(events: &Vec<Event>) -> (r: Vec<HeaderCell>)
    ensures
        same_headers(r@, spec_header_prefix(events@, events@.len())),
{
    let mut out: Vec<HeaderCell> = Vec::new();
    let mut k: usize = 0;
    while k < events.len()
        invariant
            k <= events@.len(),
            same_headers(out@, spec_header_prefix(events@, k as nat)),
        decreases events@.len() - k,
    {
        let ghost before = out@;
        let ghost prefix = spec_header_prefix(events@, k as nat);
        let ghost added = spec_event_header(events@[k as int].contents@);
        assert(spec_header_prefix(events@, (k + 1) as nat) == prefix + added);
        match &events[k].contents {
            EventContent::SpreadGroup(spreads) => {
                let mut j: usize = 0;
                while j < spreads.len()
                    invariant
                        j <= spreads@.len(),
                        added == spreads@.map_values(
                            |s: Spread| HeaderCell::Game {
                                away_id: s.away_id,
                                home_id: s.home_id,
                                home_spread_halves: s.home_spread_halves,
                            },
                        ),
                        out@.len() == before.len() + j,
                        forall|m: int| 0 <= m < before.len() ==> #[trigger] out@[m] == before[m],
                        forall|m: int| 0 <= m < j ==> #[trigger] out@[before.len() + m] == added[m],
                    decreases spreads@.len() - j,
                {
                    out.push(
                        HeaderCell::Game {
                            away_id: spreads[j].away_id,
                            home_id: spreads[j].home_id,
                            home_spread_halves: spreads[j].home_spread_halves,
                        },
                    );
                    j = j + 1;
                }
                assert forall|m: int| 0 <= m < out@.len() implies header_cell_view(
                    #[trigger] out@[m],
                ) == header_cell_view((prefix + added)[m]) by {
                    if m >= before.len() {
                        assert(out@[before.len() + (m - before.len())] == added[m - before.len()]);
                    }
                }
            },
            EventContent::UserInput(input) => {
                out.push(HeaderCell::Question { title: input.title.clone() });
                assert forall|m: int| 0 <= m < out@.len() implies header_cell_view(
                    #[trigger] out@[m],
                ) == header_cell_view((prefix + added)[m]) by {
                    if m < before.len() {
                        assert(out@[m] == before[m]);
                    }
                }
            },
        }
        k = k + 1;
    }
    out
}


/// The pick a user made on an event, as the lookup table keyed by both gives
/// it: the last stored entry for the pair.
pub open spec fn spec_lookup(picks: Seq<ChapterPickEntry>, event_id: i32, user_id: i32) -> Option<
    ChapterPick,
>
    decreases picks.len(),
{
    if picks.len() == 0 {
        None
    } else if picks.last().event_id == event_id && picks.last().user_id == user_id {
        Some(picks.last().pick)
    } else {
        spec_lookup(picks.drop_last(), event_id, user_id)
    }
}

/// The team a pick names: the home team for `home`, the away team for `away`.
pub open spec fn spec_team_for(spread: Spread, choice: Seq<char>) -> Option<i32> {
    if choice == "home"@ {
        Some(spread.home_id)
    } else if choice == "away"@ {
        Some(spread.away_id)
    } else {
        None
    }
}

/// The shading of a game's cell: right or wrong against the recorded answer,
/// or unanswered while there is none.
pub open spec fn spec_answer_color(answer: Option<String>, choice: Seq<char>) -> CellColor {
    match answer {
        Some(a) => if a@ == choice {
            CellColor::Correct
        } else {
            CellColor::Wrong
        },
        None => CellColor::Unanswered,
    }
}

/// A group's pick covers every game with a side and a wager.
pub open spec fn spec_group_pick_complete(spreads: Seq<Spread>, choice: Seq<String>, wager: Seq<i32>) -> bool {
    &&& choice.len() >= spreads.len()
    &&& wager.len() >= spreads.len()
    &&& forall|i: int| 0 <= i < spreads.len() ==> (#[trigger] spec_team_for(spreads[i], choice[i]@)) is Some
}

/// The cells of a picked group: the team picked and its wager, shaded by the answer.
pub open spec fn spec_group_cells(spreads: Seq<Spread>, choice: Seq<String>, wager: Seq<i32>) -> Seq<
    TableCellView,
> {
    Seq::new(
        spreads.len(),
        |i: int|
            TableCellView::Game {
                color: spec_answer_color(spreads[i].answer, choice[i]@),
                team_id: spec_team_for(spreads[i], choice[i]@)->0,
                wager: wager[i],
            },
    )
}

/// The shading of a question's cell: right when the points won equal the
/// wager, wrong when they differ, none before points are given.
pub open spec fn spec_question_color(points: Option<i32>, wager: i32) -> CellColor {
    match points {
        Some(p) => if p == wager {
            CellColor::Correct
        } else {
            CellColor::Wrong
        },
        None => CellColor::Plain,
    }
}

/// The cells one event gives a user's row, or `None` where a group's pick
/// names neither side of a game or is shorter than the group.
pub open spec fn spec_event_cells(c: EventContentView, pick: Option<ChapterPick>) -> Option<
    Seq<TableCellView>,
> {
    match (c, pick) {
        (
            EventContentView::SpreadGroup(spreads),
            Some(ChapterPick::SpreadGroup { choice, wager, .. }),
        ) => if spec_group_pick_complete(spreads, choice@, wager@) {
            Some(spec_group_cells(spreads, choice@, wager@))
        } else {
            None
        },
        (EventContentView::SpreadGroup(spreads), None) => Some(
            Seq::new(spreads.len(), |i: int| TableCellView::DidNotAnswer),
        ),
        (EventContentView::UserInput(_), Some(ChapterPick::UserInput { choice, wager, points })) => Some(
            seq![TableCellView::Question { color: spec_question_color(points, wager), choice: choice@, wager }],
        ),
        (EventContentView::UserInput(_), None) => Some(seq![TableCellView::DidNotAnswer]),
        _ => Some(seq![TableCellView::Mismatch]),
    }
}

/// A user's row over the first `k` events.
pub open spec fn spec_row_prefix(
    events: Seq<Event>,
    picks: Seq<ChapterPickEntry>,
    user_id: i32,
    k: nat,
) -> Option<Seq<TableCellView>>
    decreases k,
{
    if k == 0 {
        Some(Seq::empty())
    } else {
        match spec_row_prefix(events, picks, user_id, (k - 1) as nat) {
            None => None,
            Some(prev) => match spec_event_cells(
                events[k - 1].contents@,
                spec_lookup(picks, events[k - 1].id, user_id),
            ) {
                None => None,
                Some(cells) => Some(prev + cells),
            },
        }
    }
}

/// The rows of the first `k` users.
pub open spec fn spec_rows_prefix(
    events: Seq<Event>,
    users: Seq<(i32, String)>,
    picks: Seq<ChapterPickEntry>,
    k: nat,
) -> Option<Seq<Seq<TableCellView>>>
    decreases k,
{
    if k == 0 {
        Some(Seq::empty())
    } else {
        match spec_rows_prefix(events, users, picks, (k - 1) as nat) {
            None => None,
            Some(prev) => match spec_row_prefix(events, picks, users[k - 1].0, events.len()) {
                None => None,
                Some(row) => Some(
                    prev.push(seq![TableCellView::UserName { name: users[k - 1].1@ }] + row),
                ),
            },
        }
    }
}

proof fn lemma_row_none_persists(
    events: Seq<Event>,
    picks: Seq<ChapterPickEntry>,
    user_id: i32,
    k: nat,
    m: nat,
)
    requires
        k <= m,
        spec_row_prefix(events, picks, user_id, k) is None,
    ensures
        spec_row_prefix(events, picks, user_id, m) is None,
    decreases m - k,
{
    if k < m {
        lemma_row_none_persists(events, picks, user_id, k, (m - 1) as nat);
    }
}

proof fn lemma_rows_none_persists(
    events: Seq<Event>,
    users: Seq<(i32, String)>,
    picks: Seq<ChapterPickEntry>,
    k: nat,
    m: nat,
)
    requires
        k <= m,
        spec_rows_prefix(events, users, picks, k) is None,
    ensures
        spec_rows_prefix(events, users, picks, m) is None,
    decreases m - k,
{
    if k < m {
        lemma_rows_none_persists(events, users, picks, k, (m - 1) as nat);
    }
}

/// Finds the pick a user made on an event.
fn lookup_pick(picks: &Vec<ChapterPickEntry>, event_id: i32, user_id: i32) -> (r: Option<
    &ChapterPick,
>)
    ensures
        match r {
            Some(p) => spec_lookup(picks@, event_id, user_id) == Some(*p),
            None => spec_lookup(picks@, event_id, user_id) is None,
        },
{
    let mut k: usize = picks.len();
    assert(picks@.take(k as int) =~= picks@);
    while k > 0
        invariant
            k <= picks@.len(),
            spec_lookup(picks@, event_id, user_id) == spec_lookup(
                picks@.take(k as int),
                event_id,
                user_id,
            ),
        decreases k,
    {
        let entry = &picks[k - 1];
        assert(picks@.take(k as int).drop_last() =~= picks@.take(k - 1));
        if entry.event_id == event_id && entry.user_id == user_id {
            return Some(&entry.pick);
        }
        k = k - 1;
    }
    None
}

/// The cells of a picked group, or `None` where the pick does not cover it.
fn group_cells(spreads: &Vec<Spread>, choice: &Vec<String>, wager: &Vec<i32>) -> (r: Option<
    Vec<TableCell>,
>)
    ensures
        spec_group_pick_complete(spreads@, choice@, wager@) ==> (r matches Some(v) && v@.map_values(
            |c: TableCell| c@,
        ) == spec_group_cells(spreads@, choice@, wager@)),
        !spec_group_pick_complete(spreads@, choice@, wager@) ==> r is None,
{
    if choice.len() < spreads.len() || wager.len() < spreads.len() {
        return None;
    }
    let mut out: Vec<TableCell> = Vec::new();
    let mut i: usize = 0;
    while i < spreads.len()
        invariant
            i <= spreads@.len(),
            choice@.len() >= spreads@.len(),
            wager@.len() >= spreads@.len(),
            forall|j: int| 0 <= j < i ==> (#[trigger] spec_team_for(spreads@[j], choice@[j]@)) is Some,
            out@.map_values(|c: TableCell| c@) =~= spec_group_cells(
                spreads@.take(i as int),
                choice@,
                wager@,
            ),
        decreases spreads@.len() - i,
    {
        let spread = &spreads[i];
        let picked = choice[i].as_str();
        let team_id = if text_eq(picked, "home") {
            spread.home_id
        } else if text_eq(picked, "away") {
            spread.away_id
        } else {
            assert(spec_team_for(spreads@[i as int], choice@[i as int]@) is None);
            return None;
        };
        let color = match &spread.answer {
            Some(a) => if text_eq(a.as_str(), picked) {
                CellColor::Correct
            } else {
                CellColor::Wrong
            },
            None => CellColor::Unanswered,
        };
        let ghost before = out@.map_values(|c: TableCell| c@);
        out.push(TableCell::Game { color, team_id, wager: wager[i] });
        assert(out@.map_values(|c: TableCell| c@) =~= before.push(out@[i as int]@));
        i = i + 1;
    }
    assert(spreads@.take(spreads@.len() as int) =~= spreads@);
    Some(out)
}

/// The cells one event gives a user's row.
fn event_cells(content: &EventContent, pick: Option<&ChapterPick>) -> (r: Option<Vec<TableCell>>)
    ensures
        match spec_event_cells(
            content@,
            match pick {
                Some(p) => Some(*p),
                None => None,
            },
        ) {
            Some(cells) => r matches Some(v) && v@.map_values(|c: TableCell| c@) == cells,
            None => r is None,
        },
{
    match (content, pick) {
        (EventContent::SpreadGroup(spreads), Some(ChapterPick::SpreadGroup { choice, wager, .. })) => {
            group_cells(spreads, choice, wager)
        },
        (EventContent::SpreadGroup(spreads), None) => {
            let mut out: Vec<TableCell> = Vec::new();
            let mut i: usize = 0;
            while i < spreads.len()
                invariant
                    i <= spreads@.len(),
                    out@.map_values(|c: TableCell| c@) =~= Seq::new(
                        i as nat,
                        |j: int| TableCellView::DidNotAnswer,
                    ),
                decreases spreads@.len() - i,
            {
                let ghost before = out@.map_values(|c: TableCell| c@);
                out.push(TableCell::DidNotAnswer);
                assert(out@.map_values(|c: TableCell| c@) =~= before.push(TableCellView::DidNotAnswer));
                i = i + 1;
            }
            Some(out)
        },
        (EventContent::UserInput(_), Some(ChapterPick::UserInput { choice, wager, points })) => {
            let color = match points {
                Some(p) => if *p == *wager {
                    CellColor::Correct
                } else {
                    CellColor::Wrong
                },
                None => CellColor::Plain,
            };
            let mut out: Vec<TableCell> = Vec::new();
            out.push(TableCell::Question { color, choice: choice.clone(), wager: *wager });
            assert(out@.map_values(|c: TableCell| c@) =~= seq![
                TableCellView::Question { color, choice: choice@, wager: *wager },
            ]);
            Some(out)
        },
        (EventContent::UserInput(_), None) => {
            let mut out: Vec<TableCell> = Vec::new();
            out.push(TableCell::DidNotAnswer);
            assert(out@.map_values(|c: TableCell| c@) =~= seq![TableCellView::DidNotAnswer]);
            Some(out)
        },
        _ => {
            let mut out: Vec<TableCell> = Vec::new();
            out.push(TableCell::Mismatch);
            assert(out@.map_values(|c: TableCell| c@) =~= seq![TableCellView::Mismatch]);
            Some(out)
        },
    }
}

/// A user's row: the cells of every event in order.
fn user_row(events: &Vec<Event>, picks: &Vec<ChapterPickEntry>, user_id: i32) -> (r: Option<
    Vec<TableCell>,
>)
    ensures
        match spec_row_prefix(events@, picks@, user_id, events@.len()) {
            Some(cells) => r matches Some(v) && v@.map_values(|c: TableCell| c@) == cells,
            None => r is None,
        },
{
    let mut out: Vec<TableCell> = Vec::new();
    let mut k: usize = 0;
    while k < events.len()
        invariant
            k <= events@.len(),
            spec_row_prefix(events@, picks@, user_id, k as nat) == Some(
                out@.map_values(|c: TableCell| c@),
            ),
        decreases events@.len() - k,
    {
        let event = &events[k];
        let pick = lookup_pick(picks, event.id, user_id);
        match event_cells(&event.contents, pick) {
            None => {
                proof {
                    lemma_row_none_persists(events@, picks@, user_id, (k + 1) as nat, events@.len());
                }
                return None;
            },
            Some(cells) => {
                let ghost before = out@.map_values(|c: TableCell| c@);
                let ghost added = cells@.map_values(|c: TableCell| c@);
                let mut cells = cells;
                out.append(&mut cells);
                assert(out@.map_values(|c: TableCell| c@) =~= before + added);
            },
        }
        k = k + 1;
    }
    Some(out)
}

/// The rows of the results table of a closed chapter: one per user, one cell
/// per game of each group and one per question, in event order. `None` where
/// a stored group pick names neither side of a game or is shorter than the
/// group; the table cannot be drawn then.
pub fn table_rows(
    events: &Vec<Event>,
    users: &Vec<(i32, String)>,
    picks_by_user: &Vec<ChapterPickEntry>,
) -> (r: Option<Vec<Vec<TableCell>>>)
    ensures
        match spec_rows_prefix(events@, users@, picks_by_user@, users@.len()) {
            Some(rows) => r matches Some(v) && v@.map_values(
                |row: Vec<TableCell>| row@.map_values(|c: TableCell| c@),
            ) == rows,
            None => r is None,
        },
{
    let mut out: Vec<Vec<TableCell>> = Vec::new();
    let mut k: usize = 0;
    while k < users.len()
        invariant
            k <= users@.len(),
            spec_rows_prefix(events@, users@, picks_by_user@, k as nat) == Some(
                out@.map_values(|row: Vec<TableCell>| row@.map_values(|c: TableCell| c@)),
            ),
        decreases users@.len() - k,
    {
        match user_row(events, picks_by_user, users[k].0) {
            None => {
                proof {
                    lemma_rows_none_persists(
                        events@,
                        users@,
                        picks_by_user@,
                        (k + 1) as nat,
                        users@.len(),
                    );
                }
                return None;
            },
            Some(row) => {
                let ghost before = out@.map_values(
                    |row: Vec<TableCell>| row@.map_values(|c: TableCell| c@),
                );
                let ghost cells = row@.map_values(|c: TableCell| c@);
                let mut full: Vec<TableCell> = Vec::new();
                full.push(TableCell::UserName { name: users[k].1.clone() });
                let mut row = row;
                full.append(&mut row);
                assert(full@.map_values(|c: TableCell| c@) =~= seq![
                    TableCellView::UserName { name: users@[k as int].1@ },
                ] + cells);
                out.push(full);
                assert(out@.map_values(|row: Vec<TableCell>| row@.map_values(|c: TableCell| c@))
                    =~= before.push(
                    seq![TableCellView::UserName { name: users@[k as int].1@ }] + cells,
                ));
            },
        }
        k = k + 1;
    }
    Some(out)
}

/// A stored pick can be drawn under its event: there is none, or it has the
/// event's kind, and a group pick names a side ("home" or "away") and a wager
/// for every game.
pub open spec fn pick_fits(c: EventContentView, pick: Option<ChapterPick>) -> bool {
    match (c, pick) {
        (
            EventContentView::SpreadGroup(spreads),
            Some(ChapterPick::SpreadGroup { choice, wager, .. }),
        ) => spec_group_pick_complete(spreads, choice@, wager@),
        (EventContentView::SpreadGroup(_), Some(ChapterPick::UserInput { .. })) => false,
        (EventContentView::UserInput(_), Some(ChapterPick::SpreadGroup { .. })) => false,
        _ => true,
    }
}

/// Where a user's picks fit their events, the user's row over the first `k`
/// events is drawn, with one cell per column of those events.
proof fn lemma_row_len(events: Seq<Event>, picks: Seq<ChapterPickEntry>, user_id: i32, k: nat)
    requires
        k <= events.len(),
        forall|i: int|
            0 <= i < k ==> #[trigger] pick_fits(
                events[i].contents@,
                spec_lookup(picks, events[i].id, user_id),
            ),
    ensures
        spec_row_prefix(events, picks, user_id, k) is Some,
        spec_row_prefix(events, picks, user_id, k)->0.len() == spec_header_prefix(events, k).len(),
    decreases k,
{
    if k > 0 {
        let i = k - 1;
        assert(pick_fits(events[i].contents@, spec_lookup(picks, events[i].id, user_id)));
        lemma_row_len(events, picks, user_id, (k - 1) as nat);
    }
}

/// Where every user's picks fit, the rows of the first `k` users are drawn,
/// each the user's name followed by the user's own row.
proof fn lemma_rows_pointwise(
    events: Seq<Event>,
    users: Seq<(i32, String)>,
    picks: Seq<ChapterPickEntry>,
    k: nat,
)
    requires
        k <= users.len(),
        forall|u: int, i: int|
            0 <= u < users.len() && 0 <= i < events.len() ==> #[trigger] pick_fits(
                events[i].contents@,
                spec_lookup(picks, events[i].id, users[u].0),
            ),
    ensures
        spec_rows_prefix(events, users, picks, k) is Some,
        spec_rows_prefix(events, users, picks, k)->0.len() == k,
        forall|u: int|
            0 <= u < k ==> (#[trigger] spec_rows_prefix(events, users, picks, k)->0[u]) == seq![
                (TableCellView::UserName { name: users[u].1@ }),
            ] + spec_row_prefix(events, picks, users[u].0, events.len())->0,
        forall|u: int|
            0 <= u < k ==> (#[trigger] spec_row_prefix(events, picks, users[u].0, events.len()))->0.len()
                == spec_header_prefix(events, events.len()).len(),
    decreases k,
{
    if k > 0 {
        lemma_rows_pointwise(events, users, picks, (k - 1) as nat);
        let u = k - 1;
        let user_id = users[u].0;
        assert forall|i: int| 0 <= i < events.len() implies #[trigger] pick_fits(
            events[i].contents@,
            spec_lookup(picks, events[i].id, user_id),
        ) by {
            assert(pick_fits(events[i].contents@, spec_lookup(picks, events[i].id, users[u].0)));
        }
        lemma_row_len(events, picks, user_id, events.len());
        let prev = spec_rows_prefix(events, users, picks, (k - 1) as nat)->0;
        let rows = spec_rows_prefix(events, users, picks, k)->0;
        assert forall|v: int| 0 <= v < k implies (#[trigger] rows[v]) == seq![
            (TableCellView::UserName { name: users[v].1@ }),
        ] + spec_row_prefix(events, picks, users[v].0, events.len())->0 by {
            if v < k - 1 {
                assert(rows[v] == prev[v]);
            }
        }
    }
}

/// The results table is drawn and lines up: where every stored pick fits its
/// event, there is a row per user, in order; each row starts with the user's
/// name and has one cell per column of the header row (the corner, then one
/// per game of each group and one per question).
pub proof fn lemma_rows_align_with_header(
    events: Seq<Event>,
    users: Seq<(i32, String)>,
    picks: Seq<ChapterPickEntry>,
)
    requires
        forall|u: int, i: int|
            0 <= u < users.len() && 0 <= i < events.len() ==> #[trigger] pick_fits(
                events[i].contents@,
                spec_lookup(picks, events[i].id, users[u].0),
            ),
    ensures
        spec_rows_prefix(events, users, picks, users.len()) is Some,
        spec_rows_prefix(events, users, picks, users.len())->0.len() == users.len(),
        forall|u: int|
            0 <= u < users.len() ==> (#[trigger] spec_rows_prefix(
                events,
                users,
                picks,
                users.len(),
            )->0[u])[0] == (TableCellView::UserName { name: users[u].1@ }),
        forall|u: int|
            0 <= u < users.len() ==> (#[trigger] spec_rows_prefix(
                events,
                users,
                picks,
                users.len(),
            )->0[u]).len() == spec_table_header(events).len(),
{
    lemma_rows_pointwise(events, users, picks, users.len());
    let rows = spec_rows_prefix(events, users, picks, users.len())->0;
    assert forall|u: int| 0 <= u < users.len() implies (#[trigger] rows[u])[0]
        == (TableCellView::UserName { name: users[u].1@ }) && rows[u].len()
        == spec_table_header(events).len() by {
        let row = spec_row_prefix(events, picks, users[u].0, events.len());
        assert(row->0.len() == spec_header_prefix(events, events.len()).len());
    }
}

/// A user's question cell shows the pick's text and its own wager, shaded by
/// comparing the points the pick was awarded with that wager: green when
/// they are equal, red when they differ, plain before any are awarded. The
/// question's own points play no part.
pub proof fn lemma_question_cell_shaded_by_wager(
    u: UserInputView,
    choice: String,
    wager: i32,
    points: Option<i32>,
)
    ensures
        spec_event_cells(
            EventContentView::UserInput(u),
            Some(ChapterPick::UserInput { choice, wager, points }),
        ) == Some(
            seq![
                (TableCellView::Question {
                    color: match points {
                        Some(p) => if p == wager {
                            CellColor::Correct
                        } else {
                            CellColor::Wrong
                        },
                        None => CellColor::Plain,
                    },
                    choice: choice@,
                    wager,
                }),
            ],
        ),
        forall|q: i32|
            spec_event_cells(
                EventContentView::UserInput(UserInputView { points: q, ..u }),
                Some(ChapterPick::UserInput { choice, wager, points }),
            ) == spec_event_cells(
                EventContentView::UserInput(u),
                Some(ChapterPick::UserInput { choice, wager, points }),
            ),
{
}

} // verus!
