//! Chapters and picks as the server functions see them.

use vstd::prelude::*;

use crate::db::book::BookRole;
use crate::server::{
    args_error, is_args_error, is_request_error, is_server_error, request_error, ServerFnError,
};
use crate::text::{push_char, text_eq};
use vstd::string::*;

verus! {

/// Picks can be made or changed only while the chapter is open.
pub fn require_open_chapter(is_open: bool, updating: bool) -> (r: Result<(), ServerFnError>)
    ensures
        r is Ok <==> is_open,
        r matches Err(e) ==> is_request_error(
            e,
            if updating {
                "You're too late to update picks"@
            } else {
                "You're too late to make picks"@
            },
        ),
{
    if !is_open {
        if updating {
            return Err(request_error("You're too late to update picks"));
        } else {
            return Err(request_error("You're too late to make picks"));
        }
    }
    Ok(())
}

/// Everyone's answers to a question are shown only once the chapter is closed.
pub fn require_closed_chapter(is_open: bool) -> (r: Result<(), ServerFnError>)
    ensures
        r is Ok <==> !is_open,
        r matches Err(e) ==> is_request_error(
            e,
            "The chapter isn't closed yet! You can't see everyone's picks!"@,
        ),
{
    if is_open {
        return Err(request_error("The chapter isn't closed yet! You can't see everyone's picks!"));
    }
    Ok(())
}

/// Only a book's owner may open or close its chapters, add them, or answer them.
pub fn require_chapter_owner(role: BookRole, refusal: &str) -> (r: Result<(), ServerFnError>)
    ensures
        r is Ok <==> role == BookRole::Owner,
        r matches Err(e) ==> is_request_error(e, refusal@),
{
    if role != BookRole::Owner {
        return Err(request_error(refusal));
    }
    Ok(())
}

/// What parsing an RFC 3339 date-time gives: the instant it names, as seconds
/// since the Unix epoch and the nanoseconds past that second, or the text of
/// the parse error when it is not one. It depends on the text alone; it is
/// named here, not spelled out.
pub uninterp spec fn rfc3339_parse(s: Seq<char>) -> Result<(i64, u32), Seq<char>>;

/// Calls `chrono::DateTime::parse_from_rfc3339`, reads the instant of a
/// parsed date-time with `timestamp` and `timestamp_subsec_nanos`, and the
/// text of a parse error with its `Display`. The result is `rfc3339_parse` of
/// the text.
#[verifier::external_body]
fn parse_rfc3339(s: &str) -> (r: Result<(i64, u32), String>)
    ensures
        match r {
            Ok(t) => rfc3339_parse(s@) == Ok::<(i64, u32), Seq<char>>(t),
            Err(m) => rfc3339_parse(s@) == Err::<(i64, u32), Seq<char>>(m@),
        },
{
    match chrono::DateTime::parse_from_rfc3339(s) {
        Ok(d) => Ok((d.timestamp(), d.timestamp_subsec_nanos())),
        Err(e) => Err(e.to_string()),
    }
}

/// Whether instant `a` comes strictly after instant `b`.
pub open spec fn instant_after(a: (i64, u32), b: (i64, u32)) -> bool {
    a.0 > b.0 || (a.0 == b.0 && a.1 > b.1)
}

/// The message of a closing time that could not be parsed.
pub open spec fn spec_unparsable_closing_message(error: Seq<char>) -> Seq<char> {
    "Could not parse closing time: "@ + error
}

/// What a closing time comes to, given what its parse gave.
pub open spec fn spec_closing_time(parsed: Result<(i64, u32), Seq<char>>, now: (i64, u32), r: Result<
    (i64, u32),
    ServerFnError,
>) -> bool {
    match parsed {
        Err(msg) => r matches Err(e) && is_server_error(e, spec_unparsable_closing_message(msg)),
        Ok(t) => if instant_after(t, now) {
            r == Ok::<(i64, u32), ServerFnError>(t)
        } else {
            r matches Err(e) && is_args_error(e, "Your closing time can't be in the past"@)
        },
    }
}

/// What a chapter's closing time comes to, given what the parse gave: a text
/// that is not a date-time is a server error "Could not parse closing time: "
/// followed by the parse error's text; a time not after `now` is refused; a
/// later one is kept.
pub fn closing_time_decision(parsed: Result<(i64, u32), String>, now: (i64, u32)) -> (r: Result<
    (i64, u32),
    ServerFnError,
>)
    ensures
        spec_closing_time(
            match parsed {
                Ok(t) => Ok::<(i64, u32), Seq<char>>(t),
                Err(m) => Err::<(i64, u32), Seq<char>>(m@),
            },
            now,
            r,
        ),
{
    match parsed {
        Err(e) => {
            let mut msg = "Could not parse closing time: ".to_owned();
            msg.append(e.as_str());
            Err(ServerFnError::ServerError(msg))
        },
        Ok(t) => {
            if t.0 > now.0 || (t.0 == now.0 && t.1 > now.1) {
                Ok(t)
            } else {
                Err(args_error("Your closing time can't be in the past"))
            }
        },
    }
}

/// The closing time of a new chapter: an RFC 3339 date-time after `now`.
pub fn check_closing_time(closing_time: &str, now: (i64, u32)) -> (r: Result<(i64, u32), ServerFnError>)
    ensures
        spec_closing_time(rfc3339_parse(closing_time@), now, r),
{
    closing_time_decision(parse_rfc3339(closing_time), now)
}

/// Calls `chrono::Utc::now` and reads the instant with `timestamp` and
/// `timestamp_subsec_nanos`. The clock decides it; nothing is stated of it.
#[verifier::external_body]
fn now_instant() -> (i64, u32) {
    let now = chrono::Utc::now();
    (now.timestamp(), now.timestamp_subsec_nanos())
}

/// The closing time of a new chapter, checked against the clock: whatever the
/// clock reads, a text that is not a date-time is refused with the parse
/// error's text, and a kept time is the instant the text names.
pub fn check_closing_time_now(closing_time: &str) -> (r: Result<(i64, u32), ServerFnError>)
    ensures
        rfc3339_parse(closing_time@) matches Err(msg) ==> (r matches Err(e) && is_server_error(
            e,
            spec_unparsable_closing_message(msg),
        )),
        r matches Ok(t) ==> rfc3339_parse(closing_time@) == Ok::<(i64, u32), Seq<char>>(t),
        rfc3339_parse(closing_time@) is Ok ==> (r is Ok || (r matches Err(e) && is_args_error(
            e,
            "Your closing time can't be in the past"@,
        ))),
{
    check_closing_time(closing_time, now_instant())
}

/// `'a'` for an answer text `a`.
pub open spec fn quoted(a: Seq<char>) -> Seq<char> {
    seq!['\''] + a + seq!['\'']
}

/// The answers, each quoted, separated by commas.
pub open spec fn spec_answer_list(answers: Seq<String>) -> Seq<char>
    decreases answers.len(),
{
    if answers.len() == 0 {
        Seq::empty()
    } else if answers.len() == 1 {
        quoted(answers[0]@)
    } else {
        spec_answer_list(answers.drop_last()) + ","@ + quoted(answers.last()@)
    }
}

/// The list of accepted answers as the answer query writes it: each answer
/// between single quotes, separated by commas. The texts are written as they
/// are, quotes inside them included.
pub fn answer_list(answers: &Vec<String>) -> (r: String)
    ensures
        r@ == spec_answer_list(answers@),
{
    let mut r = String::new();
    let mut i: usize = 0;
    while i < answers.len()
        invariant
            i <= answers@.len(),
            r@ == spec_answer_list(answers@.take(i as int)),
        decreases answers@.len() - i,
    {
        let ghost before = r@;
        assert(answers@.take(i + 1).drop_last() =~= answers@.take(i as int));
        if i > 0 {
            r.append(",");
        }
        push_char(&mut r, '\'');
        r.append(answers[i].as_str());
        push_char(&mut r, '\'');
        proof {
            reveal_strlit(",");
            if i == 0 {
                assert(r@ =~= quoted(answers@[0]@));
            } else {
                assert(r@ =~= before + ","@ + quoted(answers@[i as int]@));
            }
        }
        i = i + 1;
    }
    assert(answers@.take(answers@.len() as int) =~= answers@);
    r
}

/// Runs of equal keys: each group holds the key and the values of one run.
pub open spec fn spec_group_runs<T>(items: Seq<(String, T)>) -> Seq<(Seq<char>, Seq<T>)>
    decreases items.len(),
{
    if items.len() == 0 {
        Seq::empty()
    } else {
        let prev = spec_group_runs(items.drop_last());
        let (k, v) = items.last();
        if prev.len() > 0 && prev.last().0 == k@ {
            prev.update(prev.len() - 1, (k@, prev.last().1.push(v)))
        } else {
            prev.push((k@, seq![v]))
        }
    }
}

/// The view of a list of groups.
pub open spec fn groups_view<T>(groups: Seq<(String, Vec<T>)>) -> Seq<(Seq<char>, Seq<T>)> {
    groups.map_values(|g: (String, Vec<T>)| (g.0@, g.1@))
}

/// Groups consecutive items with equal keys, keeping their order; the events
/// of a chapter come sorted by type, so each type becomes one group.
pub fn group_by_event_type<T>(items: Vec<(String, T)>) -> (r: Vec<(String, Vec<T>)>)
    ensures
        groups_view(r@) == spec_group_runs(items@),
{
    let ghost orig = items@;
    let mut out: Vec<(String, Vec<T>)> = Vec::new();
    assert(groups_view(out@) =~= spec_group_runs(orig.take(0)));
    for item in it: items.into_iter()
        invariant
            it.seq() == orig,
            groups_view(out@) =~= spec_group_runs(orig.take(it.index() as int)),
    {
        let ghost i = it.index();
        assert(item == orig[i]);
        assert(orig.take(i + 1).drop_last() =~= orig.take(i as int));
        let ghost prev = groups_view(out@);
        let (key, value) = item;
        let n = out.len();
        let same = n > 0 && text_eq(out[n - 1].0.as_str(), key.as_str());
        if same {
            let (k, mut g) = out.pop().unwrap();
            g.push(value);
            out.push((k, g));
            assert(groups_view(out@) =~= prev.update(prev.len() - 1, (key@, prev.last().1.push(value))));
        } else {
            let mut g: Vec<T> = Vec::new();
            g.push(value);
            out.push((key, g));
            assert(groups_view(out@) =~= prev.push((key@, seq![value])));
        }
    }
    assert(orig.take(orig.len() as int) =~= orig);
    out
}

/// The values of the groups, one group after another.
pub open spec fn flatten_values<T>(groups: Seq<(Seq<char>, Seq<T>)>) -> Seq<T>
    decreases groups.len(),
{
    if groups.len() == 0 {
        Seq::empty()
    } else {
        flatten_values(groups.drop_last()) + groups.last().1
    }
}

/// Grouping loses and reorders nothing: the groups' values, one group after
/// another, are the items' values in order; no group is empty; and
/// neighbouring groups have different keys.
pub proof fn lemma_group_runs_partition<T>(items: Seq<(String, T)>)
    ensures
        flatten_values(spec_group_runs(items)) == items.map_values(|p: (String, T)| p.1),
        forall|g: int|
            0 <= g < spec_group_runs(items).len() ==> (#[trigger] spec_group_runs(items)[g]).1.len()
                > 0,
        forall|g: int|
            0 < g < spec_group_runs(items).len() ==> (#[trigger] spec_group_runs(items)[g]).0
                != spec_group_runs(items)[g - 1].0,
    decreases items.len(),
{
    if items.len() > 0 {
        let rest = items.drop_last();
        lemma_group_runs_partition(rest);
        let prev = spec_group_runs(rest);
        let groups = spec_group_runs(items);
        let (k, v) = items.last();
        assert(items.map_values(|p: (String, T)| p.1) =~= rest.map_values(|p: (String, T)| p.1).push(
            v,
        ));
        if prev.len() > 0 && prev.last().0 == k@ {
            let last = (k@, prev.last().1.push(v));
            assert(groups == prev.update(prev.len() - 1, last));
            assert(groups.drop_last() =~= prev.drop_last());
            assert(flatten_values(prev) == flatten_values(prev.drop_last()) + prev.last().1);
            assert(flatten_values(groups) =~= flatten_values(prev) + seq![v]);
            assert forall|g: int| 0 < g < groups.len() implies (#[trigger] groups[g]).0 != groups[g
                - 1].0 by {
                assert(groups[g].0 == prev[g].0);
                assert(groups[g - 1].0 == prev[g - 1].0);
            }
            assert forall|g: int| 0 <= g < groups.len() implies (#[trigger] groups[g]).1.len() > 0 by {
                if g < groups.len() - 1 {
                    assert(groups[g] == prev[g]);
                }
            }
        } else {
            assert(groups == prev.push((k@, seq![v])));
            assert(groups.drop_last() =~= prev);
            assert(flatten_values(groups) =~= flatten_values(prev) + seq![v]);
            assert forall|g: int| 0 < g < groups.len() implies (#[trigger] groups[g]).0 != groups[g
                - 1].0 by {
                if g < groups.len() - 1 {
                    assert(groups[g] == prev[g]);
                    assert(groups[g - 1] == prev[g - 1]);
                } else {
                    assert(groups[g - 1] == prev.last());
                }
            }
            assert forall|g: int| 0 <= g < groups.len() implies (#[trigger] groups[g]).1.len() > 0 by {
                if g < groups.len() - 1 {
                    assert(groups[g] == prev[g]);
                }
            }
        }
    } else {
        assert(items.map_values(|p: (String, T)| p.1) =~= Seq::<T>::empty());
    }
}

} // verus!
