//! A book's page: which of its chapters are listed, and for whom.

use vstd::prelude::*;

use crate::db::book::BookRole;
use crate::db::chapter::Chapter;

verus! {

/// The chapters of `cs` whose visibility is `visible`, in order.
pub open spec fn chapters_where(cs: Seq<Chapter>, visible: bool) -> Seq<Chapter>
    decreases cs.len(),
{
    if cs.len() == 0 {
        Seq::empty()
    } else if cs.last().is_visible == visible {
        chapters_where(cs.drop_last(), visible).push(cs.last())
    } else {
        chapters_where(cs.drop_last(), visible)
    }
}

/// The chapter lists of a book page: the published chapters for every
/// member, and the unpublished ones for an admin only.
#[derive(Debug)]
pub struct ChapterLists {
    pub unpublished: Option<Vec<Chapter>>,
    pub published: Vec<Chapter>,
}

/// Sorts a book's chapters, keeping their order, into the published ones and,
/// for an admin, the unpublished ones.
pub fn chapter_lists(role: BookRole, chapters: Vec<Chapter>) -> (r: ChapterLists)
    ensures
        r.published@ == chapters_where(chapters@, true),
        r.published@ == chapters@.filter(|c: Chapter| c.is_visible),
        forall|i: int| 0 <= i < r.published@.len() ==> (#[trigger] r.published@[i]).is_visible,
        r.unpublished matches Some(u) ==> u@ == chapters@.filter(|c: Chapter| !c.is_visible),
        role == BookRole::Admin ==> (r.unpublished matches Some(u) && u@ == chapters_where(
            chapters@,
            false,
        )),
        role != BookRole::Admin ==> r.unpublished is None,
{
    let ghost orig = chapters@;
    let mut published: Vec<Chapter> = Vec::new();
    let mut unpublished: Vec<Chapter> = Vec::new();
    for c in it: chapters.into_iter()
        invariant
            it.seq() == orig,
            published@ == chapters_where(orig.take(it.index() as int), true),
            unpublished@ == chapters_where(orig.take(it.index() as int), false),
    {
        let ghost i = it.index();
        assert(orig.take(i + 1).drop_last() =~= orig.take(i as int));
        assert(orig.take(i + 1).last() == c);
        if c.is_visible {
            published.push(c);
        } else {
            unpublished.push(c);
        }
    }
    assert(orig.take(orig.len() as int) =~= orig);
    proof {
        lemma_lists_are_visibility_filters(orig);
    }
    if role == BookRole::Admin {
        ChapterLists { unpublished: Some(unpublished), published }
    } else {
        ChapterLists { unpublished: None, published }
    }
}

/// The chapters of a visibility, taken in order, are exactly the chapters
/// whose `is_visible` flag has that value; nothing else about a chapter (such
/// as whether it is open) decides where it is listed.
pub proof fn lemma_lists_are_visibility_filters(cs: Seq<Chapter>)
    ensures
        chapters_where(cs, true) == cs.filter(|c: Chapter| c.is_visible),
        chapters_where(cs, false) == cs.filter(|c: Chapter| !c.is_visible),
        forall|i: int|
            0 <= i < chapters_where(cs, true).len() ==> (#[trigger] chapters_where(
                cs,
                true,
            )[i]).is_visible,
        forall|i: int|
            0 <= i < chapters_where(cs, false).len() ==> !(#[trigger] chapters_where(
                cs,
                false,
            )[i]).is_visible,
        chapters_where(cs, true).len() + chapters_where(cs, false).len() == cs.len(),
    decreases cs.len(),
{
    reveal(Seq::filter);
    if cs.len() > 0 {
        lemma_lists_are_visibility_filters(cs.drop_last());
        let pt = chapters_where(cs.drop_last(), true);
        let pf = chapters_where(cs.drop_last(), false);
        assert forall|i: int| 0 <= i < chapters_where(cs, true).len() implies (#[trigger] chapters_where(
            cs,
            true,
        )[i]).is_visible by {
            if i < pt.len() {
                assert(chapters_where(cs, true)[i] == pt[i]);
            }
        }
        assert forall|i: int| 0 <= i < chapters_where(cs, false).len() implies !(#[trigger] chapters_where(
            cs,
            false,
        )[i]).is_visible by {
            if i < pf.len() {
                assert(chapters_where(cs, false)[i] == pf[i]);
            }
        }
    }
}

} // verus!
