//! Events of a chapter and the picks made on them.

use vstd::prelude::*;

use crate::db::spread::Spread;
use crate::db::user_input::{UserInput, UserInputView};

verus! {

/// What an event asks: a group of games ranked against each other, or one question.
#[derive(Debug)]
pub enum EventContent {
    SpreadGroup(Vec<Spread>),
    UserInput(UserInput),
}

/// An [`EventContent`] with its games taken as a sequence.
pub enum EventContentView {
    SpreadGroup(Seq<Spread>),
    UserInput(UserInputView),
}

impl View for EventContent {
    type V = EventContentView;

    open spec fn view(&self) -> EventContentView {
        match self {
            EventContent::SpreadGroup(v) => EventContentView::SpreadGroup(v@),
            EventContent::UserInput(u) => EventContentView::UserInput(u@),
        }
    }
}

/// The kind of an event, as stored beside its contents.
#[derive(Clone, Copy, Debug, PartialEq, Eq, Structural)]
pub enum EventType {
    SpreadGroup,
    UserInput,
}

/// The kind of an event's contents.
pub open spec fn spec_event_type(c: EventContentView) -> EventType {
    match c {
        EventContentView::SpreadGroup(_) => EventType::SpreadGroup,
        EventContentView::UserInput(_) => EventType::UserInput,
    }
}

/// The kind of an event's contents.
pub fn event_type(c: &EventContent) -> (t: EventType)
    ensures
        t == spec_event_type(c@),
{
    match c {
        EventContent::SpreadGroup(_) => EventType::SpreadGroup,
        EventContent::UserInput(_) => EventType::UserInput,
    }
}

/// An event of a chapter.
#[derive(Debug)]
pub struct Event {
    pub id: i32,
    pub book_id: i32,
    pub chapter_id: i32,
    pub contents: EventContent,
}

/// What a player chose on an event: a team per game of a group, or a text answer.
#[derive(Debug)]
pub enum PickChoice {
    Selections(Vec<String>),
    Input(String),
}

/// A [`PickChoice`] with its selections taken as a sequence.
pub enum PickChoiceView {
    Selections(Seq<String>),
    Input(String),
}

impl View for PickChoice {
    type V = PickChoiceView;

    open spec fn view(&self) -> PickChoiceView {
        match self {
            PickChoice::Selections(v) => PickChoiceView::Selections(v@),
            PickChoice::Input(s) => PickChoiceView::Input(*s),
        }
    }
}

/// What a player wagered on an event: points per game of a group, or one amount.
#[derive(Debug)]
pub enum PickWager {
    Ranks(Vec<i32>),
    Flat(i32),
}

/// A [`PickWager`] with its points taken as a sequence.
pub enum PickWagerView {
    Ranks(Seq<i32>),
    Flat(i32),
}

impl View for PickWager {
    type V = PickWagerView;

    open spec fn view(&self) -> PickWagerView {
        match self {
            PickWager::Ranks(v) => PickWagerView::Ranks(v@),
            PickWager::Flat(n) => PickWagerView::Flat(*n),
        }
    }
}

/// A stored pick as the results table reads it.
#[allow(inconsistent_fields)]
#[derive(Debug)]
pub enum ChapterPick {
    SpreadGroup { choice: Vec<String>, wager: Vec<i32>, points: Option<i32> },
    UserInput { choice: String, wager: i32, points: Option<i32> },
}

/// A stored pick of one user on one event.
#[derive(Debug)]
pub struct ChapterPickEntry {
    pub event_id: i32,
    pub user_id: i32,
    pub pick: ChapterPick,
}

} // verus!
