//! A free-text question worth a number of points.

use vstd::prelude::*;

verus! {

/// A question players answer in their own words.
#[derive(Debug)]
pub struct UserInput {
    pub title: String,
    pub description: Option<String>,
    pub points: i32,
    pub acceptable_answers: Option<Vec<String>>,
}

/// A [`UserInput`] with its answers taken as a sequence.
pub struct UserInputView {
    pub title: String,
    pub description: Option<String>,
    pub points: i32,
    pub acceptable_answers: Option<Seq<String>>,
}

impl View for UserInput {
    type V = UserInputView;

    open spec fn view(&self) -> UserInputView {
        UserInputView {
            title: self.title,
            description: self.description,
            points: self.points,
            acceptable_answers: match self.acceptable_answers {
                Some(v) => Some(v@),
                None => None,
            },
        }
    }
}

} // verus!
