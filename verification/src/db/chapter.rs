//! Chapters: the weekly rounds of a book.

use vstd::prelude::*;

verus! {

/// A chapter of a book.
#[derive(Clone, Debug)]
pub struct Chapter {
    pub chapter_id: i32,
    pub book_id: i32,
    pub title: String,
    pub is_open: bool,
    pub is_visible: bool,
}

} // verus!
