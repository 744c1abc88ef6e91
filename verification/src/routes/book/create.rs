//! Creating a book.

use vstd::prelude::*;
use vstd::string::*;
use vstd::utf8::encode_utf8;

use crate::error::{is_rejection, rejection, Rejection, Status};
use crate::routes::chapter::create::{invalid_name_chars, name_accepted, name_char_ok};
use crate::text::{chars_of, is_alphabetic};

verus! {

/// The form that names a new book.
pub struct Params {
    pub book_name: String,
}

/// A book name is accepted: at most 30 bytes, and only letters and spaces.
pub open spec fn book_name_accepted(s: Seq<char>) -> bool {
    &&& encode_utf8(s).len() <= 30
    &&& forall|i: int| 0 <= i < s.len() ==> name_char_ok(#[trigger] s[i])
}

/// Checks a new book's name; a refused name is answered with one message for both rules.
pub fn validate_book_name(book_name: &str) -> (r: Result<(), Rejection>)
    ensures
        r is Ok <==> book_name_accepted(book_name@),
        r matches Err(e) ==> is_rejection(
            e,
            Status::BadRequest,
            "Book name must be less than 30 characters and be alphabetic & spaces"@,
        ),
{
    let refuse = "Book name must be less than 30 characters and be alphabetic & spaces";
    if book_name.as_bytes().len() > 30 {
        return Err(rejection(Status::BadRequest, refuse));
    }
    let chars = chars_of(book_name);
    let mut i: usize = 0;
    while i < chars.len()
        invariant
            i <= chars@.len(),
            chars@ == book_name@,
            forall|j: int| 0 <= j < i ==> name_char_ok(#[trigger] book_name@[j]),
        decreases chars@.len() - i,
    {
        let c = chars[i];
        if !is_alphabetic(c) && c != ' ' {
            return Err(
                rejection(
                    Status::BadRequest,
                    "Book name must be less than 30 characters and be alphabetic & spaces",
                ),
            );
        }
        i = i + 1;
    }
    Ok(())
}

/// A name has no character a name may not hold exactly when every character
/// is one a name may hold.
proof fn lemma_no_invalid_chars(s: Seq<char>)
    ensures
        invalid_name_chars(s).len() == 0 <==> forall|i: int| 0 <= i < s.len() ==> name_char_ok(
            #[trigger] s[i],
        ),
    decreases s.len(),
{
    if s.len() > 0 {
        let rest = s.drop_last();
        lemma_no_invalid_chars(rest);
        if forall|i: int| 0 <= i < s.len() ==> name_char_ok(#[trigger] s[i]) {
            assert(name_char_ok(s[s.len() - 1]));
            assert forall|i: int| 0 <= i < rest.len() implies name_char_ok(#[trigger] rest[i]) by {
                assert(rest[i] == s[i]);
            }
        }
        if invalid_name_chars(s).len() == 0 {
            assert(name_char_ok(s.last()));
            assert forall|i: int| 0 <= i < s.len() implies name_char_ok(#[trigger] s[i]) by {
                if i < s.len() - 1 {
                    assert(s[i] == rest[i]);
                }
            }
        }
    }
}

/// Books and chapters follow one naming rule: a name is accepted for a new
/// book exactly when it is accepted for a new chapter.
pub proof fn lemma_book_and_chapter_names_agree(s: Seq<char>)
    ensures
        book_name_accepted(s) <==> name_accepted(s),
{
    lemma_no_invalid_chars(s);
}

} // verus!
