//! Content types, guessed from file extensions by `mime_guess`.

use crate::paths::{extension, path_extension};
use crate::text::texts;
use vstd::prelude::*;
use vstd::string::StringExecFns;

verus! {

/// The media type that `mime_guess` lists first for a file extension, if it
/// knows the extension.
pub uninterp spec fn guessed_type(extension: Seq<char>) -> Option<Seq<char>>;

/// `mime_guess::from_ext` and `MimeGuess::first_raw`: the first media type
/// in the crate's table for an extension, looked up without regard to case.
#[verifier::external_body]
fn first_guess(extension: &str) -> (guess: Option<&'static str>)
    ensures
        match guess {
            Some(media) => guessed_type(extension@) == Some(media@),
            None => guessed_type(extension@) is None,
        },
{
    mime_guess::from_ext(extension).first_raw()
}

/// The content type to send when a guess came out as `guess`: the guess, or
/// the generic binary type where there is none.
pub open spec fn media_or_binary(guess: Option<Seq<char>>) -> Seq<char> {
    match guess {
        Some(media) => media,
        None => "application/octet-stream"@,
    }
}

/// The content type of the file that a path names.
pub open spec fn content_type_of(path: Seq<Seq<char>>) -> Seq<char> {
    match path_extension(path) {
        Some(extension) => media_or_binary(guessed_type(extension)),
        None => media_or_binary(None),
    }
}

/// The content type to send for a guess, which falls back to the generic
/// binary type.
pub fn or_octet_stream(guess: Option<&str>) -> (media: String)
    ensures
        media@ == media_or_binary(
            match guess {
                Some(text) => Some(text@),
                None => None,
            },
        ),
{
    match guess {
        Some(text) => String::from_str(text),
        None => String::from_str("application/octet-stream"),
    }
}

/// The content type of the file that a path names, guessed from the
/// extension of its last component.
pub fn content_type(path: &Vec<String>) -> (media: String)
    ensures
        media@ == content_type_of(texts(path@)),
{
    if path.len() == 0 {
        return or_octet_stream(None);
    }
    assert(texts(path@).last() == path@[path.len() - 1]@);
    match extension(path[path.len() - 1].as_str()) {
        Some(found) => or_octet_stream(first_guess(found)),
        None => or_octet_stream(None),
    }
}

} // verus!
