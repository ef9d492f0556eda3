//! Decisions of a run that depend on its inputs alone.
use vstd::prelude::*;
use crate::text::{ends_with, has_suffix};

verus! {

/// What an input path holds.
#[derive(PartialEq, Eq, Structural, Clone, Copy, Debug)]
pub enum InputKind {
    /// A segmented text, turned into an audiobook.
    Text,
    /// An EPUB, turned into a segmented text first.
    Epub,
    /// Neither: the run stops.
    Invalid,
}

/// The kind of the input `path`: an existing `.txt` file is a text, a
/// `.epub` path an EPUB, anything else invalid.
pub fn classify_input(path: &str, exists: bool) -> (r: InputKind)
    ensures
        r == (if has_suffix(path@, ".txt"@) && exists {
            InputKind::Text
        } else if has_suffix(path@, ".epub"@) {
            InputKind::Epub
        } else {
            InputKind::Invalid
        }),
{
    if ends_with(path, ".txt") && exists {
        InputKind::Text
    } else if ends_with(path, ".epub") {
        InputKind::Epub
    } else {
        InputKind::Invalid
    }
}

} // verus!
