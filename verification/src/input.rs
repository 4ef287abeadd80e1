//! What was read of the sources of a run.
//!
//! The library opens and reads nothing itself. Its caller opens each source
//! reference, asks the opened input for its lines or its bytes, and hands
//! over what came of it as plain values.

use crate::selector::{as_elements, Selector};
use vstd::prelude::*;

verus! {

/// An opened input and the element sequence that it produced.
///
/// `elements` is `Err` with the reason when the input could not be turned
/// into a sequence at all. Otherwise it holds one entry for each element in
/// order: the element, or the reason why producing it failed.
pub struct Input<T> {
    /// The name shown in headers and diagnostics: `-` for standard input,
    /// else the path as it was given.
    pub name: String,
    pub elements: Result<Vec<Result<T, String>>, String>,
}

impl<T> Input<T> {
    /// An input of which `selector` was offered the elements as they were
    /// read. It holds the elements that the selector held on to, which are
    /// all that its count can keep.
    pub fn drained(name: String, selector: Selector<T>) -> (input: Self)
        ensures
            input.name == name,
            input.elements matches Ok(elements) && elements@ == as_elements::<T, String>(
                selector.held(),
            ),
    {
        Input { name, elements: Ok(selector.into_elements()) }
    }

    /// An opened input that could not be turned into an element sequence.
    pub fn unreadable(name: String, reason: String) -> (input: Self)
        ensures
            input.name == name,
            input.elements == Err::<Vec<Result<T, String>>, String>(reason),
    {
        Input { name, elements: Err(reason) }
    }
}

/// What became of one source reference.
pub enum Source {
    /// It could not be opened, for the reason given.
    Unopened(String),
    /// It was opened and asked for its lines. A line holds its line end,
    /// unless it is the last one of a source that does not end with one.
    Lines(Input<String>),
    /// It was opened and asked for its bytes.
    Bytes(Input<u8>),
}

impl Source {
    /// True when the reference was opened.
    pub open spec fn is_opened(self) -> bool {
        !(self is Unopened)
    }

    /// The name of the opened input.
    pub open spec fn name(self) -> Seq<char> {
        match self {
            Source::Unopened(_) => Seq::empty(),
            Source::Lines(input) => input.name@,
            Source::Bytes(input) => input.name@,
        }
    }
}

} // verus!
