//! What the driver needs from the language front end: the source it hands in
//! and the failures it gets back.
use vstd::prelude::*;

pub mod error;

verus! {

/// The text of one source file and the path it was read from.
#[derive(Clone, Debug, PartialEq, Eq)]
pub struct ProgramSource {
    pub text: String,
    pub path: String,
}

impl ProgramSource {
    /// The source `text`, read from `path`.
    pub fn new(text: String, path: &str) -> (source: Self)
        ensures
            source.text@ == text@,
            source.path@ == path@,
    {
        ProgramSource { text, path: path.to_owned() }
    }
}

} // verus!
