//! The error type of the library's own operations.

use vstd::prelude::*;

use crate::text::push_str;

verus! {

/// Errors raised by the library's parsing and validation logic.
#[derive(Debug, Clone)]
pub enum CoreError {
    /// A file's tags could not be read.
    Metadata(String),
    /// A playlist could not be read or written.
    Playlist(String),
    /// The input was rejected.
    Invalid(String),
}

/// The text shown for an error: its category, a colon, its detail.
pub open spec fn spec_error_message(e: CoreError) -> Seq<char> {
    match e {
        CoreError::Metadata(m) => "metadata error: "@ + m@,
        CoreError::Playlist(m) => "playlist error: "@ + m@,
        CoreError::Invalid(m) => "invalid input: "@ + m@,
    }
}

impl CoreError {
    /// The text shown to the user for this error.
    pub fn message(&self) -> (r: String)
        ensures
            r@ == spec_error_message(*self),
    {
        let mut r = String::new();
        let (head, detail) = match self {
            CoreError::Metadata(m) => ("metadata error: ", m),
            CoreError::Playlist(m) => ("playlist error: ", m),
            CoreError::Invalid(m) => ("invalid input: ", m),
        };
        push_str(&mut r, head);
        push_str(&mut r, detail.as_str());
        proof {
            assert(Seq::<char>::empty() + head@ =~= head@);
        }
        r
    }
}

} // verus!
