//! The closed error taxonomy. Every fallible operation in the execution
//! core returns one of these; nothing is thrown, retried or suppressed.

use vstd::prelude::*;

verus! {

/// The failure kinds of the execution core.
///
/// `Columnar` wraps a columnar-library failure reported at the boundary,
/// carried as its message and not reinterpreted. `Unexpected` is the
/// generic failure (an unresolvable name, an unimplemented path).
/// `Wrapped` preserves two causes: a local lookup failure together with
/// the failure of the enclosing (ancestor) scope. `BadInput` reports
/// malformed source data.
#[derive(Debug, PartialEq)]
pub enum Error {
    Columnar(String),
    Unexpected,
    Wrapped(String, Box<Error>),
    BadInput(String),
}

impl Error {
    /// A short, stable label for the failure kind, usable in messages.
    pub fn kind_label(&self) -> (r: &'static str)
        ensures
            r@ == self.spec_kind_label(),
    {
        match self {
            Error::Columnar(_) => "columnar library error",
            Error::Unexpected => "unexpected error",
            Error::Wrapped(_, _) => "wrapped error",
            Error::BadInput(_) => "bad input",
        }
    }

    pub open spec fn spec_kind_label(&self) -> Seq<char> {
        match self {
            Error::Columnar(_) => "columnar library error"@,
            Error::Unexpected => "unexpected error"@,
            Error::Wrapped(_, _) => "wrapped error"@,
            Error::BadInput(_) => "bad input"@,
        }
    }
}

} // verus!
