//! The one error type of every stage, and its rendering as a diagnostic.

use vstd::prelude::*;
use crate::text::{decimal_of, write_decimal};

verus! {

/// A failure: either context-free, or anchored to a source name and a
/// zero-based (line, column) position.
#[derive(Debug)]
pub enum ChaiError {
    StandardError(String),
    SourceError(String, (usize, usize), String),
}

/// The mathematical form of a `ChaiError`.
pub enum ErrorView {
    Standard(Seq<char>),
    Source(Seq<char>, (nat, nat), Seq<char>),
}

impl View for ChaiError {
    type V = ErrorView;

    open spec fn view(&self) -> ErrorView {
        match self {
            ChaiError::StandardError(m) => ErrorView::Standard(m@),
            ChaiError::SourceError(s, p, m) => ErrorView::Source(s@, (p.0 as nat, p.1 as nat), m@),
        }
    }
}

/// `<source> (<line+1>,<column+1>):`, the label that places a diagnostic.
pub open spec fn location_of(source: Seq<char>, position: (nat, nat)) -> Seq<char> {
    source + " ("@ + decimal_of(position.0 + 1) + ","@ + decimal_of(position.1 + 1) + "):"@
}

/// The one-line diagnostic for an error.
pub open spec fn rendered(e: ErrorView) -> Seq<char> {
    match e {
        ErrorView::Standard(m) => "Error: "@ + m,
        ErrorView::Source(s, p, m) => "Error: "@ + location_of(s, p) + " "@ + m,
    }
}

/// Builds the label `<source> (<line+1>,<column+1>):` of a position.
pub fn location_label(source: &String, position: (usize, usize)) -> (r: String)
    ensures
        r@ == location_of(source@, (position.0 as nat, position.1 as nat)),
{
    let mut r = source.clone();
    r.append(" (");
    write_decimal(&mut r, position.0 as u128 + 1);
    r.append(",");
    write_decimal(&mut r, position.1 as u128 + 1);
    r.append("):");
    r
}

impl ChaiError {
    /// The diagnostic line: `Error: <message>`, or
    /// `Error: <source> (<line+1>,<column+1>): <message>`.
    pub fn render(&self) -> (r: String)
        ensures
            r@ == rendered(self@),
    {
        let mut r = String::from_str("Error: ");
        match self {
            ChaiError::StandardError(m) => {
                r.append(m.as_str());
            },
            ChaiError::SourceError(s, p, m) => {
                let label = location_label(s, *p);
                r.append(label.as_str());
                r.append(" ");
                r.append(m.as_str());
            },
        }
        r
    }
}

} // verus!
