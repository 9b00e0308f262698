//! What is reported when a statechart cannot be turned into a core graph.

use crate::ast::location::Location;
use vstd::prelude::*;

verus! {

/// One fault of a statechart.
#[derive(Clone, Debug, PartialEq, Eq)]
pub struct ConversionError {
    pub message: String,
    /// Whether the fault rules out any result.
    pub fatal: bool,
    /// The pass that found the fault.
    pub source: String,
    /// The node that the fault lies in.
    pub loc: Location,
}

/// The faults of a statechart, in the order in which they were found.
pub type Errors = Vec<ConversionError>;

/// The contents of a [`ConversionError`].
pub struct ConversionErrorView {
    pub message: Seq<char>,
    pub fatal: bool,
    pub source: Seq<char>,
    pub loc: Location,
}

impl View for ConversionError {
    type V = ConversionErrorView;

    open spec fn view(&self) -> ConversionErrorView {
        ConversionErrorView {
            message: self.message@,
            fatal: self.fatal,
            source: self.source@,
            loc: self.loc,
        }
    }
}

/// The contents of each error of a sequence.
pub open spec fn errors_view(s: Seq<ConversionError>) -> Seq<ConversionErrorView> {
    Seq::new(s.len(), |i: int| s[i]@)
}

} // verus!
