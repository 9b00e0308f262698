//! The faults that normalising a statechart can find.

use crate::ast::conversion_error::{ConversionError, ConversionErrorView};
use crate::ast::location::Location;
use vstd::prelude::*;

verus! {

/// A name as it is written in a message: between quotes, with the
/// characters that cannot stand there as they are replaced by escapes.
pub uninterp spec fn quoted(name: Seq<char>) -> Seq<char>;

/// The pass that reports the faults.
pub open spec fn origin() -> Seq<char> {
    "statechart/ast/statechart/to_core"@
}

/// The fault of a second state with the name `name`.
pub open spec fn duplicate_target(name: Seq<char>, loc: Location) -> ConversionErrorView {
    ConversionErrorView {
        message: "Duplicate target: "@ + quoted(name),
        fatal: true,
        source: origin(),
        loc,
    }
}

/// The fault of a target `name` that no state has.
pub open spec fn missing_target(name: Seq<char>, loc: Location) -> ConversionErrorView {
    ConversionErrorView {
        message: "Missing target: "@ + quoted(name),
        fatal: true,
        source: origin(),
        loc,
    }
}

/// Writes `name` with the `{:?}` format of `format!`, which for a string is
/// its `Debug` form: the string between double quotes, with escapes for the
/// characters that a string literal cannot hold as they are.  The result
/// depends on the characters of `name` alone; the contract gives it the name
/// [`quoted`] and says no more of it.
#[verifier::external_body]
fn quote(name: &String) -> (s: String)
    ensures
        s@ == quoted(name@),
{
    format!("{:?}", name)
}

/// The message `what` followed by the quoted `name`, as a fault at `loc`.
fn fault(what: &str, name: &String, loc: Location) -> (e: ConversionError)
    ensures
        e@ == (ConversionErrorView {
            message: what@ + quoted(name@),
            fatal: true,
            source: origin(),
            loc,
        }),
{
    let mut message = String::from_str(what);
    let name = quote(name);
    message.append(name.as_str());
    ConversionError {
        message,
        fatal: true,
        source: String::from_str("statechart/ast/statechart/to_core"),
        loc,
    }
}

/// The fault of a second state with the name `name`.
pub fn duplicate_target_error(name: &String, loc: Location) -> (e: ConversionError)
    ensures
        e@ == duplicate_target(name@, loc),
{
    fault("Duplicate target: ", name, loc)
}

/// The fault of a target `name` that no state has.
pub fn missing_target_error(name: &String, loc: Location) -> (e: ConversionError)
    ensures
        e@ == missing_target(name@, loc),
{
    fault("Missing target: ", name, loc)
}

} // verus!
