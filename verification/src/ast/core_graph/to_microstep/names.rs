//! The names of the variables of a microstep program: a prefix that says
//! what a variable records, followed by the index of the state or the
//! transition that it records it of.

use crate::ast::location::Location;
use crate::ast::microstep::{Identifier, IdentifierView};
use vstd::prelude::*;

verus! {

/// The state is in the configuration.
pub const CONFIGURATION_PREFIX: &'static str = "c";

/// The state has been initialised.
pub const INITIALIZED_PREFIX: &'static str = "i";

/// The state is recorded in the history.
pub const HISTORY_PREFIX: &'static str = "h";

/// The state is entered in this microstep.
pub const ENTRY_PREFIX: &'static str = "e";

/// The transition is taken in this microstep.
pub const TRANS_PREFIX: &'static str = "t";

/// The state is left in this microstep.
pub const EXIT_PREFIX: &'static str = "x";

/// The transition can still be taken: no transition that conflicts with it
/// has been.
pub const AVAILABLE_TRANS_PREFIX: &'static str = "a";

/// The state is entered and was not in the configuration.
pub const ENTRY_GUARD_PREFIX: &'static str = "g";

/// The character of the digit `d`.
pub open spec fn digit(d: nat) -> char {
    if d == 0 {
        '0'
    } else if d == 1 {
        '1'
    } else if d == 2 {
        '2'
    } else if d == 3 {
        '3'
    } else if d == 4 {
        '4'
    } else if d == 5 {
        '5'
    } else if d == 6 {
        '6'
    } else if d == 7 {
        '7'
    } else if d == 8 {
        '8'
    } else {
        '9'
    }
}

/// The number `k` in decimal digits.
pub open spec fn decimal(k: nat) -> Seq<char>
    decreases k,
{
    if k < 10 {
        seq![digit(k)]
    } else {
        decimal(k / 10).push(digit(k % 10))
    }
}

/// The name of the variable with the prefix `prefix` for the index `k`.
pub open spec fn variable(prefix: Seq<char>, k: nat) -> Seq<char> {
    prefix + decimal(k)
}

/// The variable with the prefix `prefix` for the index `k`.
pub open spec fn identifier(prefix: Seq<char>, k: nat, loc: Location) -> IdentifierView {
    IdentifierView { name: variable(prefix, k), loc }
}

/// The digit `d` as a string.
fn digit_text(d: usize) -> (s: &'static str)
    requires
        d < 10,
    ensures
        s@ == seq![digit(d as nat)],
{
    proof {
        reveal_strlit("0");
        reveal_strlit("1");
        reveal_strlit("2");
        reveal_strlit("3");
        reveal_strlit("4");
        reveal_strlit("5");
        reveal_strlit("6");
        reveal_strlit("7");
        reveal_strlit("8");
        reveal_strlit("9");
    }
    let s = if d == 0 {
        "0"
    } else if d == 1 {
        "1"
    } else if d == 2 {
        "2"
    } else if d == 3 {
        "3"
    } else if d == 4 {
        "4"
    } else if d == 5 {
        "5"
    } else if d == 6 {
        "6"
    } else if d == 7 {
        "7"
    } else if d == 8 {
        "8"
    } else {
        "9"
    };
    assert(s@ =~= seq![digit(d as nat)]);
    s
}

/// Writes `k` in decimal digits at the end of `s`.
fn append_decimal(s: &mut String, k: usize)
    ensures
        final(s)@ == old(s)@ + decimal(k as nat),
    decreases k,
{
    if k >= 10 {
        append_decimal(s, k / 10);
    }
    s.append(digit_text(k % 10));
    assert(s@ =~= old(s)@ + decimal(k as nat));
}

/// The name of the variable with the prefix `prefix` for the index `k`.
pub fn variable_name(prefix: &str, k: usize) -> (name: String)
    ensures
        name@ == variable(prefix@, k as nat),
{
    let mut name = String::from_str(prefix);
    append_decimal(&mut name, k);
    name
}

/// The variable with the prefix `prefix` for the index `k`.
pub fn gen_identifier(prefix: &str, k: usize, loc: Location) -> (id: Identifier)
    ensures
        id@ == identifier(prefix@, k as nat, loc),
{
    Identifier { name: variable_name(prefix, k), loc }
}

} // verus!
