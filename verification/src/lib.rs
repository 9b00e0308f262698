//! Compiles a statechart description into a microstep program.
//!
//! The input is a tree of statechart nodes ([`ast::statechart`]).  It is first
//! flattened into an indexed graph of states and transitions
//! ([`ast::core_graph`]), from which the two functions of the microstep
//! program ([`ast::microstep`]) are generated.

use crate::ast::conversion_error::{errors_view, Errors};
use crate::ast::core_graph::to_microstep::program::microstep;
use crate::ast::core_graph::to_microstep::to_microstep;
use crate::ast::microstep::Microstep;
use crate::ast::statechart::to_core::to_core;
use crate::ast::statechart::to_core::walk::normalize;
use crate::ast::statechart::Statechart;
use vstd::prelude::*;

pub mod ast;
pub mod seqs;

verus! {

/// The microstep program of `statechart`: the program of its core graph, or
/// the faults of the statechart where it has any.
pub fn compile(statechart: &Statechart) -> (r: Result<Microstep, Errors>)
    ensures
        match normalize(*statechart) {
            Ok(graph) => r matches Ok(program) && program@ == microstep(graph),
            Err(faults) => r matches Err(errors) && errors_view(errors@) == faults,
        },
{
    match to_core(statechart) {
        Ok(core) => to_microstep(&core),
        Err(errors) => Err(errors),
    }
}

} // verus!
