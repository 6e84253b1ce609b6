//! Translation of answer-set-program rules into classical first-order
//! formulas by Clark's completion: each predicate's defining rules are folded
//! into one completed biconditional, predicates without rules are universally
//! falsified, and integrity constraints become universally closed negations.
//!
//! Parsing of concrete source syntax and rendering of finished statements are
//! left to the surrounding program; this crate works on already-structured
//! rule values and produces statement values.

use vstd::prelude::*;

pub mod ast;
pub mod formula;
pub mod problem;
pub mod translate;

verus! {

/// The semantic sort of a variable: the general program universe, or the
/// integers. A variable is assigned a domain at most once; a conflicting
/// later assignment is an error.
#[derive(Clone, Copy, Debug, PartialEq, Eq, Structural)]
pub enum Domain {
    Program,
    Integer,
}

/// The head or body shapes that lie outside the translatable fragment.
#[derive(Clone, Copy, Debug, PartialEq, Eq, Structural)]
pub enum UnsupportedKind {
    /// A disjunctive head with more than one atom.
    DisjunctiveHead,
    /// A choice head carrying bounds or cardinality guards.
    GuardedChoiceHead,
    /// A choice head enclosing more or fewer than one atom.
    MultipleChoiceAtoms,
    /// An aggregate literal in a rule body.
    AggregateLiteral,
}

/// A translation run fails as a whole with one of these.
#[derive(Debug, PartialEq, Eq)]
pub enum Error {
    /// An input file could not be read; carries a description of the path.
    FileRead(String),
    /// The external parser rejected the source; carries its diagnostic.
    ParseFailure(String),
    /// A head or body shape outside the supported fragment.
    UnsupportedConstruct(UnsupportedKind),
    /// A variable was assigned two incompatible domains.
    DomainConflict { variable: usize, assigned: Domain, requested: Domain },
    /// A defect that a well-formed front end can never produce.
    InternalInvariantViolation,
}

} // verus!
