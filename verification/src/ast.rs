//! The rule abstract syntax handed in by the external parser front end:
//! terms, atoms, body literals, heads and rules. These values are consumed
//! by the translation; the formula model produced from them lives in
//! `crate::formula`.

use vstd::prelude::*;

verus! {

/// Binary arithmetic operations on terms.
#[derive(Clone, Copy, Debug, PartialEq, Eq, Structural)]
pub enum BinaryOperator {
    Add,
    Subtract,
    Multiply,
    Divide,
    Modulo,
}

/// Unary arithmetic operations on terms.
#[derive(Clone, Copy, Debug, PartialEq, Eq, Structural)]
pub enum UnaryOperator {
    Negative,
    AbsoluteValue,
}

/// Comparison relations between two terms.
#[derive(Clone, Copy, Debug, PartialEq, Eq, Structural)]
pub enum Relation {
    Equal,
    NotEqual,
    Less,
    LessEqual,
    Greater,
    GreaterEqual,
}

/// The sign of a body literal.
#[derive(Clone, Copy, Debug, PartialEq, Eq, Structural)]
pub enum Sign {
    Positive,
    Negative,
}

/// A source-level term. Variables are identified by their source name;
/// the translation resolves equal names within one rule to one shared
/// variable declaration.
#[derive(Debug, PartialEq, Eq)]
pub enum Term {
    Variable(String),
    Integer(i64),
    Symbolic(String),
    BinaryOperation(BinaryOperator, Box<Term>, Box<Term>),
    UnaryOperation(UnaryOperator, Box<Term>),
    Interval(Box<Term>, Box<Term>),
}

/// A predicate atom: a name applied to argument terms. The predicate it
/// refers to is identified by name and argument count.
#[derive(Debug, PartialEq, Eq)]
pub struct Atom {
    pub name: String,
    pub arguments: Vec<Term>,
}

/// One literal of a rule body.
#[derive(Debug, PartialEq, Eq)]
pub enum Literal {
    /// A truth constant literal.
    Boolean(bool),
    /// A possibly negated predicate atom.
    Atom { sign: Sign, atom: Atom },
    /// A comparison between two terms.
    Comparison(Relation, Term, Term),
    /// An aggregate literal; outside the supported fragment.
    Aggregate,
}

/// The head of a rule as the parser delivers it.
#[derive(Debug, PartialEq, Eq)]
pub enum Head {
    /// A truth constant head: a true head is trivial, a false head marks an
    /// integrity constraint.
    Boolean(bool),
    /// A disjunction of atoms; an empty one marks an integrity constraint,
    /// a single atom is a defining head, more than one atom is unsupported.
    Disjunction(Vec<Atom>),
    /// A choice construct; only a guard-free choice enclosing exactly one
    /// atom is supported.
    Choice { atoms: Vec<Atom>, has_guards: bool },
}

/// One rule: a head and a conjunction of body literals.
#[derive(Debug, PartialEq, Eq)]
pub struct Rule {
    pub head: Head,
    pub body: Vec<Literal>,
}

} // verus!
