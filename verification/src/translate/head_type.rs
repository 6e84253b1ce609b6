//! Classification of a rule's head into the supported shapes: a single
//! defining atom, a choice enclosing a single atom, an integrity
//! constraint, or a trivial head that contributes nothing. Any other shape
//! aborts the run as unsupported.

use vstd::prelude::*;

use crate::Error;
use crate::UnsupportedKind;
use crate::ast;
use crate::problem::Outcome;
use crate::problem::Problem;
use crate::problem::ProblemModel;
use crate::problem::spec_intern_predicate;

verus! {

/// A classified head atom: the interned predicate declaration handle and
/// the argument terms as written in the head.
#[derive(Debug, PartialEq, Eq)]
pub struct HeadAtom {
    pub predicate: usize,
    pub arguments: Vec<ast::Term>,
}

/// The supported head shapes.
#[derive(Debug, PartialEq, Eq)]
pub enum HeadType {
    /// The head is exactly one positive atom.
    SingleAtom(HeadAtom),
    /// The head is a choice construct enclosing exactly one atom.
    ChoiceWithSingleAtom(HeadAtom),
    /// The head is empty or false.
    IntegrityConstraint,
    /// The head contributes nothing observable.
    Trivial,
}

/// Head classification in the model: interns the head atom's predicate
/// where the head defines one, and fails with `UnsupportedConstruct` on
/// every shape outside the fragment — in particular on a disjunctive head
/// of two or more atoms.
pub open spec fn spec_head_type(problem: ProblemModel, head: ast::Head) -> Outcome<
    (ProblemModel, HeadType),
> {
    match head {
        ast::Head::Boolean(value) => if value {
            Outcome::Success((problem, HeadType::Trivial))
        } else {
            Outcome::Success((problem, HeadType::IntegrityConstraint))
        },
        ast::Head::Disjunction(atoms) => if atoms@.len() == 0 {
            Outcome::Success((problem, HeadType::IntegrityConstraint))
        } else if atoms@.len() == 1 {
            let atom = atoms@[0];
            let (p, predicate) = spec_intern_predicate(
                problem,
                atom.name,
                atom.arguments@.len() as usize,
            );
            Outcome::Success(
                (
                    p,
                    HeadType::SingleAtom(HeadAtom { predicate, arguments: atom.arguments }),
                ),
            )
        } else {
            Outcome::Failure(Error::UnsupportedConstruct(UnsupportedKind::DisjunctiveHead))
        },
        ast::Head::Choice { atoms, has_guards } => if has_guards {
            Outcome::Failure(Error::UnsupportedConstruct(UnsupportedKind::GuardedChoiceHead))
        } else if atoms@.len() == 1 {
            let atom = atoms@[0];
            let (p, predicate) = spec_intern_predicate(
                problem,
                atom.name,
                atom.arguments@.len() as usize,
            );
            Outcome::Success(
                (
                    p,
                    HeadType::ChoiceWithSingleAtom(
                        HeadAtom { predicate, arguments: atom.arguments },
                    ),
                ),
            )
        } else {
            Outcome::Failure(Error::UnsupportedConstruct(UnsupportedKind::MultipleChoiceAtoms))
        },
    }
}

/// Classifies a rule's head, interning the predicate declaration of a
/// defining atom; mirrors `spec_head_type`.
pub fn determine_head_type(problem: &mut Problem, head: ast::Head) -> (r: Result<HeadType, Error>)
    ensures
        match spec_head_type(old(problem)@, head) {
            Outcome::Success((p, ht)) => {
                &&& r matches Ok(v) && v == ht
                &&& final(problem)@ == p
                &&& final(problem)@.variables == old(problem)@.variables
                &&& final(problem)@.predicates.len() >= old(problem)@.predicates.len()
                &&& forall|i: int|
                    0 <= i < old(problem)@.predicates.len() ==> final(problem)@.predicates[i]
                        == old(problem)@.predicates[i]
                &&& final(problem)@.completed_definitions == old(problem)@.completed_definitions
                &&& final(problem)@.integrity_constraints == old(problem)@.integrity_constraints
                &&& final(problem)@.input_predicates == old(problem)@.input_predicates
                &&& match ht {
                    HeadType::SingleAtom(a) | HeadType::ChoiceWithSingleAtom(a) => {
                        &&& a.predicate < final(problem)@.predicates.len()
                        &&& final(problem)@.predicates[a.predicate as int].arity
                            == a.arguments@.len()
                    },
                    _ => true,
                }
            },
            Outcome::Failure(e) => r == Result::<HeadType, Error>::Err(e) && final(problem)@
                == old(problem)@,
        },
{
    match head {
        ast::Head::Boolean(value) => {
            if value {
                Ok(HeadType::Trivial)
            } else {
                Ok(HeadType::IntegrityConstraint)
            }
        },
        ast::Head::Disjunction(atoms) => {
            if atoms.len() == 0 {
                Ok(HeadType::IntegrityConstraint)
            } else if atoms.len() == 1 {
                let mut atoms = atoms;
                let atom = atoms.remove(0);
                let ast::Atom { name, arguments } = atom;
                let predicate = problem.intern_predicate(name, arguments.len());
                Ok(HeadType::SingleAtom(HeadAtom { predicate, arguments }))
            } else {
                Err(Error::UnsupportedConstruct(UnsupportedKind::DisjunctiveHead))
            }
        },
        ast::Head::Choice { atoms, has_guards } => {
            if has_guards {
                Err(Error::UnsupportedConstruct(UnsupportedKind::GuardedChoiceHead))
            } else if atoms.len() == 1 {
                let mut atoms = atoms;
                let atom = atoms.remove(0);
                let ast::Atom { name, arguments } = atom;
                let predicate = problem.intern_predicate(name, arguments.len());
                Ok(HeadType::ChoiceWithSingleAtom(HeadAtom { predicate, arguments }))
            } else {
                Err(Error::UnsupportedConstruct(UnsupportedKind::MultipleChoiceAtoms))
            }
        },
    }
}

} // verus!
