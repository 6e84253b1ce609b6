//! Translation of a rule body — a conjunction of literals — into an open
//! list of formula conjuncts. Atom arguments that are plain variables or
//! constants are translated in place; compound arguments and both sides of
//! a comparison go through the value-choice encoding of
//! `crate::translate::common`.

use vstd::prelude::*;

use crate::Domain;
use crate::Error;
use crate::UnsupportedKind;
use crate::ast;
use crate::formula::Formula;
use crate::formula::Term;
use crate::formula::term_list_of;
use crate::formula::term_list_from_vec;
use crate::problem::Outcome;
use crate::problem::Problem;
use crate::problem::ProblemModel;
use crate::problem::spec_assign_domain;
use crate::problem::spec_intern_predicate;
use crate::translate::common::ScopeModel;
use crate::translate::common::VariableScope;
use crate::translate::common::choose_value_in_term;
use crate::translate::common::fresh_free_variable;
use crate::translate::common::is_arithmetic;
use crate::translate::common::resolve_variable;
use crate::translate::common::scope_wf;
use crate::translate::common::spec_choose_value;
use crate::translate::common::spec_fresh_free_variable;
use crate::translate::common::spec_is_arithmetic;
use crate::translate::common::spec_resolve_variable;

verus! {

/// Atom-argument translation in the model, from position `i` on: a plain
/// variable resolves and takes the Program domain, constants are used in
/// place, and a compound argument is replaced by a fresh Integer-domain
/// variable pinned by value-choice side formulas.
pub open spec fn spec_atom_arguments(
    problem: ProblemModel,
    scope: ScopeModel,
    arguments: Seq<ast::Term>,
    i: int,
    sides: Seq<Formula>,
    translated: Seq<Term>,
) -> Outcome<(ProblemModel, ScopeModel, Seq<Formula>, Seq<Term>)>
    decreases arguments.len() - i,
{
    if i < 0 || i >= arguments.len() {
        Outcome::Success((problem, scope, sides, translated))
    } else {
        match arguments[i] {
            ast::Term::Variable(name) => {
                let (p1, sc1, v) = spec_resolve_variable(problem, scope, name);
                match spec_assign_domain(p1, v, Domain::Program) {
                    Outcome::Success(p2) => spec_atom_arguments(
                        p2,
                        sc1,
                        arguments,
                        i + 1,
                        sides,
                        translated.push(Term::Variable(v)),
                    ),
                    Outcome::Failure(e) => Outcome::Failure(e),
                }
            },
            ast::Term::Integer(n) => spec_atom_arguments(
                problem,
                scope,
                arguments,
                i + 1,
                sides,
                translated.push(Term::Integer(n)),
            ),
            ast::Term::Symbolic(s) => spec_atom_arguments(
                problem,
                scope,
                arguments,
                i + 1,
                sides,
                translated.push(Term::Symbolic(s)),
            ),
            compound => {
                let (p1, sc1, v) = spec_fresh_free_variable(problem, scope, Domain::Integer);
                match spec_choose_value(p1, sc1, compound, v) {
                    Outcome::Success((p2, sc2, cs)) => spec_atom_arguments(
                        p2,
                        sc2,
                        arguments,
                        i + 1,
                        sides + cs,
                        translated.push(Term::Variable(v)),
                    ),
                    Outcome::Failure(e) => Outcome::Failure(e),
                }
            },
        }
    }
}

/// Translation of one body literal in the model: an atom becomes a
/// predicate formula over its interned declaration (negated for a negative
/// literal) after its side formulas; a comparison pins both sides to fresh
/// value-choice variables and relates them; an aggregate is unsupported.
pub open spec fn spec_translate_literal(
    problem: ProblemModel,
    scope: ScopeModel,
    literal: ast::Literal,
) -> Outcome<(ProblemModel, ScopeModel, Seq<Formula>)> {
    match literal {
        ast::Literal::Boolean(value) => Outcome::Success(
            (problem, scope, seq![Formula::Boolean(value)]),
        ),
        ast::Literal::Atom { sign, atom } => {
            let (p1, predicate) = spec_intern_predicate(
                problem,
                atom.name,
                atom.arguments@.len() as usize,
            );
            match spec_atom_arguments(
                p1,
                scope,
                atom.arguments@,
                0,
                Seq::empty(),
                Seq::empty(),
            ) {
                Outcome::Success((p2, sc2, sides, translated)) => {
                    let atom_formula = Formula::Predicate(predicate, term_list_of(translated));
                    let literal_formula = match sign {
                        ast::Sign::Positive => atom_formula,
                        ast::Sign::Negative => Formula::Not(Box::new(atom_formula)),
                    };
                    Outcome::Success((p2, sc2, sides.push(literal_formula)))
                },
                Outcome::Failure(e) => Outcome::Failure(e),
            }
        },
        ast::Literal::Comparison(relation, left, right) => {
            let left_domain = if spec_is_arithmetic(left) {
                Domain::Integer
            } else {
                Domain::Program
            };
            let (p1, sc1, v1) = spec_fresh_free_variable(problem, scope, left_domain);
            match spec_choose_value(p1, sc1, left, v1) {
                Outcome::Success((p2, sc2, cl)) => {
                    let right_domain = if spec_is_arithmetic(right) {
                        Domain::Integer
                    } else {
                        Domain::Program
                    };
                    let (p3, sc3, v2) = spec_fresh_free_variable(p2, sc2, right_domain);
                    match spec_choose_value(p3, sc3, right, v2) {
                        Outcome::Success((p4, sc4, cr)) => Outcome::Success(
                            (
                                p4,
                                sc4,
                                cl + cr + seq![
                                    Formula::Compare(
                                        relation,
                                        Term::Variable(v1),
                                        Term::Variable(v2),
                                    )
                                ],
                            ),
                        ),
                        Outcome::Failure(e) => Outcome::Failure(e),
                    }
                },
                Outcome::Failure(e) => Outcome::Failure(e),
            }
        },
        ast::Literal::Aggregate => Outcome::Failure(
            Error::UnsupportedConstruct(UnsupportedKind::AggregateLiteral),
        ),
    }
}

/// Translation of a whole body in the model, from literal `i` on, with the
/// conjuncts accumulated so far.
pub open spec fn spec_translate_body(
    problem: ProblemModel,
    scope: ScopeModel,
    body: Seq<ast::Literal>,
    i: int,
    conjuncts: Seq<Formula>,
) -> Outcome<(ProblemModel, ScopeModel, Seq<Formula>)>
    decreases body.len() - i,
{
    if i < 0 || i >= body.len() {
        Outcome::Success((problem, scope, conjuncts))
    } else {
        match spec_translate_literal(problem, scope, body[i]) {
            Outcome::Success((p1, sc1, cs)) => spec_translate_body(
                p1,
                sc1,
                body,
                i + 1,
                conjuncts + cs,
            ),
            Outcome::Failure(e) => Outcome::Failure(e),
        }
    }
}

/// The bundle of frame facts every translation step preserves on success.
pub open spec fn body_step_frame(old_p: ProblemModel, new_p: ProblemModel) -> bool {
    &&& new_p.predicates.len() >= old_p.predicates.len()
    &&& forall|i: int|
        0 <= i < old_p.predicates.len() ==> new_p.predicates[i] == old_p.predicates[i]
    &&& new_p.variables.len() >= old_p.variables.len()
    &&& new_p.completed_definitions == old_p.completed_definitions
    &&& new_p.integrity_constraints == old_p.integrity_constraints
    &&& new_p.input_predicates == old_p.input_predicates
}

/// Translates the arguments of one atom; mirrors `spec_atom_arguments`.
fn translate_atom_arguments(
    problem: &mut Problem,
    scope: &mut VariableScope,
    arguments: Vec<ast::Term>,
) -> (r: Result<(Vec<Formula>, Vec<Term>), Error>)
    requires
        scope_wf(old(scope)@, old(problem)@),
    ensures
        match spec_atom_arguments(
            old(problem)@,
            old(scope)@,
            arguments@,
            0,
            Seq::empty(),
            Seq::empty(),
        ) {
            Outcome::Success((p, sc, sides, translated)) => {
                &&& r matches Ok(v) && v.0@ == sides && v.1@ == translated
                &&& final(problem)@ == p
                &&& final(scope)@ == sc
                &&& scope_wf(final(scope)@, final(problem)@)
                &&& body_step_frame(old(problem)@, final(problem)@)
            },
            Outcome::Failure(e) => r == Result::<(Vec<Formula>, Vec<Term>), Error>::Err(e) && final(problem)@.completed_definitions == old(problem)@.completed_definitions && final(problem)@.integrity_constraints == old(problem)@.integrity_constraints,
        },
{
    let ghost all = arguments@;
    let ghost p0 = problem@;
    let ghost sc0 = scope@;
    let mut remaining = arguments;
    let mut sides: Vec<Formula> = Vec::new();
    let mut translated: Vec<Term> = Vec::new();
    proof {
        assert(remaining@ =~= all.subrange((all.len() - remaining@.len()) as int, all.len() as int));
    }
    #[verifier::loop_isolation(false)]
    while remaining.len() > 0
        invariant
            remaining@.len() <= all.len(),
            remaining@ == all.subrange(
                (all.len() - remaining@.len()) as int,
                all.len() as int,
            ),
            scope_wf(scope@, problem@),
            body_step_frame(p0, problem@),
            spec_atom_arguments(p0, sc0, all, 0, Seq::empty(), Seq::empty())
                == spec_atom_arguments(
                problem@,
                scope@,
                all,
                (all.len() - remaining@.len()) as int,
                sides@,
                translated@,
            ),
        decreases remaining.len(),
    {
        let ghost k = (all.len() - remaining@.len()) as int;
        let ghost p_top = problem@;
        let ghost sc_top = scope@;
        let ghost sides_top = sides@;
        let ghost translated_top = translated@;
        proof {
            assert(remaining@[0] == all[k]);
        }
        let argument = remaining.remove(0);
        match argument {
            ast::Term::Variable(name) => {
                let v = resolve_variable(problem, scope, name);
                match problem.assign_variable_declaration_domain(v, Domain::Program) {
                    Ok(()) => {
                        translated.push(Term::Variable(v));
                    },
                    Err(e) => {
                        proof {
                            assert(spec_atom_arguments(p_top, sc_top, all, k, sides_top,
                                translated_top) == Outcome::<(
                                ProblemModel,
                                ScopeModel,
                                Seq<Formula>,
                                Seq<Term>,
                            )>::Failure(e));
                            assert(spec_atom_arguments(p0, sc0, all, 0, Seq::empty(),
                                Seq::empty()) == Outcome::<(
                                ProblemModel,
                                ScopeModel,
                                Seq<Formula>,
                                Seq<Term>,
                            )>::Failure(e));
                        }
                        return Err(e);
                    },
                }
            },
            ast::Term::Integer(n) => {
                translated.push(Term::Integer(n));
            },
            ast::Term::Symbolic(s) => {
                translated.push(Term::Symbolic(s));
            },
            compound => {
                let v = fresh_free_variable(problem, scope, Domain::Integer);
                let mut cs = match choose_value_in_term(problem, scope, compound, v) {
                    Ok(cs) => cs,
                    Err(e) => {
                        proof {
                            assert(spec_atom_arguments(p_top, sc_top, all, k, sides_top,
                                translated_top) == Outcome::<(
                                ProblemModel,
                                ScopeModel,
                                Seq<Formula>,
                                Seq<Term>,
                            )>::Failure(e));
                            assert(spec_atom_arguments(p0, sc0, all, 0, Seq::empty(),
                                Seq::empty()) == Outcome::<(
                                ProblemModel,
                                ScopeModel,
                                Seq<Formula>,
                                Seq<Term>,
                            )>::Failure(e));
                        }
                        return Err(e);
                    },
                };
                let ghost sides_before = sides@;
                let ghost cs_view = cs@;
                sides.append(&mut cs);
                translated.push(Term::Variable(v));
                proof {
                    assert(sides@ =~= sides_before + cs_view);
                }
            },
        }
        proof {
            assert(remaining@ =~= all.subrange(
                (all.len() - remaining@.len()) as int,
                all.len() as int,
            ));
        }
    }
    Ok((sides, translated))
}

/// Translates one body literal into its conjuncts; mirrors
/// `spec_translate_literal`.
fn translate_literal(problem: &mut Problem, scope: &mut VariableScope, literal: ast::Literal) -> (r:
    Result<Vec<Formula>, Error>)
    requires
        scope_wf(old(scope)@, old(problem)@),
    ensures
        match spec_translate_literal(old(problem)@, old(scope)@, literal) {
            Outcome::Success((p, sc, cs)) => {
                &&& r matches Ok(v) && v@ == cs
                &&& final(problem)@ == p
                &&& final(scope)@ == sc
                &&& scope_wf(final(scope)@, final(problem)@)
                &&& body_step_frame(old(problem)@, final(problem)@)
            },
            Outcome::Failure(e) => r == Result::<Vec<Formula>, Error>::Err(e) && final(problem)@.completed_definitions == old(problem)@.completed_definitions && final(problem)@.integrity_constraints == old(problem)@.integrity_constraints,
        },
{
    match literal {
        ast::Literal::Boolean(value) => {
            let mut conjuncts: Vec<Formula> = Vec::new();
            conjuncts.push(Formula::Boolean(value));
            Ok(conjuncts)
        },
        ast::Literal::Atom { sign, atom } => {
            let ast::Atom { name, arguments } = atom;
            let predicate = problem.intern_predicate(name, arguments.len());
            let (mut sides, translated) = translate_atom_arguments(problem, scope, arguments)?;
            let atom_formula = Formula::Predicate(predicate, term_list_from_vec(translated));
            let literal_formula = match sign {
                ast::Sign::Positive => atom_formula,
                ast::Sign::Negative => Formula::Not(Box::new(atom_formula)),
            };
            let ghost sides_view = sides@;
            sides.push(literal_formula);
            Ok(sides)
        },
        ast::Literal::Comparison(relation, left, right) => {
            let left_domain = if is_arithmetic(&left) {
                Domain::Integer
            } else {
                Domain::Program
            };
            let v1 = fresh_free_variable(problem, scope, left_domain);
            let mut conjuncts = choose_value_in_term(problem, scope, left, v1)?;
            let right_domain = if is_arithmetic(&right) {
                Domain::Integer
            } else {
                Domain::Program
            };
            let v2 = fresh_free_variable(problem, scope, right_domain);
            let mut right_conjuncts = choose_value_in_term(problem, scope, right, v2)?;
            let ghost cl = conjuncts@;
            let ghost cr = right_conjuncts@;
            conjuncts.append(&mut right_conjuncts);
            conjuncts.push(Formula::Compare(relation, Term::Variable(v1), Term::Variable(v2)));
            proof {
                assert(conjuncts@ =~= cl + cr + seq![
                    Formula::Compare(relation, Term::Variable(v1), Term::Variable(v2))
                ]);
            }
            Ok(conjuncts)
        },
        ast::Literal::Aggregate => Err(
            Error::UnsupportedConstruct(UnsupportedKind::AggregateLiteral),
        ),
    }
}

/// Translates a whole rule body into its ordered conjunct list; mirrors
/// `spec_translate_body`.
pub fn translate_body(problem: &mut Problem, scope: &mut VariableScope, body: Vec<ast::Literal>)
    -> (r: Result<Vec<Formula>, Error>)
    requires
        scope_wf(old(scope)@, old(problem)@),
    ensures
        match spec_translate_body(old(problem)@, old(scope)@, body@, 0, Seq::empty()) {
            Outcome::Success((p, sc, cs)) => {
                &&& r matches Ok(v) && v@ == cs
                &&& final(problem)@ == p
                &&& final(scope)@ == sc
                &&& scope_wf(final(scope)@, final(problem)@)
                &&& body_step_frame(old(problem)@, final(problem)@)
            },
            Outcome::Failure(e) => r == Result::<Vec<Formula>, Error>::Err(e) && final(problem)@.completed_definitions == old(problem)@.completed_definitions && final(problem)@.integrity_constraints == old(problem)@.integrity_constraints,
        },
{
    let ghost all = body@;
    let ghost p0 = problem@;
    let ghost sc0 = scope@;
    let mut remaining = body;
    let mut conjuncts: Vec<Formula> = Vec::new();
    proof {
        assert(remaining@ =~= all.subrange((all.len() - remaining@.len()) as int, all.len() as int));
    }
    #[verifier::loop_isolation(false)]
    while remaining.len() > 0
        invariant
            remaining@.len() <= all.len(),
            remaining@ == all.subrange((all.len() - remaining@.len()) as int, all.len() as int),
            scope_wf(scope@, problem@),
            body_step_frame(p0, problem@),
            spec_translate_body(p0, sc0, all, 0, Seq::empty()) == spec_translate_body(
                problem@,
                scope@,
                all,
                (all.len() - remaining@.len()) as int,
                conjuncts@,
            ),
        decreases remaining.len(),
    {
        let ghost k = (all.len() - remaining@.len()) as int;
        let ghost p_top = problem@;
        let ghost sc_top = scope@;
        let ghost conjuncts_top = conjuncts@;
        proof {
            assert(remaining@[0] == all[k]);
        }
        let literal = remaining.remove(0);
        let mut cs = match translate_literal(problem, scope, literal) {
            Ok(cs) => cs,
            Err(e) => {
                proof {
                    assert(spec_translate_body(p_top, sc_top, all, k, conjuncts_top)
                        == Outcome::<(ProblemModel, ScopeModel, Seq<Formula>)>::Failure(e));
                }
                return Err(e);
            },
        };
        let ghost conjuncts_before = conjuncts@;
        let ghost cs_view = cs@;
        conjuncts.append(&mut cs);
        proof {
            assert(conjuncts@ =~= conjuncts_before + cs_view);
            assert(remaining@ =~= all.subrange((all.len() - remaining@.len()) as int, all.len() as int));
        }
    }
    Ok(conjuncts)
}

} // verus!
