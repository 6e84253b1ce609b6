//! Variable scoping and the value-choice encoding of terms: a possibly
//! compound term is replaced by a target variable plus side formulas that
//! pin the target to the term's value, with fresh auxiliary variables for
//! arithmetic sub-terms. Fresh variables receive the Integer domain when
//! the term is arithmetic and the Program domain otherwise.

use vstd::prelude::*;

use crate::Domain;
use crate::Error;
use crate::ast;
use crate::formula::Formula;
use crate::formula::Term;
use crate::problem::Outcome;
use crate::problem::Problem;
use crate::problem::ProblemModel;
use crate::problem::VariableInfo;
use crate::problem::spec_assign_domain;
use crate::problem::spec_fresh_variable;

verus! {

/// One name of the free-variable scope of a rule, with the declaration
/// handle it resolved to.
#[derive(Debug, PartialEq, Eq)]
pub struct ScopeEntry {
    pub name: String,
    pub variable: usize,
}

/// The free-variable scope built while translating one rule: the resolved
/// source names, and every free declaration in order of creation (named
/// ones and anonymous value-choice variables alike). The order becomes the
/// free-variable list of the rule's open formula.
#[derive(Debug, PartialEq, Eq)]
pub struct VariableScope {
    pub names: Vec<ScopeEntry>,
    pub order: Vec<usize>,
}

/// The mathematical value of a `VariableScope`.
#[verifier::ext_equal]
pub struct ScopeModel {
    pub names: Seq<ScopeEntry>,
    pub order: Seq<usize>,
}

impl View for VariableScope {
    type V = ScopeModel;

    open spec fn view(&self) -> ScopeModel {
        ScopeModel { names: self.names@, order: self.order@ }
    }
}

/// Every name of the scope resolves to a declaration of the arena.
pub open spec fn scope_wf(scope: ScopeModel, problem: ProblemModel) -> bool {
    forall|i: int|
        0 <= i < scope.names.len() ==> (#[trigger] scope.names[i]).variable
            < problem.variables.len()
}

/// The index of the first scope entry at or after position `i` with the
/// given name, if any.
pub open spec fn spec_find_scope(names: Seq<ScopeEntry>, name: Seq<char>, i: int) -> Option<int>
    decreases names.len() - i,
{
    if i < 0 || i >= names.len() {
        None
    } else if names[i].name@ == name {
        Some(i)
    } else {
        spec_find_scope(names, name, i + 1)
    }
}

/// Resolution of a source variable name in the model: an existing entry is
/// reused; otherwise a fresh named declaration without a domain is created,
/// entered into the scope, and collected as free.
pub open spec fn spec_resolve_variable(
    problem: ProblemModel,
    scope: ScopeModel,
    name: String,
) -> (ProblemModel, ScopeModel, usize) {
    match spec_find_scope(scope.names, name@, 0) {
        Some(i) => (problem, scope, scope.names[i].variable),
        None => {
            let v = problem.variables.len() as usize;
            (
                ProblemModel {
                    variables: problem.variables.push(
                        VariableInfo { name: Some(name), domain: None },
                    ),
                    ..problem
                },
                ScopeModel {
                    names: scope.names.push(ScopeEntry { name, variable: v }),
                    order: scope.order.push(v),
                },
                v,
            )
        },
    }
}

/// A fresh anonymous free variable in the model: created with the given
/// domain and collected as free, without a scope name.
pub open spec fn spec_fresh_free_variable(
    problem: ProblemModel,
    scope: ScopeModel,
    domain: Domain,
) -> (ProblemModel, ScopeModel, usize) {
    let (p, v) = spec_fresh_variable(problem, domain);
    (p, ScopeModel { names: scope.names, order: scope.order.push(v) }, v)
}

/// Whether a term is arithmetic: its value-choice variable then ranges over
/// the integers rather than the program universe.
pub open spec fn spec_is_arithmetic(term: ast::Term) -> bool {
    match term {
        ast::Term::Variable(_) => false,
        ast::Term::Integer(_) => true,
        ast::Term::Symbolic(_) => false,
        ast::Term::BinaryOperation(_, _, _) => true,
        ast::Term::UnaryOperation(_, _) => true,
        ast::Term::Interval(_, _) => true,
    }
}

/// Value-choice encoding in the model: the side formulas that pin `target`
/// to a value of `term`, with the states they leave behind. A plain
/// variable or constant yields one equality; an arithmetic term yields
/// fresh Integer-domain operand variables, recursively pinned, and an
/// equality against the rebuilt operation; an interval bounds `target`
/// between its pinned endpoints. A variable occurrence takes the domain of
/// `target`, so that one declaration first used in an arithmetic context
/// and then in a plain context fails with a domain conflict.
pub open spec fn spec_choose_value(
    problem: ProblemModel,
    scope: ScopeModel,
    term: ast::Term,
    target: usize,
) -> Outcome<(ProblemModel, ScopeModel, Seq<Formula>)>
    decreases term,
{
    match term {
        ast::Term::Integer(n) => Outcome::Success(
            (
                problem,
                scope,
                seq![
                    Formula::Compare(ast::Relation::Equal, Term::Variable(target), Term::Integer(n))
                ],
            ),
        ),
        ast::Term::Symbolic(s) => match spec_assign_domain(problem, target, Domain::Program) {
            Outcome::Success(p) => Outcome::Success(
                (
                    p,
                    scope,
                    seq![
                        Formula::Compare(
                            ast::Relation::Equal,
                            Term::Variable(target),
                            Term::Symbolic(s),
                        )
                    ],
                ),
            ),
            Outcome::Failure(e) => Outcome::Failure(e),
        },
        ast::Term::Variable(name) => {
            let (p1, sc1, v) = spec_resolve_variable(problem, scope, name);
            if target as int >= p1.variables.len() {
                Outcome::Failure(Error::InternalInvariantViolation)
            } else {
                let conjuncts = seq![
                    Formula::Compare(ast::Relation::Equal, Term::Variable(target), Term::Variable(v))
                ];
                match p1.variables[target as int].domain {
                    Some(d) => match spec_assign_domain(p1, v, d) {
                        Outcome::Success(p2) => Outcome::Success((p2, sc1, conjuncts)),
                        Outcome::Failure(e) => Outcome::Failure(e),
                    },
                    None => Outcome::Success((p1, sc1, conjuncts)),
                }
            }
        },
        ast::Term::BinaryOperation(op, left, right) => match spec_assign_domain(
            problem,
            target,
            Domain::Integer,
        ) {
            Outcome::Success(p1) => {
                let (p2, sc2, i) = spec_fresh_free_variable(p1, scope, Domain::Integer);
                let (p3, sc3, j) = spec_fresh_free_variable(p2, sc2, Domain::Integer);
                match spec_choose_value(p3, sc3, *left, i) {
                    Outcome::Success((p4, sc4, cl)) => match spec_choose_value(p4, sc4, *right, j) {
                        Outcome::Success((p5, sc5, cr)) => Outcome::Success(
                            (
                                p5,
                                sc5,
                                cl + cr + seq![
                                    Formula::Compare(
                                        ast::Relation::Equal,
                                        Term::Variable(target),
                                        Term::BinaryOperation(
                                            op,
                                            Box::new(Term::Variable(i)),
                                            Box::new(Term::Variable(j)),
                                        ),
                                    )
                                ],
                            ),
                        ),
                        Outcome::Failure(e) => Outcome::Failure(e),
                    },
                    Outcome::Failure(e) => Outcome::Failure(e),
                }
            },
            Outcome::Failure(e) => Outcome::Failure(e),
        },
        ast::Term::UnaryOperation(op, inner) => match spec_assign_domain(
            problem,
            target,
            Domain::Integer,
        ) {
            Outcome::Success(p1) => {
                let (p2, sc2, i) = spec_fresh_free_variable(p1, scope, Domain::Integer);
                match spec_choose_value(p2, sc2, *inner, i) {
                    Outcome::Success((p3, sc3, cs)) => Outcome::Success(
                        (
                            p3,
                            sc3,
                            cs + seq![
                                Formula::Compare(
                                    ast::Relation::Equal,
                                    Term::Variable(target),
                                    Term::UnaryOperation(op, Box::new(Term::Variable(i))),
                                )
                            ],
                        ),
                    ),
                    Outcome::Failure(e) => Outcome::Failure(e),
                }
            },
            Outcome::Failure(e) => Outcome::Failure(e),
        },
        ast::Term::Interval(left, right) => match spec_assign_domain(
            problem,
            target,
            Domain::Integer,
        ) {
            Outcome::Success(p1) => {
                let (p2, sc2, i) = spec_fresh_free_variable(p1, scope, Domain::Integer);
                let (p3, sc3, j) = spec_fresh_free_variable(p2, sc2, Domain::Integer);
                match spec_choose_value(p3, sc3, *left, i) {
                    Outcome::Success((p4, sc4, cl)) => match spec_choose_value(p4, sc4, *right, j) {
                        Outcome::Success((p5, sc5, cr)) => Outcome::Success(
                            (
                                p5,
                                sc5,
                                cl + cr + seq![
                                    Formula::Compare(
                                        ast::Relation::LessEqual,
                                        Term::Variable(i),
                                        Term::Variable(target),
                                    ),
                                    Formula::Compare(
                                        ast::Relation::LessEqual,
                                        Term::Variable(target),
                                        Term::Variable(j),
                                    )
                                ],
                            ),
                        ),
                        Outcome::Failure(e) => Outcome::Failure(e),
                    },
                    Outcome::Failure(e) => Outcome::Failure(e),
                }
            },
            Outcome::Failure(e) => Outcome::Failure(e),
        },
    }
}

/// Resolves a source variable name against the scope, creating and
/// collecting a fresh named declaration on first sight.
pub fn resolve_variable(problem: &mut Problem, scope: &mut VariableScope, name: String) -> (v:
    usize)
    requires
        scope_wf(old(scope)@, old(problem)@),
    ensures
        (final(problem)@, final(scope)@, v) == spec_resolve_variable(
            old(problem)@,
            old(scope)@,
            name,
        ),
        scope_wf(final(scope)@, final(problem)@),
        v < final(problem)@.variables.len(),
        final(problem)@.predicates == old(problem)@.predicates,
        final(problem)@.variables.len() >= old(problem)@.variables.len(),
        final(problem)@.completed_definitions == old(problem)@.completed_definitions,
        final(problem)@.integrity_constraints == old(problem)@.integrity_constraints,
        final(problem)@.input_predicates == old(problem)@.input_predicates,
    {
    let mut i: usize = 0;
    while i < scope.names.len()
        invariant
            i <= scope.names.len(),
            spec_find_scope(scope.names@, name@, 0) == spec_find_scope(
                scope.names@,
                name@,
                i as int,
            ),
            scope_wf(scope@, problem@),
        decreases scope.names.len() - i,
    {
        if scope.names[i].name == name {
            proof {
                assert(spec_find_scope(scope.names@, name@, i as int) == Some(i as int));
            }
            return scope.names[i].variable;
        }
        i = i + 1;
    }
    let v = problem.variables.len();
    problem.variables.push(VariableInfo { name: Some(name.clone()), domain: None });
    scope.names.push(ScopeEntry { name, variable: v });
    scope.order.push(v);
    proof {
        assert(final(problem)@ =~= spec_resolve_variable(old(problem)@, old(scope)@, name).0);
        assert(final(scope)@ =~= spec_resolve_variable(old(problem)@, old(scope)@, name).1);
    }
    v
}

/// Creates a fresh anonymous free variable with the given domain and
/// collects it in the scope's free order.
pub fn fresh_free_variable(problem: &mut Problem, scope: &mut VariableScope, domain: Domain) -> (v:
    usize)
    requires
        scope_wf(old(scope)@, old(problem)@),
    ensures
        (final(problem)@, final(scope)@, v) == spec_fresh_free_variable(
            old(problem)@,
            old(scope)@,
            domain,
        ),
        scope_wf(final(scope)@, final(problem)@),
        v < final(problem)@.variables.len(),
        final(problem)@.predicates == old(problem)@.predicates,
        final(problem)@.variables.len() >= old(problem)@.variables.len(),
        final(problem)@.completed_definitions == old(problem)@.completed_definitions,
        final(problem)@.integrity_constraints == old(problem)@.integrity_constraints,
        final(problem)@.input_predicates == old(problem)@.input_predicates,
    {
    let v = problem.fresh_variable(domain);
    scope.order.push(v);
    proof {
        assert(final(scope)@ =~= spec_fresh_free_variable(old(problem)@, old(scope)@, domain).1);
    }
    v
}

/// Whether a term is arithmetic; mirrors `spec_is_arithmetic`.
pub fn is_arithmetic(term: &ast::Term) -> (r: bool)
    ensures
        r == spec_is_arithmetic(*term),
{
    match term {
        ast::Term::Variable(_) => false,
        ast::Term::Integer(_) => true,
        ast::Term::Symbolic(_) => false,
        ast::Term::BinaryOperation(_, _, _) => true,
        ast::Term::UnaryOperation(_, _) => true,
        ast::Term::Interval(_, _) => true,
    }
}

/// Emits the side formulas that pin `target` to a value of `term`,
/// registering the domain of every variable it touches; mirrors
/// `spec_choose_value`, which pins the result exactly.
pub fn choose_value_in_term(
    problem: &mut Problem,
    scope: &mut VariableScope,
    term: ast::Term,
    target: usize,
) -> (r: Result<Vec<Formula>, Error>)
    requires
        scope_wf(old(scope)@, old(problem)@),
        target < old(problem)@.variables.len(),
    ensures
        match spec_choose_value(old(problem)@, old(scope)@, term, target) {
            Outcome::Success((p, sc, cs)) => {
                &&& r matches Ok(v) && v@ == cs
                &&& final(problem)@ == p
                &&& final(scope)@ == sc
                &&& scope_wf(final(scope)@, final(problem)@)
                &&& final(problem)@.predicates == old(problem)@.predicates
                &&& final(problem)@.variables.len() >= old(problem)@.variables.len()
                &&& final(problem)@.completed_definitions == old(problem)@.completed_definitions
                &&& final(problem)@.integrity_constraints == old(problem)@.integrity_constraints
                &&& final(problem)@.input_predicates == old(problem)@.input_predicates
            },
            Outcome::Failure(e) => r == Result::<Vec<Formula>, Error>::Err(e) && final(problem)@.completed_definitions == old(problem)@.completed_definitions && final(problem)@.integrity_constraints == old(problem)@.integrity_constraints,
        },
    decreases term,
{
    match term {
        ast::Term::Integer(n) => {
            let mut conjuncts: Vec<Formula> = Vec::new();
            conjuncts.push(
                Formula::Compare(ast::Relation::Equal, Term::Variable(target), Term::Integer(n)),
            );
            Ok(conjuncts)
        },
        ast::Term::Symbolic(s) => {
            match problem.assign_variable_declaration_domain(target, Domain::Program) {
                Ok(()) => {
                    let mut conjuncts: Vec<Formula> = Vec::new();
                    conjuncts.push(
                        Formula::Compare(
                            ast::Relation::Equal,
                            Term::Variable(target),
                            Term::Symbolic(s),
                        ),
                    );
                    Ok(conjuncts)
                },
                Err(e) => Err(e),
            }
        },
        ast::Term::Variable(name) => {
            let v = resolve_variable(problem, scope, name);
            let target_domain = problem.variables[target].domain;
            match target_domain {
                Some(d) => match problem.assign_variable_declaration_domain(v, d) {
                    Ok(()) => {
                        let mut conjuncts: Vec<Formula> = Vec::new();
                        conjuncts.push(
                            Formula::Compare(
                                ast::Relation::Equal,
                                Term::Variable(target),
                                Term::Variable(v),
                            ),
                        );
                        Ok(conjuncts)
                    },
                    Err(e) => Err(e),
                },
                None => {
                    let mut conjuncts: Vec<Formula> = Vec::new();
                    conjuncts.push(
                        Formula::Compare(
                            ast::Relation::Equal,
                            Term::Variable(target),
                            Term::Variable(v),
                        ),
                    );
                    Ok(conjuncts)
                },
            }
        },
        ast::Term::BinaryOperation(op, left, right) => {
            match problem.assign_variable_declaration_domain(target, Domain::Integer) {
                Ok(()) => {
                    let i = fresh_free_variable(problem, scope, Domain::Integer);
                    let j = fresh_free_variable(problem, scope, Domain::Integer);
                    let mut conjuncts = choose_value_in_term(problem, scope, *left, i)?;
                    let mut right_conjuncts = choose_value_in_term(problem, scope, *right, j)?;
                    let ghost cl = conjuncts@;
                    let ghost cr = right_conjuncts@;
                    conjuncts.append(&mut right_conjuncts);
                    conjuncts.push(
                        Formula::Compare(
                            ast::Relation::Equal,
                            Term::Variable(target),
                            Term::BinaryOperation(
                                op,
                                Box::new(Term::Variable(i)),
                                Box::new(Term::Variable(j)),
                            ),
                        ),
                    );
                    proof {
                        assert(conjuncts@ =~= cl + cr + seq![
                            Formula::Compare(
                                ast::Relation::Equal,
                                Term::Variable(target),
                                Term::BinaryOperation(
                                    op,
                                    Box::new(Term::Variable(i)),
                                    Box::new(Term::Variable(j)),
                                ),
                            )
                        ]);
                    }
                    Ok(conjuncts)
                },
                Err(e) => Err(e),
            }
        },
        ast::Term::UnaryOperation(op, inner) => {
            match problem.assign_variable_declaration_domain(target, Domain::Integer) {
                Ok(()) => {
                    let i = fresh_free_variable(problem, scope, Domain::Integer);
                    let mut conjuncts = choose_value_in_term(problem, scope, *inner, i)?;
                    let ghost cs = conjuncts@;
                    conjuncts.push(
                        Formula::Compare(
                            ast::Relation::Equal,
                            Term::Variable(target),
                            Term::UnaryOperation(op, Box::new(Term::Variable(i))),
                        ),
                    );
                    proof {
                        assert(conjuncts@ =~= cs + seq![
                            Formula::Compare(
                                ast::Relation::Equal,
                                Term::Variable(target),
                                Term::UnaryOperation(op, Box::new(Term::Variable(i))),
                            )
                        ]);
                    }
                    Ok(conjuncts)
                },
                Err(e) => Err(e),
            }
        },
        ast::Term::Interval(left, right) => {
            match problem.assign_variable_declaration_domain(target, Domain::Integer) {
                Ok(()) => {
                    let i = fresh_free_variable(problem, scope, Domain::Integer);
                    let j = fresh_free_variable(problem, scope, Domain::Integer);
                    let mut conjuncts = choose_value_in_term(problem, scope, *left, i)?;
                    let mut right_conjuncts = choose_value_in_term(problem, scope, *right, j)?;
                    let ghost cl = conjuncts@;
                    let ghost cr = right_conjuncts@;
                    conjuncts.append(&mut right_conjuncts);
                    conjuncts.push(
                        Formula::Compare(
                            ast::Relation::LessEqual,
                            Term::Variable(i),
                            Term::Variable(target),
                        ),
                    );
                    conjuncts.push(
                        Formula::Compare(
                            ast::Relation::LessEqual,
                            Term::Variable(target),
                            Term::Variable(j),
                        ),
                    );
                    proof {
                        assert(conjuncts@ =~= cl + cr + seq![
                            Formula::Compare(
                                ast::Relation::LessEqual,
                                Term::Variable(i),
                                Term::Variable(target),
                            ),
                            Formula::Compare(
                                ast::Relation::LessEqual,
                                Term::Variable(target),
                                Term::Variable(j),
                            )
                        ]);
                    }
                    Ok(conjuncts)
                },
                Err(e) => Err(e),
            }
        },
    }
}

} // verus!
