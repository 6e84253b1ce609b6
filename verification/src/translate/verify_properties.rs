//! The translator: consumes parsed rules one at a time, accumulates the
//! open formulas contributed to each defined predicate, emits integrity
//! constraints directly, and at finalization folds every predicate's
//! definitions into one completed biconditional — or universally falsifies
//! a predicate that has no rules. Completed definitions are emitted in the
//! order of the declarations sorted by name and arity; input predicates are
//! not completed, and the whole working map is drained. A failed run emits
//! nothing at all.

use vstd::prelude::*;

use crate::Error;
use crate::Domain;
use crate::ast;
use crate::formula::Formula;
use crate::formula::OpenFormula;
use crate::formula::SectionKind;
use crate::formula::Statement;
use crate::formula::StatementKind;
use crate::formula::formula_list_from_vec;
use crate::formula::formula_list_of;
use crate::formula::spec_existential_closure;
use crate::formula::spec_universal_closure;
use crate::formula::existential_closure;
use crate::formula::universal_closure;
use crate::formula::variable_list_from_vec;
use crate::formula::variable_list_of;
use crate::formula::variable_terms_from_vec;
use crate::formula::variable_terms_of;
use crate::problem::Outcome;
use crate::problem::Problem;
use crate::problem::ProblemModel;
use crate::problem::spec_fresh_variable;
use crate::problem::spec_identity_handles;
use crate::problem::spec_sorted_handles;
use crate::problem::sorted_predicate_handles;
use crate::problem::lemma_sorted_handles_contains;
use crate::translate::common::ScopeModel;
use crate::translate::common::VariableScope;
use crate::translate::common::choose_value_in_term;
use crate::translate::common::scope_wf;
use crate::translate::common::spec_choose_value;
use crate::translate::head_type::HeadAtom;
use crate::translate::head_type::HeadType;
use crate::translate::head_type::determine_head_type;
use crate::translate::head_type::spec_head_type;
use crate::translate::translate_body::body_step_frame;
use crate::translate::translate_body::spec_translate_body;
use crate::translate::translate_body::translate_body;

verus! {

/// The in-progress definitions of one predicate: the shared parameter
/// declarations, fixed at first sight of the predicate's head, and the open
/// formula contributed by each of its rules.
#[derive(Debug, PartialEq, Eq)]
pub struct PredicateDefinitions {
    pub parameters: Vec<usize>,
    pub definitions: Vec<OpenFormula>,
}

/// The mathematical value of a `PredicateDefinitions`.
#[verifier::ext_equal]
pub struct DefinitionsEntryModel {
    pub parameters: Seq<usize>,
    pub definitions: Seq<OpenFormula>,
}

/// The mathematical value of a `Translator`.
#[verifier::ext_equal]
pub struct TranslatorModel {
    pub problem: ProblemModel,
    pub definitions: Seq<Option<DefinitionsEntryModel>>,
}

/// The model of one definitions slot.
pub open spec fn entry_model(d: Option<PredicateDefinitions>) -> Option<DefinitionsEntryModel> {
    match d {
        Some(pd) => Some(
            DefinitionsEntryModel { parameters: pd.parameters@, definitions: pd.definitions@ },
        ),
        None => None,
    }
}

/// The translator of one run: the problem it builds, and the working map of
/// in-progress predicate definitions, indexed by predicate declaration
/// handle. The map is drained predicate by predicate at finalization.
#[derive(Debug)]
pub struct Translator {
    pub problem: Problem,
    pub definitions: Vec<Option<PredicateDefinitions>>,
}

impl View for Translator {
    type V = TranslatorModel;

    open spec fn view(&self) -> TranslatorModel {
        TranslatorModel {
            problem: self.problem@,
            definitions: self.definitions@.map(
                |i: int, d: Option<PredicateDefinitions>| entry_model(d),
            ),
        }
    }
}

/// Well-formedness of the translator state: the working map never outgrows
/// the predicate table, and every entry's parameter list matches its
/// predicate's arity and points into the variable arena.
pub open spec fn translator_wf(t: TranslatorModel) -> bool {
    &&& t.definitions.len() <= t.problem.predicates.len()
    &&& forall|i: int|
        0 <= i < t.definitions.len() ==> ((#[trigger] t.definitions[i]) matches Some(e) ==> {
            &&& e.parameters.len() == t.problem.predicates[i].arity as int
            &&& forall|j: int|
                0 <= j < e.parameters.len() ==> (#[trigger] e.parameters[j])
                    < t.problem.variables.len()
        })
}

/// Fresh anonymous parameter declarations in the model: `n` of them, each
/// registered with the Program domain, in creation order.
pub open spec fn spec_parameters(p: ProblemModel, n: int) -> (ProblemModel, Seq<usize>)
    decreases n,
{
    if n <= 0 {
        (p, Seq::empty())
    } else {
        let (p1, v) = spec_fresh_variable(p, Domain::Program);
        let (p2, rest) = spec_parameters(p1, n - 1);
        (p2, seq![v] + rest)
    }
}

/// The working map padded with empty slots up to length `n`.
pub open spec fn spec_padded(defs: Seq<Option<DefinitionsEntryModel>>, n: int) -> Seq<
    Option<DefinitionsEntryModel>,
> {
    if defs.len() >= n {
        defs
    } else {
        defs + Seq::new((n - defs.len()) as nat, |i: int| None)
    }
}

/// Ensuring a definitions entry in the model: on first sight of a
/// predicate's head, one fresh Program-domain parameter is allocated per
/// argument position; afterwards the identical parameter declarations are
/// reused for every further rule of the same predicate.
pub open spec fn spec_ensure_entry(t: TranslatorModel, predicate: usize) -> (
    TranslatorModel,
    Seq<usize>,
) {
    let padded = spec_padded(t.definitions, predicate as int + 1);
    match padded[predicate as int] {
        Some(e) => (TranslatorModel { problem: t.problem, definitions: padded }, e.parameters),
        None => {
            let (p1, params) = spec_parameters(
                t.problem,
                t.problem.predicates[predicate as int].arity as int,
            );
            (
                TranslatorModel {
                    problem: p1,
                    definitions: padded.update(
                        predicate as int,
                        Some(
                            DefinitionsEntryModel {
                                parameters: params,
                                definitions: Seq::empty(),
                            },
                        ),
                    ),
                },
                params,
            )
        },
    }
}

/// Head-argument translation in the model, from position `i` on: each head
/// argument is pinned to its predicate's shared parameter by value-choice.
pub open spec fn spec_head_arguments(
    problem: ProblemModel,
    scope: ScopeModel,
    arguments: Seq<ast::Term>,
    parameters: Seq<usize>,
    i: int,
    conjuncts: Seq<Formula>,
) -> Outcome<(ProblemModel, ScopeModel, Seq<Formula>)>
    decreases arguments.len() - i,
{
    if i < 0 || i >= arguments.len() {
        Outcome::Success((problem, scope, conjuncts))
    } else {
        match spec_choose_value(problem, scope, arguments[i], parameters[i]) {
            Outcome::Success((p1, sc1, cs)) => spec_head_arguments(
                p1,
                sc1,
                arguments,
                parameters,
                i + 1,
                conjuncts + cs,
            ),
            Outcome::Failure(e) => Outcome::Failure(e),
        }
    }
}

/// The conjunction of a rule's collected conjuncts: `true` for none, the
/// sole conjunct unchanged, a conjunction otherwise.
pub open spec fn spec_conjoin(conjuncts: Seq<Formula>) -> Formula {
    if conjuncts.len() == 0 {
        Formula::Boolean(true)
    } else if conjuncts.len() == 1 {
        conjuncts[0]
    } else {
        Formula::And(formula_list_of(conjuncts))
    }
}

/// One defining rule in the model: ensure the predicate's entry, translate
/// the body in a fresh scope, add the head atom itself for a choice rule,
/// pin each head argument to its parameter, conjoin, and append the open
/// formula to the predicate's definitions.
pub open spec fn spec_read_defining_rule(
    t: TranslatorModel,
    predicate: usize,
    arguments: Seq<ast::Term>,
    body: Seq<ast::Literal>,
    is_choice: bool,
) -> Outcome<TranslatorModel> {
    let (t1, params) = spec_ensure_entry(t, predicate);
    let sc0 = ScopeModel { names: Seq::empty(), order: Seq::empty() };
    match spec_translate_body(t1.problem, sc0, body, 0, Seq::empty()) {
        Outcome::Success((p2, sc2, cs0)) => {
            let cs1 = if is_choice {
                cs0.push(Formula::Predicate(predicate, variable_terms_of(params)))
            } else {
                cs0
            };
            match spec_head_arguments(p2, sc2, arguments, params, 0, cs1) {
                Outcome::Success((p3, sc3, cs)) => {
                    let open_formula = OpenFormula {
                        free_variable_declarations: variable_list_of(sc3.order),
                        formula: spec_conjoin(cs),
                    };
                    match t1.definitions[predicate as int] {
                        Some(e) => Outcome::Success(
                            TranslatorModel {
                                problem: p3,
                                definitions: t1.definitions.update(
                                    predicate as int,
                                    Some(
                                        DefinitionsEntryModel {
                                            parameters: e.parameters,
                                            definitions: e.definitions.push(open_formula),
                                        },
                                    ),
                                ),
                            },
                        ),
                        None => Outcome::Failure(Error::InternalInvariantViolation),
                    }
                },
                Outcome::Failure(e) => Outcome::Failure(e),
            }
        },
        Outcome::Failure(e) => Outcome::Failure(e),
    }
}

/// One integrity constraint in the model: the body's conjunction is
/// negated (`false` for an empty body, the sole conjunct negated for one)
/// and universally closed over the collected free variables.
pub open spec fn spec_read_integrity_constraint(
    t: TranslatorModel,
    body: Seq<ast::Literal>,
) -> Outcome<TranslatorModel> {
    let sc0 = ScopeModel { names: Seq::empty(), order: Seq::empty() };
    match spec_translate_body(t.problem, sc0, body, 0, Seq::empty()) {
        Outcome::Success((p1, sc1, cs)) => {
            let formula = if cs.len() == 0 {
                Formula::Boolean(false)
            } else if cs.len() == 1 {
                Formula::Not(Box::new(cs[0]))
            } else {
                Formula::Not(Box::new(Formula::And(formula_list_of(cs))))
            };
            let statement = Statement {
                kind: StatementKind::IntegrityConstraint,
                formula: spec_universal_closure(
                    OpenFormula {
                        free_variable_declarations: variable_list_of(sc1.order),
                        formula,
                    },
                ),
            };
            Outcome::Success(
                TranslatorModel {
                    problem: ProblemModel {
                        integrity_constraints: p1.integrity_constraints.push(statement),
                        ..p1
                    },
                    definitions: t.definitions,
                },
            )
        },
        Outcome::Failure(e) => Outcome::Failure(e),
    }
}

/// One rule in the model: classify the head, then dispatch.
pub open spec fn spec_read_rule(t: TranslatorModel, rule: ast::Rule) -> Outcome<TranslatorModel> {
    match spec_head_type(t.problem, rule.head) {
        Outcome::Success((p1, ht)) => {
            let t1 = TranslatorModel { problem: p1, definitions: t.definitions };
            match ht {
                HeadType::Trivial => Outcome::Success(t1),
                HeadType::IntegrityConstraint => spec_read_integrity_constraint(t1, rule.body@),
                HeadType::SingleAtom(a) => spec_read_defining_rule(
                    t1,
                    a.predicate,
                    a.arguments@,
                    rule.body@,
                    false,
                ),
                HeadType::ChoiceWithSingleAtom(a) => spec_read_defining_rule(
                    t1,
                    a.predicate,
                    a.arguments@,
                    rule.body@,
                    true,
                ),
            }
        },
        Outcome::Failure(e) => Outcome::Failure(e),
    }
}

/// All rules in the model, from rule `i` on, failing fast on the first
/// error.
pub open spec fn spec_read_rules(t: TranslatorModel, rules: Seq<ast::Rule>, i: int) -> Outcome<
    TranslatorModel,
>
    decreases rules.len() - i,
{
    if i < 0 || i >= rules.len() {
        Outcome::Success(t)
    } else {
        match spec_read_rule(t, rules[i]) {
            Outcome::Success(t1) => spec_read_rules(t1, rules, i + 1),
            Outcome::Failure(e) => Outcome::Failure(e),
        }
    }
}

/// The existential closures of a predicate's accumulated open formulas.
pub open spec fn spec_closures(definitions: Seq<OpenFormula>) -> Seq<Formula> {
    definitions.map(|i: int, o: OpenFormula| spec_existential_closure(o))
}

/// The completed definition of one predicate in the model. A predicate
/// with accumulated definitions yields the universally closed biconditional
/// between its head atom over the shared parameters and the disjunction of
/// the existential closures of its definitions, and its entry is drained.
/// A predicate with no definitions is universally falsified over fresh
/// Program-domain parameters.
pub open spec fn spec_falsified(p: ProblemModel, predicate: usize) -> (ProblemModel, Statement) {
    let (p1, params) = spec_parameters(p, p.predicates[predicate as int].arity as int);
    let head = Formula::Predicate(predicate, variable_terms_of(params));
    let formula = spec_universal_closure(
        OpenFormula {
            free_variable_declarations: variable_list_of(params),
            formula: Formula::Not(Box::new(head)),
        },
    );
    (p1, Statement { kind: StatementKind::CompletedDefinition(predicate), formula })
}

pub open spec fn spec_completed_definition(
    p: ProblemModel,
    defs: Seq<Option<DefinitionsEntryModel>>,
    predicate: usize,
) -> (ProblemModel, Seq<Option<DefinitionsEntryModel>>, Statement) {
    if predicate < defs.len() {
        match defs[predicate as int] {
            Some(e) => {
                let or = Formula::Or(formula_list_of(spec_closures(e.definitions)));
                let head = Formula::Predicate(predicate, variable_terms_of(e.parameters));
                let formula = spec_universal_closure(
                    OpenFormula {
                        free_variable_declarations: variable_list_of(e.parameters),
                        formula: Formula::IfAndOnlyIf(Box::new(head), Box::new(or)),
                    },
                );
                (
                    p,
                    defs.update(predicate as int, None),
                    Statement { kind: StatementKind::CompletedDefinition(predicate), formula },
                )
            },
            None => {
                let (p1, statement) = spec_falsified(p, predicate);
                (p1, defs, statement)
            },
        }
    } else {
        let (p1, statement) = spec_falsified(p, predicate);
        (p1, defs, statement)
    }
}

/// The working map with one predicate's entry drained.
pub open spec fn spec_drop_entry(
    defs: Seq<Option<DefinitionsEntryModel>>,
    predicate: usize,
) -> Seq<Option<DefinitionsEntryModel>> {
    if (predicate as int) < defs.len() {
        defs.update(predicate as int, None)
    } else {
        defs
    }
}

/// Finalization in the model, over the emission order from position `i`
/// on: every predicate receives a completed definition, except the input
/// predicates, whose working entries are only drained; afterwards no
/// accumulated entry survives.
pub open spec fn spec_finalize(t: TranslatorModel, order: Seq<usize>, i: int) -> TranslatorModel
    decreases order.len() - i,
{
    if i < 0 || i >= order.len() {
        t
    } else {
        let predicate = order[i];
        if t.problem.input_predicates.contains(predicate) {
            spec_finalize(
                TranslatorModel {
                    problem: t.problem,
                    definitions: spec_drop_entry(t.definitions, predicate),
                },
                order,
                i + 1,
            )
        } else {
            let (p1, defs1, statement) = spec_completed_definition(
                t.problem,
                t.definitions,
                predicate,
            );
            spec_finalize(
                TranslatorModel {
                    problem: ProblemModel {
                        completed_definitions: p1.completed_definitions.push(statement),
                        ..p1
                    },
                    definitions: defs1,
                },
                order,
                i + 1,
            )
        }
    }
}

/// Fresh parameter creation touches only the variable arena.
pub proof fn lemma_parameters_frame(p: ProblemModel, n: int)
    ensures
        spec_parameters(p, n).0.predicates == p.predicates,
        spec_parameters(p, n).0.input_predicates == p.input_predicates,
        spec_parameters(p, n).0.completed_definitions == p.completed_definitions,
        spec_parameters(p, n).0.integrity_constraints == p.integrity_constraints,
    decreases n,
{
    if n <= 0 {
    } else {
        lemma_parameters_frame(spec_fresh_variable(p, Domain::Program).0, n - 1);
    }
}

/// Finalization drains and emits but never lengthens the working map or
/// changes the declaration tables.
pub proof fn lemma_finalize_frame(t: TranslatorModel, order: Seq<usize>, i: int)
    ensures
        spec_finalize(t, order, i).definitions.len() == t.definitions.len(),
        spec_finalize(t, order, i).problem.predicates == t.problem.predicates,
        spec_finalize(t, order, i).problem.input_predicates == t.problem.input_predicates,
    decreases order.len() - i,
{
    if i < 0 || i >= order.len() {
    } else {
        let predicate = order[i];
        if t.problem.input_predicates.contains(predicate) {
            lemma_finalize_frame(
                TranslatorModel {
                    problem: t.problem,
                    definitions: spec_drop_entry(t.definitions, predicate),
                },
                order,
                i + 1,
            );
        } else {
            let (p1, defs1, statement) = spec_completed_definition(
                t.problem,
                t.definitions,
                predicate,
            );
            lemma_parameters_frame(
                t.problem,
                t.problem.predicates[predicate as int].arity as int,
            );
            lemma_finalize_frame(
                TranslatorModel {
                    problem: ProblemModel {
                        completed_definitions: p1.completed_definitions.push(statement),
                        ..p1
                    },
                    definitions: defs1,
                },
                order,
                i + 1,
            );
        }
    }
}

/// Every working-map entry whose predicate the order still visits is
/// drained by finalization, and a drained entry stays drained.
pub proof fn lemma_finalize_drains(
    t: TranslatorModel,
    order: Seq<usize>,
    i: int,
    j: usize,
)
    requires
        0 <= i,
        (j as int) < t.definitions.len(),
        t.definitions[j as int] is None || exists|k: int|
            i <= k < order.len() && order[k] == j,
    ensures
        spec_finalize(t, order, i).definitions[j as int] is None,
    decreases order.len() - i,
{
    if i < 0 || i >= order.len() {
    } else {
        let predicate = order[i];
        let t1 = if t.problem.input_predicates.contains(predicate) {
            TranslatorModel {
                problem: t.problem,
                definitions: spec_drop_entry(t.definitions, predicate),
            }
        } else {
            let (p1, defs1, statement) = spec_completed_definition(
                t.problem,
                t.definitions,
                predicate,
            );
            TranslatorModel {
                problem: ProblemModel {
                    completed_definitions: p1.completed_definitions.push(statement),
                    ..p1
                },
                definitions: defs1,
            }
        };
        assert(t1.definitions.len() == t.definitions.len());
        if t.definitions[j as int] is None || predicate == j {
            assert(t1.definitions[j as int] is None);
            lemma_finalize_drains(t1, order, i + 1, j);
        } else {
            let k = choose|k: int| i <= k < order.len() && order[k] == j;
            assert(i + 1 <= k < order.len() && order[k] == j);
            assert(t1.definitions[j as int] == t.definitions[j as int]);
            lemma_finalize_drains(t1, order, i + 1, j);
        }
    }
}

/// A whole translation run in the model: all rules, fail-fast, then
/// finalization.
pub open spec fn spec_translate(t: TranslatorModel, rules: Seq<ast::Rule>) -> Outcome<
    TranslatorModel,
> {
    match spec_read_rules(t, rules, 0) {
        Outcome::Success(t1) => Outcome::Success(
            spec_finalize(
                t1,
                spec_sorted_handles(
                    t1.problem.predicates,
                    spec_identity_handles(t1.problem.predicates.len() as int),
                ),
                0,
            ),
        ),
        Outcome::Failure(e) => Outcome::Failure(e),
    }
}

/// Copies a vector of declaration handles.
fn copy_handles(v: &Vec<usize>) -> (r: Vec<usize>)
    ensures
        r@ == v@,
{
    let mut r: Vec<usize> = Vec::new();
    let mut i: usize = 0;
    #[verifier::loop_isolation(false)]
    while i < v.len()
        invariant
            i <= v.len(),
            r@ == v@.subrange(0, i as int),
        decreases v.len() - i,
    {
        r.push(v[i]);
        i = i + 1;
        proof {
            assert(r@ =~= v@.subrange(0, i as int));
        }
    }
    proof {
        assert(v@.subrange(0, v@.len() as int) =~= v@);
    }
    r
}

/// Allocates `arity` fresh anonymous parameter declarations with the
/// Program domain; mirrors `spec_parameters`.
fn create_parameters(problem: &mut Problem, arity: usize) -> (params: Vec<usize>)
    ensures
        (final(problem)@, params@) == spec_parameters(old(problem)@, arity as int),
        params@.len() == arity,
        forall|j: int|
            0 <= j < params@.len() ==> (#[trigger] params@[j]) < final(problem)@.variables.len(),
        final(problem)@.predicates == old(problem)@.predicates,
        final(problem)@.variables.len() >= old(problem)@.variables.len(),
        final(problem)@.completed_definitions == old(problem)@.completed_definitions,
        final(problem)@.integrity_constraints == old(problem)@.integrity_constraints,
        final(problem)@.input_predicates == old(problem)@.input_predicates,
{
    let ghost p0 = problem@;
    let mut params: Vec<usize> = Vec::new();
    let mut k: usize = 0;
    proof {
        assert(params@ + spec_parameters(p0, arity as int).1 =~= spec_parameters(
            p0,
            arity as int,
        ).1);
    }
    #[verifier::loop_isolation(false)]
    while k < arity
        invariant
            k <= arity,
            params@.len() == k,
            forall|j: int|
                0 <= j < params@.len() ==> (#[trigger] params@[j]) < problem@.variables.len(),
            spec_parameters(p0, arity as int).0 == spec_parameters(
                problem@,
                arity - k,
            ).0,
            spec_parameters(p0, arity as int).1 == params@ + spec_parameters(
                problem@,
                arity - k,
            ).1,
            problem@.predicates == p0.predicates,
            problem@.variables.len() >= p0.variables.len(),
            problem@.completed_definitions == p0.completed_definitions,
            problem@.integrity_constraints == p0.integrity_constraints,
            problem@.input_predicates == p0.input_predicates,
        decreases arity - k,
    {
        let ghost p_top = problem@;
        let ghost params_top = params@;
        let v = problem.fresh_variable(Domain::Program);
        params.push(v);
        k = k + 1;
        proof {
            assert(params_top + (seq![v] + spec_parameters(problem@, arity - k).1)
                =~= params@ + spec_parameters(problem@, arity - k).1);
        }
    }
    proof {
        assert(params@ + spec_parameters(problem@, 0).1 =~= params@);
    }
    params
}

impl Translator {
    /// A translator for one run over the given problem, with an empty
    /// working map of definitions.
    pub fn new(problem: Problem) -> (r: Translator)
        ensures
            r@.problem == problem@,
            r@.definitions =~= Seq::<Option<DefinitionsEntryModel>>::empty(),
            translator_wf(r@),
    {
        let r = Translator { problem, definitions: Vec::new() };
        proof {
            assert(r@.definitions =~= Seq::<Option<DefinitionsEntryModel>>::empty());
        }
        r
    }

    /// Ensures a definitions entry for the predicate, allocating the shared
    /// parameter declarations on first sight; mirrors `spec_ensure_entry`.
    fn ensure_entry(&mut self, predicate: usize) -> (params: Vec<usize>)
        requires
            translator_wf(old(self)@),
            predicate < old(self)@.problem.predicates.len(),
        ensures
            (final(self)@, params@) == spec_ensure_entry(old(self)@, predicate),
            translator_wf(final(self)@),
            predicate < final(self)@.definitions.len(),
            final(self)@.definitions[predicate as int] matches Some(e) && e.parameters == params@,
            params@.len() == final(self)@.problem.predicates[predicate as int].arity as int,
            forall|j: int|
                0 <= j < params@.len() ==> (#[trigger] params@[j])
                    < final(self)@.problem.variables.len(),
            final(self)@.problem.predicates == old(self)@.problem.predicates,
            final(self)@.problem.variables.len() >= old(self)@.problem.variables.len(),
            final(self)@.problem.completed_definitions
                == old(self)@.problem.completed_definitions,
            final(self)@.problem.integrity_constraints
                == old(self)@.problem.integrity_constraints,
            final(self)@.problem.input_predicates == old(self)@.problem.input_predicates,
    {
        let ghost t0 = old(self)@;
        let ghost d0 = old(self)@.definitions;
        #[verifier::loop_isolation(false)]
        while self.definitions.len() <= predicate
            invariant
                self@.problem == t0.problem,
                self@.definitions.len() >= d0.len(),
                self@.definitions == spec_padded(d0, self@.definitions.len() as int),
                self@.definitions.len() == d0.len() || self@.definitions.len() <= predicate
                    + 1,
            decreases predicate + 1 - self.definitions.len(),
        {
            let ghost before = self@.definitions;
            self.definitions.push(None);
            proof {
                assert(self@.definitions =~= before.push(None));
                assert(self@.definitions =~= spec_padded(d0, self@.definitions.len() as int));
            }
        }
        proof {
            assert(self@.definitions =~= spec_padded(d0, predicate as int + 1));
        }
        let has_entry = self.definitions[predicate].is_some();
        if has_entry {
            let params = match &self.definitions[predicate] {
                Some(pd) => copy_handles(&pd.parameters),
                None => {
                    proof {
                        assert(false);
                    }
                    Vec::new()
                },
            };
            proof {
                assert(final(self)@ =~= spec_ensure_entry(t0, predicate).0);
            }
            params
        } else {
            let arity = self.problem.predicates[predicate].arity;
            let params = create_parameters(&mut self.problem, arity);
            let stored = copy_handles(&params);
            self.definitions[predicate] = Some(
                PredicateDefinitions { parameters: stored, definitions: Vec::new() },
            );
            proof {
                assert(final(self)@.definitions =~= spec_ensure_entry(t0, predicate).0.definitions);
                assert(final(self)@ =~= spec_ensure_entry(t0, predicate).0);
            }
            params
        }
    }
}

/// Well-formedness survives growth of the predicate table and variable
/// arena when the working map itself is unchanged.
pub proof fn lemma_wf_frame(t1: TranslatorModel, t2: TranslatorModel)
    requires
        translator_wf(t1),
        t2.definitions == t1.definitions,
        t2.problem.predicates.len() >= t1.problem.predicates.len(),
        forall|i: int|
            0 <= i < t1.problem.predicates.len() ==> t2.problem.predicates[i]
                == t1.problem.predicates[i],
        t2.problem.variables.len() >= t1.problem.variables.len(),
    ensures
        translator_wf(t2),
{
    assert forall|i: int|
        0 <= i < t2.definitions.len() implies ((#[trigger] t2.definitions[i]) matches Some(e)
        ==> {
        &&& e.parameters.len() == t2.problem.predicates[i].arity as int
        &&& forall|j: int|
            0 <= j < e.parameters.len() ==> (#[trigger] e.parameters[j])
                < t2.problem.variables.len()
    }) by {
        assert(t2.definitions[i] == t1.definitions[i]);
        match t1.definitions[i] {
            Some(e) => {
                assert(e.parameters.len() == t1.problem.predicates[i].arity as int);
            },
            None => {},
        }
    }
}

/// Well-formedness survives appending one open formula to an existing
/// entry, since the entry keeps its parameter list.
pub proof fn lemma_wf_after_push(t1: TranslatorModel, t2: TranslatorModel, predicate: int)
    requires
        translator_wf(t1),
        0 <= predicate < t1.definitions.len(),
        t2.definitions.len() == t1.definitions.len(),
        forall|i: int|
            0 <= i < t1.definitions.len() && i != predicate ==> t2.definitions[i]
                == t1.definitions[i],
        (t1.definitions[predicate] matches Some(e1) && t2.definitions[predicate] matches Some(
            e2,
        ) && e2.parameters == e1.parameters),
        t2.problem.predicates.len() >= t1.problem.predicates.len(),
        forall|i: int|
            0 <= i < t1.problem.predicates.len() ==> t2.problem.predicates[i]
                == t1.problem.predicates[i],
        t2.problem.variables.len() >= t1.problem.variables.len(),
    ensures
        translator_wf(t2),
{
    assert forall|i: int|
        0 <= i < t2.definitions.len() implies ((#[trigger] t2.definitions[i]) matches Some(e)
        ==> {
        &&& e.parameters.len() == t2.problem.predicates[i].arity as int
        &&& forall|j: int|
            0 <= j < e.parameters.len() ==> (#[trigger] e.parameters[j])
                < t2.problem.variables.len()
    }) by {
        if i != predicate {
            assert(t2.definitions[i] == t1.definitions[i]);
        }
        match t1.definitions[i] {
            Some(e) => {
                assert(e.parameters.len() == t1.problem.predicates[i].arity as int);
            },
            None => {},
        }
    }
}

impl Translator {
    /// Translates an integrity constraint: the body's negated, universally
    /// closed conjunction is emitted directly as a statement; mirrors
    /// `spec_read_integrity_constraint`.
    fn read_integrity_constraint(&mut self, body: Vec<ast::Literal>) -> (r: Result<(), Error>)
        requires
            translator_wf(old(self)@),
        ensures
            match spec_read_integrity_constraint(old(self)@, body@) {
                Outcome::Success(t) => {
                    &&& r is Ok
                    &&& final(self)@ == t
                    &&& translator_wf(final(self)@)
                    &&& final(self)@.problem.completed_definitions
                        == old(self)@.problem.completed_definitions
                    &&& final(self)@.problem.integrity_constraints.len()
                        == old(self)@.problem.integrity_constraints.len() + 1
                    &&& final(self)@.problem.integrity_constraints.subrange(
                        0,
                        old(self)@.problem.integrity_constraints.len() as int,
                    ) == old(self)@.problem.integrity_constraints
                },
                Outcome::Failure(e) => {
                    &&& r == Result::<(), Error>::Err(e)
                    &&& final(self)@.problem.completed_definitions
                        == old(self)@.problem.completed_definitions
                    &&& final(self)@.problem.integrity_constraints
                        == old(self)@.problem.integrity_constraints
                },
            },
    {
        let ghost t0 = old(self)@;
        let mut scope = VariableScope { names: Vec::new(), order: Vec::new() };
        proof {
            assert(scope@ =~= (ScopeModel { names: Seq::empty(), order: Seq::empty() }));
        }
        let mut conjuncts = match translate_body(&mut self.problem, &mut scope, body) {
            Ok(cs) => cs,
            Err(e) => {
                return Err(e);
            },
        };
        let formula = if conjuncts.len() == 0 {
            Formula::Boolean(false)
        } else if conjuncts.len() == 1 {
            let sole = match conjuncts.pop() {
                Some(f) => f,
                None => {
                    proof {
                        assert(false);
                    }
                    Formula::Boolean(false)
                },
            };
            Formula::Not(Box::new(sole))
        } else {
            Formula::Not(Box::new(Formula::And(formula_list_from_vec(conjuncts))))
        };
        let statement = Statement {
            kind: StatementKind::IntegrityConstraint,
            formula: universal_closure(
                OpenFormula {
                    free_variable_declarations: variable_list_from_vec(scope.order),
                    formula,
                },
            ),
        };
        self.problem.add_statement(SectionKind::IntegrityConstraints, statement);
        proof {
            let t = match spec_read_integrity_constraint(t0, body@) {
                Outcome::Success(t) => t,
                Outcome::Failure(_) => arbitrary(),
            };
            assert(final(self)@ =~= t);
            lemma_wf_frame(t0, final(self)@);
            assert(final(self)@.problem.integrity_constraints.subrange(
                0,
                t0.problem.integrity_constraints.len() as int,
            ) =~= t0.problem.integrity_constraints);
        }
        Ok(())
    }

    /// Translates one defining rule for the given predicate: the body's
    /// conjuncts, the head atom itself for a choice rule, and the
    /// value-choice pinning of each head argument to its shared parameter,
    /// appended to the predicate's definitions as one open formula; mirrors
    /// `spec_read_defining_rule`.
    fn read_defining_rule(
        &mut self,
        predicate: usize,
        arguments: Vec<ast::Term>,
        body: Vec<ast::Literal>,
        is_choice: bool,
    ) -> (r: Result<(), Error>)
        requires
            translator_wf(old(self)@),
            predicate < old(self)@.problem.predicates.len(),
            old(self)@.problem.predicates[predicate as int].arity as int == arguments@.len(),
        ensures
            match spec_read_defining_rule(old(self)@, predicate, arguments@, body@, is_choice) {
                Outcome::Success(t) => {
                    &&& r is Ok
                    &&& final(self)@ == t
                    &&& translator_wf(final(self)@)
                    &&& final(self)@.problem.completed_definitions
                        == old(self)@.problem.completed_definitions
                    &&& final(self)@.problem.integrity_constraints
                        == old(self)@.problem.integrity_constraints
                },
                Outcome::Failure(e) => {
                    &&& r == Result::<(), Error>::Err(e)
                    &&& final(self)@.problem.completed_definitions
                        == old(self)@.problem.completed_definitions
                    &&& final(self)@.problem.integrity_constraints
                        == old(self)@.problem.integrity_constraints
                },
            },
    {
        let ghost t0 = old(self)@;
        let params = self.ensure_entry(predicate);
        let ghost t1 = self@;
        let mut scope = VariableScope { names: Vec::new(), order: Vec::new() };
        proof {
            assert(scope@ =~= (ScopeModel { names: Seq::empty(), order: Seq::empty() }));
        }
        let mut conjuncts = match translate_body(&mut self.problem, &mut scope, body) {
            Ok(cs) => cs,
            Err(e) => {
                return Err(e);
            },
        };
        if is_choice {
            conjuncts.push(Formula::Predicate(predicate, variable_terms_from_vec(&params)));
        }
        let ghost p_mid = self@.problem;
        let ghost sc_mid = scope@;
        let ghost cs1 = conjuncts@;
        let ghost all_args = arguments@;
        let mut remaining_args = arguments;
        let mut k: usize = 0;
        proof {
            assert(remaining_args@ =~= all_args.subrange(k as int, all_args.len() as int));
        }
        #[verifier::loop_isolation(false)]
        while remaining_args.len() > 0
            invariant
                k as int + remaining_args@.len() == all_args.len(),
                remaining_args@ == all_args.subrange(k as int, all_args.len() as int),
                scope_wf(scope@, self@.problem),
                body_step_frame(p_mid, self@.problem),
                forall|j: int|
                    0 <= j < params@.len() ==> (#[trigger] params@[j])
                        < self@.problem.variables.len(),
                params@.len() == all_args.len(),
                self@.definitions == t1.definitions,
                spec_head_arguments(p_mid, sc_mid, all_args, params@, 0, cs1)
                    == spec_head_arguments(
                    self@.problem,
                    scope@,
                    all_args,
                    params@,
                    k as int,
                    conjuncts@,
                ),
            decreases remaining_args.len(),
        {
            let ghost p_top = self@.problem;
            let ghost sc_top = scope@;
            let ghost cs_top = conjuncts@;
            proof {
                assert(remaining_args@[0] == all_args[k as int]);
            }
            let argument = remaining_args.remove(0);
            let target = params[k];
            let mut cs = match choose_value_in_term(&mut self.problem, &mut scope, argument,
                target) {
                Ok(cs) => cs,
                Err(e) => {
                    proof {
                        assert(spec_head_arguments(p_mid, sc_mid, all_args, params@, 0, cs1)
                            == Outcome::<(ProblemModel, ScopeModel, Seq<Formula>)>::Failure(e));
                    }
                    return Err(e);
                },
            };
            let ghost cs_view = cs@;
            conjuncts.append(&mut cs);
            k = k + 1;
            proof {
                assert(conjuncts@ =~= cs_top + cs_view);
                assert(remaining_args@ =~= all_args.subrange(k as int, all_args.len() as int));
            }
        }
        let formula = if conjuncts.len() == 0 {
            Formula::Boolean(true)
        } else if conjuncts.len() == 1 {
            match conjuncts.pop() {
                Some(f) => f,
                None => {
                    proof {
                        assert(false);
                    }
                    Formula::Boolean(true)
                },
            }
        } else {
            Formula::And(formula_list_from_vec(conjuncts))
        };
        let open_formula = OpenFormula {
            free_variable_declarations: variable_list_from_vec(scope.order),
            formula,
        };
        let ghost t_before_push = self@;
        match &mut self.definitions[predicate] {
            Some(pd) => {
                pd.definitions.push(open_formula);
            },
            None => {
                proof {
                    assert(entry_model(self.definitions@[predicate as int])
                        == t_before_push.definitions[predicate as int]);
                    assert(false);
                }
                return Err(Error::InternalInvariantViolation);
            },
        }
        proof {
            let t = match spec_read_defining_rule(t0, predicate, all_args, body@, is_choice) {
                Outcome::Success(t) => t,
                Outcome::Failure(_) => arbitrary(),
            };
            assert(final(self)@.definitions =~= t.definitions);
            assert(final(self)@ =~= t);
            lemma_wf_after_push(t1, final(self)@, predicate as int);
        }
        Ok(())
    }

    /// Reads one rule: classifies its head and dispatches; a trivial head
    /// contributes nothing; mirrors `spec_read_rule`.
    pub fn read_rule(&mut self, rule: ast::Rule) -> (r: Result<(), Error>)
        requires
            translator_wf(old(self)@),
        ensures
            match spec_read_rule(old(self)@, rule) {
                Outcome::Success(t) => {
                    &&& r is Ok
                    &&& final(self)@ == t
                    &&& translator_wf(final(self)@)
                    &&& final(self)@.problem.completed_definitions
                        == old(self)@.problem.completed_definitions
                },
                Outcome::Failure(e) => {
                    &&& r == Result::<(), Error>::Err(e)
                    &&& final(self)@.problem.completed_definitions
                        == old(self)@.problem.completed_definitions
                    &&& final(self)@.problem.integrity_constraints
                        == old(self)@.problem.integrity_constraints
                },
            },
            old(self)@.problem.integrity_constraints.len() <= final(self)@.problem.integrity_constraints.len(),
            final(self)@.problem.integrity_constraints.subrange(
                0,
                old(self)@.problem.integrity_constraints.len() as int,
            ) == old(self)@.problem.integrity_constraints,
    {
        let ghost t0 = old(self)@;
        let ast::Rule { head, body } = rule;
        let head_type = match determine_head_type(&mut self.problem, head) {
            Ok(ht) => ht,
            Err(e) => {
                proof {
                    assert(self@.problem.integrity_constraints.subrange(
                        0,
                        t0.problem.integrity_constraints.len() as int,
                    ) =~= t0.problem.integrity_constraints);
                }
                return Err(e);
            },
        };
        proof {
            lemma_wf_frame(t0, self@);
        }
        let result = match head_type {
            HeadType::Trivial => Ok(()),
            HeadType::IntegrityConstraint => self.read_integrity_constraint(body),
            HeadType::SingleAtom(a) => {
                let HeadAtom { predicate, arguments } = a;
                self.read_defining_rule(predicate, arguments, body, false)
            },
            HeadType::ChoiceWithSingleAtom(a) => {
                let HeadAtom { predicate, arguments } = a;
                self.read_defining_rule(predicate, arguments, body, true)
            },
        };
        proof {
            assert(self@.problem.integrity_constraints.subrange(
                0,
                t0.problem.integrity_constraints.len() as int,
            ) =~= t0.problem.integrity_constraints);
        }
        result
    }

    /// The completed definition of one predicate, draining its entry: the
    /// universally closed biconditional between its head atom and the
    /// disjunction of its rules' existentially closed bodies, or the
    /// universal falsification of a predicate with no rules; mirrors
    /// `spec_completed_definition`.
    fn completed_definition(&mut self, predicate: usize) -> (statement: Statement)
        requires
            predicate < old(self)@.problem.predicates.len(),
        ensures
            ({
                let (p1, defs1, expected) = spec_completed_definition(
                    old(self)@.problem,
                    old(self)@.definitions,
                    predicate,
                );
                &&& final(self)@.problem == p1
                &&& final(self)@.definitions == defs1
                &&& statement == expected
                &&& final(self)@.problem.predicates == old(self)@.problem.predicates
                &&& final(self)@.problem.completed_definitions
                    == old(self)@.problem.completed_definitions
                &&& final(self)@.problem.integrity_constraints
                    == old(self)@.problem.integrity_constraints
                &&& final(self)@.problem.input_predicates
                    == old(self)@.problem.input_predicates
            }),
    {
        let ghost t0 = old(self)@;
        let has_entry = predicate < self.definitions.len() && self.definitions[
            predicate
        ].is_some();
        if has_entry {
            let mut slot: Option<PredicateDefinitions> = None;
            core::mem::swap(&mut slot, &mut self.definitions[predicate]);
            proof {
                assert(final(self)@.definitions =~= t0.definitions.update(
                    predicate as int,
                    None,
                ));
            }
            let entry = match slot {
                Some(pd) => pd,
                None => {
                    proof {
                        assert(false);
                    }
                    PredicateDefinitions { parameters: Vec::new(), definitions: Vec::new() }
                },
            };
            let PredicateDefinitions { parameters, definitions } = entry;
            let ghost all_defs = definitions@;
            let mut ors: Vec<Formula> = Vec::new();
            let mut remaining_defs = definitions;
            proof {
                assert(remaining_defs@ =~= all_defs.subrange(0, all_defs.len() as int));
                assert(ors@ =~= spec_closures(all_defs.subrange(0, 0)));
            }
            #[verifier::loop_isolation(false)]
            while remaining_defs.len() > 0
                invariant
                    remaining_defs@.len() <= all_defs.len(),
                    remaining_defs@ == all_defs.subrange(
                        (all_defs.len() - remaining_defs@.len()) as int,
                        all_defs.len() as int,
                    ),
                    ors@ == spec_closures(
                        all_defs.subrange(0, (all_defs.len() - remaining_defs@.len()) as int),
                    ),
                decreases remaining_defs.len(),
            {
                let ghost k = (all_defs.len() - remaining_defs@.len()) as int;
                proof {
                    assert(remaining_defs@[0] == all_defs[k]);
                }
                let open_formula = remaining_defs.remove(0);
                ors.push(existential_closure(open_formula));
                proof {
                    assert(remaining_defs@ =~= all_defs.subrange(k + 1, all_defs.len() as int));
                    assert(ors@ =~= spec_closures(all_defs.subrange(0, k + 1)));
                }
            }
            proof {
                assert(all_defs.subrange(0, all_defs.len() as int) =~= all_defs);
            }
            let or = Formula::Or(formula_list_from_vec(ors));
            let head = Formula::Predicate(predicate, variable_terms_from_vec(&parameters));
            let formula = universal_closure(
                OpenFormula {
                    free_variable_declarations: variable_list_from_vec(parameters),
                    formula: Formula::IfAndOnlyIf(Box::new(head), Box::new(or)),
                },
            );
            Statement { kind: StatementKind::CompletedDefinition(predicate), formula }
        } else {
            let arity = self.problem.predicates[predicate].arity;
            let params = create_parameters(&mut self.problem, arity);
            let head = Formula::Predicate(predicate, variable_terms_from_vec(&params));
            let formula = universal_closure(
                OpenFormula {
                    free_variable_declarations: variable_list_from_vec(params),
                    formula: Formula::Not(Box::new(head)),
                },
            );
            Statement { kind: StatementKind::CompletedDefinition(predicate), formula }
        }
    }

    /// Translates a whole run: reads every rule in order, stopping at the
    /// first error with nothing emitted to the completed-definitions
    /// section, then finalizes every known predicate except the input
    /// predicates, draining the working map; mirrors `spec_translate`.
    #[verifier::rlimit(80)]
    pub fn translate(&mut self, rules: Vec<ast::Rule>) -> (r: Result<(), Error>)
        requires
            translator_wf(old(self)@),
        ensures
            match spec_translate(old(self)@, rules@) {
                Outcome::Success(t) => {
                    &&& r is Ok
                    &&& final(self)@ == t
                    &&& forall|j: int|
                        0 <= j < final(self)@.definitions.len() ==> (
                        #[trigger] final(self)@.definitions[j]) is None
                },
                Outcome::Failure(e) => {
                    &&& r == Result::<(), Error>::Err(e)
                    &&& final(self)@.problem.completed_definitions
                        == old(self)@.problem.completed_definitions
                    &&& final(self)@.problem.integrity_constraints
                        == old(self)@.problem.integrity_constraints
                },
            },
    {
        let ghost t_start = old(self)@;
        let ghost all_rules = rules@;
        let ghost base_constraints = old(self)@.problem.integrity_constraints;
        let base_length = self.problem.integrity_constraints.len();
        let mut remaining_rules = rules;
        proof {
            assert(remaining_rules@ =~= all_rules.subrange(
                (all_rules.len() - remaining_rules@.len()) as int,
                all_rules.len() as int,
            ));
            assert(self@.problem.integrity_constraints.subrange(0, base_length as int)
                =~= base_constraints);
        }
        #[verifier::loop_isolation(false)]
        while remaining_rules.len() > 0
            invariant
                remaining_rules@.len() <= all_rules.len(),
                remaining_rules@ == all_rules.subrange(
                    (all_rules.len() - remaining_rules@.len()) as int,
                    all_rules.len() as int,
                ),
                translator_wf(self@),
                self@.problem.completed_definitions == t_start.problem.completed_definitions,
                self@.problem.integrity_constraints.len() >= base_length,
                self@.problem.integrity_constraints.subrange(0, base_length as int)
                    == base_constraints,
                spec_read_rules(t_start, all_rules, 0) == spec_read_rules(
                    self@,
                    all_rules,
                    (all_rules.len() - remaining_rules@.len()) as int,
                ),
            decreases remaining_rules.len(),
        {
            let ghost t_top = self@;
            let ghost k = (all_rules.len() - remaining_rules@.len()) as int;
            proof {
                assert(remaining_rules@[0] == all_rules[k]);
            }
            let rule = remaining_rules.remove(0);
            match self.read_rule(rule) {
                Ok(()) => {},
                Err(e) => {
                    proof {
                        assert(spec_read_rules(t_top, all_rules, k)
                            == Outcome::<TranslatorModel>::Failure(e));
                    }
                    // Nothing of a failed run is emitted: constraints from
                    // earlier rules of this call are withdrawn.
                    #[verifier::loop_isolation(false)]
                    while self.problem.integrity_constraints.len() > base_length
                        invariant
                            self@.problem.completed_definitions
                                == t_start.problem.completed_definitions,
                            self@.problem.integrity_constraints.len() >= base_length,
                            self@.problem.integrity_constraints.subrange(0, base_length as int)
                                == base_constraints,
                        decreases self.problem.integrity_constraints.len(),
                    {
                        let ghost before = self@.problem.integrity_constraints;
                        self.problem.integrity_constraints.pop();
                        proof {
                            assert(self@.problem.integrity_constraints =~= before.drop_last());
                            assert(self@.problem.integrity_constraints.subrange(
                                0,
                                base_length as int,
                            ) =~= before.subrange(0, base_length as int));
                        }
                    }
                    proof {
                        assert(self@.problem.integrity_constraints =~= base_constraints);
                    }
                    return Err(e);
                },
            }
            proof {
                assert(remaining_rules@ =~= all_rules.subrange(
                    k + 1,
                    all_rules.len() as int,
                ));
                assert(self@.problem.integrity_constraints.subrange(0, base_length as int)
                    =~= base_constraints);
            }
        }
        self.finalize();
        Ok(())
    }

    /// Finalizes every predicate declaration known to the problem in the
    /// emission order — sorted by name, then arity — emitting one completed
    /// definition each, except the input predicates, and draining the whole
    /// working map; mirrors `spec_finalize`.
    fn finalize(&mut self)
        requires
            translator_wf(old(self)@),
        ensures
            final(self)@ == spec_finalize(
                old(self)@,
                spec_sorted_handles(
                    old(self)@.problem.predicates,
                    spec_identity_handles(old(self)@.problem.predicates.len() as int),
                ),
                0,
            ),
            forall|j: int|
                0 <= j < final(self)@.definitions.len() ==> (
                #[trigger] final(self)@.definitions[j]) is None,
    {
        let ghost t_mid = old(self)@;
        let definitions_count = self.definitions.len();
        proof {
            assert(t_mid.definitions.len() == definitions_count as nat);
        }
        let order = sorted_predicate_handles(&self.problem.predicates);
        let ghost order_view = order@;
        let mut i: usize = 0;
        #[verifier::loop_isolation(false)]
        while i < order.len()
            invariant
                i <= order@.len(),
                order@ == order_view,
                self@.problem.predicates == t_mid.problem.predicates,
                spec_finalize(t_mid, order_view, 0) == spec_finalize(
                    self@,
                    order_view,
                    i as int,
                ),
            decreases order@.len() - i,
        {
            let ghost t_top = self@;
            let predicate = order[i];
            if self.problem.is_input_predicate(predicate) {
                if predicate < self.definitions.len() {
                    self.definitions[predicate] = None;
                }
                proof {
                    assert(self@.definitions =~= spec_drop_entry(t_top.definitions, predicate));
                    assert(self@ =~= (TranslatorModel {
                        problem: t_top.problem,
                        definitions: spec_drop_entry(t_top.definitions, predicate),
                    }));
                }
            } else {
                let statement = self.completed_definition(predicate);
                self.problem.add_statement(SectionKind::CompletedDefinitions, statement);
                proof {
                    let (p1, defs1, expected) = spec_completed_definition(
                        t_top.problem,
                        t_top.definitions,
                        predicate,
                    );
                    assert(self@ =~= (TranslatorModel {
                        problem: ProblemModel {
                            completed_definitions: p1.completed_definitions.push(expected),
                            ..p1
                        },
                        definitions: defs1,
                    }));
                }
            }
            i = i + 1;
        }
        proof {
            assert(self@ == spec_finalize(t_mid, order_view, 0));
            lemma_finalize_frame(t_mid, order_view, 0);
            assert forall|j: int|
                0 <= j < self@.definitions.len() implies (
            #[trigger] self@.definitions[j]) is None by {
                assert(self@.definitions.len() == t_mid.definitions.len());
                assert(j < definitions_count as int);
                assert((j as usize) as int == j);
                assert(j < t_mid.problem.predicates.len() as int);
                assert(spec_identity_handles(t_mid.problem.predicates.len() as int)[j]
                    == j as usize);
                assert(spec_identity_handles(t_mid.problem.predicates.len() as int).contains(
                    j as usize,
                ));
                lemma_sorted_handles_contains(
                    t_mid.problem.predicates,
                    spec_identity_handles(t_mid.problem.predicates.len() as int),
                    j as usize,
                );
                assert(order_view.contains(j as usize));
                let w = choose|w: int|
                    0 <= w < order_view.len() && order_view[w] == j as usize;
                assert(0 <= w < order_view.len() && order_view[w] == j as usize);
                lemma_finalize_drains(t_mid, order_view, 0, j as usize);
                assert(spec_finalize(t_mid, order_view, 0).definitions[j] is None);
            }
        }
    }
}

/// The fresh parameter declarations of the model: there is one per
/// argument position, each anonymous, assigned the Program domain, and new
/// to the arena; earlier declarations are untouched.
pub proof fn lemma_parameters_properties(p: ProblemModel, n: int)
    requires
        p.variables.len() + n <= usize::MAX,
    ensures
        ({
            let (p1, params) = spec_parameters(p, n);
            &&& params.len() == if n <= 0 { 0int } else { n }
            &&& p1.predicates == p.predicates
            &&& p1.variables.len() == p.variables.len() + params.len()
            &&& p1.completed_definitions == p.completed_definitions
            &&& p1.integrity_constraints == p.integrity_constraints
            &&& p1.input_predicates == p.input_predicates
            &&& forall|k: int|
                0 <= k < p.variables.len() ==> p1.variables[k] == p.variables[k]
            &&& forall|j: int|
                0 <= j < params.len() ==> (#[trigger] params[j]) < p1.variables.len()
                    && p1.variables[params[j] as int].domain == Some(Domain::Program)
                    && p1.variables[params[j] as int].name is None
        }),
    decreases n,
{
    if n <= 0 {
    } else {
        let (pa, v) = spec_fresh_variable(p, Domain::Program);
        lemma_parameters_properties(pa, n - 1);
    }
}

/// Law: a predicate with zero contributing rules is universally falsified.
/// Its completed definition is the universal closure of the negated head
/// atom over one fresh anonymous Program-domain parameter per argument
/// position, and the working map is left as it was.
pub proof fn lemma_unruled_predicate_falsified(
    p: ProblemModel,
    defs: Seq<Option<DefinitionsEntryModel>>,
    predicate: usize,
)
    requires
        (predicate as int) < p.predicates.len(),
        (predicate as int) < defs.len() ==> defs[predicate as int] is None,
        p.variables.len() + p.predicates[predicate as int].arity as int <= usize::MAX,
    ensures
        ({
            let (p1, defs1, statement) = spec_completed_definition(p, defs, predicate);
            let (p2, params) = spec_parameters(
                p,
                p.predicates[predicate as int].arity as int,
            );
            &&& defs1 == defs
            &&& p1 == p2
            &&& statement.kind == StatementKind::CompletedDefinition(predicate)
            &&& params.len() == p.predicates[predicate as int].arity as int
            &&& statement.formula == spec_universal_closure(
                OpenFormula {
                    free_variable_declarations: variable_list_of(params),
                    formula: Formula::Not(
                        Box::new(Formula::Predicate(predicate, variable_terms_of(params))),
                    ),
                },
            )
            &&& forall|j: int|
                0 <= j < params.len() ==> p2.variables[#[trigger] params[j] as int].domain
                    == Some(Domain::Program)
        }),
{
    lemma_parameters_properties(p, p.predicates[predicate as int].arity as int);
}

/// Law: translation is deterministic. The finished statements are a
/// function of the starting problem and the rule stream alone — never of
/// addresses, hash orders or other ambient state — so translating the same
/// input twice produces identical statements.
pub proof fn lemma_translate_deterministic(
    t1: TranslatorModel,
    t2: TranslatorModel,
    rules1: Seq<ast::Rule>,
    rules2: Seq<ast::Rule>,
)
    requires
        t1 == t2,
        rules1 == rules2,
    ensures
        spec_translate(t1, rules1) == spec_translate(t2, rules2),
{
}

} // verus!
