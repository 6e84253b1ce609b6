use anthem::Domain;
use anthem::Error;
use anthem::UnsupportedKind;
use anthem::ast::Atom;
use anthem::ast::BinaryOperator;
use anthem::ast::Head;
use anthem::ast::Literal;
use anthem::ast::Relation;
use anthem::ast::Rule;
use anthem::ast::Sign;
use anthem::ast::Term;
use anthem::formula::Formula;
use anthem::formula::OpenFormula;
use anthem::formula::Statement;
use anthem::formula::StatementKind;
use anthem::formula::formula_list_from_vec;
use anthem::formula::term_list_from_vec;
use anthem::formula::universal_closure;
use anthem::formula::variable_list_from_vec;
use anthem::formula::variable_terms_from_vec;
use anthem::formula::Term as FTerm;
use anthem::problem::Problem;
use anthem::translate::verify_properties::Translator;

fn atom(name: &str, arguments: Vec<Term>) -> Atom {
    Atom { name: name.to_string(), arguments }
}

fn pos(name: &str, arguments: Vec<Term>) -> Literal {
    Literal::Atom { sign: Sign::Positive, atom: atom(name, arguments) }
}

fn fact(name: &str, arguments: Vec<Term>) -> Rule {
    Rule { head: Head::Disjunction(vec![atom(name, arguments)]), body: vec![] }
}

fn var(name: &str) -> Term {
    Term::Variable(name.to_string())
}

fn forall_over(variables: Vec<usize>, formula: Formula) -> Formula {
    Formula::ForAll(variable_list_from_vec(variables), Box::new(formula))
}

fn exists_over(variables: Vec<usize>, formula: Formula) -> Formula {
    Formula::Exists(variable_list_from_vec(variables), Box::new(formula))
}

fn and(conjuncts: Vec<Formula>) -> Formula {
    Formula::And(formula_list_from_vec(conjuncts))
}

fn or(disjuncts: Vec<Formula>) -> Formula {
    Formula::Or(formula_list_from_vec(disjuncts))
}

fn pred(p: usize, arguments: Vec<FTerm>) -> Formula {
    Formula::Predicate(p, term_list_from_vec(arguments))
}

fn head_atom(p: usize, parameters: Vec<usize>) -> Formula {
    Formula::Predicate(p, variable_terms_from_vec(&parameters))
}

fn eq(left: FTerm, right: FTerm) -> Formula {
    Formula::Compare(Relation::Equal, left, right)
}

#[test]
fn unruled_predicate_is_universally_falsified() {
    let mut problem = Problem::new();
    let p = problem.intern_predicate("n".to_string(), 2);
    assert_eq!(p, 0);
    let mut translator = Translator::new(problem);
    assert!(translator.translate(vec![]).is_ok());
    let completed = &translator.problem.completed_definitions;
    assert_eq!(completed.len(), 1);
    let expected = Statement {
        kind: StatementKind::CompletedDefinition(0),
        formula: forall_over(
            vec![0, 1],
            Formula::Not(Box::new(head_atom(0, vec![0, 1]))),
        ),
    };
    assert_eq!(completed[0], expected);
}

#[test]
fn fact_completes_to_equalities() {
    let mut translator = Translator::new(Problem::new());
    let rules = vec![fact("p", vec![Term::Integer(1), Term::Integer(2)])];
    assert!(translator.translate(rules).is_ok());
    let completed = &translator.problem.completed_definitions;
    assert_eq!(completed.len(), 1);
    let body = and(vec![
        eq(FTerm::Variable(0), FTerm::Integer(1)),
        eq(FTerm::Variable(1), FTerm::Integer(2)),
    ]);
    let expected = Statement {
        kind: StatementKind::CompletedDefinition(0),
        formula: forall_over(
            vec![0, 1],
            Formula::IfAndOnlyIf(
                Box::new(head_atom(0, vec![0, 1])),
                Box::new(or(vec![body])),
            ),
        ),
    };
    assert_eq!(completed[0], expected);
}

#[test]
fn two_rules_complete_to_a_disjunction() {
    let mut translator = Translator::new(Problem::new());
    let rules = vec![
        Rule {
            head: Head::Disjunction(vec![atom("p", vec![var("X")])]),
            body: vec![pos("q", vec![var("X")])],
        },
        Rule {
            head: Head::Disjunction(vec![atom("p", vec![var("X")])]),
            body: vec![pos("r", vec![var("X")])],
        },
    ];
    assert!(translator.translate(rules).is_ok());
    let completed = &translator.problem.completed_definitions;
    assert_eq!(completed.len(), 3);
    let first = exists_over(
        vec![1],
        and(vec![
            pred(1, vec![FTerm::Variable(1)]),
            eq(FTerm::Variable(0), FTerm::Variable(1)),
        ]),
    );
    let second = exists_over(
        vec![2],
        and(vec![
            pred(2, vec![FTerm::Variable(2)]),
            eq(FTerm::Variable(0), FTerm::Variable(2)),
        ]),
    );
    let expected = Statement {
        kind: StatementKind::CompletedDefinition(0),
        formula: forall_over(
            vec![0],
            Formula::IfAndOnlyIf(
                Box::new(head_atom(0, vec![0])),
                Box::new(or(vec![first, second])),
            ),
        ),
    };
    assert_eq!(completed[0], expected);
    // The predicates used only in bodies have no rules and are falsified.
    assert_eq!(
        completed[1],
        Statement {
            kind: StatementKind::CompletedDefinition(1),
            formula: forall_over(vec![3], Formula::Not(Box::new(head_atom(1, vec![3])))),
        }
    );
    assert_eq!(
        completed[2],
        Statement {
            kind: StatementKind::CompletedDefinition(2),
            formula: forall_over(vec![4], Formula::Not(Box::new(head_atom(2, vec![4])))),
        }
    );
}

#[test]
fn integrity_constraint_is_negated_and_closed() {
    let mut translator = Translator::new(Problem::new());
    let rules = vec![Rule {
        head: Head::Disjunction(vec![]),
        body: vec![pos("q", vec![var("X")]), pos("r", vec![var("X")])],
    }];
    assert!(translator.translate(rules).is_ok());
    let constraints = &translator.problem.integrity_constraints;
    assert_eq!(constraints.len(), 1);
    let expected = Statement {
        kind: StatementKind::IntegrityConstraint,
        formula: forall_over(
            vec![0],
            Formula::Not(Box::new(and(vec![
                pred(0, vec![FTerm::Variable(0)]),
                pred(1, vec![FTerm::Variable(0)]),
            ]))),
        ),
    };
    assert_eq!(constraints[0], expected);
}

#[test]
fn choice_rule_adds_the_head_atom_as_a_conjunct() {
    let mut translator = Translator::new(Problem::new());
    let rules = vec![Rule {
        head: Head::Choice { atoms: vec![atom("p", vec![var("X")])], has_guards: false },
        body: vec![pos("q", vec![var("X")])],
    }];
    assert!(translator.translate(rules).is_ok());
    let completed = &translator.problem.completed_definitions;
    assert_eq!(completed.len(), 2);
    // The contributed conjunct set is: the body atom, the head atom itself,
    // and the pinning of the head argument to the shared parameter.
    let contributed = exists_over(
        vec![1],
        and(vec![
            pred(1, vec![FTerm::Variable(1)]),
            head_atom(0, vec![0]),
            eq(FTerm::Variable(0), FTerm::Variable(1)),
        ]),
    );
    let expected = Statement {
        kind: StatementKind::CompletedDefinition(0),
        formula: forall_over(
            vec![0],
            Formula::IfAndOnlyIf(
                Box::new(head_atom(0, vec![0])),
                Box::new(or(vec![contributed])),
            ),
        ),
    };
    assert_eq!(completed[0], expected);
}

fn arithmetic_program() -> Vec<Rule> {
    vec![
        fact("p", vec![Term::Integer(3)]),
        Rule {
            head: Head::Disjunction(vec![atom("q", vec![var("Y")])]),
            body: vec![Literal::Comparison(
                Relation::Equal,
                var("Y"),
                Term::BinaryOperation(
                    BinaryOperator::Add,
                    Box::new(Term::Integer(2)),
                    Box::new(Term::Integer(1)),
                ),
            )],
        },
        Rule { head: Head::Disjunction(vec![]), body: vec![pos("q", vec![Term::Integer(0)])] },
    ]
}

#[test]
fn translating_twice_gives_identical_statements() {
    let mut first = Translator::new(Problem::new());
    assert!(first.translate(arithmetic_program()).is_ok());
    let mut second = Translator::new(Problem::new());
    assert!(second.translate(arithmetic_program()).is_ok());
    assert_eq!(
        first.problem.completed_definitions,
        second.problem.completed_definitions
    );
    assert_eq!(
        first.problem.integrity_constraints,
        second.problem.integrity_constraints
    );
    assert_eq!(first.problem.predicates, second.problem.predicates);
    assert_eq!(first.problem.variables, second.problem.variables);
}

#[test]
fn domain_conflict_is_reported_by_the_tracker() {
    let mut problem = Problem::new();
    let v = problem.fresh_variable(Domain::Integer);
    assert!(problem.assign_variable_declaration_domain(v, Domain::Integer).is_ok());
    let conflict = problem.assign_variable_declaration_domain(v, Domain::Program);
    assert_eq!(
        conflict,
        Err(Error::DomainConflict {
            variable: v,
            assigned: Domain::Integer,
            requested: Domain::Program,
        })
    );
}

#[test]
fn arithmetic_then_plain_use_of_one_variable_conflicts() {
    let mut translator = Translator::new(Problem::new());
    // In one scope, X is first pinned inside an arithmetic term (Integer
    // domain) and then used as a plain atom argument (Program domain).
    let rules = vec![Rule {
        head: Head::Disjunction(vec![]),
        body: vec![
            Literal::Comparison(
                Relation::Equal,
                var("Y"),
                Term::BinaryOperation(
                    BinaryOperator::Multiply,
                    Box::new(var("X")),
                    Box::new(Term::Integer(2)),
                ),
            ),
            pos("q", vec![var("X")]),
        ],
    }];
    let result = translator.translate(rules);
    assert_eq!(
        result,
        Err(Error::DomainConflict {
            variable: 5,
            assigned: Domain::Integer,
            requested: Domain::Program,
        })
    );
    assert!(translator.problem.completed_definitions.is_empty());
}

#[test]
fn disjunctive_head_is_unsupported_and_yields_no_output() {
    let mut translator = Translator::new(Problem::new());
    let rules = vec![
        fact("p", vec![Term::Integer(1)]),
        Rule {
            head: Head::Disjunction(vec![atom("p", vec![]), atom("q", vec![])]),
            body: vec![],
        },
    ];
    let result = translator.translate(rules);
    assert_eq!(result, Err(Error::UnsupportedConstruct(UnsupportedKind::DisjunctiveHead)));
    assert!(translator.problem.completed_definitions.is_empty());
}

#[test]
fn guarded_and_plural_choice_heads_are_unsupported() {
    let mut translator = Translator::new(Problem::new());
    let guarded = vec![Rule {
        head: Head::Choice { atoms: vec![atom("p", vec![])], has_guards: true },
        body: vec![],
    }];
    assert_eq!(
        translator.translate(guarded),
        Err(Error::UnsupportedConstruct(UnsupportedKind::GuardedChoiceHead))
    );
    let mut translator = Translator::new(Problem::new());
    let plural = vec![Rule {
        head: Head::Choice { atoms: vec![atom("p", vec![]), atom("q", vec![])], has_guards: false },
        body: vec![],
    }];
    assert_eq!(
        translator.translate(plural),
        Err(Error::UnsupportedConstruct(UnsupportedKind::MultipleChoiceAtoms))
    );
}

#[test]
fn aggregate_literals_are_unsupported() {
    let mut translator = Translator::new(Problem::new());
    let rules = vec![Rule {
        head: Head::Disjunction(vec![atom("p", vec![])]),
        body: vec![Literal::Aggregate],
    }];
    assert_eq!(
        translator.translate(rules),
        Err(Error::UnsupportedConstruct(UnsupportedKind::AggregateLiteral))
    );
}

#[test]
fn trivial_heads_contribute_nothing() {
    let mut translator = Translator::new(Problem::new());
    let rules = vec![Rule { head: Head::Boolean(true), body: vec![pos("q", vec![])] }];
    assert!(translator.translate(rules).is_ok());
    assert!(translator.problem.completed_definitions.is_empty());
    assert!(translator.problem.integrity_constraints.is_empty());
    assert!(translator.problem.predicates.is_empty());
}

#[test]
fn predicate_declarations_are_interned_once() {
    let mut problem = Problem::new();
    let first = problem.intern_predicate("p".to_string(), 1);
    let again = problem.intern_predicate("p".to_string(), 1);
    let other_arity = problem.intern_predicate("p".to_string(), 2);
    let other_name = problem.intern_predicate("q".to_string(), 1);
    assert_eq!(first, again);
    assert_ne!(first, other_arity);
    assert_ne!(first, other_name);
    assert_eq!(problem.predicates.len(), 3);
}

#[test]
fn atoms_anywhere_share_one_declaration() {
    let mut translator = Translator::new(Problem::new());
    let rules = vec![
        Rule {
            head: Head::Disjunction(vec![atom("p", vec![var("X")])]),
            body: vec![pos("p", vec![var("X")])],
        },
    ];
    assert!(translator.translate(rules).is_ok());
    // Head and body occurrences of p/1 resolve to the same declaration.
    assert_eq!(translator.problem.predicates.len(), 1);
}

#[test]
fn input_predicates_are_not_completed() {
    let mut problem = Problem::new();
    let p = problem.intern_predicate("p".to_string(), 1);
    problem.add_input_predicate(p);
    let mut translator = Translator::new(problem);
    assert!(translator.translate(vec![]).is_ok());
    assert!(translator.problem.completed_definitions.is_empty());
}

#[test]
fn empty_body_constraint_is_false() {
    let mut translator = Translator::new(Problem::new());
    let rules = vec![Rule { head: Head::Boolean(false), body: vec![] }];
    assert!(translator.translate(rules).is_ok());
    let constraints = &translator.problem.integrity_constraints;
    assert_eq!(constraints.len(), 1);
    assert_eq!(
        constraints[0],
        Statement {
            kind: StatementKind::IntegrityConstraint,
            formula: Formula::Boolean(false),
        }
    );
}

#[test]
fn negative_literals_are_negated() {
    let mut translator = Translator::new(Problem::new());
    let rules = vec![Rule {
        head: Head::Disjunction(vec![atom("p", vec![])]),
        body: vec![Literal::Atom { sign: Sign::Negative, atom: atom("q", vec![]) }],
    }];
    assert!(translator.translate(rules).is_ok());
    let completed = &translator.problem.completed_definitions;
    assert_eq!(completed.len(), 2);
    let expected = Statement {
        kind: StatementKind::CompletedDefinition(0),
        formula: Formula::IfAndOnlyIf(
            Box::new(pred(0, vec![])),
            Box::new(or(vec![Formula::Not(Box::new(pred(1, vec![])))])),
        ),
    };
    assert_eq!(completed[0], expected);
}

#[test]
fn intervals_bound_the_value_choice_variable() {
    let mut translator = Translator::new(Problem::new());
    let rules = vec![Rule {
        head: Head::Disjunction(vec![atom("q", vec![var("Y")])]),
        body: vec![Literal::Comparison(
            Relation::Equal,
            var("Y"),
            Term::Interval(Box::new(Term::Integer(1)), Box::new(Term::Integer(3))),
        )],
    }];
    assert!(translator.translate(rules).is_ok());
    let completed = &translator.problem.completed_definitions;
    assert_eq!(completed.len(), 1);
    // Parameter 0; value-choice variables 1 (left side) and 3 (interval),
    // the named variable Y is 2, the endpoint variables are 4 and 5; the
    // interval variable is bounded between its pinned endpoints.
    let body = and(vec![
        eq(FTerm::Variable(1), FTerm::Variable(2)),
        eq(FTerm::Variable(4), FTerm::Integer(1)),
        eq(FTerm::Variable(5), FTerm::Integer(3)),
        Formula::Compare(Relation::LessEqual, FTerm::Variable(4), FTerm::Variable(3)),
        Formula::Compare(Relation::LessEqual, FTerm::Variable(3), FTerm::Variable(5)),
        eq(FTerm::Variable(1), FTerm::Variable(3)),
        eq(FTerm::Variable(0), FTerm::Variable(2)),
    ]);
    let expected = Statement {
        kind: StatementKind::CompletedDefinition(0),
        formula: forall_over(
            vec![0],
            Formula::IfAndOnlyIf(
                Box::new(head_atom(0, vec![0])),
                Box::new(or(vec![exists_over(vec![1, 2, 3, 4, 5], body)])),
            ),
        ),
    };
    assert_eq!(completed[0], expected);
}

#[test]
fn closures_leave_closed_formulas_unchanged() {
    let closed = universal_closure(OpenFormula {
        free_variable_declarations: anthem::formula::VariableList::Nil,
        formula: Formula::Boolean(true),
    });
    assert_eq!(closed, Formula::Boolean(true));
}

#[test]
fn completed_definitions_are_emitted_in_name_order() {
    let mut translator = Translator::new(Problem::new());
    // "b" is declared first (handle 0), "a" second (handle 1); the emitted
    // statements are ordered by name, not by first appearance.
    let rules = vec![
        fact("b", vec![Term::Integer(1)]),
        fact("a", vec![Term::Integer(2)]),
    ];
    assert!(translator.translate(rules).is_ok());
    let completed = &translator.problem.completed_definitions;
    assert_eq!(completed.len(), 2);
    assert_eq!(completed[0].kind, StatementKind::CompletedDefinition(1));
    assert_eq!(completed[1].kind, StatementKind::CompletedDefinition(0));
}

#[test]
fn same_name_orders_by_arity() {
    let mut translator = Translator::new(Problem::new());
    let rules = vec![
        fact("p", vec![Term::Integer(1), Term::Integer(2)]),
        fact("p", vec![Term::Integer(1)]),
    ];
    assert!(translator.translate(rules).is_ok());
    let completed = &translator.problem.completed_definitions;
    assert_eq!(completed.len(), 2);
    // p/1 (handle 1) sorts before p/2 (handle 0).
    assert_eq!(completed[0].kind, StatementKind::CompletedDefinition(1));
    assert_eq!(completed[1].kind, StatementKind::CompletedDefinition(0));
}

#[test]
fn input_predicate_entries_are_drained() {
    let mut problem = Problem::new();
    let p = problem.intern_predicate("p".to_string(), 1);
    problem.add_input_predicate(p);
    let mut translator = Translator::new(problem);
    // The input predicate has a defining rule; it is not completed, but its
    // accumulated entry must not survive finalization.
    let rules = vec![fact("p", vec![Term::Integer(1)])];
    assert!(translator.translate(rules).is_ok());
    assert!(translator.problem.completed_definitions.is_empty());
    assert_eq!(translator.definitions.len(), 1);
    assert!(translator.definitions[0].is_none());
}

#[test]
fn failed_run_emits_no_statements_at_all() {
    let mut translator = Translator::new(Problem::new());
    // The integrity constraint is read before the unsupported head aborts
    // the run; all-or-nothing, so even that constraint is withdrawn.
    let rules = vec![
        Rule { head: Head::Disjunction(vec![]), body: vec![pos("q", vec![var("X")])] },
        Rule {
            head: Head::Disjunction(vec![atom("p", vec![]), atom("q", vec![])]),
            body: vec![],
        },
    ];
    let result = translator.translate(rules);
    assert_eq!(result, Err(Error::UnsupportedConstruct(UnsupportedKind::DisjunctiveHead)));
    assert!(translator.problem.completed_definitions.is_empty());
    assert!(translator.problem.integrity_constraints.is_empty());
}
