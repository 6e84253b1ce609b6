//! The first-order formula model that translation produces: terms over
//! variable declarations, formulas with connectives and quantifiers, open
//! formulas pending closure, and finished statements. Variable and predicate
//! declarations are addressed by stable integer handles into the arenas of
//! `crate::problem::Problem`; equality of declarations is handle equality.

use vstd::prelude::*;

verus! {

/// A term of the output theory. Variables refer to declarations by handle.
#[derive(Debug, PartialEq, Eq)]
pub enum Term {
    Variable(usize),
    Integer(i64),
    Symbolic(String),
    BinaryOperation(crate::ast::BinaryOperator, Box<Term>, Box<Term>),
    UnaryOperation(crate::ast::UnaryOperator, Box<Term>),
}

/// The argument list of a predicate atom.
#[derive(Debug, PartialEq, Eq)]
pub enum TermList {
    Nil,
    Cons(Term, Box<TermList>),
}

/// The bound-variable list of a quantifier, by declaration handle.
#[derive(Debug, PartialEq, Eq)]
pub enum VariableList {
    Nil,
    Cons(usize, Box<VariableList>),
}

/// A formula of the output theory.
#[derive(Debug, PartialEq, Eq)]
pub enum Formula {
    Boolean(bool),
    /// A predicate atom: a predicate declaration handle and its arguments.
    Predicate(usize, TermList),
    Compare(crate::ast::Relation, Term, Term),
    Not(Box<Formula>),
    And(FormulaList),
    Or(FormulaList),
    Implies(Box<Formula>, Box<Formula>),
    IfAndOnlyIf(Box<Formula>, Box<Formula>),
    Exists(VariableList, Box<Formula>),
    ForAll(VariableList, Box<Formula>),
}

/// The operand list of a conjunction or disjunction.
#[derive(Debug, PartialEq, Eq)]
pub enum FormulaList {
    Nil,
    Cons(Box<Formula>, Box<FormulaList>),
}

/// A formula paired with the ordered list of its free variable declarations,
/// pending existential or universal closure.
#[derive(Debug, PartialEq, Eq)]
pub struct OpenFormula {
    pub free_variable_declarations: VariableList,
    pub formula: Formula,
}

/// What a finished statement is: the completed definition of a predicate
/// (by declaration handle), or an integrity constraint.
#[derive(Clone, Copy, Debug, PartialEq, Eq, Structural)]
pub enum StatementKind {
    CompletedDefinition(usize),
    IntegrityConstraint,
}

/// The ordered output section a statement is placed into.
#[derive(Clone, Copy, Debug, PartialEq, Eq, Structural)]
pub enum SectionKind {
    CompletedDefinitions,
    IntegrityConstraints,
}

/// A finished, closed formula with its classification. A renderer derives
/// a statement's display name from its kind and the predicate table.
#[derive(Debug, PartialEq, Eq)]
pub struct Statement {
    pub kind: StatementKind,
    pub formula: Formula,
}

/// The term list holding the given terms in order.
pub open spec fn term_list_of(s: Seq<Term>) -> TermList
    decreases s.len(),
{
    if s.len() == 0 {
        TermList::Nil
    } else {
        TermList::Cons(s[0], Box::new(term_list_of(s.drop_first())))
    }
}

/// The formula list holding the given formulas in order.
pub open spec fn formula_list_of(s: Seq<Formula>) -> FormulaList
    decreases s.len(),
{
    if s.len() == 0 {
        FormulaList::Nil
    } else {
        FormulaList::Cons(Box::new(s[0]), Box::new(formula_list_of(s.drop_first())))
    }
}

/// The variable list holding the given declaration handles in order.
pub open spec fn variable_list_of(s: Seq<usize>) -> VariableList
    decreases s.len(),
{
    if s.len() == 0 {
        VariableList::Nil
    } else {
        VariableList::Cons(s[0], Box::new(variable_list_of(s.drop_first())))
    }
}

/// The term list of variable terms over the given declaration handles, in
/// order: the arguments of a head atom built from shared parameters.
pub open spec fn variable_terms_of(s: Seq<usize>) -> TermList
    decreases s.len(),
{
    if s.len() == 0 {
        TermList::Nil
    } else {
        TermList::Cons(Term::Variable(s[0]), Box::new(variable_terms_of(s.drop_first())))
    }
}

/// Builds the term list holding the vector's terms in order.
pub fn term_list_from_vec(v: Vec<Term>) -> (r: TermList)
    ensures
        r == term_list_of(v@),
{
    let ghost s = v@;
    let mut v = v;
    let mut r = TermList::Nil;
    proof {
        assert(s.subrange(0, s.len() as int) =~= s);
    }
    while v.len() > 0
        invariant
            v@.len() <= s.len(),
            v@ == s.subrange(0, v@.len() as int),
            r == term_list_of(s.subrange(v@.len() as int, s.len() as int)),
        decreases v.len(),
    {
        let ghost k = v@.len() as int;
        proof {
            assert(v@.last() == s[k - 1]);
        }
        let x = v.pop().unwrap();
        r = TermList::Cons(x, Box::new(r));
        proof {
            assert(s.subrange(k - 1, s.len() as int).drop_first() =~= s.subrange(
                k,
                s.len() as int,
            ));
            assert(v@ =~= s.subrange(0, v@.len() as int));
        }
    }
    proof {
        assert(s.subrange(0, s.len() as int) =~= s);
    }
    r
}

/// Builds the formula list holding the vector's formulas in order.
pub fn formula_list_from_vec(v: Vec<Formula>) -> (r: FormulaList)
    ensures
        r == formula_list_of(v@),
{
    let ghost s = v@;
    let mut v = v;
    let mut r = FormulaList::Nil;
    proof {
        assert(s.subrange(0, s.len() as int) =~= s);
    }
    while v.len() > 0
        invariant
            v@.len() <= s.len(),
            v@ == s.subrange(0, v@.len() as int),
            r == formula_list_of(s.subrange(v@.len() as int, s.len() as int)),
        decreases v.len(),
    {
        let ghost k = v@.len() as int;
        proof {
            assert(v@.last() == s[k - 1]);
        }
        let x = v.pop().unwrap();
        r = FormulaList::Cons(Box::new(x), Box::new(r));
        proof {
            assert(s.subrange(k - 1, s.len() as int).drop_first() =~= s.subrange(
                k,
                s.len() as int,
            ));
            assert(v@ =~= s.subrange(0, v@.len() as int));
        }
    }
    proof {
        assert(s.subrange(0, s.len() as int) =~= s);
    }
    r
}

/// Builds the variable list holding the vector's handles in order.
pub fn variable_list_from_vec(v: Vec<usize>) -> (r: VariableList)
    ensures
        r == variable_list_of(v@),
{
    let ghost s = v@;
    let mut v = v;
    let mut r = VariableList::Nil;
    proof {
        assert(s.subrange(0, s.len() as int) =~= s);
    }
    while v.len() > 0
        invariant
            v@.len() <= s.len(),
            v@ == s.subrange(0, v@.len() as int),
            r == variable_list_of(s.subrange(v@.len() as int, s.len() as int)),
        decreases v.len(),
    {
        let ghost k = v@.len() as int;
        proof {
            assert(v@.last() == s[k - 1]);
        }
        let x = v.pop().unwrap();
        r = VariableList::Cons(x, Box::new(r));
        proof {
            assert(s.subrange(k - 1, s.len() as int).drop_first() =~= s.subrange(
                k,
                s.len() as int,
            ));
            assert(v@ =~= s.subrange(0, v@.len() as int));
        }
    }
    proof {
        assert(s.subrange(0, s.len() as int) =~= s);
    }
    r
}

/// Builds the term list of variable terms over the vector's handles in order.
pub fn variable_terms_from_vec(v: &Vec<usize>) -> (r: TermList)
    ensures
        r == variable_terms_of(v@),
{
    let ghost s = v@;
    let mut r = TermList::Nil;
    let mut i = v.len();
    while i > 0
        invariant
            i <= v.len(),
            v@ == s,
            r == variable_terms_of(s.subrange(i as int, s.len() as int)),
        decreases i,
    {
        i = i - 1;
        r = TermList::Cons(Term::Variable(v[i]), Box::new(r));
        proof {
            assert(s.subrange(i as int, s.len() as int).drop_first() =~= s.subrange(
                i + 1,
                s.len() as int,
            ));
        }
    }
    proof {
        assert(s.subrange(0, s.len() as int) =~= s);
    }
    r
}

/// The existential closure of an open formula: its formula, quantified over
/// its free variables, or unchanged when it has none.
pub open spec fn spec_existential_closure(open_formula: OpenFormula) -> Formula {
    if open_formula.free_variable_declarations is Nil {
        open_formula.formula
    } else {
        Formula::Exists(
            open_formula.free_variable_declarations,
            Box::new(open_formula.formula),
        )
    }
}

/// The universal closure of an open formula: its formula, quantified over
/// its free variables, or unchanged when it has none.
pub open spec fn spec_universal_closure(open_formula: OpenFormula) -> Formula {
    if open_formula.free_variable_declarations is Nil {
        open_formula.formula
    } else {
        Formula::ForAll(
            open_formula.free_variable_declarations,
            Box::new(open_formula.formula),
        )
    }
}

/// Existentially closes an open formula over its own free variables.
pub fn existential_closure(open_formula: OpenFormula) -> (r: Formula)
    ensures
        r == spec_existential_closure(open_formula),
{
    match open_formula.free_variable_declarations {
        VariableList::Nil => open_formula.formula,
        free => Formula::Exists(free, Box::new(open_formula.formula)),
    }
}

/// Universally closes an open formula over its own free variables.
pub fn universal_closure(open_formula: OpenFormula) -> (r: Formula)
    ensures
        r == spec_universal_closure(open_formula),
{
    match open_formula.free_variable_declarations {
        VariableList::Nil => open_formula.formula,
        free => Formula::ForAll(free, Box::new(open_formula.formula)),
    }
}

} // verus!
