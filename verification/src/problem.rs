//! The run-scoped aggregate of one translation: the predicate-declaration
//! interning table, the variable-declaration arena with domain assignments,
//! the input/output predicate markers, and the finished statement sections.
//! Declarations are addressed by integer handles; two handles denote the
//! same declaration exactly when they are equal.

use vstd::prelude::*;
use vstd::string::StrSliceExecFns;

use crate::Domain;
use crate::Error;
use crate::formula::SectionKind;
use crate::formula::Statement;

verus! {

/// The outcome of one translation step in the mathematical model: the new
/// value on success, or the error that aborts the whole run.
pub enum Outcome<T> {
    Success(T),
    Failure(Error),
}

/// A predicate declaration: identity is the pair of name and arity,
/// interned once per pair.
#[derive(Debug, PartialEq, Eq)]
pub struct PredicateInfo {
    pub name: String,
    pub arity: usize,
}

/// A variable declaration: a display name (`None` for the synthetic
/// anonymous placeholders) and the domain it has been assigned, if any.
#[derive(Debug, PartialEq, Eq)]
pub struct VariableInfo {
    pub name: Option<String>,
    pub domain: Option<Domain>,
}

/// The mathematical value of a `Problem`.
#[verifier::ext_equal]
pub struct ProblemModel {
    pub predicates: Seq<PredicateInfo>,
    pub variables: Seq<VariableInfo>,
    pub input_predicates: Seq<usize>,
    pub output_predicates: Seq<usize>,
    pub completed_definitions: Seq<Statement>,
    pub integrity_constraints: Seq<Statement>,
}

/// The aggregate owning all declarations and the finished statements of one
/// translation run.
#[derive(Debug)]
pub struct Problem {
    pub predicates: Vec<PredicateInfo>,
    pub variables: Vec<VariableInfo>,
    pub input_predicates: Vec<usize>,
    pub output_predicates: Vec<usize>,
    pub completed_definitions: Vec<Statement>,
    pub integrity_constraints: Vec<Statement>,
}

impl View for Problem {
    type V = ProblemModel;

    open spec fn view(&self) -> ProblemModel {
        ProblemModel {
            predicates: self.predicates@,
            variables: self.variables@,
            input_predicates: self.input_predicates@,
            output_predicates: self.output_predicates@,
            completed_definitions: self.completed_definitions@,
            integrity_constraints: self.integrity_constraints@,
        }
    }
}

/// The index of the first predicate declaration at or after position `i`
/// with the given name and arity, if any.
pub open spec fn spec_find_predicate(
    predicates: Seq<PredicateInfo>,
    name: Seq<char>,
    arity: int,
    i: int,
) -> Option<int>
    decreases predicates.len() - i,
{
    if i < 0 || i >= predicates.len() {
        None
    } else if predicates[i].name@ == name && predicates[i].arity as int == arity {
        Some(i)
    } else {
        spec_find_predicate(predicates, name, arity, i + 1)
    }
}

/// Interning in the model: an existing declaration of this name and arity is
/// reused, otherwise one is appended; the result is its handle.
pub open spec fn spec_intern_predicate(p: ProblemModel, name: String, arity: usize) -> (
    ProblemModel,
    usize,
) {
    match spec_find_predicate(p.predicates, name@, arity as int, 0) {
        Some(i) => (p, i as usize),
        None => (
            ProblemModel {
                predicates: p.predicates.push(PredicateInfo { name, arity }),
                ..p
            },
            p.predicates.len() as usize,
        ),
    }
}

/// Domain assignment in the model: a first assignment records the domain, a
/// repeated equal assignment changes nothing, and a different one fails with
/// a conflict naming the variable and both domains.
pub open spec fn spec_assign_domain(p: ProblemModel, variable: usize, domain: Domain) -> Outcome<
    ProblemModel,
> {
    if variable >= p.variables.len() {
        Outcome::Failure(Error::InternalInvariantViolation)
    } else {
        match p.variables[variable as int].domain {
            None => Outcome::Success(
                ProblemModel {
                    variables: p.variables.update(
                        variable as int,
                        VariableInfo {
                            name: p.variables[variable as int].name,
                            domain: Some(domain),
                        },
                    ),
                    ..p
                },
            ),
            Some(assigned) => if assigned == domain {
                Outcome::Success(p)
            } else {
                Outcome::Failure(
                    Error::DomainConflict { variable, assigned, requested: domain },
                )
            },
        }
    }
}

/// A fresh anonymous variable declaration in the model, with the given
/// domain already assigned: the new state and the new handle.
pub open spec fn spec_fresh_variable(p: ProblemModel, domain: Domain) -> (ProblemModel, usize) {
    (
        ProblemModel {
            variables: p.variables.push(VariableInfo { name: None, domain: Some(domain) }),
            ..p
        },
        p.variables.len() as usize,
    )
}

impl Problem {
    /// A problem with no declarations and no statements.
    pub fn new() -> (r: Problem)
        ensures
            r@.predicates =~= Seq::<PredicateInfo>::empty(),
            r@.variables =~= Seq::<VariableInfo>::empty(),
            r@.input_predicates =~= Seq::<usize>::empty(),
            r@.output_predicates =~= Seq::<usize>::empty(),
            r@.completed_definitions =~= Seq::<Statement>::empty(),
            r@.integrity_constraints =~= Seq::<Statement>::empty(),
    {
        Problem {
            predicates: Vec::new(),
            variables: Vec::new(),
            input_predicates: Vec::new(),
            output_predicates: Vec::new(),
            completed_definitions: Vec::new(),
            integrity_constraints: Vec::new(),
        }
    }

    /// Interns the predicate declaration of this name and arity: every atom
    /// of equal name and arity anywhere in the input resolves to the same
    /// handle.
    pub fn intern_predicate(&mut self, name: String, arity: usize) -> (r: usize)
        ensures
            (final(self)@, r) == spec_intern_predicate(old(self)@, name, arity),
            r < final(self)@.predicates.len(),
            final(self)@.predicates[r as int].name@ == name@,
            final(self)@.predicates[r as int].arity == arity,
            final(self)@.predicates.len() >= old(self)@.predicates.len(),
            forall|i: int|
                0 <= i < old(self)@.predicates.len() ==> final(self)@.predicates[i] == old(
                    self,
                )@.predicates[i],
            final(self)@.variables == old(self)@.variables,
            final(self)@.completed_definitions == old(self)@.completed_definitions,
            final(self)@.integrity_constraints == old(self)@.integrity_constraints,
            final(self)@.input_predicates == old(self)@.input_predicates,
    {
        let mut i: usize = 0;
        while i < self.predicates.len()
            invariant
                i <= self.predicates.len(),
                spec_find_predicate(self.predicates@, name@, arity as int, 0)
                    == spec_find_predicate(self.predicates@, name@, arity as int, i as int),
            decreases self.predicates.len() - i,
        {
            if self.predicates[i].name == name && self.predicates[i].arity == arity {
                proof {
                    assert(spec_find_predicate(self.predicates@, name@, arity as int, i as int)
                        == Some(i as int));
                }
                return i;
            }
            i = i + 1;
        }
        let r = self.predicates.len();
        self.predicates.push(PredicateInfo { name, arity });
        proof {
            assert(final(self)@ =~= spec_intern_predicate(old(self)@, name, arity).0);
        }
        r
    }

    /// Records the domain of a variable declaration; a repeated assignment
    /// succeeds only when the domain is the same, and otherwise fails with
    /// `DomainConflict` naming the variable and both domains.
    pub fn assign_variable_declaration_domain(&mut self, variable: usize, domain: Domain) -> (r:
        Result<(), Error>)
        requires
            variable < old(self)@.variables.len(),
        ensures
            match spec_assign_domain(old(self)@, variable, domain) {
                Outcome::Success(p) => r is Ok && final(self)@ == p,
                Outcome::Failure(e) => r == Result::<(), Error>::Err(e) && final(self)@ == old(
                    self,
                )@,
            },
    {
        match self.variables[variable].domain {
            None => {
                self.variables[variable].domain = Some(domain);
                proof {
                    assert(final(self)@.variables =~= old(self)@.variables.update(
                        variable as int,
                        VariableInfo {
                            name: old(self)@.variables[variable as int].name,
                            domain: Some(domain),
                        },
                    ));
                }
                Ok(())
            },
            Some(assigned) => {
                if assigned == domain {
                    Ok(())
                } else {
                    Err(Error::DomainConflict { variable, assigned, requested: domain })
                }
            },
        }
    }

    /// A fresh anonymous variable declaration with the given domain already
    /// assigned; returns its handle.
    pub fn fresh_variable(&mut self, domain: Domain) -> (r: usize)
        ensures
            (final(self)@, r) == spec_fresh_variable(old(self)@, domain),
            final(self)@.variables.len() == old(self)@.variables.len() + 1,
            r < final(self)@.variables.len(),
    {
        let r = self.variables.len();
        self.variables.push(VariableInfo { name: None, domain: Some(domain) });
        proof {
            assert(final(self)@ =~= spec_fresh_variable(old(self)@, domain).0);
        }
        r
    }

    /// Marks a predicate declaration as an input predicate: input predicates
    /// are assumed externally supplied and are not completed.
    pub fn add_input_predicate(&mut self, predicate: usize)
        ensures
            final(self)@ == (ProblemModel {
                input_predicates: old(self)@.input_predicates.push(predicate),
                ..old(self)@
            }),
    {
        self.input_predicates.push(predicate);
        proof {
            assert(final(self)@ =~= (ProblemModel {
                input_predicates: old(self)@.input_predicates.push(predicate),
                ..old(self)@
            }));
        }
    }

    /// Marks a predicate declaration as an output predicate.
    pub fn add_output_predicate(&mut self, predicate: usize)
        ensures
            final(self)@ == (ProblemModel {
                output_predicates: old(self)@.output_predicates.push(predicate),
                ..old(self)@
            }),
    {
        self.output_predicates.push(predicate);
        proof {
            assert(final(self)@ =~= (ProblemModel {
                output_predicates: old(self)@.output_predicates.push(predicate),
                ..old(self)@
            }));
        }
    }

    /// Whether a predicate declaration is marked as an input predicate.
    pub fn is_input_predicate(&self, predicate: usize) -> (r: bool)
        ensures
            r == self@.input_predicates.contains(predicate),
    {
        let mut i: usize = 0;
        while i < self.input_predicates.len()
            invariant
                i <= self.input_predicates.len(),
                forall|j: int| 0 <= j < i ==> self.input_predicates@[j] != predicate,
            decreases self.input_predicates.len() - i,
        {
            if self.input_predicates[i] == predicate {
                return true;
            }
            i = i + 1;
        }
        false
    }

    /// Appends a finished statement to the given output section.
    pub fn add_statement(&mut self, section: SectionKind, statement: Statement)
        ensures
            final(self)@ == (match section {
                SectionKind::CompletedDefinitions => ProblemModel {
                    completed_definitions: old(self)@.completed_definitions.push(statement),
                    ..old(self)@
                },
                SectionKind::IntegrityConstraints => ProblemModel {
                    integrity_constraints: old(self)@.integrity_constraints.push(statement),
                    ..old(self)@
                },
            }),
    {
        let ghost o = old(self)@;
        match section {
            SectionKind::CompletedDefinitions => {
                self.completed_definitions.push(statement);
                proof {
                    assert(final(self)@ =~= (ProblemModel {
                        completed_definitions: o.completed_definitions.push(statement),
                        ..o
                    }));
                }
            },
            SectionKind::IntegrityConstraints => {
                self.integrity_constraints.push(statement);
                proof {
                    assert(final(self)@ =~= (ProblemModel {
                        integrity_constraints: o.integrity_constraints.push(statement),
                        ..o
                    }));
                }
            },
        }
    }
}

/// Scanning for a name and arity that only the newly pushed declaration
/// carries finds exactly that declaration.
proof fn lemma_find_after_push(
    predicates: Seq<PredicateInfo>,
    entry: PredicateInfo,
    name: Seq<char>,
    arity: int,
    i: int,
)
    requires
        0 <= i <= predicates.len(),
        spec_find_predicate(predicates, name, arity, i) == None::<int>,
        entry.name@ == name,
        entry.arity as int == arity,
    ensures
        spec_find_predicate(predicates.push(entry), name, arity, i) == Some(
            predicates.len() as int,
        ),
    decreases predicates.len() - i,
{
    if i < predicates.len() {
        lemma_find_after_push(predicates, entry, name, arity, i + 1);
        assert(predicates.push(entry)[i] == predicates[i]);
    } else {
        assert(predicates.push(entry)[i] == entry);
    }
}

/// Law: predicate-declaration interning is idempotent. Interning a name
/// and arity a second time — under any spelling of the same name — returns
/// the same declaration handle and leaves the problem unchanged, so every
/// atom of equal name and arity anywhere in the input resolves to one
/// shared declaration.
pub proof fn lemma_intern_predicate_shared(
    p: ProblemModel,
    name1: String,
    name2: String,
    arity: usize,
)
    requires
        name1@ == name2@,
    ensures
        ({
            let (p1, first) = spec_intern_predicate(p, name1, arity);
            let (p2, second) = spec_intern_predicate(p1, name2, arity);
            &&& second == first
            &&& p2 == p1
        }),
{
    let (p1, first) = spec_intern_predicate(p, name1, arity);
    match spec_find_predicate(p.predicates, name1@, arity as int, 0) {
        Some(i) => {},
        None => {
            lemma_find_after_push(
                p.predicates,
                PredicateInfo { name: name1, arity },
                name1@,
                arity as int,
                0,
            );
        },
    }
}

/// Lexicographic order on display names, by character code.
pub open spec fn spec_name_lt(a: Seq<char>, b: Seq<char>) -> bool
    decreases a.len(),
{
    if b.len() == 0 {
        false
    } else if a.len() == 0 {
        true
    } else if a[0] != b[0] {
        (a[0] as int) < (b[0] as int)
    } else {
        spec_name_lt(a.drop_first(), b.drop_first())
    }
}

/// The strict total order in which completed definitions are emitted: by
/// name, then arity, then declaration handle.
pub open spec fn spec_predicate_before(predicates: Seq<PredicateInfo>, i: int, j: int) -> bool {
    let a = predicates[i];
    let b = predicates[j];
    if a.name@ != b.name@ {
        spec_name_lt(a.name@, b.name@)
    } else if a.arity != b.arity {
        a.arity < b.arity
    } else {
        i < j
    }
}

/// The position of the first least handle of `remaining` under the
/// declaration order, scanning from position `k` with current best `best`.
pub open spec fn spec_least_position(
    predicates: Seq<PredicateInfo>,
    remaining: Seq<usize>,
    k: int,
    best: int,
) -> int
    decreases remaining.len() - k,
{
    if !(0 <= best < remaining.len()) || !(0 <= k <= remaining.len()) || k == remaining.len() {
        best
    } else if spec_predicate_before(predicates, remaining[k] as int, remaining[best] as int) {
        spec_least_position(predicates, remaining, k + 1, k)
    } else {
        spec_least_position(predicates, remaining, k + 1, best)
    }
}

/// The handles of `remaining` rearranged into the declaration order, by
/// selection of the least remaining handle.
pub open spec fn spec_sorted_handles(
    predicates: Seq<PredicateInfo>,
    remaining: Seq<usize>,
) -> Seq<usize>
    decreases remaining.len(),
{
    if remaining.len() == 0 {
        Seq::empty()
    } else {
        let m0 = spec_least_position(predicates, remaining, 1, 0);
        let m = if 0 <= m0 < remaining.len() {
            m0
        } else {
            0
        };
        seq![remaining[m]] + spec_sorted_handles(predicates, remaining.remove(m))
    }
}

/// The handles `0` to `n - 1` in handle order.
pub open spec fn spec_identity_handles(n: int) -> Seq<usize> {
    Seq::new(if n >= 0 { n as nat } else { 0 }, |i: int| i as usize)
}

/// Every handle of `remaining` appears in its sorted rearrangement.
pub proof fn lemma_sorted_handles_contains(
    predicates: Seq<PredicateInfo>,
    remaining: Seq<usize>,
    x: usize,
)
    requires
        remaining.contains(x),
    ensures
        spec_sorted_handles(predicates, remaining).contains(x),
    decreases remaining.len(),
{
    let m0 = spec_least_position(predicates, remaining, 1, 0);
    let m = if 0 <= m0 < remaining.len() {
        m0
    } else {
        0
    };
    let sorted = spec_sorted_handles(predicates, remaining);
    if remaining[m] == x {
        assert(sorted[0] == x);
    } else {
        let i = choose|i: int| 0 <= i < remaining.len() && remaining[i] == x;
        let shifted = if i < m {
            i
        } else {
            i - 1
        };
        assert(remaining.remove(m)[shifted] == x);
        lemma_sorted_handles_contains(predicates, remaining.remove(m), x);
        let j = choose|j: int|
            0 <= j < spec_sorted_handles(predicates, remaining.remove(m)).len()
                && spec_sorted_handles(predicates, remaining.remove(m))[j] == x;
        assert(sorted[j + 1] == x);
    }
}

/// Compares two display names in the lexicographic order by character
/// code; mirrors `spec_name_lt`.
fn name_lt(a: &String, b: &String) -> (r: bool)
    ensures
        r == spec_name_lt(a@, b@),
{
    let a_len = a.as_str().unicode_len();
    let b_len = b.as_str().unicode_len();
    let mut i: usize = 0;
    proof {
        assert(a@.subrange(0, a@.len() as int) =~= a@);
        assert(b@.subrange(0, b@.len() as int) =~= b@);
    }
    #[verifier::loop_isolation(false)]
    while i < a_len && i < b_len
        invariant
            i <= a_len,
            i <= b_len,
            a_len as nat == a@.len(),
            b_len as nat == b@.len(),
            spec_name_lt(a@, b@) == spec_name_lt(
                a@.subrange(i as int, a@.len() as int),
                b@.subrange(i as int, b@.len() as int),
            ),
        decreases a_len - i,
    {
        let ca = a.as_str().get_char(i);
        let cb = b.as_str().get_char(i);
        let ghost a_rest = a@.subrange(i as int, a@.len() as int);
        let ghost b_rest = b@.subrange(i as int, b@.len() as int);
        if ca != cb {
            return (ca as u32) < (cb as u32);
        }
        i = i + 1;
        proof {
            assert(a_rest.drop_first() =~= a@.subrange(i as int, a@.len() as int));
            assert(b_rest.drop_first() =~= b@.subrange(i as int, b@.len() as int));
        }
    }
    proof {
        assert(spec_name_lt(a@, b@) == (i < b_len));
    }
    i < b_len
}

/// Compares two predicate declarations in the emission order; mirrors
/// `spec_predicate_before`.
fn predicate_before(predicates: &Vec<PredicateInfo>, i: usize, j: usize) -> (r: bool)
    requires
        i < predicates@.len(),
        j < predicates@.len(),
    ensures
        r == spec_predicate_before(predicates@, i as int, j as int),
{
    let a = &predicates[i];
    let b = &predicates[j];
    if !(a.name == b.name) {
        name_lt(&a.name, &b.name)
    } else if a.arity != b.arity {
        a.arity < b.arity
    } else {
        i < j
    }
}

/// All declaration handles of the table, rearranged into the emission
/// order: by name, then arity, then handle.
pub fn sorted_predicate_handles(predicates: &Vec<PredicateInfo>) -> (order: Vec<usize>)
    ensures
        order@ == spec_sorted_handles(
            predicates@,
            spec_identity_handles(predicates@.len() as int),
        ),
        forall|k: int| 0 <= k < order@.len() ==> (#[trigger] order@[k]) < predicates@.len(),
{
    let n = predicates.len();
    let mut remaining: Vec<usize> = Vec::new();
    let mut h: usize = 0;
    #[verifier::loop_isolation(false)]
    while h < n
        invariant
            h <= n,
            remaining@ =~= spec_identity_handles(h as int),
            forall|k: int| 0 <= k < remaining@.len() ==> (#[trigger] remaining@[k]) < n,
        decreases n - h,
    {
        remaining.push(h);
        h = h + 1;
        proof {
            assert(remaining@ =~= spec_identity_handles(h as int));
        }
    }
    let ghost start = remaining@;
    let mut order: Vec<usize> = Vec::new();
    proof {
        assert(order@ + spec_sorted_handles(predicates@, remaining@) =~= spec_sorted_handles(
            predicates@,
            start,
        ));
    }
    #[verifier::loop_isolation(false)]
    while remaining.len() > 0
        invariant
            forall|k: int| 0 <= k < remaining@.len() ==> (#[trigger] remaining@[k]) < n,
            forall|k: int| 0 <= k < order@.len() ==> (#[trigger] order@[k]) < n,
            spec_sorted_handles(predicates@, start) == order@ + spec_sorted_handles(
                predicates@,
                remaining@,
            ),
        decreases remaining.len(),
    {
        let ghost remaining_top = remaining@;
        let ghost order_top = order@;
        let mut best: usize = 0;
        let mut k: usize = 1;
        #[verifier::loop_isolation(false)]
        while k < remaining.len()
            invariant
                remaining@ == remaining_top,
                1 <= k <= remaining@.len(),
                best < k,
                spec_least_position(predicates@, remaining@, 1, 0) == spec_least_position(
                    predicates@,
                    remaining@,
                    k as int,
                    best as int,
                ),
            decreases remaining.len() - k,
        {
            if predicate_before(predicates, remaining[k], remaining[best]) {
                best = k;
            }
            k = k + 1;
        }
        let chosen = remaining.remove(best);
        order.push(chosen);
        proof {
            assert(order@ =~= order_top.push(chosen));
            assert(order_top + (seq![chosen] + spec_sorted_handles(
                predicates@,
                remaining_top.remove(best as int),
            )) =~= order@ + spec_sorted_handles(predicates@, remaining@));
        }
    }
    proof {
        assert(order@ + spec_sorted_handles(predicates@, remaining@) =~= order@);
    }
    order
}

} // verus!
