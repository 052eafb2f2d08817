//! Natural deduction rules that can be applied to a [`Sequent`].

use vstd::prelude::*;
use crate::error::{Error, ErrorKind};
use crate::formula::{Formula, SpecFormula, first_fresh};
use crate::sequent::{Sequent, SpecSequent, clone_formulas};
use crate::term::{SpecTerm, Term};

verus! {

broadcast use vstd::std_specs::vec::group_vec_axioms;

/// Structure used by some [`Rule`] variants.
#[derive(Clone, Copy, PartialEq, Eq, Structural, Debug)]
pub enum Side {
    Left,
    Right,
}

impl Default for Side {
    fn default() -> (r: Side)
        ensures
            r == Side::Left,
    {
        Side::Left
    }
}

/// One inference rule application, carrying its operands.
#[derive(Debug)]
pub enum Rule {
    Axiom,
    Intro,
    Intros,
    Trans(Box<Formula>),
    SplitAnd,
    And(Side, Box<Formula>),
    Keep(Side),
    FromOr(Box<Formula>),
    Generalize(Box<Term>),
    FixAs(Box<Term>),
    Consider(Box<Formula>),
    RenameAs(String),
    FromBottom,
    ExFalso(Box<Formula>),
}

/// Mathematical model of a rule.
pub enum SpecRule {
    Axiom,
    Intro,
    Intros,
    Trans(SpecFormula),
    SplitAnd,
    And(Side, SpecFormula),
    Keep(Side),
    FromOr(SpecFormula),
    Generalize(SpecTerm),
    FixAs(SpecTerm),
    Consider(SpecFormula),
    RenameAs(Seq<char>),
    FromBottom,
    ExFalso(SpecFormula),
}

impl DeepView for Rule {
    type V = SpecRule;

    open spec fn deep_view(&self) -> SpecRule {
        match self {
            Rule::Axiom => SpecRule::Axiom,
            Rule::Intro => SpecRule::Intro,
            Rule::Intros => SpecRule::Intros,
            Rule::Trans(f) => SpecRule::Trans(f.deep_view()),
            Rule::SplitAnd => SpecRule::SplitAnd,
            Rule::And(s, f) => SpecRule::And(*s, f.deep_view()),
            Rule::Keep(s) => SpecRule::Keep(*s),
            Rule::FromOr(f) => SpecRule::FromOr(f.deep_view()),
            Rule::Generalize(t) => SpecRule::Generalize(t.deep_view()),
            Rule::FixAs(t) => SpecRule::FixAs(t.deep_view()),
            Rule::Consider(f) => SpecRule::Consider(f.deep_view()),
            Rule::RenameAs(v) => SpecRule::RenameAs(v@),
            Rule::FromBottom => SpecRule::FromBottom,
            Rule::ExFalso(f) => SpecRule::ExFalso(f.deep_view()),
        }
    }
}

/// The kind of each rule, without its operands.
#[derive(Clone, Copy, PartialEq, Eq, Structural, Debug)]
pub enum RuleType {
    Axiom,
    Intro,
    Intros,
    Trans,
    SplitAnd,
    And,
    Keep,
    FromOr,
    Generalize,
    FixAs,
    Consider,
    RenameAs,
    FromBottom,
    ExFalso,
}

impl Rule {
    /// The kind of this rule.
    pub open spec fn spec_rule_type(&self) -> RuleType {
        match self {
            Rule::Axiom => RuleType::Axiom,
            Rule::Intro => RuleType::Intro,
            Rule::Intros => RuleType::Intros,
            Rule::Trans(_) => RuleType::Trans,
            Rule::SplitAnd => RuleType::SplitAnd,
            Rule::And(_, _) => RuleType::And,
            Rule::Keep(_) => RuleType::Keep,
            Rule::FromOr(_) => RuleType::FromOr,
            Rule::Generalize(_) => RuleType::Generalize,
            Rule::FixAs(_) => RuleType::FixAs,
            Rule::Consider(_) => RuleType::Consider,
            Rule::RenameAs(_) => RuleType::RenameAs,
            Rule::FromBottom => RuleType::FromBottom,
            Rule::ExFalso(_) => RuleType::ExFalso,
        }
    }
}

/// The number of nodes of a formula, used as a termination measure.
pub open spec fn formula_size(f: SpecFormula) -> nat
    decreases f,
{
    match f {
        SpecFormula::Falsum => 1,
        SpecFormula::Rel(_, _) => 1,
        SpecFormula::Not(g) => 1 + formula_size(*g),
        SpecFormula::Or(a, b) => 1 + formula_size(*a) + formula_size(*b),
        SpecFormula::And(a, b) => 1 + formula_size(*a) + formula_size(*b),
        SpecFormula::Implies(a, b) => 1 + formula_size(*a) + formula_size(*b),
        SpecFormula::Forall(_, g) => 1 + formula_size(*g),
        SpecFormula::Exists(_, g) => 1 + formula_size(*g),
    }
}

/// The antecedents extended by `f`, unless `f` is already present:
/// set union on the ordered list.
pub open spec fn add_antecedent_spec(ants: Seq<SpecFormula>, f: SpecFormula) -> Seq<SpecFormula> {
    if ants.contains(f) {
        ants
    } else {
        ants.push(f)
    }
}

/// One introduction step, if any applies: an implication moves its premise
/// into the antecedents; a universal quantifier is opened when its variable
/// is not already free in the antecedents.
pub open spec fn spec_intro(s: SpecSequent) -> Option<SpecSequent> {
    match s.consequent {
        SpecFormula::Implies(a, b) => Some(
            SpecSequent { antecedents: add_antecedent_spec(s.antecedents, *a), consequent: *b },
        ),
        SpecFormula::Forall(v, f) => if s.domain().contains(v) {
            None
        } else {
            Some(SpecSequent { antecedents: s.antecedents, consequent: *f })
        },
        _ => None,
    }
}

/// Repeated introduction until no step applies.
pub open spec fn spec_intros(s: SpecSequent) -> SpecSequent
    decreases formula_size(s.consequent),
    via spec_intros_decreases
{
    match spec_intro(s) {
        Some(s2) => spec_intros(s2),
        None => s,
    }
}

#[via_fn]
proof fn spec_intros_decreases(s: SpecSequent) {
    match spec_intro(s) {
        Some(s2) => {
            assert(formula_size(s2.consequent) < formula_size(s.consequent));
        },
        None => {},
    }
}

/// What applying a rule to a sequent yields: the new sequents in order,
/// or the kind of the error. `Γ` is the antecedent list, `C` the consequent.
pub open spec fn spec_apply(r: SpecRule, s: SpecSequent) -> Result<Seq<SpecSequent>, ErrorKind> {
    let gamma = s.antecedents;
    let c = s.consequent;
    match r {
        SpecRule::Axiom => if gamma.contains(c) {
            Ok(Seq::empty())
        } else {
            Err(ErrorKind::Command)
        },
        SpecRule::Intro => match spec_intro(s) {
            Some(s2) => Ok(seq![s2]),
            None => Err(ErrorKind::Command),
        },
        SpecRule::Intros => Ok(seq![spec_intros(s)]),
        SpecRule::Trans(f) => Ok(
            seq![
                SpecSequent {
                    antecedents: gamma,
                    consequent: SpecFormula::Implies(Box::new(f), Box::new(c)),
                },
                SpecSequent { antecedents: gamma, consequent: f },
            ],
        ),
        SpecRule::SplitAnd => match c {
            SpecFormula::And(a, b) => Ok(
                seq![
                    SpecSequent { antecedents: gamma, consequent: *a },
                    SpecSequent { antecedents: gamma, consequent: *b },
                ],
            ),
            _ => Err(ErrorKind::Command),
        },
        SpecRule::And(side, f) => {
            let and = if side is Left {
                SpecFormula::And(Box::new(f), Box::new(c))
            } else {
                SpecFormula::And(Box::new(c), Box::new(f))
            };
            Ok(seq![SpecSequent { antecedents: gamma, consequent: and }])
        },
        SpecRule::Keep(side) => match c {
            SpecFormula::Or(a, b) => {
                let kept = if side is Left {
                    *a
                } else {
                    *b
                };
                Ok(seq![SpecSequent { antecedents: gamma, consequent: kept }])
            },
            _ => Err(ErrorKind::Command),
        },
        SpecRule::FromOr(f) => match f {
            SpecFormula::Or(a, b) => Ok(
                seq![
                    SpecSequent { antecedents: gamma, consequent: f },
                    SpecSequent {
                        antecedents: add_antecedent_spec(gamma, *a),
                        consequent: c,
                    },
                    SpecSequent {
                        antecedents: add_antecedent_spec(gamma, *b),
                        consequent: c,
                    },
                ],
            ),
            _ => Err(ErrorKind::InvalidArguments),
        },
        SpecRule::Generalize(t) => if !c.contains_term(t) {
            Err(ErrorKind::Command)
        } else {
            let v = first_fresh(c.free_vars());
            let generalized = c.replaced(t, SpecTerm::Var(v));
            Ok(
                seq![
                    SpecSequent {
                        antecedents: gamma,
                        consequent: SpecFormula::Forall(v, Box::new(generalized)),
                    },
                ],
            )
        },
        SpecRule::FixAs(t) => match c {
            SpecFormula::Exists(v, f) => if c.contains_term(t) {
                Err(ErrorKind::InvalidArguments)
            } else {
                Ok(
                    seq![
                        SpecSequent {
                            antecedents: gamma,
                            consequent: f.replaced(SpecTerm::Var(v), t),
                        },
                    ],
                )
            },
            _ => Err(ErrorKind::Command),
        },
        SpecRule::Consider(f) => match f {
            SpecFormula::Exists(v, nf) => if c.free_vars().contains(v) {
                Err(ErrorKind::Command)
            } else if s.domain().contains(v) {
                Err(ErrorKind::Command)
            } else {
                Ok(
                    seq![
                        SpecSequent { antecedents: gamma, consequent: f },
                        SpecSequent {
                            antecedents: add_antecedent_spec(gamma, *nf),
                            consequent: c,
                        },
                    ],
                )
            },
            _ => Err(ErrorKind::InvalidArguments),
        },
        // Renaming does not check that the new name is fresh: renaming to a
        // name already free in the body silently captures it.
        SpecRule::RenameAs(x) => match c {
            SpecFormula::Exists(old_v, f) => {
                let renamed = SpecFormula::Exists(x, f).replaced(
                    SpecTerm::Var(old_v),
                    SpecTerm::Var(x),
                );
                Ok(seq![SpecSequent { antecedents: gamma, consequent: renamed }])
            },
            SpecFormula::Forall(old_v, f) => {
                let renamed = SpecFormula::Forall(x, f).replaced(
                    SpecTerm::Var(old_v),
                    SpecTerm::Var(x),
                );
                Ok(seq![SpecSequent { antecedents: gamma, consequent: renamed }])
            },
            _ => Err(ErrorKind::Command),
        },
        SpecRule::FromBottom => {
            let new_prop = match c {
                SpecFormula::Not(e) => *e,
                e => SpecFormula::Not(Box::new(e)),
            };
            Ok(
                seq![
                    SpecSequent {
                        antecedents: add_antecedent_spec(gamma, new_prop),
                        consequent: SpecFormula::Falsum,
                    },
                ],
            )
        },
        SpecRule::ExFalso(f) => match c {
            SpecFormula::Falsum => {
                let (true_prop, false_prop) = match f {
                    SpecFormula::Not(ff) => (*ff, f),
                    o => (o, SpecFormula::Not(Box::new(o))),
                };
                Ok(
                    seq![
                        SpecSequent { antecedents: gamma, consequent: true_prop },
                        SpecSequent { antecedents: gamma, consequent: false_prop },
                    ],
                )
            },
            _ => Err(ErrorKind::Command),
        },
    }
}

/// Whether a rule of this kind can be applied to `s`: the lightweight test
/// behind the rule menu. Rules marked applicable may still fail at
/// apply-time on a malformed argument.
pub open spec fn spec_applicable(rt: RuleType, s: SpecSequent) -> bool {
    match rt {
        RuleType::Axiom => s.antecedents.contains(s.consequent),
        RuleType::Intro => s.consequent is Implies || s.consequent is Forall,
        RuleType::Intros => s.consequent is Implies || s.consequent is Forall,
        RuleType::Trans => true,
        RuleType::SplitAnd => s.consequent is And,
        RuleType::And => true,
        RuleType::Keep => s.consequent is Or,
        RuleType::FromOr => true,
        RuleType::Generalize => true,
        RuleType::FixAs => s.consequent is Exists,
        RuleType::Consider => true,
        RuleType::RenameAs => s.consequent is Forall || s.consequent is Exists,
        RuleType::FromBottom => true,
        RuleType::ExFalso => s.consequent is Falsum,
    }
}

impl RuleType {
    /// Return whether the rule can be applied to a given sequent.
    pub fn is_applicable(&self, sequent: &Sequent) -> (r: bool)
        ensures
            r == spec_applicable(*self, sequent.deep_view()),
    {
        match self {
            RuleType::Axiom => sequent.has_antecedent(&sequent.consequent),
            RuleType::Intro | RuleType::Intros => match &*sequent.consequent {
                Formula::Implies(_, _) => true,
                Formula::Forall(_, _) => true,
                _ => false,
            },
            RuleType::Trans => true,
            RuleType::SplitAnd => matches!(&*sequent.consequent, Formula::And(_, _)),
            RuleType::And => true,
            RuleType::Keep => matches!(&*sequent.consequent, Formula::Or(_, _)),
            RuleType::FromOr => true,
            RuleType::Generalize => true,
            RuleType::FixAs => matches!(&*sequent.consequent, Formula::Exists(_, _)),
            RuleType::Consider => true,
            RuleType::RenameAs => match &*sequent.consequent {
                Formula::Forall(_, _) => true,
                Formula::Exists(_, _) => true,
                _ => false,
            },
            RuleType::FromBottom => true,
            RuleType::ExFalso => matches!(&*sequent.consequent, Formula::Falsum),
        }
    }
}

/// All rule kinds, in their fixed order.
pub fn rule_types() -> (r: Vec<RuleType>)
    ensures
        r@ == all_rule_types(),
{
    let r = vec![
        RuleType::Axiom,
        RuleType::Intro,
        RuleType::Intros,
        RuleType::Trans,
        RuleType::SplitAnd,
        RuleType::And,
        RuleType::Keep,
        RuleType::FromOr,
        RuleType::Generalize,
        RuleType::FixAs,
        RuleType::Consider,
        RuleType::RenameAs,
        RuleType::FromBottom,
        RuleType::ExFalso,
    ];
    assert(r@ =~= all_rule_types());
    r
}

/// All rule kinds, in their fixed order.
pub open spec fn all_rule_types() -> Seq<RuleType> {
    seq![
        RuleType::Axiom,
        RuleType::Intro,
        RuleType::Intros,
        RuleType::Trans,
        RuleType::SplitAnd,
        RuleType::And,
        RuleType::Keep,
        RuleType::FromOr,
        RuleType::Generalize,
        RuleType::FixAs,
        RuleType::Consider,
        RuleType::RenameAs,
        RuleType::FromBottom,
        RuleType::ExFalso,
    ]
}


/// The antecedent list extended by a clone of `f`, unless already present.
fn add_antecedent_vec(ants: &Vec<Formula>, f: &Formula) -> (r: Vec<Formula>)
    ensures
        r.deep_view() == add_antecedent_spec(ants.deep_view(), f.deep_view()),
{
    let mut r = clone_formulas(ants);
    if !crate::sequent::contains_formula(ants, f) {
        let c = f.clone();
        r.push(c);
        assert(r.deep_view() =~= ants.deep_view().push(f.deep_view()));
    }
    r
}

/// One introduction step on a sequent, with the error the step reports.
fn intro_step(sequent: &Sequent) -> (r: Result<Sequent, Error>)
    ensures
        match r {
            Ok(s2) => spec_intro(sequent.deep_view()) == Some(s2.deep_view()),
            Err(e) => spec_intro(sequent.deep_view()) is None && e.kind() == ErrorKind::Command,
        },
{
    match &*sequent.consequent {
        Formula::Implies(lhs, rhs) => {
            let antecedents = add_antecedent_vec(&sequent.antecedents, lhs);
            Ok(Sequent::new(antecedents, Box::new((**rhs).clone())))
        },
        Formula::Forall(v, f) => {
            let dom = sequent.domain();
            if crate::formula::contains_name(&dom, v) {
                Err(Error::CommandError(v.clone().concat(" already exists")))
            } else {
                Ok(
                    Sequent::new(
                        clone_formulas(&sequent.antecedents),
                        Box::new((**f).clone()),
                    ),
                )
            }
        },
        _ => Err(
            Error::CommandError(
                String::from_str("The goal must be in the form F => P or forall V, F"),
            ),
        ),
    }
}


/// How many introduction steps `Intros` performs on `s`.
pub open spec fn spec_intros_count(s: SpecSequent) -> nat
    decreases formula_size(s.consequent),
    via spec_intros_count_decreases
{
    match spec_intro(s) {
        Some(s2) => 1 + spec_intros_count(s2),
        None => 0,
    }
}

#[via_fn]
proof fn spec_intros_count_decreases(s: SpecSequent) {
    match spec_intro(s) {
        Some(s2) => {
            assert(formula_size(s2.consequent) < formula_size(s.consequent));
        },
        None => {},
    }
}

/// Count the introduction steps `Intros` would perform, saturating at the
/// machine bound.
pub fn count_intro_steps(sequent: &Sequent) -> (r: usize)
    ensures
        r as nat == spec_intros_count(sequent.deep_view()) || (r == usize::MAX
            && spec_intros_count(sequent.deep_view()) >= usize::MAX),
{
    let mut current = sequent.clone();
    let mut count: usize = 0;
    loop
        invariant
            count as nat + spec_intros_count(current.deep_view()) == spec_intros_count(
                sequent.deep_view(),
            ) || (count == usize::MAX && spec_intros_count(sequent.deep_view()) >= usize::MAX),
        ensures
            count as nat == spec_intros_count(sequent.deep_view()) || (count == usize::MAX
                && spec_intros_count(sequent.deep_view()) >= usize::MAX),
        decreases formula_size(current.deep_view().consequent),
    {
        match intro_step(&current) {
            Ok(next) => {
                proof {
                    assert(formula_size(next.deep_view().consequent) < formula_size(
                        current.deep_view().consequent,
                    ));
                }
                if count == usize::MAX {
                    break;
                }
                count += 1;
                current = next;
            },
            Err(_) => {
                break;
            },
        }
    }
    count
}

impl Rule {
    /// Apply the rule to a given [`Sequent`]. Returns newly created sequents
    /// (0, 1 or more) exactly as [`spec_apply`] describes, or an error of the
    /// kind [`spec_apply`] names.
    pub fn apply(&self, sequent: &Sequent) -> (r: Result<Vec<Sequent>, Error>)
        ensures
            match r {
                Ok(v) => spec_apply(self.deep_view(), sequent.deep_view()) == Ok::<
                    Seq<SpecSequent>,
                    ErrorKind,
                >(v.deep_view()),
                Err(e) => {
                    &&& spec_apply(self.deep_view(), sequent.deep_view()) is Err
                    &&& Err::<Seq<SpecSequent>, ErrorKind>(e.kind()) == spec_apply(
                        self.deep_view(),
                        sequent.deep_view(),
                    )
                },
            },
    {
        let ghost sr = spec_apply(self.deep_view(), sequent.deep_view());
        match self {
            Rule::Axiom => {
                if sequent.has_antecedent(&sequent.consequent) {
                    let r: Vec<Sequent> = Vec::new();
                    assert(r.deep_view() =~= Seq::<SpecSequent>::empty());
                    Ok(r)
                } else {
                    Err(Error::CommandError(String::from_str("Not an axiom")))
                }
            },

            Rule::Intro => {
                match intro_step(sequent) {
                    Ok(s2) => {
                        let r = vec![s2];
                        assert(r.deep_view() =~= seq![r@[0].deep_view()]);
                        Ok(r)
                    },
                    Err(e) => Err(e),
                }
            },

            Rule::Intros => {
                let mut current = sequent.clone();
                loop
                    invariant
                        spec_intros(current.deep_view()) == spec_intros(sequent.deep_view()),
                    ensures
                        spec_intro(current.deep_view()) is None,
                        spec_intros(current.deep_view()) == spec_intros(sequent.deep_view()),
                    decreases formula_size(current.deep_view().consequent),
                {
                    match intro_step(&current) {
                        Ok(next) => {
                            proof {
                                assert(formula_size(next.deep_view().consequent) < formula_size(
                                    current.deep_view().consequent,
                                ));
                            }
                            current = next;
                        },
                        Err(_) => { break; },
                    }
                }
                let r = vec![current];
                assert(r.deep_view() =~= seq![r@[0].deep_view()]);
                Ok(r)
            },

            Rule::SplitAnd => {
                match &*sequent.consequent {
                    Formula::And(lhs, rhs) => {
                        let r = vec![
                            Sequent::new(
                                clone_formulas(&sequent.antecedents),
                                Box::new((**lhs).clone()),
                            ),
                            Sequent::new(
                                clone_formulas(&sequent.antecedents),
                                Box::new((**rhs).clone()),
                            ),
                        ];
                        assert(r.deep_view() =~= seq![r@[0].deep_view(), r@[1].deep_view()]);
                        Ok(r)
                    },
                    _ => Err(
                        Error::CommandError(
                            String::from_str("The goal must be in the form P /\\ Q"),
                        ),
                    ),
                }
            },

            Rule::Trans(prop) => {
                let implication = Formula::Implies(
                    Box::new((**prop).clone()),
                    Box::new((*sequent.consequent).clone()),
                );
                let r = vec![
                    Sequent::new(clone_formulas(&sequent.antecedents), Box::new(implication)),
                    Sequent::new(
                        clone_formulas(&sequent.antecedents),
                        Box::new((**prop).clone()),
                    ),
                ];
                assert(r.deep_view() =~= seq![r@[0].deep_view(), r@[1].deep_view()]);
                Ok(r)
            },

            Rule::And(side, prop) => {
                let and = match side {
                    Side::Left => Formula::And(
                        Box::new((**prop).clone()),
                        Box::new((*sequent.consequent).clone()),
                    ),
                    Side::Right => Formula::And(
                        Box::new((*sequent.consequent).clone()),
                        Box::new((**prop).clone()),
                    ),
                };
                let r = vec![
                    Sequent::new(clone_formulas(&sequent.antecedents), Box::new(and)),
                ];
                assert(r.deep_view() =~= seq![r@[0].deep_view()]);
                Ok(r)
            },

            Rule::Keep(side) => {
                match &*sequent.consequent {
                    Formula::Or(lhs, rhs) => {
                        let kept = match side {
                            Side::Left => (**lhs).clone(),
                            Side::Right => (**rhs).clone(),
                        };
                        let r = vec![
                            Sequent::new(clone_formulas(&sequent.antecedents), Box::new(kept)),
                        ];
                        assert(r.deep_view() =~= seq![r@[0].deep_view()]);
                        Ok(r)
                    },
                    _ => Err(
                        Error::CommandError(
                            String::from_str("The goal must be in the form P \\/ Q"),
                        ),
                    ),
                }
            },

            Rule::FromOr(or_prop) => {
                match &**or_prop {
                    Formula::Or(lhs, rhs) => {
                        let with_lhs = add_antecedent_vec(&sequent.antecedents, lhs);
                        let with_rhs = add_antecedent_vec(&sequent.antecedents, rhs);
                        let r = vec![
                            Sequent::new(
                                clone_formulas(&sequent.antecedents),
                                Box::new((**or_prop).clone()),
                            ),
                            Sequent::new(with_lhs, Box::new((*sequent.consequent).clone())),
                            Sequent::new(with_rhs, Box::new((*sequent.consequent).clone())),
                        ];
                        assert(r.deep_view() =~= seq![
                            r@[0].deep_view(),
                            r@[1].deep_view(),
                            r@[2].deep_view(),
                        ]);
                        Ok(r)
                    },
                    _ => Err(
                        Error::InvalidArguments(
                            String::from_str("Expected a formula in the form P \\/ Q"),
                        ),
                    ),
                }
            },

            Rule::Generalize(term) => {
                if !sequent.consequent.occurs(term) {
                    return Err(
                        Error::CommandError(
                            String::from_str("The term is not present in the goal"),
                        ),
                    );
                }
                let var = sequent.consequent.new_variable();
                let mut generalized = (*sequent.consequent).clone();
                generalized.rewrite(term, &Term::Variable(var.clone()));
                let quantified = Formula::Forall(var, Box::new(generalized));
                let r = vec![
                    Sequent::new(clone_formulas(&sequent.antecedents), Box::new(quantified)),
                ];
                assert(r.deep_view() =~= seq![r@[0].deep_view()]);
                Ok(r)
            },

            Rule::FixAs(term) => {
                match &*sequent.consequent {
                    Formula::Exists(bound_var, formula) => {
                        if sequent.consequent.occurs(term) {
                            return Err(
                                Error::InvalidArguments(
                                    String::from_str("The term already exists in the goal"),
                                ),
                            );
                        }
                        let mut fixed = (**formula).clone();
                        fixed.rewrite(&Term::Variable(bound_var.clone()), term);
                        let r = vec![
                            Sequent::new(
                                clone_formulas(&sequent.antecedents),
                                Box::new(fixed),
                            ),
                        ];
                        assert(r.deep_view() =~= seq![r@[0].deep_view()]);
                        Ok(r)
                    },
                    _ => Err(
                        Error::CommandError(
                            String::from_str("The goal must be in the form exists <V>, <F>"),
                        ),
                    ),
                }
            },

            Rule::Consider(new_form) => {
                match &**new_form {
                    Formula::Exists(var, nf) => {
                        let goal_dom = sequent.consequent.domain();
                        if crate::formula::contains_name(&goal_dom, var) {
                            return Err(
                                Error::CommandError(
                                    var.clone().concat(" already exists in the goal"),
                                ),
                            );
                        }
                        let seq_dom = sequent.domain();
                        if crate::formula::contains_name(&seq_dom, var) {
                            return Err(Error::CommandError(var.clone().concat(" already exists")));
                        }
                        let with_nf = add_antecedent_vec(&sequent.antecedents, nf);
                        let r = vec![
                            Sequent::new(
                                clone_formulas(&sequent.antecedents),
                                Box::new((**new_form).clone()),
                            ),
                            Sequent::new(with_nf, Box::new((*sequent.consequent).clone())),
                        ];
                        assert(r.deep_view() =~= seq![r@[0].deep_view(), r@[1].deep_view()]);
                        Ok(r)
                    },
                    _ => Err(
                        Error::InvalidArguments(
                            String::from_str("Expected exists <var>, <Formula>"),
                        ),
                    ),
                }
            },

            Rule::RenameAs(new_name) => {
                match &*sequent.consequent {
                    Formula::Exists(old_name, f) => {
                        let mut nf = Formula::Exists(new_name.clone(), Box::new((**f).clone()));
                        nf.rewrite(
                            &Term::Variable(old_name.clone()),
                            &Term::Variable(new_name.clone()),
                        );
                        let r = vec![
                            Sequent::new(clone_formulas(&sequent.antecedents), Box::new(nf)),
                        ];
                        assert(r.deep_view() =~= seq![r@[0].deep_view()]);
                        Ok(r)
                    },
                    Formula::Forall(old_name, f) => {
                        let mut nf = Formula::Forall(new_name.clone(), Box::new((**f).clone()));
                        nf.rewrite(
                            &Term::Variable(old_name.clone()),
                            &Term::Variable(new_name.clone()),
                        );
                        let r = vec![
                            Sequent::new(clone_formulas(&sequent.antecedents), Box::new(nf)),
                        ];
                        assert(r.deep_view() =~= seq![r@[0].deep_view()]);
                        Ok(r)
                    },
                    _ => Err(
                        Error::CommandError(
                            String::from_str(
                                "The goal must be in the form exists <V>, <F> OR forall <V>, <F>",
                            ),
                        ),
                    ),
                }
            },

            Rule::FromBottom => {
                let new_prop = match &*sequent.consequent {
                    Formula::Not(e) => (**e).clone(),
                    _ => Formula::Not(Box::new((*sequent.consequent).clone())),
                };
                let with_prop = add_antecedent_vec(&sequent.antecedents, &new_prop);
                let r = vec![Sequent::new(with_prop, Box::new(Formula::Falsum))];
                assert(r.deep_view() =~= seq![r@[0].deep_view()]);
                Ok(r)
            },

            Rule::ExFalso(prop) => {
                match &*sequent.consequent {
                    Formula::Falsum => {
                        let (true_prop, false_prop) = match &**prop {
                            Formula::Not(ff) => ((**ff).clone(), (**prop).clone()),
                            _ => (
                                (**prop).clone(),
                                Formula::Not(Box::new((**prop).clone())),
                            ),
                        };
                        let r = vec![
                            Sequent::new(
                                clone_formulas(&sequent.antecedents),
                                Box::new(true_prop),
                            ),
                            Sequent::new(
                                clone_formulas(&sequent.antecedents),
                                Box::new(false_prop),
                            ),
                        ];
                        assert(r.deep_view() =~= seq![r@[0].deep_view(), r@[1].deep_view()]);
                        Ok(r)
                    },
                    _ => Err(
                        Error::CommandError(
                            String::from_str("The goal must be in the form falsum"),
                        ),
                    ),
                }
            },
        }
    }
}

} // verus!
