//! The natural-deduction rules, applied to hand-built sequents.

use deducnat::error::Error;
use deducnat::formula::Formula;
use deducnat::rule::{Rule, RuleType, Side};
use deducnat::sequent::Sequent;
use deducnat::term::Term;

fn formula(text: &str) -> Box<Formula> {
    Formula::from_str(text).unwrap()
}

fn term(text: &str) -> Box<Term> {
    Term::from_str(text).unwrap()
}

fn sequent(antecedents: &[&str], consequent: &str) -> Sequent {
    let mut ants: Vec<Formula> = Vec::new();
    for a in antecedents {
        ants.push(*formula(a));
    }
    Sequent::new(ants, formula(consequent))
}

#[test]
fn axiom_succeeds_exactly_on_present_consequent() {
    let s = sequent(&["A", "B"], "A");
    let out = Rule::Axiom.apply(&s).unwrap();
    assert!(out.is_empty());

    let s2 = sequent(&["A", "B"], "C");
    assert!(matches!(Rule::Axiom.apply(&s2), Err(Error::CommandError(_))));

    let s3 = sequent(&[], "A");
    assert!(Rule::Axiom.apply(&s3).is_err());
}

#[test]
fn intro_on_implication_moves_premise() {
    let s = sequent(&[], "A => B");
    let out = Rule::Intro.apply(&s).unwrap();
    assert_eq!(out.len(), 1);
    assert!(out[0].antecedents[0].same_as(&formula("A")));
    assert!(out[0].consequent.same_as(&formula("B")));
}

#[test]
fn intro_on_forall_opens_the_quantifier() {
    let s = sequent(&["Q(y)"], "forall x, P(x)");
    let out = Rule::Intro.apply(&s).unwrap();
    assert_eq!(out.len(), 1);
    assert_eq!(out[0].consequent.to_text().as_str(), "P(x)");
}

#[test]
fn intro_on_forall_with_shadowed_variable_fails() {
    // The quantified variable is already free in an antecedent; such an
    // antecedent arises when an earlier step opened a binder over it.
    let free_x = Formula::Relation(
        String::from("Q"),
        vec![Term::Variable(String::from("x"))],
    );
    let s = Sequent::new(vec![free_x], formula("forall x, P(x)"));
    assert!(matches!(Rule::Intro.apply(&s), Err(Error::CommandError(_))));
}

#[test]
fn intro_on_atom_fails() {
    let s = sequent(&[], "A");
    assert!(Rule::Intro.apply(&s).is_err());
}

#[test]
fn intros_repeats_until_stuck() {
    let s = sequent(&[], "A => B => C");
    let out = Rule::Intros.apply(&s).unwrap();
    assert_eq!(out.len(), 1);
    assert_eq!(out[0].antecedents.len(), 2);
    assert!(out[0].consequent.same_as(&formula("C")));

    // With nothing to introduce the sequent comes back unchanged.
    let s2 = sequent(&[], "A");
    let out2 = Rule::Intros.apply(&s2).unwrap();
    assert_eq!(out2.len(), 1);
    assert!(out2[0].consequent.same_as(&formula("A")));
}

#[test]
fn split_and_yields_both_goals() {
    let s = sequent(&["H"], "A /\\ B");
    let out = Rule::SplitAnd.apply(&s).unwrap();
    assert_eq!(out.len(), 2);
    assert!(out[0].consequent.same_as(&formula("A")));
    assert!(out[1].consequent.same_as(&formula("B")));
    assert!(out[0].antecedents[0].same_as(&formula("H")));
}

#[test]
fn trans_yields_implication_and_premise() {
    let s = sequent(&[], "C");
    let out = Rule::Trans(formula("A")).apply(&s).unwrap();
    assert_eq!(out.len(), 2);
    assert_eq!(out[0].consequent.to_text().as_str(), "A => C");
    assert!(out[1].consequent.same_as(&formula("A")));
}

#[test]
fn and_weakens_on_the_chosen_side() {
    let s = sequent(&[], "C");
    let left = Rule::And(Side::Left, formula("A")).apply(&s).unwrap();
    assert_eq!(left[0].consequent.to_text().as_str(), "A /\\ C");
    let right = Rule::And(Side::Right, formula("A")).apply(&s).unwrap();
    assert_eq!(right[0].consequent.to_text().as_str(), "C /\\ A");
}

#[test]
fn keep_picks_one_disjunct() {
    let s = sequent(&[], "A \\/ B");
    let left = Rule::Keep(Side::Left).apply(&s).unwrap();
    assert!(left[0].consequent.same_as(&formula("A")));
    let right = Rule::Keep(Side::Right).apply(&s).unwrap();
    assert!(right[0].consequent.same_as(&formula("B")));
    let bad = sequent(&[], "A");
    assert!(Rule::Keep(Side::Left).apply(&bad).is_err());
}

#[test]
fn from_or_splits_on_the_disjunction() {
    let s = sequent(&["H"], "C");
    let out = Rule::FromOr(formula("A \\/ B")).apply(&s).unwrap();
    assert_eq!(out.len(), 3);
    assert_eq!(out[0].consequent.to_text().as_str(), "A \\/ B");
    assert!(out[1].antecedents.last().unwrap().same_as(&formula("A")));
    assert!(out[2].antecedents.last().unwrap().same_as(&formula("B")));
    assert!(out[1].consequent.same_as(&formula("C")));

    let bad = Rule::FromOr(formula("A => B")).apply(&s);
    assert!(matches!(bad, Err(Error::InvalidArguments(_))));
}

#[test]
fn generalize_replaces_the_term_by_a_fresh_variable() {
    let s = sequent(&[], "P(c)");
    let out = Rule::Generalize(term("c")).apply(&s).unwrap();
    assert_eq!(out[0].consequent.to_text().as_str(), "forall x, P(x)");
}

#[test]
fn generalize_needs_the_term_in_the_goal() {
    let s = sequent(&[], "P(c)");
    assert!(matches!(
        Rule::Generalize(term("d")).apply(&s),
        Err(Error::CommandError(_))
    ));
}

#[test]
fn fix_as_instantiates_the_witness() {
    let s = sequent(&[], "exists x, P(x)");
    let out = Rule::FixAs(term("c")).apply(&s).unwrap();
    assert_eq!(out[0].consequent.to_text().as_str(), "P(c)");
}

#[test]
fn fix_as_refuses_a_term_already_in_the_goal() {
    let s = sequent(&[], "exists x, P(x, c)");
    assert!(matches!(
        Rule::FixAs(term("c")).apply(&s),
        Err(Error::InvalidArguments(_))
    ));
}

#[test]
fn consider_adds_the_witness_body() {
    let s = sequent(&["H"], "C");
    let out = Rule::Consider(formula("exists x, P(x)")).apply(&s).unwrap();
    assert_eq!(out.len(), 2);
    assert_eq!(out[0].consequent.to_text().as_str(), "exists x, P(x)");
    assert_eq!(out[1].antecedents.last().unwrap().to_text().as_str(), "P(x)");

    // The bound variable must not be free in the goal or the antecedents.
    let free_x = Formula::Relation(
        String::from("Q"),
        vec![Term::Variable(String::from("x"))],
    );
    let clash = Sequent::new(Vec::new(), Box::new(free_x));
    assert!(Rule::Consider(formula("exists x, P(x)")).apply(&clash).is_err());
}

#[test]
fn rename_as_renames_the_binder() {
    let s = sequent(&[], "forall x, P(x)");
    let out = Rule::RenameAs(String::from("y")).apply(&s).unwrap();
    assert_eq!(out[0].consequent.to_text().as_str(), "forall y, P(y)");

    let s2 = sequent(&[], "exists x, P(x)");
    let out2 = Rule::RenameAs(String::from("y")).apply(&s2).unwrap();
    assert_eq!(out2[0].consequent.to_text().as_str(), "exists y, P(y)");
}

#[test]
fn rename_as_keeps_the_formula_well_formed_even_on_capture() {
    // Renaming to a name that is already free silently captures it; the
    // result is still a well-formed quantified formula.
    let s = sequent(&[], "forall x, P(x, y)");
    let out = Rule::RenameAs(String::from("y")).apply(&s).unwrap();
    assert_eq!(out[0].consequent.to_text().as_str(), "forall y, P(y, y)");
}

#[test]
fn from_bottom_negates_the_goal() {
    let s = sequent(&[], "A");
    let out = Rule::FromBottom.apply(&s).unwrap();
    assert_eq!(out.len(), 1);
    assert!(out[0].antecedents.last().unwrap().same_as(&formula("~A")));
    assert!(matches!(*out[0].consequent, Formula::Falsum));

    // On a negated goal the negation is stripped instead.
    let s2 = sequent(&[], "~A");
    let out2 = Rule::FromBottom.apply(&s2).unwrap();
    assert!(out2[0].antecedents.last().unwrap().same_as(&formula("A")));
}

#[test]
fn exfalso_yields_both_polarities() {
    let s = sequent(&[], "falsum");
    let out = Rule::ExFalso(formula("A")).apply(&s).unwrap();
    assert_eq!(out.len(), 2);
    assert!(out[0].consequent.same_as(&formula("A")));
    assert!(out[1].consequent.same_as(&formula("~A")));

    // With a negated argument the polarities are ordered the other way.
    let out2 = Rule::ExFalso(formula("~A")).apply(&s).unwrap();
    assert!(out2[0].consequent.same_as(&formula("A")));
    assert!(out2[1].consequent.same_as(&formula("~A")));

    let bad = sequent(&[], "A");
    assert!(Rule::ExFalso(formula("B")).apply(&bad).is_err());
}

#[test]
fn rules_never_drop_antecedents() {
    let s = sequent(&["H1", "H2"], "A /\\ B");
    for rule in [
        Rule::SplitAnd,
        Rule::Trans(formula("C")),
        Rule::And(Side::Left, formula("C")),
        Rule::FromOr(formula("C \\/ D")),
        Rule::FromBottom,
    ] {
        let out = rule.apply(&s).unwrap();
        for child in &out {
            assert!(child.antecedents[0].same_as(&formula("H1")));
            assert!(child.antecedents[1].same_as(&formula("H2")));
        }
    }
}

#[test]
fn applicability_follows_the_goal_shape() {
    let s = sequent(&["A"], "A");
    assert!(RuleType::Axiom.is_applicable(&s));
    assert!(!RuleType::Intro.is_applicable(&s));
    assert!(RuleType::Trans.is_applicable(&s));

    let imp = sequent(&[], "A => B");
    assert!(RuleType::Intro.is_applicable(&imp));
    assert!(RuleType::Intros.is_applicable(&imp));
    assert!(!RuleType::SplitAnd.is_applicable(&imp));

    let and = sequent(&[], "A /\\ B");
    assert!(RuleType::SplitAnd.is_applicable(&and));

    let or = sequent(&[], "A \\/ B");
    assert!(RuleType::Keep.is_applicable(&or));

    let ex = sequent(&[], "exists x, P(x)");
    assert!(RuleType::FixAs.is_applicable(&ex));
    assert!(RuleType::RenameAs.is_applicable(&ex));

    let fa = sequent(&[], "forall x, P(x)");
    assert!(RuleType::RenameAs.is_applicable(&fa));
    assert!(!RuleType::FixAs.is_applicable(&fa));

    let bot = sequent(&[], "falsum");
    assert!(RuleType::ExFalso.is_applicable(&bot));
    assert!(!RuleType::ExFalso.is_applicable(&s));
}

#[test]
fn sequent_domain_covers_the_antecedents() {
    let free_x = Formula::Relation(
        String::from("P"),
        vec![Term::Variable(String::from("x"))],
    );
    let free_z = Formula::Relation(
        String::from("R"),
        vec![Term::Variable(String::from("z"))],
    );
    let s = Sequent::new(
        vec![free_x, *formula("forall y, Q(y)")],
        Box::new(free_z),
    );
    let dom = s.domain();
    assert!(dom.iter().any(|n| n == "x"));
    assert!(!dom.iter().any(|n| n == "y"));
    // The consequent does not contribute to the domain.
    assert!(!dom.iter().any(|n| n == "z"));
}
