//! Statements the rule engine is held to, proved once and for all.

use vstd::prelude::*;
use crate::context::SpecContext;
use crate::formula::SpecFormula;
use crate::rule::{SpecRule, add_antecedent_spec, spec_apply, spec_intro, spec_intros};
use crate::sequent::SpecSequent;
use crate::term::SpecTerm;

verus! {

/// The `Axiom` rule succeeds on a sequent exactly when the consequent is
/// among the antecedents.
pub proof fn lemma_axiom_soundness(s: SpecSequent)
    ensures
        spec_apply(SpecRule::Axiom, s) is Ok <==> s.antecedents.contains(s.consequent),
{
}

/// In a well-formed context every name belongs to at most one of the three
/// mappings.
pub proof fn lemma_context_disjointness(ctx: SpecContext, n: Seq<char>)
    requires
        ctx.wf(),
    ensures
        !(ctx.has_theorem(n) && ctx.relations.contains(n)),
        !(ctx.has_theorem(n) && ctx.terms.contains(n)),
        !(ctx.relations.contains(n) && ctx.terms.contains(n)),
{
}

/// Opening an implication with `Intro` on a `Forall` whose variable is
/// already free in some antecedent fails.
pub proof fn lemma_intro_shadowed_fails(s: SpecSequent, v: Seq<char>)
    requires
        s.consequent matches SpecFormula::Forall(w, _) && w == v,
        s.domain().contains(v),
    ensures
        spec_apply(SpecRule::Intro, s) is Err,
{
}

/// `Generalize(t)` fails when `t` does not occur in the consequent.
pub proof fn lemma_generalize_needs_occurrence(s: SpecSequent, t: SpecTerm)
    requires
        !s.consequent.contains_term(t),
    ensures
        spec_apply(SpecRule::Generalize(t), s) is Err,
{
}

/// Adding an antecedent keeps the old list as a prefix.
pub proof fn lemma_add_antecedent_prefix(ants: Seq<SpecFormula>, f: SpecFormula)
    ensures
        ants.is_prefix_of(add_antecedent_spec(ants, f)),
{
    if !ants.contains(f) {
        assert(ants.push(f).subrange(0, ants.len() as int) =~= ants);
    } else {
        assert(ants.subrange(0, ants.len() as int) =~= ants);
    }
}

/// Repeated introduction keeps the starting antecedents as a prefix.
pub proof fn lemma_intros_keeps_antecedents(s: SpecSequent)
    ensures
        s.antecedents.is_prefix_of(spec_intros(s).antecedents),
    decreases crate::rule::formula_size(s.consequent),
{
    match spec_intro(s) {
        Some(s2) => {
            assert(s.antecedents.is_prefix_of(s2.antecedents)) by {
                match s.consequent {
                    SpecFormula::Implies(a, b) => {
                        lemma_add_antecedent_prefix(s.antecedents, *a);
                    },
                    _ => {
                        assert(s2.antecedents == s.antecedents);
                        assert(s.antecedents.subrange(0, s.antecedents.len() as int)
                            =~= s.antecedents);
                    },
                }
            }
            lemma_intros_keeps_antecedents(s2);
            lemma_prefix_transitive(
                s.antecedents,
                s2.antecedents,
                spec_intros(s2).antecedents,
            );
        },
        None => {
            assert(s.antecedents.subrange(0, s.antecedents.len() as int) =~= s.antecedents);
        },
    }
}

/// Prefixes compose.
pub proof fn lemma_prefix_transitive(a: Seq<SpecFormula>, b: Seq<SpecFormula>, c: Seq<SpecFormula>)
    requires
        a.is_prefix_of(b),
        b.is_prefix_of(c),
    ensures
        a.is_prefix_of(c),
{
    assert(c.subrange(0, a.len() as int) =~= b.subrange(0, a.len() as int));
}

/// No rule ever removes an antecedent: each child sequent's antecedent list
/// extends the parent's, the parent's list standing as a prefix.
pub proof fn lemma_rules_preserve_antecedents(r: SpecRule, s: SpecSequent)
    ensures
        spec_apply(r, s) matches Ok(children) ==> forall|i: int|
            0 <= i < children.len() ==> s.antecedents.is_prefix_of(
                (#[trigger] children[i]).antecedents,
            ),
{
    if spec_apply(r, s) is Ok {
        let children = spec_apply(r, s)->Ok_0;
        assert forall|i: int| 0 <= i < children.len() implies s.antecedents.is_prefix_of(
            (#[trigger] children[i]).antecedents,
        ) by {
            assert(s.antecedents.subrange(0, s.antecedents.len() as int) =~= s.antecedents);
            match r {
                SpecRule::Intro => {
                    match s.consequent {
                        SpecFormula::Implies(a, _) => {
                            lemma_add_antecedent_prefix(s.antecedents, *a);
                        },
                        _ => {},
                    }
                },
                SpecRule::Intros => {
                    lemma_intros_keeps_antecedents(s);
                },
                SpecRule::FromOr(f) => {
                    match f {
                        SpecFormula::Or(a, b) => {
                            lemma_add_antecedent_prefix(s.antecedents, *a);
                            lemma_add_antecedent_prefix(s.antecedents, *b);
                        },
                        _ => {},
                    }
                },
                SpecRule::Consider(f) => {
                    match f {
                        SpecFormula::Exists(_, nf) => {
                            lemma_add_antecedent_prefix(s.antecedents, *nf);
                        },
                        _ => {},
                    }
                },
                SpecRule::FromBottom => {
                    let new_prop = match s.consequent {
                        SpecFormula::Not(e) => *e,
                        e => SpecFormula::Not(Box::new(e)),
                    };
                    lemma_add_antecedent_prefix(s.antecedents, new_prop);
                },
                _ => {},
            }
        }
    }
}

} // verus!
