//! A proof: the theorem's initial goal and the stack of open sub-goals.

use vstd::prelude::*;
use crate::error::{Error, ErrorKind};
use crate::formula::{Formula, SpecFormula};
use crate::rule::{Rule, RuleType, SpecRule, add_antecedent_spec, all_rule_types, count_intro_steps, rule_types, spec_apply, spec_applicable, spec_intros_count};
use crate::sequent::{Sequent, SpecSequent};

verus! {

broadcast use vstd::std_specs::vec::group_vec_axioms;

/// Mathematical model of a proof in progress.
#[verifier::ext_equal]
pub struct SpecProof {
    pub goal: SpecFormula,
    pub active: Option<SpecSequent>,
    pub pending: Seq<SpecSequent>,
    pub step: u32,
}

impl SpecProof {
    /// A proof only empties its pending list by moving a sequent into
    /// focus, so without an active goal nothing is pending.
    pub open spec fn wf(self) -> bool {
        self.active is None ==> self.pending.len() == 0
    }

    /// How many sub-goals are still open.
    pub open spec fn remaining_goals(self) -> nat {
        (if self.active is Some {
            1nat
        } else {
            0nat
        }) + self.pending.len()
    }
}

/// What applying a rule does to a proof: the focused sequent is replaced by
/// the rule's outputs, the first of which becomes the next focus; with no
/// output the next pending sequent is focused.
pub open spec fn proof_apply_spec(p: SpecProof, r: SpecRule) -> Result<SpecProof, ErrorKind> {
    match p.active {
        None => Err(ErrorKind::InvalidCommand),
        Some(cur) => match spec_apply(r, cur) {
            Err(k) => Err(k),
            Ok(new) => Ok(
                SpecProof {
                    goal: p.goal,
                    active: if new.len() > 0 {
                        Some(new[0])
                    } else if p.pending.len() > 0 {
                        Some(p.pending[0])
                    } else {
                        None
                    },
                    pending: if new.len() > 0 {
                        new.drop_first() + p.pending
                    } else if p.pending.len() > 0 {
                        p.pending.drop_first()
                    } else {
                        Seq::empty()
                    },
                    step: step_after(p.step, r, cur),
                },
            ),
        },
    }
}

/// The step count after one command: `Intros` counts each introduction it
/// performed, every other rule counts one; the count saturates.
pub open spec fn step_after(step: u32, r: SpecRule, cur: SpecSequent) -> u32 {
    let n: nat = if r is Intros {
        spec_intros_count(cur)
    } else {
        1
    };
    if step + n <= u32::MAX {
        (step + n) as u32
    } else {
        u32::MAX
    }
}

/// The finished flag, the empty pending list and the zero goal count
/// coincide on any well-formed proof.
pub proof fn lemma_finished_no_pending(p: SpecProof)
    requires
        p.wf(),
    ensures
        (p.active is None) <==> (p.remaining_goals() == 0),
        (p.active is None) <==> (p.active is None && p.pending.len() == 0),
{
}

/// Applying a rule preserves well-formedness.
pub proof fn lemma_proof_apply_wf(p: SpecProof, r: SpecRule)
    requires
        p.wf(),
    ensures
        proof_apply_spec(p, r) matches Ok(p2) ==> p2.wf(),
{
}

/// An ordered stack of open sub-goals, with the theorem's initial goal and
/// the number of steps taken.
pub struct Proof {
    pub goal: Formula,
    current_goal: Option<Box<Sequent>>,
    sub_goals: Vec<Sequent>,
    pub step: u32,
}

impl DeepView for Proof {
    type V = SpecProof;

    closed spec fn deep_view(&self) -> SpecProof {
        SpecProof {
            goal: self.goal.deep_view(),
            active: match self.current_goal {
                Some(s) => Some(s.deep_view()),
                None => None,
            },
            pending: self.sub_goals.deep_view(),
            step: self.step,
        }
    }
}

impl Proof {
    /// Start a proof of `goal`: one open sequent with no antecedents.
    pub fn start(goal: Box<Formula>) -> (r: Proof)
        ensures
            r.deep_view().goal == goal.deep_view(),
            r.deep_view().active == Some(
                SpecSequent {
                    antecedents: Seq::<SpecFormula>::empty(),
                    consequent: goal.deep_view(),
                },
            ),
            r.deep_view().pending =~= Seq::<SpecSequent>::empty(),
            r.deep_view().step == 0,
            r.deep_view().wf(),
    {
        let goal_seq = Sequent::new(Vec::new(), Box::new((*goal).clone()));
        let r = Proof {
            goal: *goal,
            current_goal: Some(Box::new(goal_seq)),
            sub_goals: Vec::new(),
            step: 0,
        };
        proof {
            assert(r.deep_view().active->0.antecedents =~= Seq::<SpecFormula>::empty());
            assert(r.deep_view().pending =~= Seq::<SpecSequent>::empty());
        }
        r
    }

    /// Add `ante` to the active sequent's antecedents, unless already
    /// present. Fails if and only if the proof is finished, and then
    /// changes nothing.
    pub fn add_antecedent(&mut self, ante: Box<Formula>) -> (r: Result<(), Error>)
        ensures
            match r {
                Ok(()) => {
                    &&& old(self).deep_view().active is Some
                    &&& final(self).deep_view() == SpecProof {
                        active: Some(
                            SpecSequent {
                                antecedents: add_antecedent_spec(
                                    old(self).deep_view().active->0.antecedents,
                                    ante.deep_view(),
                                ),
                                ..old(self).deep_view().active->0
                            },
                        ),
                        ..old(self).deep_view()
                    }
                },
                Err(e) => {
                    &&& old(self).deep_view().active is None
                    &&& e.kind() == ErrorKind::Command
                    &&& final(self).deep_view() == old(self).deep_view()
                },
            },
            old(self).deep_view().wf() ==> final(self).deep_view().wf(),
    {
        match &mut self.current_goal {
            None => Err(Error::CommandError(String::from_str("Proof is finished"))),
            Some(cg) => {
                if !cg.has_antecedent(&ante) {
                    cg.antecedents.push(*ante);
                    assert(self.deep_view().active->0.antecedents =~= add_antecedent_spec(
                        old(self).deep_view().active->0.antecedents,
                        ante.deep_view(),
                    ));
                }
                Ok(())
            },
        }
    }

    /// Apply a rule to the active sequent, as [`proof_apply_spec`]
    /// describes. On failure the proof is unchanged.
    pub fn apply(&mut self, rule: Rule) -> (r: Result<(), Error>)
        ensures
            match r {
                Ok(()) => proof_apply_spec(old(self).deep_view(), rule.deep_view()) == Ok::<
                    SpecProof,
                    ErrorKind,
                >(final(self).deep_view()),
                Err(e) => {
                    &&& proof_apply_spec(old(self).deep_view(), rule.deep_view()) is Err
                    &&& Err::<SpecProof, ErrorKind>(e.kind()) == proof_apply_spec(
                        old(self).deep_view(),
                        rule.deep_view(),
                    )
                    &&& final(self).deep_view() == old(self).deep_view()
                },
            },
            old(self).deep_view().wf() ==> final(self).deep_view().wf(),
    {
        let crrt_goal = match &self.current_goal {
            None => {
                return Err(Error::InvalidCommand(String::from_str("Proof finished")));
            },
            Some(s) => s,
        };
        let new_seqs = match rule.apply(crrt_goal) {
            Ok(v) => v,
            Err(e) => {
                return Err(e);
            },
        };
        let incr: usize = match &rule {
            Rule::Intros => count_intro_steps(crrt_goal),
            _ => 1,
        };
        let ghost old_pending = self.sub_goals.deep_view();
        let mut rest = new_seqs;
        if rest.len() > 0 {
            let first = rest.remove(0);
            let mut new_pending = rest;
            new_pending.append(&mut self.sub_goals);
            self.sub_goals = new_pending;
            self.current_goal = Some(Box::new(first));
            proof {
                assert(self.deep_view().pending =~= proof_apply_spec(
                    old(self).deep_view(),
                    rule.deep_view(),
                )->Ok_0.pending);
            }
        } else {
            if self.sub_goals.len() > 0 {
                let next = self.sub_goals.remove(0);
                self.current_goal = Some(Box::new(next));
                proof {
                    assert(self.deep_view().pending =~= old_pending.drop_first());
                }
            } else {
                self.current_goal = None;
                proof {
                    assert(self.deep_view().pending =~= Seq::<SpecSequent>::empty());
                }
            }
        }
        let headroom = u32::MAX - self.step;
        if incr as u64 <= headroom as u64 {
            self.step = self.step + (incr as u32);
        } else {
            self.step = u32::MAX;
        }
        proof {
            let want = step_after(
                old(self).deep_view().step,
                rule.deep_view(),
                old(self).deep_view().active->0,
            );
            assert(self.step == want);
        }
        Ok(())
    }

    /// The rules whose lightweight test accepts the active sequent, or
    /// `None` when the proof is finished.
    pub fn get_applicable_rules(&self) -> (r: Option<Vec<RuleType>>)
        ensures
            match r {
                Some(v) => {
                    &&& self.deep_view().active is Some
                    &&& forall|rt: RuleType|
                        v@.contains(rt) <==> spec_applicable(rt, self.deep_view().active->0)
                },
                None => self.deep_view().active is None,
            },
    {
        match &self.current_goal {
            None => None,
            Some(cg) => Some(applicable_rules_of(cg)),
        }
    }

    /// The theorem's initial goal.
    pub fn goal_formula(&self) -> (r: &Formula)
        ensures
            r.deep_view() == self.deep_view().goal,
    {
        &self.goal
    }

    /// The number of steps taken so far.
    pub fn step_count(&self) -> (r: u32)
        ensures
            r == self.deep_view().step,
    {
        self.step
    }

    /// Whether no goal is open any more.
    pub fn is_finished(&self) -> (r: bool)
        ensures
            r == (self.deep_view().active is None),
    {
        self.current_goal.is_none()
    }

    /// How many goals are still to be proven. The count is exact whenever
    /// it fits in a machine word.
    pub fn remaining_goals_nb(&self) -> (r: usize)
        ensures
            self.deep_view().remaining_goals() <= usize::MAX ==> r
                == self.deep_view().remaining_goals(),
            r <= self.deep_view().remaining_goals(),
    {
        match &self.current_goal {
            None => self.sub_goals.len(),
            Some(_) => {
                let l = self.sub_goals.len();
                if l == usize::MAX {
                    l
                } else {
                    1 + l
                }
            },
        }
    }
}

/// The rules applicable to one sequent, in the fixed rule order.
pub fn applicable_rules_of(s: &Sequent) -> (r: Vec<RuleType>)
    ensures
        forall|rt: RuleType| r@.contains(rt) <==> spec_applicable(rt, s.deep_view()),
{
    let all = rule_types();
    let mut r: Vec<RuleType> = Vec::new();
    let mut i: usize = 0;
    while i < all.len()
        invariant
            i <= all@.len(),
            all@ == all_rule_types(),
            forall|k: int| 0 <= k < r@.len() ==> spec_applicable(#[trigger] r@[k], s.deep_view()),
            forall|rt: RuleType|
                spec_applicable(rt, s.deep_view()) && rule_type_index(rt) < i ==> r@.contains(rt),
        decreases all.len() - i,
    {
        let rt = all[i];
        if rt.is_applicable(s) {
            let ghost prev = r@;
            r.push(rt);
            proof {
                assert(r@ =~= prev.push(rt));
                assert(r@[r@.len() - 1] == rt);
                assert forall|rt2: RuleType|
                    spec_applicable(rt2, s.deep_view()) && rule_type_index(rt2) < i + 1 implies r@
                    .contains(rt2) by {
                    if rule_type_index(rt2) < i {
                        let k = choose|k: int| 0 <= k < prev.len() && prev[k] == rt2;
                        assert(r@[k] == rt2);
                    } else {
                        assert(rt2 == rt);
                    }
                }
            }
        } else {
            proof {
                assert forall|rt2: RuleType|
                    spec_applicable(rt2, s.deep_view()) && rule_type_index(rt2) < i + 1 implies r@
                    .contains(rt2) by {
                    if rule_type_index(rt2) == i {
                        assert(all_rule_types()[rule_type_index(rt2)] == rt2);
                        assert(rt2 == rt);
                    }
                }
            }
        }
        i += 1;
    }
    proof {
        assert forall|rt: RuleType| r@.contains(rt) implies spec_applicable(
            rt,
            s.deep_view(),
        ) by {
            let k = choose|k: int| 0 <= k < r@.len() && r@[k] == rt;
        }
        assert forall|rt: RuleType| spec_applicable(rt, s.deep_view()) implies r@.contains(
            rt,
        ) by {
            assert(rule_type_index(rt) < 14);
        }
    }
    r
}

/// The position of each rule kind in the fixed order.
pub open spec fn rule_type_index(rt: RuleType) -> int {
    match rt {
        RuleType::Axiom => 0,
        RuleType::Intro => 1,
        RuleType::Intros => 2,
        RuleType::Trans => 3,
        RuleType::SplitAnd => 4,
        RuleType::And => 5,
        RuleType::Keep => 6,
        RuleType::FromOr => 7,
        RuleType::Generalize => 8,
        RuleType::FixAs => 9,
        RuleType::Consider => 10,
        RuleType::RenameAs => 11,
        RuleType::FromBottom => 12,
        RuleType::ExFalso => 13,
    }
}

impl Clone for Proof {
    /// Clones preserve the proof's model exactly.
    fn clone(&self) -> (r: Proof)
        ensures
            r.deep_view() == self.deep_view(),
    {
        let r = Proof {
            goal: self.goal.clone(),
            current_goal: match &self.current_goal {
                Some(s) => Some(Box::new((**s).clone())),
                None => None,
            },
            sub_goals: clone_sequents(&self.sub_goals),
            step: self.step,
        };
        r
    }
}

/// Clone each sequent of a vector, preserving the models.
pub fn clone_sequents(v: &Vec<Sequent>) -> (r: Vec<Sequent>)
    ensures
        r.deep_view() == v.deep_view(),
{
    let mut r: Vec<Sequent> = Vec::new();
    let mut i: usize = 0;
    while i < v.len()
        invariant
            i <= v.len(),
            r@.len() == i,
            forall|j: int| 0 <= j < i ==> r@[j].deep_view() == v@[j].deep_view(),
        decreases v.len() - i,
    {
        let c = v[i].clone();
        r.push(c);
        i += 1;
    }
    assert(r.deep_view() =~= v.deep_view());
    r
}

} // verus!
