//! Sequents: an antecedent list and a consequent formula.

use vstd::prelude::*;
use crate::formula::{Formula, SpecFormula};

verus! {

broadcast use vstd::std_specs::vec::group_vec_axioms;

/// Mathematical model of a sequent.
#[verifier::ext_equal]
pub struct SpecSequent {
    pub antecedents: Seq<SpecFormula>,
    pub consequent: SpecFormula,
}

/// A sequent: the antecedents are available assumptions, the consequent is
/// the current sub-goal. The antecedent order is kept but their semantics is
/// a set; duplicates are never inserted.
#[derive(Debug)]
pub struct Sequent {
    pub antecedents: Vec<Formula>,
    pub consequent: Box<Formula>,
}

impl DeepView for Sequent {
    type V = SpecSequent;

    open spec fn deep_view(&self) -> SpecSequent {
        SpecSequent { antecedents: self.antecedents.deep_view(), consequent: self.consequent.deep_view() }
    }
}

/// The union of the free variables of the formulas of `fs`.
pub open spec fn formulas_free_vars(fs: Seq<SpecFormula>) -> Set<Seq<char>>
    decreases fs,
{
    if fs.len() == 0 {
        Set::empty()
    } else {
        fs[0].free_vars().union(formulas_free_vars(fs.drop_first()))
    }
}

impl SpecSequent {
    /// The free variables of the sequent's antecedents.
    pub open spec fn domain(self) -> Set<Seq<char>> {
        formulas_free_vars(self.antecedents)
    }
}

impl Sequent {
    /// Build a sequent from its parts.
    pub fn new(antecedents: Vec<Formula>, consequent: Box<Formula>) -> (r: Sequent)
        ensures
            r.deep_view().antecedents == antecedents.deep_view(),
            r.deep_view().consequent == consequent.deep_view(),
    {
        Sequent { antecedents, consequent }
    }

    /// Return a list of free variables in this sequent; as a set these are
    /// exactly the free variables of the antecedents.
    pub fn domain(&self) -> (r: Vec<String>)
        ensures
            r.deep_view().to_set() == self.deep_view().domain(),
    {
        let mut r: Vec<String> = Vec::new();
        let mut i: usize = 0;
        proof {
            assert(r.deep_view().to_set() =~= formulas_free_vars(
                self.deep_view().antecedents.take(0),
            ));
        }
        while i < self.antecedents.len()
            invariant
                i <= self.antecedents.len(),
                r.deep_view().to_set() == formulas_free_vars(
                    self.deep_view().antecedents.take(i as int),
                ),
            decreases self.antecedents.len() - i,
        {
            let mut sub = self.antecedents[i].domain();
            let ghost r_dv = r.deep_view();
            let ghost sub_dv = sub.deep_view();
            r.append(&mut sub);
            proof {
                assert(r.deep_view() =~= r_dv + sub_dv);
                vstd::seq_lib::seq_to_set_distributes_over_add(r_dv, sub_dv);
                lemma_formulas_free_vars_take(self.deep_view().antecedents, i as int);
                assert(self.deep_view().antecedents[i as int]
                    == self.antecedents@[i as int].deep_view());
                assert(r.deep_view().to_set() =~= formulas_free_vars(
                    self.deep_view().antecedents.take(i + 1),
                ));
            }
            i += 1;
        }
        proof {
            assert(self.deep_view().antecedents.take(self.antecedents.len() as int)
                =~= self.deep_view().antecedents);
        }
        r
    }

    /// Whether `f` is one of the antecedents.
    pub fn has_antecedent(&self, f: &Formula) -> (r: bool)
        ensures
            r == self.deep_view().antecedents.contains(f.deep_view()),
    {
        contains_formula(&self.antecedents, f)
    }
}

/// Whether `f` occurs in the list `v`, up to structural equality.
pub fn contains_formula(v: &Vec<Formula>, f: &Formula) -> (r: bool)
    ensures
        r == v.deep_view().contains(f.deep_view()),
{
    let mut i: usize = 0;
    while i < v.len()
        invariant
            i <= v.len(),
            forall|j: int| 0 <= j < i ==> v.deep_view()[j] != f.deep_view(),
        decreases v.len() - i,
    {
        if v[i].same_as(f) {
            assert(v.deep_view()[i as int] == f.deep_view());
            return true;
        }
        i += 1;
    }
    assert(!v.deep_view().contains(f.deep_view()));
    false
}

impl Clone for Sequent {
    /// Clones preserve the sequent's model exactly.
    fn clone(&self) -> (r: Sequent)
        ensures
            r.deep_view() == self.deep_view(),
    {
        let r = Sequent {
            antecedents: clone_formulas(&self.antecedents),
            consequent: Box::new((*self.consequent).clone()),
        };
        assert(r.deep_view().antecedents =~= self.deep_view().antecedents);
        r
    }
}

/// Clone each formula of a vector, preserving the models.
pub fn clone_formulas(v: &Vec<Formula>) -> (r: Vec<Formula>)
    ensures
        r.deep_view() == v.deep_view(),
{
    let mut r: Vec<Formula> = Vec::new();
    let mut i: usize = 0;
    while i < v.len()
        invariant
            i <= v.len(),
            r@.len() == i,
            forall|j: int| 0 <= j < i ==> r@[j].deep_view() == v@[j].deep_view(),
        decreases v.len() - i,
    {
        let c = v[i].clone();
        r.push(c);
        i += 1;
    }
    assert(r.deep_view() =~= v.deep_view());
    r
}

/// Extending a prefix of `fs` by one formula unions in its free variables.
pub proof fn lemma_formulas_free_vars_take(fs: Seq<SpecFormula>, i: int)
    requires
        0 <= i < fs.len(),
    ensures
        formulas_free_vars(fs.take(i + 1)) == formulas_free_vars(fs.take(i)).union(
            fs[i].free_vars(),
        ),
    decreases i,
{
    if i == 0 {
        assert(fs.take(1).drop_first() =~= fs.take(0));
        assert(fs.take(1)[0] == fs[0]);
        assert(formulas_free_vars(fs.take(1)) =~= formulas_free_vars(fs.take(0)).union(
            fs[0].free_vars(),
        ));
    } else {
        lemma_formulas_free_vars_take(fs.drop_first(), i - 1);
        assert(fs.take(i + 1).drop_first() =~= fs.drop_first().take(i));
        assert(fs.take(i).drop_first() =~= fs.drop_first().take(i - 1));
        assert(fs.take(i + 1)[0] == fs[0]);
        assert(fs.take(i)[0] == fs[0]);
        assert(formulas_free_vars(fs.take(i + 1)) =~= formulas_free_vars(fs.take(i)).union(
            fs[i].free_vars(),
        ));
    }
}

} // verus!
