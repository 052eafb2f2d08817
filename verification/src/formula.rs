//! First-order formulas and their operations.

use vstd::prelude::*;
use crate::term::{
    SpecTerm, Term, clone_terms, lemma_terms_vars_take, lemma_terms_vars_take_all, rewrite_terms,
    term_view, terms_contain, terms_occurs, terms_replaced, terms_same, terms_vars,
    terms_vars_take,
};

verus! {

broadcast use vstd::std_specs::vec::group_vec_axioms;

/// Mathematical model of a formula.
pub enum SpecFormula {
    Falsum,
    Rel(Seq<char>, Seq<SpecTerm>),
    Not(Box<SpecFormula>),
    Or(Box<SpecFormula>, Box<SpecFormula>),
    And(Box<SpecFormula>, Box<SpecFormula>),
    Implies(Box<SpecFormula>, Box<SpecFormula>),
    Forall(Seq<char>, Box<SpecFormula>),
    Exists(Seq<char>, Box<SpecFormula>),
}

/// First-order logic formula.
#[derive(Debug)]
pub enum Formula {
    Falsum,
    Relation(String, Vec<Term>),
    Not(Box<Formula>),
    Or(Box<Formula>, Box<Formula>),
    And(Box<Formula>, Box<Formula>),
    Implies(Box<Formula>, Box<Formula>),
    Forall(String, Box<Formula>),
    Exists(String, Box<Formula>),
}

/// The model of a formula. The bounds test in the relation-argument closure
/// keeps the closure total; only indices below the length are ever used.
pub open spec fn formula_view(f: Formula) -> SpecFormula
    decreases f,
{
    match f {
        Formula::Falsum => SpecFormula::Falsum,
        Formula::Relation(n, args) => SpecFormula::Rel(
            n@,
            Seq::new(
                args@.len(),
                |i: int|
                    if 0 <= i < args@.len() {
                        term_view(args@[i])
                    } else {
                        SpecTerm::Var(Seq::empty())
                    },
            ),
        ),
        Formula::Not(g) => SpecFormula::Not(Box::new(formula_view(*g))),
        Formula::Or(a, b) => SpecFormula::Or(
            Box::new(formula_view(*a)),
            Box::new(formula_view(*b)),
        ),
        Formula::And(a, b) => SpecFormula::And(
            Box::new(formula_view(*a)),
            Box::new(formula_view(*b)),
        ),
        Formula::Implies(a, b) => SpecFormula::Implies(
            Box::new(formula_view(*a)),
            Box::new(formula_view(*b)),
        ),
        Formula::Forall(v, g) => SpecFormula::Forall(v@, Box::new(formula_view(*g))),
        Formula::Exists(v, g) => SpecFormula::Exists(v@, Box::new(formula_view(*g))),
    }
}

impl DeepView for Formula {
    type V = SpecFormula;

    open spec fn deep_view(&self) -> SpecFormula {
        formula_view(*self)
    }
}

impl SpecFormula {
    /// Whether the term `sub` occurs under some relation of `self`.
    pub open spec fn contains_term(self, sub: SpecTerm) -> bool
        decreases self,
    {
        match self {
            SpecFormula::Falsum => false,
            SpecFormula::Rel(_, args) => terms_contain(args, sub),
            SpecFormula::Not(g) => g.contains_term(sub),
            SpecFormula::Or(a, b) => a.contains_term(sub) || b.contains_term(sub),
            SpecFormula::And(a, b) => a.contains_term(sub) || b.contains_term(sub),
            SpecFormula::Implies(a, b) => a.contains_term(sub) || b.contains_term(sub),
            SpecFormula::Forall(_, g) => g.contains_term(sub),
            SpecFormula::Exists(_, g) => g.contains_term(sub),
        }
    }

    /// `self` with every term occurrence of `from` replaced by `to`,
    /// descending under binders without renaming.
    pub open spec fn replaced(self, from: SpecTerm, to: SpecTerm) -> SpecFormula
        decreases self,
    {
        match self {
            SpecFormula::Falsum => SpecFormula::Falsum,
            SpecFormula::Rel(n, args) => SpecFormula::Rel(n, terms_replaced(args, from, to)),
            SpecFormula::Not(g) => SpecFormula::Not(Box::new(g.replaced(from, to))),
            SpecFormula::Or(a, b) => SpecFormula::Or(
                Box::new(a.replaced(from, to)),
                Box::new(b.replaced(from, to)),
            ),
            SpecFormula::And(a, b) => SpecFormula::And(
                Box::new(a.replaced(from, to)),
                Box::new(b.replaced(from, to)),
            ),
            SpecFormula::Implies(a, b) => SpecFormula::Implies(
                Box::new(a.replaced(from, to)),
                Box::new(b.replaced(from, to)),
            ),
            SpecFormula::Forall(v, g) => SpecFormula::Forall(v, Box::new(g.replaced(from, to))),
            SpecFormula::Exists(v, g) => SpecFormula::Exists(v, Box::new(g.replaced(from, to))),
        }
    }

    /// The free variables of `self`, given the bound names collected so far.
    pub open spec fn free_vars_from(self, bound: Set<Seq<char>>) -> Set<Seq<char>>
        decreases self,
    {
        match self {
            SpecFormula::Falsum => Set::empty(),
            SpecFormula::Rel(_, args) => terms_vars(args).difference(bound),
            SpecFormula::Not(g) => g.free_vars_from(bound),
            SpecFormula::Or(a, b) => a.free_vars_from(bound).union(b.free_vars_from(bound)),
            SpecFormula::And(a, b) => a.free_vars_from(bound).union(b.free_vars_from(bound)),
            SpecFormula::Implies(a, b) => a.free_vars_from(bound).union(b.free_vars_from(bound)),
            SpecFormula::Forall(v, g) => g.free_vars_from(bound.insert(v)),
            SpecFormula::Exists(v, g) => g.free_vars_from(bound.insert(v)),
        }
    }

    /// The free variables of `self`.
    pub open spec fn free_vars(self) -> Set<Seq<char>> {
        self.free_vars_from(Set::empty())
    }
}


/// The number of nodes of a formula, terms included, used as a termination
/// measure.
pub open spec fn formula_weight(f: SpecFormula) -> nat
    decreases f,
{
    match f {
        SpecFormula::Falsum => 1,
        SpecFormula::Rel(_, args) => 1 + crate::term::terms_size(args),
        SpecFormula::Not(g) => 1 + formula_weight(*g),
        SpecFormula::Or(a, b) => 1 + formula_weight(*a) + formula_weight(*b),
        SpecFormula::And(a, b) => 1 + formula_weight(*a) + formula_weight(*b),
        SpecFormula::Implies(a, b) => 1 + formula_weight(*a) + formula_weight(*b),
        SpecFormula::Forall(_, g) => 1 + formula_weight(*g),
        SpecFormula::Exists(_, g) => 1 + formula_weight(*g),
    }
}

impl Formula {
    /// Structural equality of two formulas.
    pub fn same_as(&self, other: &Formula) -> (r: bool)
        ensures
            r == (self.deep_view() == other.deep_view()),
        decreases self,
    {
        match (self, other) {
            (Formula::Falsum, Formula::Falsum) => true,
            (Formula::Relation(n1, a1), Formula::Relation(n2, a2)) => {
                let r = n1.eq(n2) && terms_same(a1, a2);
                proof {
                    lemma_rel_view(*self);
                    lemma_rel_view(*other);
                }
                r
            },
            (Formula::Not(g1), Formula::Not(g2)) => g1.same_as(g2),
            (Formula::Or(a1, b1), Formula::Or(a2, b2)) => a1.same_as(a2) && b1.same_as(b2),
            (Formula::And(a1, b1), Formula::And(a2, b2)) => a1.same_as(a2) && b1.same_as(b2),
            (Formula::Implies(a1, b1), Formula::Implies(a2, b2)) => a1.same_as(a2) && b1.same_as(
                b2,
            ),
            (Formula::Forall(v1, g1), Formula::Forall(v2, g2)) => v1.eq(v2) && g1.same_as(g2),
            (Formula::Exists(v1, g1), Formula::Exists(v2, g2)) => v1.eq(v2) && g1.same_as(g2),
            _ => {
                assert(self.deep_view() != other.deep_view());
                false
            },
        }
    }
}

/// A relation's model carries exactly the deep view of its argument vector.
pub proof fn lemma_rel_view(f: Formula)
    requires
        f is Relation,
    ensures
        f.deep_view()->Rel_1 =~= f->Relation_1.deep_view(),
{
}

impl Clone for Formula {
    /// Clones preserve the formula's model exactly.
    fn clone(&self) -> (r: Formula)
        ensures
            r.deep_view() == self.deep_view(),
        decreases self,
    {
        match self {
            Formula::Falsum => Formula::Falsum,
            Formula::Relation(n, args) => {
                let r = Formula::Relation(n.clone(), clone_terms(args));
                proof {
                    lemma_rel_view(*self);
                    lemma_rel_view(r);
                }
                r
            },
            Formula::Not(g) => Formula::Not(Box::new((**g).clone())),
            Formula::Or(a, b) => Formula::Or(Box::new((**a).clone()), Box::new((**b).clone())),
            Formula::And(a, b) => Formula::And(Box::new((**a).clone()), Box::new((**b).clone())),
            Formula::Implies(a, b) => Formula::Implies(
                Box::new((**a).clone()),
                Box::new((**b).clone()),
            ),
            Formula::Forall(v, g) => Formula::Forall(v.clone(), Box::new((**g).clone())),
            Formula::Exists(v, g) => Formula::Exists(v.clone(), Box::new((**g).clone())),
        }
    }
}


impl Formula {
    /// Return the precedence of the formula based on its type.
    /// The higher it is, the higher the precedence.
    pub fn get_precedence(&self) -> (r: u8)
        ensures
            r == self.deep_view().precedence(),
    {
        match self {
            Formula::Falsum | Formula::Relation(_, _) => 5,
            Formula::Not(_) => 4,
            Formula::And(_, _) | Formula::Or(_, _) => 3,
            Formula::Implies(_, _) => 2,
            Formula::Forall(_, _) | Formula::Exists(_, _) => 1,
        }
    }

    /// Return the potential symbol related to this formula, for example "~"
    /// for "Not". Return an empty literal string if there is no such symbol.
    pub fn get_op_symbol(&self) -> (r: &'static str)
        ensures
            r@ == self.deep_view().op_symbol(),
    {
        let r: &'static str = match self {
            Formula::Falsum => "",
            Formula::Relation(_, _) => "",
            Formula::Not(_) => "~",
            Formula::Or(_, _) => "\\/",
            Formula::And(_, _) => "/\\",
            Formula::Implies(_, _) => "=>",
            Formula::Forall(_, _) => "forall",
            Formula::Exists(_, _) => "exists",
        };
        proof {
            reveal_strlit("");
            reveal_strlit("~");
            reveal_strlit("\\/");
            reveal_strlit("/\\");
            reveal_strlit("=>");
            reveal_strlit("forall");
            reveal_strlit("exists");
        }
        r
    }

    /// Return whether the given term is used somewhere in this formula or not.
    pub fn occurs(&self, term: &Term) -> (r: bool)
        ensures
            r == self.deep_view().contains_term(term.deep_view()),
        decreases self,
    {
        match self {
            Formula::Falsum => false,
            Formula::Relation(_, args) => {
                let r = terms_occurs(args, term);
                proof {
                    lemma_rel_view(*self);
                }
                r
            },
            Formula::Not(g) => g.occurs(term),
            Formula::Or(a, b) => a.occurs(term) || b.occurs(term),
            Formula::And(a, b) => a.occurs(term) || b.occurs(term),
            Formula::Implies(a, b) => a.occurs(term) || b.occurs(term),
            Formula::Forall(_, g) => g.occurs(term),
            Formula::Exists(_, g) => g.occurs(term),
        }
    }

    /// Replace in this formula a term by another.
    pub fn rewrite(&mut self, from: &Term, to: &Term)
        ensures
            final(self).deep_view() == old(self).deep_view().replaced(
                from.deep_view(),
                to.deep_view(),
            ),
    {
        let r = rewritten_formula(self, from, to);
        *self = r;
    }

    /// Return a list of the free variables used in this formula.
    /// The entries of the result, as a set, are exactly the free variables.
    pub fn domain(&self) -> (r: Vec<String>)
        ensures
            r.deep_view().to_set() == self.deep_view().free_vars(),
    {
        let bound: Vec<String> = Vec::new();
        proof {
            assert(bound.deep_view().to_set() =~= Set::<Seq<char>>::empty());
        }
        self.domain_checked(&bound)
    }

    /// Return a list of the free variables used in this formula.
    /// This function stores recursively the bound variables so they are not
    /// considered free in sub-formulas of quantifiers.
    fn domain_checked(&self, bound: &Vec<String>) -> (r: Vec<String>)
        ensures
            r.deep_view().to_set() == self.deep_view().free_vars_from(bound.deep_view().to_set()),
        decreases self,
    {
        match self {
            Formula::Falsum => {
                let r: Vec<String> = Vec::new();
                proof {
                    assert(r.deep_view().to_set() =~= Set::<Seq<char>>::empty());
                }
                r
            },
            Formula::Relation(_, args) => {
                let r = terms_domain_filtered(args, bound);
                proof {
                    lemma_rel_view(*self);
                }
                r
            },
            Formula::Not(g) => g.domain_checked(bound),
            Formula::Or(a, b) => join_domains(a.domain_checked(bound), b.domain_checked(bound)),
            Formula::And(a, b) => join_domains(a.domain_checked(bound), b.domain_checked(bound)),
            Formula::Implies(a, b) => join_domains(
                a.domain_checked(bound),
                b.domain_checked(bound),
            ),
            Formula::Forall(v, g) => {
                let nb = push_bound(bound, v);
                g.domain_checked(&nb)
            },
            Formula::Exists(v, g) => {
                let nb = push_bound(bound, v);
                g.domain_checked(&nb)
            },
        }
    }
}

/// Concatenate two variable lists; the result covers the union of both sets.
fn join_domains(a: Vec<String>, b: Vec<String>) -> (r: Vec<String>)
    ensures
        r.deep_view().to_set() == a.deep_view().to_set().union(b.deep_view().to_set()),
{
    let ghost a_dv = a.deep_view();
    let ghost b_dv = b.deep_view();
    let mut r = a;
    let mut rest = b;
    r.append(&mut rest);
    proof {
        assert(r.deep_view() =~= a_dv + b_dv);
        vstd::seq_lib::seq_to_set_distributes_over_add(a_dv, b_dv);
        assert(r.deep_view().to_set() =~= a_dv.to_set().union(b_dv.to_set()));
    }
    r
}

/// The bound list extended by `v`; as a set this is an insertion.
fn push_bound(bound: &Vec<String>, v: &String) -> (r: Vec<String>)
    ensures
        r.deep_view().to_set() == bound.deep_view().to_set().insert(v@),
{
    let ghost b_dv = bound.deep_view();
    let mut r = clone_names(bound);
    r.push(v.clone());
    proof {
        assert(r.deep_view() =~= b_dv.push(v@));
        assert(r.deep_view().to_set() =~= b_dv.to_set().insert(v@)) by {
            assert forall|x: Seq<char>| b_dv.push(v@).to_set().contains(x) implies b_dv.to_set().insert(
                v@,
            ).contains(x) by {
                let i = choose|i: int| 0 <= i < b_dv.push(v@).len() && b_dv.push(v@)[i] == x;
                if i < b_dv.len() {
                    assert(b_dv[i] == x);
                }
            }
            assert forall|x: Seq<char>| b_dv.to_set().insert(v@).contains(x) implies b_dv.push(
                v@,
            ).to_set().contains(x) by {
                if x == v@ {
                    assert(b_dv.push(v@)[b_dv.len() as int] == x);
                } else {
                    let i = choose|i: int| 0 <= i < b_dv.len() && b_dv[i] == x;
                    assert(b_dv.push(v@)[i] == x);
                }
            }
        }
    }
    r
}

/// Clone a list of names, preserving each entry.
fn clone_names(v: &Vec<String>) -> (r: Vec<String>)
    ensures
        r.deep_view() == v.deep_view(),
        r@ == v@,
{
    let mut r: Vec<String> = Vec::new();
    let mut i: usize = 0;
    while i < v.len()
        invariant
            i <= v.len(),
            r@.len() == i,
            forall|j: int| 0 <= j < i ==> r@[j] == v@[j],
        decreases v.len() - i,
    {
        r.push(v[i].clone());
        i += 1;
    }
    proof {
        assert(r@ =~= v@);
        assert(r.deep_view() =~= v.deep_view());
    }
    r
}

/// The variables of the terms of `args` that are not in `bound`.
fn terms_domain_filtered(args: &Vec<Term>, bound: &Vec<String>) -> (r: Vec<String>)
    ensures
        r.deep_view().to_set() == terms_vars(args.deep_view()).difference(
            bound.deep_view().to_set(),
        ),
{
    let mut all: Vec<String> = Vec::new();
    let mut i: usize = 0;
    proof {
        assert(all.deep_view().to_set() =~= terms_vars_take(args.deep_view(), 0));
    }
    while i < args.len()
        invariant
            i <= args.len(),
            all.deep_view().to_set() == terms_vars_take(args.deep_view(), i as int),
        decreases args.len() - i,
    {
        let mut sub = args[i].domain();
        let ghost all_dv = all.deep_view();
        let ghost sub_dv = sub.deep_view();
        all.append(&mut sub);
        proof {
            assert(all.deep_view() =~= all_dv + sub_dv);
            vstd::seq_lib::seq_to_set_distributes_over_add(all_dv, sub_dv);
            assert(all.deep_view().to_set() =~= all_dv.to_set().union(sub_dv.to_set()));
            lemma_terms_vars_take(args.deep_view(), i as int);
            assert(args@[i as int].deep_view() == args.deep_view()[i as int]);
        }
        i += 1;
    }
    proof {
        lemma_terms_vars_take_all(args.deep_view());
    }
    // Keep the variables that are not bound.
    let mut r: Vec<String> = Vec::new();
    let mut k: usize = 0;
    while k < all.len()
        invariant
            k <= all.len(),
            r.deep_view().to_set() == all.deep_view().take(k as int).to_set().difference(
                bound.deep_view().to_set(),
            ),
        decreases all.len() - k,
    {
        let ghost r_dv = r.deep_view();
        let ghost prefix = all.deep_view().take(k as int);
        if !contains_name(bound, &all[k]) {
            r.push(all[k].clone());
            proof {
                assert(r.deep_view() =~= r_dv.push(all@[k as int]@));
            }
        }
        proof {
            assert(all.deep_view().take(k + 1) =~= prefix.push(all.deep_view()[k as int]));
            assert(all.deep_view()[k as int] == all@[k as int]@);
            lemma_take_push_to_set(prefix, all@[k as int]@, r_dv, bound.deep_view().to_set(), r.deep_view());
        }
        k += 1;
    }
    proof {
        assert(all.deep_view().take(all.len() as int) =~= all.deep_view());
    }
    r
}

/// One filtering step: pushing `x` onto the prefix either adds `x` to the
/// kept set (when it is outside `bound`) or leaves it unchanged.
proof fn lemma_take_push_to_set(
    prefix: Seq<Seq<char>>,
    x: Seq<char>,
    kept: Seq<Seq<char>>,
    bound: Set<Seq<char>>,
    kept_after: Seq<Seq<char>>,
)
    requires
        kept.to_set() == prefix.to_set().difference(bound),
        !bound.contains(x) ==> kept_after =~= kept.push(x),
        bound.contains(x) ==> kept_after =~= kept,
    ensures
        kept_after.to_set() == prefix.push(x).to_set().difference(bound),
{
    broadcast use vstd::seq::Seq::lemma_push_to_set_commute;

    assert(prefix.push(x).to_set() =~= prefix.to_set().insert(x));
    if !bound.contains(x) {
        assert(kept_after.to_set() =~= kept.to_set().insert(x));
        assert(kept_after.to_set() =~= prefix.push(x).to_set().difference(bound));
    } else {
        assert(kept_after.to_set() =~= prefix.push(x).to_set().difference(bound));
    }
}

/// Whether `s` occurs in the list of names `v`.
pub fn contains_name(v: &Vec<String>, s: &String) -> (r: bool)
    ensures
        r == v.deep_view().to_set().contains(s@),
{
    let mut i: usize = 0;
    while i < v.len()
        invariant
            i <= v.len(),
            forall|j: int| 0 <= j < i ==> v.deep_view()[j] != s@,
        decreases v.len() - i,
    {
        if v[i].eq(s) {
            assert(v.deep_view()[i as int] == s@);
            return true;
        }
        i += 1;
    }
    assert(!v.deep_view().contains(s@));
    false
}

impl SpecFormula {
    /// The precedence of the formula's head connective.
    pub open spec fn precedence(self) -> u8 {
        match self {
            SpecFormula::Falsum => 5,
            SpecFormula::Rel(_, _) => 5,
            SpecFormula::Not(_) => 4,
            SpecFormula::And(_, _) => 3,
            SpecFormula::Or(_, _) => 3,
            SpecFormula::Implies(_, _) => 2,
            SpecFormula::Forall(_, _) => 1,
            SpecFormula::Exists(_, _) => 1,
        }
    }

    /// The operator symbol of the formula's head connective.
    pub open spec fn op_symbol(self) -> Seq<char> {
        match self {
            SpecFormula::Falsum => ""@,
            SpecFormula::Rel(_, _) => ""@,
            SpecFormula::Not(_) => "~"@,
            SpecFormula::Or(_, _) => "\\/"@,
            SpecFormula::And(_, _) => "/\\"@,
            SpecFormula::Implies(_, _) => "=>"@,
            SpecFormula::Forall(_, _) => "forall"@,
            SpecFormula::Exists(_, _) => "exists"@,
        }
    }
}

/// Replace every term occurrence of `from` in `f` by `to`, building a new
/// formula.
fn rewritten_formula(f: &Formula, from: &Term, to: &Term) -> (r: Formula)
    ensures
        r.deep_view() == f.deep_view().replaced(from.deep_view(), to.deep_view()),
    decreases f,
{
    match f {
        Formula::Falsum => Formula::Falsum,
        Formula::Relation(n, args) => {
            let r = Formula::Relation(n.clone(), rewrite_terms(args, from, to));
            proof {
                lemma_rel_view(*f);
                lemma_rel_view(r);
            }
            r
        },
        Formula::Not(g) => Formula::Not(Box::new(rewritten_formula(g, from, to))),
        Formula::Or(a, b) => Formula::Or(
            Box::new(rewritten_formula(a, from, to)),
            Box::new(rewritten_formula(b, from, to)),
        ),
        Formula::And(a, b) => Formula::And(
            Box::new(rewritten_formula(a, from, to)),
            Box::new(rewritten_formula(b, from, to)),
        ),
        Formula::Implies(a, b) => Formula::Implies(
            Box::new(rewritten_formula(a, from, to)),
            Box::new(rewritten_formula(b, from, to)),
        ),
        Formula::Forall(v, g) => Formula::Forall(
            v.clone(),
            Box::new(rewritten_formula(g, from, to)),
        ),
        Formula::Exists(v, g) => Formula::Exists(
            v.clone(),
            Box::new(rewritten_formula(g, from, to)),
        ),
    }
}



/// `name` is the first candidate, in candidate order, outside `free`.
pub open spec fn is_first_fresh(free: Set<Seq<char>>, name: Seq<char>) -> bool {
    &&& !free.contains(name)
    &&& exists|k: nat|
        name == candidate_name(k) && (forall|j: nat|
            j < k ==> free.contains(#[trigger] candidate_name(j)))
}

/// The first fresh candidate outside `free`.
pub open spec fn first_fresh(free: Set<Seq<char>>) -> Seq<char> {
    choose|name: Seq<char>| is_first_fresh(free, name)
}

/// At most one name is the first fresh candidate.
pub proof fn lemma_first_fresh_unique(free: Set<Seq<char>>, a: Seq<char>, b: Seq<char>)
    requires
        is_first_fresh(free, a),
        is_first_fresh(free, b),
    ensures
        a == b,
{
    let k1 = choose|k: nat|
        a == candidate_name(k) && (forall|j: nat|
            j < k ==> free.contains(#[trigger] candidate_name(j)));
    let k2 = choose|k: nat|
        b == candidate_name(k) && (forall|j: nat|
            j < k ==> free.contains(#[trigger] candidate_name(j)));
    if k1 < k2 {
        assert(free.contains(candidate_name(k1)));
    } else if k2 < k1 {
        assert(free.contains(candidate_name(k2)));
    }
}

/// The order in which fresh-variable candidates are tried: `x` to `z`, then
/// `w` down to `a`; each full pass appends one more prime mark.
pub open spec fn letter_order() -> Seq<char> {
    seq![
        'x', 'y', 'z', 'w', 'v', 'u', 't', 's', 'r', 'q', 'p', 'o', 'n', 'm', 'l', 'k', 'j', 'i',
        'h', 'g', 'f', 'e', 'd', 'c', 'b', 'a',
    ]
}

/// A run of `p` prime marks.
pub open spec fn prime_marks(p: nat) -> Seq<char>
    decreases p,
{
    if p == 0 {
        Seq::empty()
    } else {
        prime_marks((p - 1) as nat).push('\'')
    }
}

/// The `k`-th fresh-variable candidate.
pub open spec fn candidate_name(k: nat) -> Seq<char> {
    seq![letter_order()[(k % 26) as int]] + prime_marks(k / 26)
}

/// A run of prime marks has one mark per count.
pub proof fn lemma_prime_marks_len(p: nat)
    ensures
        prime_marks(p).len() == p,
    decreases p,
{
    if p > 0 {
        lemma_prime_marks_len((p - 1) as nat);
    }
}

/// The first candidates with distinct prime counts, one per pass.
spec fn pass_candidates(m: nat) -> Set<Seq<char>>
    decreases m,
{
    if m == 0 {
        Set::empty()
    } else {
        pass_candidates((m - 1) as nat).insert(candidate_name(26 * ((m - 1) as nat)))
    }
}

/// Pass candidates are distinct, so `m` passes give `m` names.
proof fn lemma_pass_candidates_card(m: nat)
    ensures
        pass_candidates(m).finite(),
        pass_candidates(m).len() == m,
        forall|x: Seq<char>| pass_candidates(m).contains(x) ==> exists|p: nat|
            p < m && x == #[trigger] candidate_name(26 * p),
    decreases m,
{
    if m > 0 {
        let prev = (m - 1) as nat;
        lemma_pass_candidates_card(prev);
        let c = candidate_name(26 * prev);
        vstd::arithmetic::div_mod::lemma_fundamental_div_mod_converse(
            26 * prev as int,
            26,
            prev as int,
            0,
        );
        lemma_prime_marks_len(prev);
        assert(c.len() == 1 + prev);
        assert(!pass_candidates(prev).contains(c)) by {
            if pass_candidates(prev).contains(c) {
                let p = choose|p: nat| p < prev && c == #[trigger] candidate_name(26 * p);
                vstd::arithmetic::div_mod::lemma_fundamental_div_mod_converse(
                    26 * p as int,
                    26,
                    p as int,
                    0,
                );
                lemma_prime_marks_len(p);
                assert(candidate_name(26 * p).len() == 1 + p);
            }
        }
    }
}

/// If every pass candidate of `m` passes lies in the finite set `s`, then
/// `s` has at least `m` elements.
proof fn lemma_pass_candidates_pigeonhole(m: nat, s: Set<Seq<char>>)
    requires
        s.finite(),
        forall|p: nat| p < m ==> s.contains(#[trigger] candidate_name(26 * p)),
    ensures
        s.len() >= m,
    decreases m,
{
    lemma_pass_candidates_card(m);
    assert(pass_candidates(m).subset_of(s)) by {
        assert forall|x: Seq<char>| pass_candidates(m).contains(x) implies s.contains(x) by {
            let p = choose|p: nat| p < m && x == #[trigger] candidate_name(26 * p);
            assert(s.contains(candidate_name(26 * p)));
        }
    }
    vstd::set_lib::lemma_len_subset(pass_candidates(m), s);
}

/// The candidate with the letter of rank `li` and `p` prime marks.
fn make_candidate(li: usize, p: usize) -> (s: String)
    requires
        li < 26,
    ensures
        s@ == candidate_name((26 * p + li) as nat),
{
    let letter: &'static str = match li {
        0 => "x",
        1 => "y",
        2 => "z",
        3 => "w",
        4 => "v",
        5 => "u",
        6 => "t",
        7 => "s",
        8 => "r",
        9 => "q",
        10 => "p",
        11 => "o",
        12 => "n",
        13 => "m",
        14 => "l",
        15 => "k",
        16 => "j",
        17 => "i",
        18 => "h",
        19 => "g",
        20 => "f",
        21 => "e",
        22 => "d",
        23 => "c",
        24 => "b",
        _ => "a",
    };
    proof {
        reveal_strlit("x");
        reveal_strlit("y");
        reveal_strlit("z");
        reveal_strlit("w");
        reveal_strlit("v");
        reveal_strlit("u");
        reveal_strlit("t");
        reveal_strlit("s");
        reveal_strlit("r");
        reveal_strlit("q");
        reveal_strlit("p");
        reveal_strlit("o");
        reveal_strlit("n");
        reveal_strlit("m");
        reveal_strlit("l");
        reveal_strlit("k");
        reveal_strlit("j");
        reveal_strlit("i");
        reveal_strlit("h");
        reveal_strlit("g");
        reveal_strlit("f");
        reveal_strlit("e");
        reveal_strlit("d");
        reveal_strlit("c");
        reveal_strlit("b");
        reveal_strlit("a");
        assert(letter@ == seq![letter_order()[li as int]]);
    }
    let mut s = String::from_str(letter);
    let mut marks: usize = 0;
    proof {
        reveal_strlit("\'");
    }
    while marks < p
        invariant
            marks <= p,
            li < 26,
            s@ == seq![letter_order()[li as int]] + prime_marks(marks as nat),
        decreases p - marks,
    {
        s.append("'");
        proof {
            reveal_strlit("'");
            assert("'"@ =~= seq!['\'']);
            assert(prime_marks((marks + 1) as nat) =~= prime_marks(marks as nat).push('\''));
            assert(s@ =~= seq![letter_order()[li as int]] + prime_marks((marks + 1) as nat));
        }
        marks += 1;
    }
    proof {
        vstd::arithmetic::div_mod::lemma_fundamental_div_mod_converse(
            26 * p + li,
            26,
            p as int,
            li as int,
        );
    }
    s
}

impl Formula {
    /// Return a new variable that is not free in this formula.
    /// It will first try variables from x to z then w to a,
    /// then add a prime mark and repeat until found. The result is the
    /// first candidate, in that order, outside the formula's domain.
    pub fn new_variable(&self) -> (r: String)
        ensures
            !self.deep_view().free_vars().contains(r@),
            is_first_fresh(self.deep_view().free_vars(), r@),
            r@ == first_fresh(self.deep_view().free_vars()),
    {
        let existing = self.domain();
        let ghost free = self.deep_view().free_vars();
        let n = existing.len();
        let mut p: usize = 0;
        loop
            invariant
                p <= n,
                free == self.deep_view().free_vars(),
                existing.deep_view().to_set() == free,
                n == existing@.len(),
                forall|j: nat| j < 26 * p ==> free.contains(#[trigger] candidate_name(j)),
            decreases n - p,
        {
            let mut li: usize = 0;
            while li < 26
                invariant
                    li <= 26,
                    p <= n,
                    free == self.deep_view().free_vars(),
                    existing.deep_view().to_set() == free,
                    forall|j: nat|
                        j < 26 * p + li ==> free.contains(#[trigger] candidate_name(j)),
                decreases 26 - li,
            {
                let cand = make_candidate(li, p);
                if !contains_name(&existing, &cand) {
                    proof {
                        let k = (26 * p + li) as nat;
                        assert(cand@ == candidate_name(k) && (forall|j: nat|
                            j < k ==> free.contains(#[trigger] candidate_name(j))));
                        assert(is_first_fresh(free, cand@));
                        lemma_first_fresh_unique(free, cand@, first_fresh(free));
                    }
                    return cand;
                }
                li += 1;
            }
            // A full pass failed: every candidate with up to `p` prime marks
            // is taken. After `n + 1` full passes that would exceed the
            // number of distinct names in the domain.
            proof {
                broadcast use vstd::seq_lib::seq_to_set_is_finite;

                if p >= n {
                    assert forall|q: nat| q < n + 1 implies free.contains(
                        #[trigger] candidate_name(26 * q),
                    ) by {
                        assert(26 * q < 26 * p + 26);
                    }
                    lemma_pass_candidates_pigeonhole((n + 1) as nat, free);
                    existing.deep_view().lemma_cardinality_of_set();
                    assert(existing.deep_view().len() == n);
                    assert(false);
                }
            }
            p += 1;
        }
    }
}


/// The text of a formula, with parentheses driven by precedence: a
/// left-associative operand is parenthesized when its precedence is strictly
/// lower on its own side and on ties on the other side.
pub open spec fn formula_text(f: SpecFormula) -> Seq<char>
    decreases f,
{
    match f {
        SpecFormula::Falsum => "falsum"@,
        SpecFormula::Rel(v, ts) => rel_text(v, ts),
        SpecFormula::Not(g) => match *g {
            SpecFormula::Rel(v, ts) => "~"@ + rel_text(v, ts),
            other => "~("@ + formula_text(other) + ")"@,
        },
        SpecFormula::Or(a, b) => paren_if((*a).precedence() < f.precedence(), formula_text(*a))
            + " "@ + f.op_symbol() + " "@ + paren_if(
            (*b).precedence() <= f.precedence(),
            formula_text(*b),
        ),
        SpecFormula::And(a, b) => paren_if((*a).precedence() < f.precedence(), formula_text(*a))
            + " "@ + f.op_symbol() + " "@ + paren_if(
            (*b).precedence() <= f.precedence(),
            formula_text(*b),
        ),
        SpecFormula::Implies(a, b) => paren_if(
            (*a).precedence() <= f.precedence(),
            formula_text(*a),
        ) + " "@ + f.op_symbol() + " "@ + paren_if(
            (*b).precedence() < f.precedence(),
            formula_text(*b),
        ),
        SpecFormula::Forall(v, g) => "forall "@ + v + ", "@ + formula_text(*g),
        SpecFormula::Exists(v, g) => "exists "@ + v + ", "@ + formula_text(*g),
    }
}

/// The text of a relation: its name, with parenthesized arguments when
/// there are any.
pub open spec fn rel_text(v: Seq<char>, ts: Seq<SpecTerm>) -> Seq<char> {
    if ts.len() == 0 {
        v
    } else {
        v + "("@ + crate::term::terms_text(ts) + ")"@
    }
}

/// The text, wrapped in parentheses when `cond` holds.
pub open spec fn paren_if(cond: bool, text: Seq<char>) -> Seq<char> {
    if cond {
        "("@ + text + ")"@
    } else {
        text
    }
}

impl Formula {
    /// Render the formula as text.
    pub fn to_text(&self) -> (r: String)
        ensures
            r@ == formula_text(self.deep_view()),
        decreases formula_weight(self.deep_view()), 1int,
    {
        proof {
            reveal_strlit("falsum");
            reveal_strlit("~");
            reveal_strlit("~(");
            reveal_strlit(")");
            reveal_strlit("(");
            reveal_strlit(" ");
            reveal_strlit("forall ");
            reveal_strlit("exists ");
            reveal_strlit(", ");
        }
        match self {
            Formula::Falsum => String::from_str("falsum"),
            Formula::Relation(v, args) => {
                proof {
                    lemma_rel_view(*self);
                }
                render_rel(v, args)
            },
            Formula::Not(g) => {
                match &**g {
                    Formula::Relation(v, args) => {
                        proof {
                            lemma_rel_view(**g);
                        }
                        let mut r = String::from_str("~");
                        let rel = render_rel(v, args);
                        r.append(rel.as_str());
                        proof {
                            assert(r@ =~= formula_text(self.deep_view()));
                        }
                        r
                    },
                    other => {
                        let mut r = String::from_str("~(");
                        let inner = other.to_text();
                        r.append(inner.as_str());
                        r.append(")");
                        proof {
                            assert(r@ =~= formula_text(self.deep_view()));
                        }
                        r
                    },
                }
            },
            Formula::Or(a, b) => render_binary(self, a, b),
            Formula::And(a, b) => render_binary(self, a, b),
            Formula::Implies(a, b) => render_binary(self, a, b),
            Formula::Forall(v, g) => {
                let mut r = String::from_str("forall ");
                r.append(v.as_str());
                r.append(", ");
                let inner = g.to_text();
                r.append(inner.as_str());
                proof {
                    assert(r@ =~= formula_text(self.deep_view()));
                }
                r
            },
            Formula::Exists(v, g) => {
                let mut r = String::from_str("exists ");
                r.append(v.as_str());
                r.append(", ");
                let inner = g.to_text();
                r.append(inner.as_str());
                proof {
                    assert(r@ =~= formula_text(self.deep_view()));
                }
                r
            },
        }
    }
}

/// Render a relation: its name, with parenthesized arguments when there are
/// any.
fn render_rel(v: &String, args: &Vec<Term>) -> (r: String)
    ensures
        r@ == rel_text(v@, args.deep_view()),
{
    if args.len() == 0 {
        v.clone()
    } else {
        proof {
            reveal_strlit("(");
            reveal_strlit(")");
        }
        let mut r = v.clone();
        r.append("(");
        let inner = crate::term::args_text(args);
        r.append(inner.as_str());
        r.append(")");
        proof {
            assert(r@ =~= rel_text(v@, args.deep_view()));
        }
        r
    }
}

/// Render a binary connective with precedence-driven parentheses.
fn render_binary(f: &Formula, a: &Formula, b: &Formula) -> (r: String)
    requires
        ({
            ||| f.deep_view() matches SpecFormula::Or(x, y) && *x == a.deep_view() && *y
                == b.deep_view()
            ||| f.deep_view() matches SpecFormula::And(x, y) && *x == a.deep_view() && *y
                == b.deep_view()
            ||| f.deep_view() matches SpecFormula::Implies(x, y) && *x == a.deep_view() && *y
                == b.deep_view()
        }),
    ensures
        r@ == formula_text(f.deep_view()),
    decreases formula_weight(f.deep_view()), 0int,
{
    proof {
        reveal_strlit("(");
        reveal_strlit(")");
        reveal_strlit(" ");
    }
    let implies = matches!(f, Formula::Implies(_, _));
    let fp = f.get_precedence();
    let mut r = String::new();
    let ap = a.get_precedence();
    let a_text = a.to_text();
    if (implies && ap <= fp) || (!implies && ap < fp) {
        r.append("(");
        r.append(a_text.as_str());
        r.append(")");
    } else {
        r.append(a_text.as_str());
    }
    r.append(" ");
    let op = f.get_op_symbol();
    r.append(op);
    r.append(" ");
    let bp = b.get_precedence();
    let b_text = b.to_text();
    if (implies && bp < fp) || (!implies && bp <= fp) {
        r.append("(");
        r.append(b_text.as_str());
        r.append(")");
    } else {
        r.append(b_text.as_str());
    }
    proof {
        assert(r@ =~= formula_text(f.deep_view()));
    }
    r
}

} // verus!
