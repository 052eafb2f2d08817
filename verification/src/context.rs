//! The context: the names proved or declared so far, in three disjoint
//! mappings.

use vstd::prelude::*;
use crate::error::{Error, ErrorKind};
use crate::formula::{Formula, SpecFormula};
use crate::tools::{contains_ident, str_eq};

verus! {

broadcast use vstd::std_specs::vec::group_vec_axioms;

/// What kind of value a name stands for.
#[derive(Clone, Copy, PartialEq, Eq, Structural, Debug)]
pub enum ValueType {
    Theorem,
    Relation,
    Term,
}

/// Mathematical model of a context.
#[verifier::ext_equal]
pub struct SpecContext {
    pub theorems: Seq<(Seq<char>, SpecFormula)>,
    pub relations: Seq<Seq<char>>,
    pub terms: Seq<Seq<char>>,
}

/// The formula of the first theorem entry named `n`, if any.
pub open spec fn lookup_thm(ths: Seq<(Seq<char>, SpecFormula)>, n: Seq<char>) -> Option<
    SpecFormula,
>
    decreases ths,
{
    if ths.len() == 0 {
        None
    } else if ths[0].0 == n {
        Some(ths[0].1)
    } else {
        lookup_thm(ths.drop_first(), n)
    }
}

impl SpecContext {
    /// Whether `n` names a theorem.
    pub open spec fn has_theorem(self, n: Seq<char>) -> bool {
        lookup_thm(self.theorems, n) is Some
    }

    /// The formula of the theorem named `n`.
    pub open spec fn theorem_of(self, n: Seq<char>) -> SpecFormula {
        lookup_thm(self.theorems, n)->0
    }

    /// What kind of value a name stands for, if any.
    pub open spec fn get_type(self, n: Seq<char>) -> Option<ValueType> {
        if self.has_theorem(n) {
            Some(ValueType::Theorem)
        } else if self.relations.contains(n) {
            Some(ValueType::Relation)
        } else if self.terms.contains(n) {
            Some(ValueType::Term)
        } else {
            None
        }
    }

    /// Whether a name is defined anywhere in the context.
    pub open spec fn defined(self, n: Seq<char>) -> bool {
        self.get_type(n) is Some
    }

    /// Name hygiene: every name belongs to at most one of the three
    /// mappings, and theorem names are unique.
    pub open spec fn wf(self) -> bool {
        &&& forall|i: int, j: int|
            0 <= i < self.theorems.len() && 0 <= j < self.theorems.len() && i != j
                ==> (#[trigger] self.theorems[i]).0 != (#[trigger] self.theorems[j]).0
        &&& forall|n: Seq<char>|
            self.has_theorem(n) ==> !self.relations.contains(n) && !self.terms.contains(n)
        &&& forall|n: Seq<char>|
            self.relations.contains(n) ==> !self.terms.contains(n)
    }
}

/// The registry of theorems, relation symbols and term symbols.
pub struct Context {
    theorems: Vec<(String, Formula)>,
    relations: Vec<String>,
    terms: Vec<String>,
}

impl DeepView for Context {
    type V = SpecContext;

    closed spec fn deep_view(&self) -> SpecContext {
        SpecContext {
            theorems: Seq::new(
                self.theorems@.len(),
                |i: int| (self.theorems@[i].0@, self.theorems@[i].1.deep_view()),
            ),
            relations: self.relations.deep_view(),
            terms: self.terms.deep_view(),
        }
    }
}

impl Context {
    /// An empty context.
    pub fn new() -> (r: Context)
        ensures
            r.deep_view().theorems =~= Seq::<(Seq<char>, SpecFormula)>::empty(),
            r.deep_view().relations =~= Seq::<Seq<char>>::empty(),
            r.deep_view().terms =~= Seq::<Seq<char>>::empty(),
            r.deep_view().wf(),
    {
        let r = Context { theorems: Vec::new(), relations: Vec::new(), terms: Vec::new() };
        proof {
            assert(r.deep_view().theorems =~= Seq::<(Seq<char>, SpecFormula)>::empty());
            assert(r.deep_view().relations =~= Seq::<Seq<char>>::empty());
            assert(r.deep_view().terms =~= Seq::<Seq<char>>::empty());
        }
        r
    }

    /// The formula of the theorem named `ident`, if any: the first entry
    /// carrying that name.
    pub fn get_theorem(&self, ident: &str) -> (r: Option<&Formula>)
        ensures
            match r {
                Some(f) => self.deep_view().has_theorem(ident@) && f.deep_view()
                    == self.deep_view().theorem_of(ident@),
                None => !self.deep_view().has_theorem(ident@),
            },
    {
        let mut i: usize = 0;
        proof {
            assert(self.deep_view().theorems.skip(0) =~= self.deep_view().theorems);
        }
        while i < self.theorems.len()
            invariant
                i <= self.theorems.len(),
                lookup_thm(self.deep_view().theorems, ident@) == lookup_thm(
                    self.deep_view().theorems.skip(i as int),
                    ident@,
                ),
            decreases self.theorems.len() - i,
        {
            proof {
                assert(self.deep_view().theorems.skip(i as int)[0]
                    == self.deep_view().theorems[i as int]);
                assert(self.deep_view().theorems.skip(i as int).drop_first()
                    =~= self.deep_view().theorems.skip(i + 1));
            }
            if str_eq(self.theorems[i].0.as_str(), ident) {
                assert(self.deep_view().theorems[i as int].0 == ident@);
                return Some(&self.theorems[i].1);
            }
            i += 1;
        }
        proof {
            assert(self.deep_view().theorems.skip(self.theorems.len() as int).len() == 0);
        }
        None
    }

    /// Whether `ident` names a theorem.
    fn has_theorem(&self, ident: &str) -> (r: bool)
        ensures
            r == self.deep_view().has_theorem(ident@),
    {
        self.get_theorem(ident).is_some()
    }

    /// Return the type of the ident, if defined in the context.
    /// If not, return None.
    pub fn get_type(&self, ident: &str) -> (r: Option<ValueType>)
        ensures
            r == self.deep_view().get_type(ident@),
    {
        if self.has_theorem(ident) {
            Some(ValueType::Theorem)
        } else if contains_ident(&self.relations, ident) {
            proof {
                lemma_seq_contains_to_set(self.deep_view().relations, ident@);
            }
            Some(ValueType::Relation)
        } else if contains_ident(&self.terms, ident) {
            proof {
                lemma_seq_contains_to_set(self.deep_view().relations, ident@);
                lemma_seq_contains_to_set(self.deep_view().terms, ident@);
            }
            Some(ValueType::Term)
        } else {
            proof {
                lemma_seq_contains_to_set(self.deep_view().relations, ident@);
                lemma_seq_contains_to_set(self.deep_view().terms, ident@);
            }
            None
        }
    }

    /// Return an Err if the ident is already defined in the context;
    /// the error names what the ident already is.
    pub fn expect_not_defined(&self, ident: &str) -> (r: Result<(), Error>)
        ensures
            match r {
                Ok(()) => !self.deep_view().defined(ident@),
                Err(e) => self.deep_view().defined(ident@) && e.kind()
                    == ErrorKind::AlreadyExists,
            },
    {
        match self.get_type(ident) {
            Some(ValueType::Theorem) => Err(
                Error::AlreadyExists(
                    String::from_str("'").concat(ident).concat("' is already a theorem"),
                ),
            ),
            Some(ValueType::Relation) => Err(
                Error::AlreadyExists(
                    String::from_str("'").concat(ident).concat("' is already a relation"),
                ),
            ),
            Some(ValueType::Term) => Err(
                Error::AlreadyExists(
                    String::from_str("'").concat(ident).concat("' is already a term"),
                ),
            ),
            None => Ok(()),
        }
    }

    /// Push a new theorem to the context. Fails if and only if the name is
    /// already defined; on success only the theorem list grows, by this one
    /// entry.
    pub fn add_theorem(&mut self, ident: &str, f: Box<Formula>) -> (r: Result<(), Error>)
        ensures
            match r {
                Ok(()) => {
                    &&& !old(self).deep_view().defined(ident@)
                    &&& final(self).deep_view().theorems == old(self).deep_view().theorems.push(
                        (ident@, f.deep_view()),
                    )
                    &&& final(self).deep_view().relations == old(self).deep_view().relations
                    &&& final(self).deep_view().terms == old(self).deep_view().terms
                },
                Err(e) => {
                    &&& old(self).deep_view().defined(ident@)
                    &&& e.kind() == ErrorKind::AlreadyExists
                    &&& final(self).deep_view() == old(self).deep_view()
                },
            },
            old(self).deep_view().wf() ==> final(self).deep_view().wf(),
    {
        let e = self.expect_not_defined(ident);
        match e {
            Err(e) => Err(e),
            Ok(()) => {
                self.theorems.push((ident.to_owned(), *f));
                proof {
                    assert(final(self).deep_view().theorems =~= old(self).deep_view().theorems.push(
                        (ident@, f.deep_view()),
                    ));
                    lemma_wf_after_add(old(self).deep_view(), final(self).deep_view(), ident@);
                }
                Ok(())
            },
        }
    }

    /// Push a new relation to the context. Fails if and only if the name is
    /// already defined.
    pub fn add_relation(&mut self, ident: &str) -> (r: Result<(), Error>)
        ensures
            match r {
                Ok(()) => {
                    &&& !old(self).deep_view().defined(ident@)
                    &&& final(self).deep_view().relations == old(
                        self,
                    ).deep_view().relations.push(ident@)
                    &&& final(self).deep_view().theorems == old(self).deep_view().theorems
                    &&& final(self).deep_view().terms == old(self).deep_view().terms
                },
                Err(e) => {
                    &&& old(self).deep_view().defined(ident@)
                    &&& e.kind() == ErrorKind::AlreadyExists
                    &&& final(self).deep_view() == old(self).deep_view()
                },
            },
            old(self).deep_view().wf() ==> final(self).deep_view().wf(),
    {
        let e = self.expect_not_defined(ident);
        match e {
            Err(e) => Err(e),
            Ok(()) => {
                self.relations.push(ident.to_owned());
                proof {
                    assert(final(self).deep_view().relations =~= old(
                        self,
                    ).deep_view().relations.push(ident@));
                    assert(final(self).deep_view().theorems =~= old(self).deep_view().theorems);
                    lemma_wf_after_add(old(self).deep_view(), final(self).deep_view(), ident@);
                }
                Ok(())
            },
        }
    }

    /// Push a new term to the context. Fails if and only if the name is
    /// already defined.
    pub fn add_term(&mut self, ident: &str) -> (r: Result<(), Error>)
        ensures
            match r {
                Ok(()) => {
                    &&& !old(self).deep_view().defined(ident@)
                    &&& final(self).deep_view().terms == old(self).deep_view().terms.push(ident@)
                    &&& final(self).deep_view().theorems == old(self).deep_view().theorems
                    &&& final(self).deep_view().relations == old(self).deep_view().relations
                },
                Err(e) => {
                    &&& old(self).deep_view().defined(ident@)
                    &&& e.kind() == ErrorKind::AlreadyExists
                    &&& final(self).deep_view() == old(self).deep_view()
                },
            },
            old(self).deep_view().wf() ==> final(self).deep_view().wf(),
    {
        let e = self.expect_not_defined(ident);
        match e {
            Err(e) => Err(e),
            Ok(()) => {
                self.terms.push(ident.to_owned());
                proof {
                    assert(final(self).deep_view().terms =~= old(self).deep_view().terms.push(
                        ident@,
                    ));
                    assert(final(self).deep_view().theorems =~= old(self).deep_view().theorems);
                    lemma_wf_after_add(old(self).deep_view(), final(self).deep_view(), ident@);
                }
                Ok(())
            },
        }
    }
}

impl Context {
    /// The declared relation names, in insertion order.
    pub fn relations_list(&self) -> (r: &Vec<String>)
        ensures
            r.deep_view() == self.deep_view().relations,
    {
        &self.relations
    }

    /// The declared term names, in insertion order.
    pub fn terms_list(&self) -> (r: &Vec<String>)
        ensures
            r.deep_view() == self.deep_view().terms,
    {
        &self.terms
    }

    /// The theorem names, in insertion order.
    pub fn theorem_names_list(&self) -> (r: Vec<String>)
        ensures
            r.deep_view().len() == self.deep_view().theorems.len(),
            forall|i: int|
                0 <= i < r.deep_view().len() ==> r.deep_view()[i] == (
                #[trigger] self.deep_view().theorems[i]).0,
    {
        let mut r: Vec<String> = Vec::new();
        let mut i: usize = 0;
        while i < self.theorems.len()
            invariant
                i <= self.theorems.len(),
                r@.len() == i,
                forall|j: int| 0 <= j < i ==> (#[trigger] r@[j])@ == self.theorems@[j].0@,
            decreases self.theorems.len() - i,
        {
            r.push(self.theorems[i].0.clone());
            i += 1;
        }
        r
    }
}

impl Clone for Context {
    /// Clones preserve the context's model exactly.
    fn clone(&self) -> (r: Context)
        ensures
            r.deep_view() == self.deep_view(),
    {
        let mut theorems: Vec<(String, Formula)> = Vec::new();
        let mut i: usize = 0;
        while i < self.theorems.len()
            invariant
                i <= self.theorems.len(),
                theorems@.len() == i,
                forall|j: int| #![trigger theorems@[j]]
                    0 <= j < i ==> theorems@[j].0@ == self.theorems@[j].0@
                        && theorems@[j].1.deep_view() == self.theorems@[j].1.deep_view(),
            decreases self.theorems.len() - i,
        {
            let name = self.theorems[i].0.clone();
            let f = self.theorems[i].1.clone();
            let ghost nm = name@;
            let ghost fv = f.deep_view();
            let ghost old_theorems = theorems@;
            theorems.push((name, f));
            proof {
                assert forall|j: int| #![trigger theorems@[j]] 0 <= j < i + 1 implies theorems@[j].0@
                    == self.theorems@[j].0@ && theorems@[j].1.deep_view()
                    == self.theorems@[j].1.deep_view() by {
                    if j < i {
                        assert(theorems@[j] == old_theorems[j]);
                    } else {
                        assert(theorems@[j].0@ == nm);
                        assert(theorems@[j].1.deep_view() == fv);
                    }
                }
            }
            i += 1;
        }
        let mut relations: Vec<String> = Vec::new();
        let mut k: usize = 0;
        while k < self.relations.len()
            invariant
                k <= self.relations.len(),
                relations@.len() == k,
                forall|j: int| 0 <= j < k ==> relations@[j]@ == self.relations@[j]@,
            decreases self.relations.len() - k,
        {
            relations.push(self.relations[k].clone());
            k += 1;
        }
        let mut terms: Vec<String> = Vec::new();
        let mut m: usize = 0;
        while m < self.terms.len()
            invariant
                m <= self.terms.len(),
                terms@.len() == m,
                forall|j: int| 0 <= j < m ==> terms@[j]@ == self.terms@[j]@,
            decreases self.terms.len() - m,
        {
            terms.push(self.terms[m].clone());
            m += 1;
        }
        let r = Context { theorems, relations, terms };
        proof {
            assert(r.deep_view().theorems =~= self.deep_view().theorems);
            assert(r.deep_view().relations =~= self.deep_view().relations);
            assert(r.deep_view().terms =~= self.deep_view().terms);
        }
        r
    }
}

/// A sequence of names contains a name exactly when its set does.
pub proof fn lemma_seq_contains_to_set(s: Seq<Seq<char>>, n: Seq<char>)
    ensures
        s.contains(n) == s.to_set().contains(n),
{
}

/// A name has a theorem entry exactly when some index carries it.
pub proof fn lemma_lookup_some_iff_index(ths: Seq<(Seq<char>, SpecFormula)>, n: Seq<char>)
    ensures
        (lookup_thm(ths, n) is Some) <==> exists|i: int|
            0 <= i < ths.len() && (#[trigger] ths[i]).0 == n,
    decreases ths,
{
    if ths.len() > 0 {
        lemma_lookup_some_iff_index(ths.drop_first(), n);
        if ths[0].0 == n {
        } else if lookup_thm(ths.drop_first(), n) is Some {
            let i = choose|i: int|
                0 <= i < ths.drop_first().len() && (#[trigger] ths.drop_first()[i]).0 == n;
            assert(ths[i + 1].0 == n);
        } else {
            assert forall|i: int| 0 <= i < ths.len() implies (#[trigger] ths[i]).0 != n by {
                if i > 0 {
                    assert(ths.drop_first()[i - 1].0 != n);
                }
            }
        }
    }
}

/// Adding one fresh name to any single mapping keeps the context
/// well-formed.
proof fn lemma_wf_after_add(before: SpecContext, after: SpecContext, n: Seq<char>)
    requires
        !before.defined(n),
        (after.theorems == before.theorems.push((n, after.theorems.last().1))
            && after.relations == before.relations && after.terms == before.terms) || (
        after.relations == before.relations.push(n) && after.theorems == before.theorems
            && after.terms == before.terms) || (after.terms == before.terms.push(n)
            && after.theorems == before.theorems && after.relations == before.relations),
    ensures
        before.wf() ==> after.wf(),
{
    if before.wf() {
        assert forall|m: Seq<char>| after.has_theorem(m) implies !after.relations.contains(m)
            && !after.terms.contains(m) by {
            lemma_lookup_some_iff_index(after.theorems, m);
            lemma_lookup_some_iff_index(before.theorems, m);
            let i = choose|i: int|
                0 <= i < after.theorems.len() && (#[trigger] after.theorems[i]).0 == m;
            if after.theorems == before.theorems || i < before.theorems.len() {
                if i < before.theorems.len() {
                    assert(before.theorems[i].0 == m);
                }
                assert(before.has_theorem(m));
                lemma_push_keeps_contains(before.relations, after.relations, m);
                lemma_push_keeps_contains(before.terms, after.terms, m);
            } else {
                // The pushed entry is a theorem; its name was undefined.
                assert(m == n);
                lemma_push_keeps_contains(before.relations, after.relations, m);
                lemma_push_keeps_contains(before.terms, after.terms, m);
            }
        }
        assert forall|m: Seq<char>| after.relations.contains(m) implies !after.terms.contains(
            m,
        ) by {
            lemma_push_keeps_contains(before.relations, after.relations, m);
            lemma_push_keeps_contains(before.terms, after.terms, m);
            if !before.relations.contains(m) {
                assert(m == n);
            }
        }
        assert forall|i: int, j: int|
            0 <= i < after.theorems.len() && 0 <= j < after.theorems.len() && i != j implies (
        #[trigger] after.theorems[i]).0 != (#[trigger] after.theorems[j]).0 by {
            if after.theorems != before.theorems {
                lemma_lookup_some_iff_index(before.theorems, n);
                if i < before.theorems.len() && j < before.theorems.len() {
                } else if i < before.theorems.len() {
                    assert(before.theorems[i].0 != n);
                } else if j < before.theorems.len() {
                    assert(before.theorems[j].0 != n);
                }
            }
        }
    }
}

/// What a pushed sequence contains: the old entries and the new one.
proof fn lemma_push_keeps_contains(before: Seq<Seq<char>>, after: Seq<Seq<char>>, m: Seq<char>)
    ensures
        after == before.push(after.last()) ==> (after.contains(m) <==> before.contains(m) || m
            == after.last()),
{
    if after == before.push(after.last()) {
        if before.contains(m) {
            let i = choose|i: int| 0 <= i < before.len() && before[i] == m;
            assert(after[i] == m);
        }
        if after.contains(m) {
            let i = choose|i: int| 0 <= i < after.len() && after[i] == m;
            if i < before.len() {
                assert(before[i] == m);
            }
        }
        if m == after.last() {
            assert(after[after.len() - 1] == m);
        }
    }
}

} // verus!
