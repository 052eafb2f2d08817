//! First-order terms: variables and function applications.

use vstd::prelude::*;

verus! {

broadcast use vstd::std_specs::vec::group_vec_axioms;

/// Mathematical model of a term: a variable or a function application
/// of a named head symbol. A zero-argument function is a constant.
pub enum SpecTerm {
    Var(Seq<char>),
    App(Seq<char>, Seq<SpecTerm>),
}

/// First-order logic term.
#[derive(Debug)]
pub enum Term {
    Variable(String),
    Function(String, Vec<Term>),
}

/// The model of a term. The bounds test in the argument closure keeps the
/// closure total; only indices below the length are ever used.
pub open spec fn term_view(t: Term) -> SpecTerm
    decreases t,
{
    match t {
        Term::Variable(v) => SpecTerm::Var(v@),
        Term::Function(v, args) => SpecTerm::App(
            v@,
            Seq::new(
                args@.len(),
                |i: int|
                    if 0 <= i < args@.len() {
                        term_view(args@[i])
                    } else {
                        SpecTerm::Var(Seq::empty())
                    },
            ),
        ),
    }
}

impl DeepView for Term {
    type V = SpecTerm;

    open spec fn deep_view(&self) -> SpecTerm {
        term_view(*self)
    }
}

impl SpecTerm {
    /// Whether `sub` occurs in `self`, itself included.
    pub open spec fn contains_term(self, sub: SpecTerm) -> bool
        decreases self,
    {
        self == sub || match self {
            SpecTerm::Var(_) => false,
            SpecTerm::App(_, args) => terms_contain(args, sub),
        }
    }

    /// `self` with every occurrence of `from` replaced by `to`.
    pub open spec fn replaced(self, from: SpecTerm, to: SpecTerm) -> SpecTerm
        decreases self,
    {
        if self == from {
            to
        } else {
            match self {
                SpecTerm::Var(_) => self,
                SpecTerm::App(n, args) => SpecTerm::App(n, terms_replaced(args, from, to)),
            }
        }
    }

    /// The set of variable names occurring in `self`.
    pub open spec fn vars(self) -> Set<Seq<char>>
        decreases self,
    {
        match self {
            SpecTerm::Var(v) => set![v],
            SpecTerm::App(_, args) => terms_vars(args),
        }
    }
}


/// The number of nodes of a term, used as a termination measure.
pub open spec fn term_size(t: SpecTerm) -> nat
    decreases t,
{
    match t {
        SpecTerm::Var(_) => 1,
        SpecTerm::App(_, args) => 1 + terms_size(args),
    }
}

/// The total number of nodes of a sequence of terms.
pub open spec fn terms_size(ts: Seq<SpecTerm>) -> nat
    decreases ts,
{
    if ts.len() == 0 {
        0
    } else {
        term_size(ts[0]) + terms_size(ts.drop_first())
    }
}

/// Whether `sub` occurs in some term of `ts`.
pub open spec fn terms_contain(ts: Seq<SpecTerm>, sub: SpecTerm) -> bool
    decreases ts,
{
    if ts.len() == 0 {
        false
    } else {
        ts[0].contains_term(sub) || terms_contain(ts.drop_first(), sub)
    }
}

/// Each term of `ts` with every occurrence of `from` replaced by `to`.
pub open spec fn terms_replaced(ts: Seq<SpecTerm>, from: SpecTerm, to: SpecTerm) -> Seq<SpecTerm>
    decreases ts,
{
    if ts.len() == 0 {
        Seq::empty()
    } else {
        seq![ts[0].replaced(from, to)] + terms_replaced(ts.drop_first(), from, to)
    }
}

/// The set of variable names occurring in some term of `ts`.
pub open spec fn terms_vars(ts: Seq<SpecTerm>) -> Set<Seq<char>>
    decreases ts,
{
    if ts.len() == 0 {
        Set::empty()
    } else {
        ts[0].vars().union(terms_vars(ts.drop_first()))
    }
}

impl Term {
    /// Structural equality of two terms.
    pub fn same_as(&self, other: &Term) -> (r: bool)
        ensures
            r == (self.deep_view() == other.deep_view()),
        decreases self,
    {
        match (self, other) {
            (Term::Variable(a), Term::Variable(b)) => a.eq(b),
            (Term::Function(a, args_a), Term::Function(b, args_b)) => {
                let r = a.eq(b) && terms_same(args_a, args_b);
                proof {
                    lemma_app_view(*self);
                    lemma_app_view(*other);
                }
                r
            },
            _ => {
                assert(self.deep_view() != other.deep_view());
                false
            },
        }
    }

    /// Return whether the given term is used somewhere in this term or not.
    pub fn occurs(&self, term: &Term) -> (r: bool)
        ensures
            r == self.deep_view().contains_term(term.deep_view()),
        decreases self,
    {
        if self.same_as(term) {
            return true;
        }
        match self {
            Term::Variable(_) => false,
            Term::Function(_, args) => {
                let r = terms_occurs(args, term);
                proof {
                    lemma_app_view(*self);
                }
                r
            },
        }
    }
}

impl Clone for Term {
    /// Clones preserve the term's model exactly.
    fn clone(&self) -> (r: Term)
        ensures
            r.deep_view() == self.deep_view(),
    {
        clone_term(self)
    }
}

/// Recursive worker behind `Term::clone`.
fn clone_term(t: &Term) -> (r: Term)
    ensures
        r.deep_view() == t.deep_view(),
    decreases t,
{
    match t {
        Term::Variable(v) => Term::Variable(v.clone()),
        Term::Function(n, args) => {
            let r = Term::Function(n.clone(), clone_terms(args));
            proof {
                lemma_app_view(*t);
                lemma_app_view(r);
            }
            r
        },
    }
}

/// Clone each term of a vector, preserving the models.
pub fn clone_terms(v: &Vec<Term>) -> (r: Vec<Term>)
    ensures
        r.deep_view() == v.deep_view(),
    decreases v,
{
    let mut r: Vec<Term> = Vec::new();
    let mut i: usize = 0;
    while i < v.len()
        invariant
            i <= v.len(),
            r@.len() == i,
            forall|j: int| 0 <= j < i ==> r@[j].deep_view() == v@[j].deep_view(),
        decreases v.len() - i,
    {
        proof {
            assert(decreases_to!(*v => v@));
            assert(decreases_to!(v@ => v@[i as int]));
        }
        let c = clone_term(&v[i]);
        r.push(c);
        i += 1;
    }
    assert(r.deep_view() =~= v.deep_view());
    r
}

/// Compare two term vectors for structural equality of all elements.
pub fn terms_same(a: &Vec<Term>, b: &Vec<Term>) -> (r: bool)
    ensures
        r == (a.deep_view() == b.deep_view()),
    decreases a,
{
    if a.len() != b.len() {
        assert(a.deep_view().len() != b.deep_view().len());
        return false;
    }
    let mut i: usize = 0;
    while i < a.len()
        invariant
            i <= a.len(),
            a@.len() == b@.len(),
            forall|j: int| 0 <= j < i ==> a@[j].deep_view() == b@[j].deep_view(),
        decreases a.len() - i,
    {
        proof {
            assert(decreases_to!(*a => a@));
            assert(decreases_to!(a@ => a@[i as int]));
        }
        if !a[i].same_as(&b[i]) {
            assert(a.deep_view()[i as int] != b.deep_view()[i as int]);
            return false;
        }
        i += 1;
    }
    assert(a.deep_view() =~= b.deep_view());
    true
}

/// Whether `sub` occurs in some term of the vector `v`.
pub fn terms_occurs(v: &Vec<Term>, sub: &Term) -> (r: bool)
    ensures
        r == terms_contain(v.deep_view(), sub.deep_view()),
    decreases v,
{
    let mut i: usize = 0;
    while i < v.len()
        invariant
            i <= v.len(),
            !terms_contain(v.deep_view().take(i as int), sub.deep_view()),
        decreases v.len() - i,
    {
        proof {
            assert(decreases_to!(*v => v@));
            assert(decreases_to!(v@ => v@[i as int]));
        }
        if v[i].occurs(sub) {
            proof {
                lemma_terms_contain_index(v.deep_view(), sub.deep_view(), i as int);
            }
            return true;
        }
        proof {
            lemma_terms_contain_take(v.deep_view(), sub.deep_view(), i as int);
        }
        i += 1;
    }
    proof {
        assert(v.deep_view().take(v.len() as int) =~= v.deep_view());
    }
    false
}

/// Each term of `v` with every occurrence of `from` replaced by `to`,
/// as a new vector.
pub fn rewrite_terms(v: &Vec<Term>, from: &Term, to: &Term) -> (r: Vec<Term>)
    ensures
        r.deep_view() == terms_replaced(v.deep_view(), from.deep_view(), to.deep_view()),
    decreases v,
{
    let mut r: Vec<Term> = Vec::new();
    let mut i: usize = 0;
    while i < v.len()
        invariant
            i <= v.len(),
            r@.len() == i,
            forall|j: int|
                0 <= j < i ==> r@[j].deep_view() == v@[j].deep_view().replaced(
                    from.deep_view(),
                    to.deep_view(),
                ),
        decreases v.len() - i,
    {
        proof {
            assert(decreases_to!(*v => v@));
            assert(decreases_to!(v@ => v@[i as int]));
        }
        let c = rewritten(&v[i], from, to);
        r.push(c);
        i += 1;
    }
    proof {
        lemma_terms_replaced_pointwise(v.deep_view(), from.deep_view(), to.deep_view());
        assert(r.deep_view() =~= terms_replaced(v.deep_view(), from.deep_view(), to.deep_view()));
    }
    r
}

/// A function application's model carries exactly the deep view of its
/// argument vector.
pub proof fn lemma_app_view(t: Term)
    requires
        t is Function,
    ensures
        t.deep_view()->App_1 =~= t->Function_1.deep_view(),
{
}

impl Default for Term {
    /// The default term is the single variable `x`, used as a placeholder
    /// for template command instances.
    fn default() -> (r: Term)
        ensures
            r.deep_view() == SpecTerm::Var("x"@),
    {
        Term::Variable(String::from_str("x"))
    }
}

impl Term {
    /// Replace in this term a term by another.
    pub fn rewrite(&mut self, from: &Term, to: &Term)
        ensures
            final(self).deep_view() == old(self).deep_view().replaced(
                from.deep_view(),
                to.deep_view(),
            ),
    {
        let r = rewritten(self, from, to);
        *self = r;
    }

    /// Return a list of each variable in the domain of this Term.
    /// The entries of the result, as a set, are exactly the variable
    /// names occurring in the term.
    pub fn domain(&self) -> (r: Vec<String>)
        ensures
            r.deep_view().to_set() == self.deep_view().vars(),
        decreases self,
    {
        match self {
            Term::Variable(v) => {
                let r = vec![v.clone()];
                proof {
                    assert(r@ =~= seq![*v]);
                    assert(r.deep_view() =~= seq![v@]);
                    assert(r.deep_view()[0] == v@);
                    assert(r.deep_view().contains(v@));
                    assert(r.deep_view().to_set() =~= set![v@]);
                }
                r
            },
            Term::Function(_, args) => {
                let mut r: Vec<String> = Vec::new();
                let mut i: usize = 0;
                proof {
                    assert(r.deep_view().to_set() =~= terms_vars_take(
                        self.deep_view()->App_1,
                        0,
                    ));
                }
                while i < args.len()
                    invariant
                        i <= args.len(),
                        self == Term::Function(self->Function_0, *args),
                        r.deep_view().to_set() == terms_vars_take(
                            self.deep_view()->App_1,
                            i as int,
                        ),
                    decreases args.len() - i,
                {
                    let mut sub = args[i].domain();
                    let ghost r_dv = r.deep_view();
                    let ghost sub_dv = sub.deep_view();
                    r.append(&mut sub);
                    proof {
                        assert(args@[i as int].deep_view() == self.deep_view()->App_1[i as int]);
                        assert(r.deep_view() =~= r_dv + sub_dv);
                        vstd::seq_lib::seq_to_set_distributes_over_add(r_dv, sub_dv);
                        assert(r.deep_view().to_set() =~= r_dv.to_set().union(sub_dv.to_set()));
                        lemma_terms_vars_take(self.deep_view()->App_1, i as int);
                    }
                    i += 1;
                }
                proof {
                    lemma_terms_vars_take_all(self.deep_view()->App_1);
                }
                r
            },
        }
    }
}

/// Replace every occurrence of `from` in `t` by `to`, building a new term.
fn rewritten(t: &Term, from: &Term, to: &Term) -> (r: Term)
    ensures
        r.deep_view() == t.deep_view().replaced(from.deep_view(), to.deep_view()),
    decreases t,
{
    if t.same_as(from) {
        return to.clone();
    }
    match t {
        Term::Variable(v) => Term::Variable(v.clone()),
        Term::Function(n, args) => {
            let mut new_args: Vec<Term> = Vec::new();
            let mut i: usize = 0;
            while i < args.len()
                invariant
                    i <= args.len(),
                    t == Term::Function(*n, *args),
                    t.deep_view() != from.deep_view(),
                    new_args@.len() == i,
                    forall|j: int|
                        0 <= j < i ==> new_args@[j].deep_view() == args@[j].deep_view().replaced(
                            from.deep_view(),
                            to.deep_view(),
                        ),
                decreases args.len() - i,
            {
                new_args.push(rewritten(&args[i], from, to));
                i += 1;
            }
            let r = Term::Function(n.clone(), new_args);
            proof {
                let rv = t.deep_view().replaced(from.deep_view(), to.deep_view());
                lemma_terms_replaced_pointwise(
                    t.deep_view()->App_1,
                    from.deep_view(),
                    to.deep_view(),
                );
                assert(r.deep_view()->App_1 =~= rv->App_1);
            }
            r
        },
    }
}

/// `terms_replaced` maps each element pointwise.
pub proof fn lemma_terms_replaced_pointwise(ts: Seq<SpecTerm>, from: SpecTerm, to: SpecTerm)
    ensures
        terms_replaced(ts, from, to).len() == ts.len(),
        forall|i: int|
            0 <= i < ts.len() ==> #[trigger] terms_replaced(ts, from, to)[i] == ts[i].replaced(
                from,
                to,
            ),
    decreases ts.len(),
{
    if ts.len() > 0 {
        lemma_terms_replaced_pointwise(ts.drop_first(), from, to);
        assert forall|i: int| 0 <= i < ts.len() implies #[trigger] terms_replaced(ts, from, to)[i]
            == ts[i].replaced(from, to) by {
            if i > 0 {
                assert(terms_replaced(ts, from, to)[i] == terms_replaced(
                    ts.drop_first(),
                    from,
                    to,
                )[i - 1]);
                assert(ts.drop_first()[i - 1] == ts[i]);
            }
        }
    }
}

/// The variable names of the first `i` terms of `ts`.
pub open spec fn terms_vars_take(ts: Seq<SpecTerm>, i: int) -> Set<Seq<char>> {
    terms_vars(ts.take(i))
}

/// Extending the prefix by one element unions in that element's variables.
pub proof fn lemma_terms_vars_take(ts: Seq<SpecTerm>, i: int)
    requires
        0 <= i < ts.len(),
    ensures
        terms_vars_take(ts, i + 1) == terms_vars_take(ts, i).union(ts[i].vars()),
    decreases i,
{
    if i == 0 {
        assert(ts.take(1).drop_first() =~= ts.take(0));
        assert(ts.take(1)[0] == ts[0]);
        assert(terms_vars_take(ts, 1) =~= terms_vars_take(ts, 0).union(ts[0].vars()));
    } else {
        lemma_terms_vars_take(ts.drop_first(), i - 1);
        assert(ts.take(i + 1).drop_first() =~= ts.drop_first().take(i));
        assert(ts.take(i).drop_first() =~= ts.drop_first().take(i - 1));
        assert(ts.take(i + 1)[0] == ts[0]);
        assert(ts.take(i)[0] == ts[0]);
        assert(terms_vars_take(ts, i + 1) =~= terms_vars_take(ts, i).union(ts[i].vars()));
    }
}

/// The full prefix covers all of `ts`.
pub proof fn lemma_terms_vars_take_all(ts: Seq<SpecTerm>)
    ensures
        terms_vars_take(ts, ts.len() as int) == terms_vars(ts),
{
    assert(ts.take(ts.len() as int) =~= ts);
}

/// If some indexed term of `ts` contains `sub`, so does `ts` as a whole.
pub proof fn lemma_terms_contain_index(ts: Seq<SpecTerm>, sub: SpecTerm, i: int)
    requires
        0 <= i < ts.len(),
        ts[i].contains_term(sub),
    ensures
        terms_contain(ts, sub),
    decreases ts.len(),
{
    if i > 0 {
        lemma_terms_contain_index(ts.drop_first(), sub, i - 1);
    }
}

/// Extending a prefix of `ts` by one element adds exactly that element's
/// occurrences to the containment test.
pub proof fn lemma_terms_contain_take(ts: Seq<SpecTerm>, sub: SpecTerm, i: int)
    requires
        0 <= i < ts.len(),
    ensures
        terms_contain(ts.take(i + 1), sub) == (terms_contain(ts.take(i), sub)
            || ts[i].contains_term(sub)),
    decreases i,
{
    if i == 0 {
        assert(ts.take(0).len() == 0);
        assert(ts.take(1)[0] == ts[0]);
        assert(ts.take(1).drop_first() =~= ts.take(0));
    } else {
        lemma_terms_contain_take(ts.drop_first(), sub, i - 1);
        assert(ts.take(i + 1).drop_first() =~= ts.drop_first().take(i));
        assert(ts.take(i).drop_first() =~= ts.drop_first().take(i - 1));
        assert(ts.take(i + 1)[0] == ts[0]);
        assert(ts.take(i)[0] == ts[0]);
    }
}


/// The text of a term: a variable or head name, with parenthesized
/// comma-separated arguments when there are any.
pub open spec fn term_text(t: SpecTerm) -> Seq<char>
    decreases t,
{
    match t {
        SpecTerm::Var(v) => v,
        SpecTerm::App(v, args) => if args.len() == 0 {
            v
        } else {
            v + "("@ + terms_text(args) + ")"@
        },
    }
}

/// The text of a term list, separated by commas.
pub open spec fn terms_text(ts: Seq<SpecTerm>) -> Seq<char>
    decreases ts,
{
    if ts.len() == 0 {
        Seq::empty()
    } else if ts.len() == 1 {
        term_text(ts[0])
    } else {
        term_text(ts[0]) + ", "@ + terms_text(ts.drop_first())
    }
}

impl Term {
    /// Render the term as text.
    pub fn to_text(&self) -> (r: String)
        ensures
            r@ == term_text(self.deep_view()),
        decreases term_size(self.deep_view()), 0int,
    {
        match self {
            Term::Variable(v) => v.clone(),
            Term::Function(v, args) => {
                proof {
                    lemma_app_view(*self);
                }
                if args.len() == 0 {
                    v.clone()
                } else {
                    proof {
                        reveal_strlit("(");
                        reveal_strlit(")");
                    }
                    let mut r = v.clone();
                    r.append("(");
                    let inner = args_text(args);
                    r.append(inner.as_str());
                    r.append(")");
                    proof {
                        assert(r@ =~= term_text(self.deep_view()));
                    }
                    r
                }
            },
        }
    }
}

/// Render a term list as text, separated by commas.
pub fn args_text(args: &Vec<Term>) -> (r: String)
    ensures
        r@ == terms_text(args.deep_view()),
    decreases terms_size(args.deep_view()), 1int,
{
    let mut r = String::new();
    proof {
        reveal_strlit(", ");
    }
    let mut i: usize = 0;
    while i < args.len()
        invariant
            i <= args.len(),
            r@ == terms_text_take(args.deep_view(), i as int) + (if 0 < i < args@.len() {
                ", "@
            } else {
                Seq::<char>::empty()
            }),
        decreases args.len() - i,
    {
        proof {
            lemma_terms_size_index(args.deep_view(), i as int);
            assert(args.deep_view()[i as int] == args@[i as int].deep_view());
        }
        let sub = args[i].to_text();
        r.append(sub.as_str());
        if i < args.len() - 1 {
            r.append(", ");
        }
        proof {
            reveal_strlit(", ");
            lemma_terms_text_take(args.deep_view(), i as int);
            if i + 1 < args@.len() {
                assert(r@ =~= terms_text_take(args.deep_view(), i + 1) + ", "@);
            } else {
                assert(r@ =~= terms_text_take(args.deep_view(), i + 1));
            }
        }
        i += 1;
    }
    proof {
        if args@.len() == 0 {
            assert(args.deep_view().take(0) =~= Seq::<SpecTerm>::empty());
        } else {
            assert(args.deep_view().take(args@.len() as int) =~= args.deep_view());
        }
    }
    r
}

/// Each term of a list weighs no more than the whole list.
pub proof fn lemma_terms_size_index(ts: Seq<SpecTerm>, i: int)
    requires
        0 <= i < ts.len(),
    ensures
        term_size(ts[i]) <= terms_size(ts),
    decreases ts.len(),
{
    if i > 0 {
        lemma_terms_size_index(ts.drop_first(), i - 1);
    }
}

/// The text of the first `i` terms of `ts`.
pub open spec fn terms_text_take(ts: Seq<SpecTerm>, i: int) -> Seq<char> {
    terms_text(ts.take(i))
}

/// Extending the rendered prefix by one element appends a separator
/// (between items) and that element's text.
pub proof fn lemma_terms_text_take(ts: Seq<SpecTerm>, i: int)
    requires
        0 <= i < ts.len(),
    ensures
        terms_text_take(ts, i + 1) =~= terms_text_take(ts, i) + (if i > 0 {
            ", "@
        } else {
            Seq::<char>::empty()
        }) + term_text(ts[i]),
    decreases i,
{
    if i == 0 {
        assert(ts.take(1) =~= seq![ts[0]]);
        assert(ts.take(0) =~= Seq::<SpecTerm>::empty());
        assert(terms_text_take(ts, 1) == term_text(ts[0]));
    } else {
        lemma_terms_text_take(ts.drop_first(), i - 1);
        assert(ts.take(i + 1).drop_first() =~= ts.drop_first().take(i));
        assert(ts.take(i).drop_first() =~= ts.drop_first().take(i - 1));
        assert(ts.take(i + 1)[0] == ts[0]);
        assert(ts.take(i)[0] == ts[0]);
        assert(ts.drop_first()[i - 1] == ts[i]);
        if i == 1 {
            assert(ts.take(2) =~= seq![ts[0], ts[1]]);
            assert(ts.take(2).drop_first() =~= seq![ts[1]]);
            assert(ts.take(1) =~= seq![ts[0]]);
        }
    }
}

} // verus!
