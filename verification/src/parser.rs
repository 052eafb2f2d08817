//! The parser from tokens to terms and formulas.
//!
//! In formula position an identifier heads a relation; in term position it
//! is a variable when a quantifier binds it, else a function symbol (a
//! constant when it has no arguments). Operators in decreasing precedence:
//! `~`, `/\` and `\/` (left-associative), `=>` (right-associative),
//! `forall v, F` and `exists v, F` (lowest).

use vstd::prelude::*;
use crate::error::{Error, ErrorKind};
use crate::formula::{Formula, SpecFormula};
use crate::lexer::{Lexer, SpecToken, Token};
use crate::term::{SpecTerm, Term};

verus! {

broadcast use vstd::std_specs::vec::group_vec_axioms;

/// Parse a formula: a quantified formula or an implication level.
pub open spec fn sp_formula(toks: Seq<SpecToken>, i: int, bound: Seq<Seq<char>>) -> Option<
    (SpecFormula, int),
>
    decreases toks.len() - i, 9int,
{
    if 0 <= i < toks.len() && (toks[i] is Forall || toks[i] is Exists) {
        if i + 2 < toks.len() && toks[i + 1] is Ident && toks[i + 2] is Comma {
            let v = toks[i + 1]->Ident_0;
            match sp_formula(toks, i + 3, bound.push(v)) {
                Some((f, j)) => if toks[i] is Forall {
                    Some((SpecFormula::Forall(v, Box::new(f)), j))
                } else {
                    Some((SpecFormula::Exists(v, Box::new(f)), j))
                },
                None => None,
            }
        } else {
            None
        }
    } else {
        sp_impl(toks, i, bound)
    }
}

/// Parse an implication level: a disjunction level, optionally followed by
/// `=>` and a whole formula (right-associative).
pub open spec fn sp_impl(toks: Seq<SpecToken>, i: int, bound: Seq<Seq<char>>) -> Option<
    (SpecFormula, int),
>
    decreases toks.len() - i, 7int,
{
    match sp_or(toks, i, bound) {
        None => None,
        Some((a, j)) => if i <= j < toks.len() && toks[j] is DoubleArrow {
            match sp_formula(toks, j + 1, bound) {
                Some((b, k)) => Some((SpecFormula::Implies(Box::new(a), Box::new(b)), k)),
                None => None,
            }
        } else {
            Some((a, j))
        },
    }
}

/// Parse a disjunction level: negation levels joined by `\/` or `/\`
/// (left-associative, equal precedence).
pub open spec fn sp_or(toks: Seq<SpecToken>, i: int, bound: Seq<Seq<char>>) -> Option<
    (SpecFormula, int),
>
    decreases toks.len() - i, 5int,
{
    match sp_not(toks, i, bound) {
        None => None,
        Some((a, j)) => if i < j <= toks.len() {
            sp_or_rest(toks, j, bound, a)
        } else {
            None
        },
    }
}

/// Parse the continuation of a disjunction level, folding to the left.
pub open spec fn sp_or_rest(toks: Seq<SpecToken>, i: int, bound: Seq<Seq<char>>, acc: SpecFormula)
    -> Option<(SpecFormula, int)>
    decreases toks.len() - i, 6int,
{
    if 0 <= i < toks.len() && (toks[i] is Or || toks[i] is And) {
        match sp_not(toks, i + 1, bound) {
            Some((b, j)) => if i + 1 < j <= toks.len() {
                let joined = if toks[i] is Or {
                    SpecFormula::Or(Box::new(acc), Box::new(b))
                } else {
                    SpecFormula::And(Box::new(acc), Box::new(b))
                };
                sp_or_rest(toks, j, bound, joined)
            } else {
                None
            },
            None => None,
        }
    } else {
        Some((acc, i))
    }
}

/// Parse a negation level: prime marks of `~`, then an atom.
pub open spec fn sp_not(toks: Seq<SpecToken>, i: int, bound: Seq<Seq<char>>) -> Option<
    (SpecFormula, int),
>
    decreases toks.len() - i, 3int,
{
    if 0 <= i < toks.len() && toks[i] is Wave {
        match sp_not(toks, i + 1, bound) {
            Some((f, j)) => Some((SpecFormula::Not(Box::new(f)), j)),
            None => None,
        }
    } else {
        sp_atom(toks, i, bound)
    }
}

/// Parse an atom: `falsum`, a parenthesized formula, or a relation with an
/// optional argument list.
pub open spec fn sp_atom(toks: Seq<SpecToken>, i: int, bound: Seq<Seq<char>>) -> Option<
    (SpecFormula, int),
>
    decreases toks.len() - i, 2int,
{
    if i < 0 || i >= toks.len() {
        None
    } else if toks[i] is Falsum {
        Some((SpecFormula::Falsum, i + 1))
    } else if toks[i] is OpenParen {
        match sp_formula(toks, i + 1, bound) {
            Some((f, j)) => if j < toks.len() && toks[j] is CloseParen {
                Some((f, j + 1))
            } else {
                None
            },
            None => None,
        }
    } else if toks[i] is Ident {
        let v = toks[i]->Ident_0;
        if i + 1 < toks.len() && toks[i + 1] is OpenParen {
            match sp_terms(toks, i + 2, bound) {
                Some((args, j)) => if j < toks.len() && toks[j] is CloseParen {
                    Some((SpecFormula::Rel(v, args), j + 1))
                } else {
                    None
                },
                None => None,
            }
        } else {
            Some((SpecFormula::Rel(v, Seq::empty()), i + 1))
        }
    } else {
        None
    }
}

/// Parse a non-empty comma-separated term list.
pub open spec fn sp_terms(toks: Seq<SpecToken>, i: int, bound: Seq<Seq<char>>) -> Option<
    (Seq<SpecTerm>, int),
>
    decreases toks.len() - i, 2int,
{
    match sp_term(toks, i, bound) {
        None => None,
        Some((t, j)) => if i < j <= toks.len() {
            sp_terms_rest(toks, j, bound, seq![t])
        } else {
            None
        },
    }
}

/// Parse the continuation of a term list.
pub open spec fn sp_terms_rest(
    toks: Seq<SpecToken>,
    i: int,
    bound: Seq<Seq<char>>,
    acc: Seq<SpecTerm>,
) -> Option<(Seq<SpecTerm>, int)>
    decreases toks.len() - i, 3int,
{
    if 0 <= i < toks.len() && toks[i] is Comma {
        match sp_term(toks, i + 1, bound) {
            Some((t, j)) => if i + 1 < j <= toks.len() {
                sp_terms_rest(toks, j, bound, acc.push(t))
            } else {
                None
            },
            None => None,
        }
    } else {
        Some((acc, i))
    }
}

/// Parse one term: an identifier, with an optional argument list. A bare
/// identifier bound by an enclosing quantifier is a variable; any other is
/// a constant.
pub open spec fn sp_term(toks: Seq<SpecToken>, i: int, bound: Seq<Seq<char>>) -> Option<
    (SpecTerm, int),
>
    decreases toks.len() - i, 1int,
{
    if 0 <= i < toks.len() && toks[i] is Ident {
        let v = toks[i]->Ident_0;
        if i + 1 < toks.len() && toks[i + 1] is OpenParen {
            match sp_terms(toks, i + 2, bound) {
                Some((args, j)) => if j < toks.len() && toks[j] is CloseParen {
                    Some((SpecTerm::App(v, args), j + 1))
                } else {
                    None
                },
                None => None,
            }
        } else {
            if bound.contains(v) {
                Some((SpecTerm::Var(v), i + 1))
            } else {
                Some((SpecTerm::App(v, Seq::empty()), i + 1))
            }
        }
    } else {
        None
    }
}


/// The bound list extended by one name.
fn with_bound(bound: &Vec<String>, v: &String) -> (r: Vec<String>)
    ensures
        r.deep_view() == bound.deep_view().push(v@),
{
    let mut r: Vec<String> = Vec::new();
    let mut i: usize = 0;
    while i < bound.len()
        invariant
            i <= bound.len(),
            r@.len() == i,
            forall|j: int| 0 <= j < i ==> (#[trigger] r@[j])@ == bound@[j]@,
        decreases bound.len() - i,
    {
        r.push(bound[i].clone());
        i += 1;
    }
    r.push(v.clone());
    proof {
        assert(r.deep_view() =~= bound.deep_view().push(v@));
    }
    r
}

/// Whether the name is bound by an enclosing quantifier.
fn is_bound(bound: &Vec<String>, v: &String) -> (r: bool)
    ensures
        r == bound.deep_view().contains(v@),
{
    let mut i: usize = 0;
    while i < bound.len()
        invariant
            i <= bound.len(),
            forall|j: int| 0 <= j < i ==> bound.deep_view()[j] != v@,
        decreases bound.len() - i,
    {
        if bound[i].eq(v) {
            assert(bound.deep_view()[i as int] == v@);
            return true;
        }
        i += 1;
    }
    assert(!bound.deep_view().contains(v@));
    false
}

/// Parse a formula, as [`sp_formula`] describes.
pub fn ex_formula(toks: &Vec<Token>, i: usize, bound: &Vec<String>) -> (r: Option<
    (Formula, usize),
>)
    requires
        i <= toks@.len(),
    ensures
        match r {
            Some((f, j)) => sp_formula(toks.deep_view(), i as int, bound.deep_view()) == Some(
                (f.deep_view(), j as int),
            ) && i <= j <= toks@.len(),
            None => sp_formula(toks.deep_view(), i as int, bound.deep_view()) is None,
        },
    decreases toks@.len() - i, 9int,
{
    let quant = if i < toks.len() {
        match &toks[i] {
            Token::Forall => Some(true),
            Token::Exists => Some(false),
            _ => None,
        }
    } else {
        None
    };
    match quant {
        Some(universal) => {
            proof {
                assert(toks.deep_view()[i as int] == toks@[i as int].deep_view());
            }
            if toks.len() - i > 2 {
                proof {
                    assert(toks.deep_view()[i + 1] == toks@[i + 1].deep_view());
                    assert(toks.deep_view()[i + 2] == toks@[i + 2].deep_view());
                }
                let v = match &toks[i + 1] {
                    Token::Ident(v) => v.clone(),
                    _ => {
                        return None;
                    },
                };
                match &toks[i + 2] {
                    Token::Comma => {},
                    _ => {
                        return None;
                    },
                }
                let inner_bound = with_bound(bound, &v);
                match ex_formula(toks, i + 3, &inner_bound) {
                    Some((f, j)) => if universal {
                        Some((Formula::Forall(v, Box::new(f)), j))
                    } else {
                        Some((Formula::Exists(v, Box::new(f)), j))
                    },
                    None => None,
                }
            } else {
                None
            }
        },
        None => ex_impl(toks, i, bound),
    }
}

/// Parse an implication level, as [`sp_impl`] describes.
fn ex_impl(toks: &Vec<Token>, i: usize, bound: &Vec<String>) -> (r: Option<(Formula, usize)>)
    requires
        i <= toks@.len(),
    ensures
        match r {
            Some((f, j)) => sp_impl(toks.deep_view(), i as int, bound.deep_view()) == Some(
                (f.deep_view(), j as int),
            ) && i <= j <= toks@.len(),
            None => sp_impl(toks.deep_view(), i as int, bound.deep_view()) is None,
        },
    decreases toks@.len() - i, 7int,
{
    let (a, j) = match ex_or(toks, i, bound) {
        Some(x) => x,
        None => {
            return None;
        },
    };
    if j < toks.len() && matches!(&toks[j], Token::DoubleArrow) {
        proof {
            assert(toks.deep_view()[j as int] == toks@[j as int].deep_view());
        }
        match ex_formula(toks, j + 1, bound) {
            Some((b, k)) => Some((Formula::Implies(Box::new(a), Box::new(b)), k)),
            None => None,
        }
    } else {
        proof {
            if j < toks@.len() {
                assert(toks.deep_view()[j as int] == toks@[j as int].deep_view());
            }
        }
        Some((a, j))
    }
}

/// Parse a disjunction level, as [`sp_or`] describes.
fn ex_or(toks: &Vec<Token>, i: usize, bound: &Vec<String>) -> (r: Option<(Formula, usize)>)
    requires
        i <= toks@.len(),
    ensures
        match r {
            Some((f, j)) => sp_or(toks.deep_view(), i as int, bound.deep_view()) == Some(
                (f.deep_view(), j as int),
            ) && i < j <= toks@.len(),
            None => sp_or(toks.deep_view(), i as int, bound.deep_view()) is None,
        },
    decreases toks@.len() - i, 5int,
{
    match ex_not(toks, i, bound) {
        None => None,
        Some((a, j)) => ex_or_rest(toks, j, bound, a),
    }
}

/// Parse the continuation of a disjunction level, as [`sp_or_rest`]
/// describes.
fn ex_or_rest(toks: &Vec<Token>, i: usize, bound: &Vec<String>, acc: Formula) -> (r: Option<
    (Formula, usize),
>)
    requires
        i <= toks@.len(),
    ensures
        match r {
            Some((f, j)) => sp_or_rest(toks.deep_view(), i as int, bound.deep_view(), acc.deep_view())
                == Some((f.deep_view(), j as int)) && i <= j <= toks@.len(),
            None => sp_or_rest(toks.deep_view(), i as int, bound.deep_view(), acc.deep_view())
                is None,
        },
    decreases toks@.len() - i, 6int,
{
    let op_or = if i < toks.len() {
        match &toks[i] {
            Token::Or => Some(true),
            Token::And => Some(false),
            _ => None,
        }
    } else {
        None
    };
    proof {
        if i < toks@.len() {
            assert(toks.deep_view()[i as int] == toks@[i as int].deep_view());
        }
    }
    match op_or {
        None => Some((acc, i)),
        Some(is_or) => {
            match ex_not(toks, i + 1, bound) {
                Some((b, j)) => {
                    let joined = if is_or {
                        Formula::Or(Box::new(acc), Box::new(b))
                    } else {
                        Formula::And(Box::new(acc), Box::new(b))
                    };
                    ex_or_rest(toks, j, bound, joined)
                },
                None => None,
            }
        },
    }
}

/// Parse a negation level, as [`sp_not`] describes.
fn ex_not(toks: &Vec<Token>, i: usize, bound: &Vec<String>) -> (r: Option<(Formula, usize)>)
    requires
        i <= toks@.len(),
    ensures
        match r {
            Some((f, j)) => sp_not(toks.deep_view(), i as int, bound.deep_view()) == Some(
                (f.deep_view(), j as int),
            ) && i < j <= toks@.len(),
            None => sp_not(toks.deep_view(), i as int, bound.deep_view()) is None,
        },
    decreases toks@.len() - i, 3int,
{
    if i < toks.len() && matches!(&toks[i], Token::Wave) {
        proof {
            assert(toks.deep_view()[i as int] == toks@[i as int].deep_view());
        }
        match ex_not(toks, i + 1, bound) {
            Some((f, j)) => Some((Formula::Not(Box::new(f)), j)),
            None => None,
        }
    } else {
        proof {
            if i < toks@.len() {
                assert(toks.deep_view()[i as int] == toks@[i as int].deep_view());
            }
        }
        ex_atom(toks, i, bound)
    }
}

/// Parse an atom, as [`sp_atom`] describes.
fn ex_atom(toks: &Vec<Token>, i: usize, bound: &Vec<String>) -> (r: Option<(Formula, usize)>)
    requires
        i <= toks@.len(),
    ensures
        match r {
            Some((f, j)) => sp_atom(toks.deep_view(), i as int, bound.deep_view()) == Some(
                (f.deep_view(), j as int),
            ) && i < j <= toks@.len(),
            None => sp_atom(toks.deep_view(), i as int, bound.deep_view()) is None,
        },
    decreases toks@.len() - i, 2int,
{
    if i >= toks.len() {
        return None;
    }
    proof {
        assert(toks.deep_view()[i as int] == toks@[i as int].deep_view());
    }
    match &toks[i] {
        Token::Falsum => Some((Formula::Falsum, i + 1)),
        Token::OpenParen => {
            match ex_formula(toks, i + 1, bound) {
                Some((f, j)) => {
                    if j < toks.len() && matches!(&toks[j], Token::CloseParen) {
                        proof {
                            assert(toks.deep_view()[j as int] == toks@[j as int].deep_view());
                        }
                        Some((f, j + 1))
                    } else {
                        proof {
                            if j < toks@.len() {
                                assert(toks.deep_view()[j as int] == toks@[j as int].deep_view());
                            }
                        }
                        None
                    }
                },
                None => None,
            }
        },
        Token::Ident(v) => {
            if toks.len() - i > 1 && matches!(&toks[i + 1], Token::OpenParen) {
                proof {
                    assert(toks.deep_view()[i + 1] == toks@[i + 1].deep_view());
                }
                match ex_terms(toks, i + 2, bound) {
                    Some((args, j)) => {
                        if j < toks.len() && matches!(&toks[j], Token::CloseParen) {
                            proof {
                                assert(toks.deep_view()[j as int] == toks@[j as int].deep_view());
                                crate::formula::lemma_rel_view(
                                    Formula::Relation(*v, args),
                                );
                            }
                            let r = Formula::Relation(v.clone(), args);
                            proof {
                                assert(r.deep_view()->Rel_1 =~= sp_atom(
                                    toks.deep_view(),
                                    i as int,
                                    bound.deep_view(),
                                )->Some_0.0->Rel_1);
                            }
                            Some((r, j + 1))
                        } else {
                            proof {
                                if j < toks@.len() {
                                    assert(toks.deep_view()[j as int]
                                        == toks@[j as int].deep_view());
                                }
                            }
                            None
                        }
                    },
                    None => None,
                }
            } else {
                proof {
                    if i + 1 < toks@.len() {
                        assert(toks.deep_view()[i + 1] == toks@[i + 1].deep_view());
                    }
                }
                let r = Formula::Relation(v.clone(), Vec::new());
                proof {
                    assert(r.deep_view()->Rel_1 =~= Seq::<SpecTerm>::empty());
                }
                Some((r, i + 1))
            }
        },
        _ => None,
    }
}

/// Parse a non-empty term list, as [`sp_terms`] describes.
fn ex_terms(toks: &Vec<Token>, i: usize, bound: &Vec<String>) -> (r: Option<(Vec<Term>, usize)>)
    requires
        i <= toks@.len(),
    ensures
        match r {
            Some((ts, j)) => sp_terms(toks.deep_view(), i as int, bound.deep_view()) == Some(
                (ts.deep_view(), j as int),
            ) && i < j <= toks@.len(),
            None => sp_terms(toks.deep_view(), i as int, bound.deep_view()) is None,
        },
    decreases toks@.len() - i, 2int,
{
    match ex_term(toks, i, bound) {
        None => None,
        Some((t, j)) => {
            let mut acc: Vec<Term> = Vec::new();
            acc.push(t);
            proof {
                assert(acc.deep_view() =~= seq![
                    sp_term(toks.deep_view(), i as int, bound.deep_view())->Some_0.0,
                ]);
            }
            ex_terms_rest(toks, j, bound, acc)
        },
    }
}

/// Parse the continuation of a term list, as [`sp_terms_rest`] describes.
fn ex_terms_rest(toks: &Vec<Token>, i: usize, bound: &Vec<String>, acc: Vec<Term>) -> (r: Option<
    (Vec<Term>, usize),
>)
    requires
        i <= toks@.len(),
    ensures
        match r {
            Some((ts, j)) => sp_terms_rest(
                toks.deep_view(),
                i as int,
                bound.deep_view(),
                acc.deep_view(),
            ) == Some((ts.deep_view(), j as int)) && i <= j <= toks@.len(),
            None => sp_terms_rest(
                toks.deep_view(),
                i as int,
                bound.deep_view(),
                acc.deep_view(),
            ) is None,
        },
    decreases toks@.len() - i, 3int,
{
    if i < toks.len() && matches!(&toks[i], Token::Comma) {
        proof {
            assert(toks.deep_view()[i as int] == toks@[i as int].deep_view());
        }
        match ex_term(toks, i + 1, bound) {
            Some((t, j)) => {
                let ghost acc_dv = acc.deep_view();
                let mut acc2 = acc;
                acc2.push(t);
                proof {
                    assert(acc2.deep_view() =~= acc_dv.push(
                        sp_term(toks.deep_view(), i + 1, bound.deep_view())->Some_0.0,
                    ));
                }
                ex_terms_rest(toks, j, bound, acc2)
            },
            None => None,
        }
    } else {
        proof {
            if i < toks@.len() {
                assert(toks.deep_view()[i as int] == toks@[i as int].deep_view());
            }
        }
        Some((acc, i))
    }
}

/// Parse one term, as [`sp_term`] describes.
pub fn ex_term(toks: &Vec<Token>, i: usize, bound: &Vec<String>) -> (r: Option<(Term, usize)>)
    requires
        i <= toks@.len(),
    ensures
        match r {
            Some((t, j)) => sp_term(toks.deep_view(), i as int, bound.deep_view()) == Some(
                (t.deep_view(), j as int),
            ) && i < j <= toks@.len(),
            None => sp_term(toks.deep_view(), i as int, bound.deep_view()) is None,
        },
    decreases toks@.len() - i, 1int,
{
    if i >= toks.len() {
        return None;
    }
    proof {
        assert(toks.deep_view()[i as int] == toks@[i as int].deep_view());
    }
    match &toks[i] {
        Token::Ident(v) => {
            if toks.len() - i > 1 && matches!(&toks[i + 1], Token::OpenParen) {
                proof {
                    assert(toks.deep_view()[i + 1] == toks@[i + 1].deep_view());
                }
                match ex_terms(toks, i + 2, bound) {
                    Some((args, j)) => {
                        if j < toks.len() && matches!(&toks[j], Token::CloseParen) {
                            proof {
                                assert(toks.deep_view()[j as int] == toks@[j as int].deep_view());
                                crate::term::lemma_app_view(Term::Function(*v, args));
                            }
                            let r = Term::Function(v.clone(), args);
                            proof {
                                assert(r.deep_view()->App_1 =~= sp_term(
                                    toks.deep_view(),
                                    i as int,
                                    bound.deep_view(),
                                )->Some_0.0->App_1);
                            }
                            Some((r, j + 1))
                        } else {
                            proof {
                                if j < toks@.len() {
                                    assert(toks.deep_view()[j as int]
                                        == toks@[j as int].deep_view());
                                }
                            }
                            None
                        }
                    },
                    None => None,
                }
            } else {
                proof {
                    if i + 1 < toks@.len() {
                        assert(toks.deep_view()[i + 1] == toks@[i + 1].deep_view());
                    }
                }
                if is_bound(bound, v) {
                    Some((Term::Variable(v.clone()), i + 1))
                } else {
                    let r = Term::Function(v.clone(), Vec::new());
                    proof {
                        assert(r.deep_view()->App_1 =~= Seq::<SpecTerm>::empty());
                    }
                    Some((r, i + 1))
                }
            }
        },
        _ => None,
    }
}


/// What a whole token stream parses to as a formula: the parse must use
/// every token.
pub open spec fn spec_parse_all_formula(toks: Seq<SpecToken>) -> Option<SpecFormula> {
    match sp_formula(toks, 0, Seq::empty()) {
        Some((f, j)) => if j == toks.len() {
            Some(f)
        } else {
            None
        },
        None => None,
    }
}

/// What a whole token stream parses to as a term: the parse must use every
/// token.
pub open spec fn spec_parse_all_term(toks: Seq<SpecToken>) -> Option<SpecTerm> {
    match sp_term(toks, 0, Seq::empty()) {
        Some((t, j)) => if j == toks.len() {
            Some(t)
        } else {
            None
        },
        None => None,
    }
}

/// What a text parses to as a formula.
pub open spec fn spec_formula_of_text(s: Seq<char>) -> Option<SpecFormula> {
    match crate::lexer::spec_lex(s) {
        Ok(toks) => spec_parse_all_formula(toks),
        Err(_) => None,
    }
}

/// What a text parses to as a term.
pub open spec fn spec_term_of_text(s: Seq<char>) -> Option<SpecTerm> {
    match crate::lexer::spec_lex(s) {
        Ok(toks) => spec_parse_all_term(toks),
        Err(_) => None,
    }
}

impl Formula {
    /// Creates a new formula by parsing a string. The whole string must
    /// form one formula.
    pub fn from_str(text: &str) -> (r: Result<Box<Formula>, String>)
        ensures
            match r {
                Ok(f) => spec_formula_of_text(text@) == Some(f.deep_view()),
                Err(m) => spec_formula_of_text(text@) is None && m@ == "Invalid formula"@,
            },
    {
        proof {
            reveal_strlit("Invalid formula");
        }
        let toks = match crate::lexer::lex(text) {
            Ok(t) => t,
            Err(_) => {
                return Err(String::from_str("Invalid formula"));
            },
        };
        let no_bound: Vec<String> = Vec::new();
        proof {
            assert(no_bound.deep_view() =~= Seq::<Seq<char>>::empty());
        }
        match ex_formula(&toks, 0, &no_bound) {
            Some((f, j)) => {
                if j == toks.len() {
                    Ok(Box::new(f))
                } else {
                    Err(String::from_str("Invalid formula"))
                }
            },
            None => Err(String::from_str("Invalid formula")),
        }
    }

    /// Parse a formula out of all the remaining tokens of the lexer.
    pub fn parse(lxr: &mut Lexer) -> (r: Result<Formula, Error>)
        ensures
            match r {
                Ok(f) => !old(lxr).spec_failed() && spec_parse_all_formula(old(lxr).remaining())
                    == Some(f.deep_view()) && final(lxr).remaining().len() == 0,
                Err(e) => e.kind() == ErrorKind::InvalidArguments && (old(lxr).spec_failed()
                    || spec_parse_all_formula(old(lxr).remaining()) is None),
            },
    {
        proof {
            reveal_strlit("Invalid formula");
        }
        let toks = match lxr.take_rest() {
            Ok(t) => t,
            Err(_) => {
                return Err(Error::InvalidArguments(String::from_str("Invalid formula")));
            },
        };
        let no_bound: Vec<String> = Vec::new();
        proof {
            assert(no_bound.deep_view() =~= Seq::<Seq<char>>::empty());
        }
        match ex_formula(&toks, 0, &no_bound) {
            Some((f, j)) => {
                if j == toks.len() {
                    Ok(f)
                } else {
                    Err(Error::InvalidArguments(String::from_str("Invalid formula")))
                }
            },
            None => Err(Error::InvalidArguments(String::from_str("Invalid formula"))),
        }
    }
}

impl Term {
    /// Creates a new term by parsing a string. The whole string must form
    /// one term.
    pub fn from_str(text: &str) -> (r: Result<Box<Term>, String>)
        ensures
            match r {
                Ok(t) => spec_term_of_text(text@) == Some(t.deep_view()),
                Err(m) => spec_term_of_text(text@) is None && m@ == "Invalid term"@,
            },
    {
        proof {
            reveal_strlit("Invalid term");
        }
        let toks = match crate::lexer::lex(text) {
            Ok(t) => t,
            Err(_) => {
                return Err(String::from_str("Invalid term"));
            },
        };
        let no_bound: Vec<String> = Vec::new();
        proof {
            assert(no_bound.deep_view() =~= Seq::<Seq<char>>::empty());
        }
        match ex_term(&toks, 0, &no_bound) {
            Some((t, j)) => {
                if j == toks.len() {
                    Ok(Box::new(t))
                } else {
                    Err(String::from_str("Invalid term"))
                }
            },
            None => Err(String::from_str("Invalid term")),
        }
    }

    /// Parse a term out of all the remaining tokens of the lexer.
    pub fn parse(lxr: &mut Lexer) -> (r: Result<Term, Error>)
        ensures
            match r {
                Ok(t) => !old(lxr).spec_failed() && spec_parse_all_term(old(lxr).remaining())
                    == Some(t.deep_view()) && final(lxr).remaining().len() == 0,
                Err(e) => e.kind() == ErrorKind::InvalidArguments && (old(lxr).spec_failed()
                    || spec_parse_all_term(old(lxr).remaining()) is None),
            },
    {
        proof {
            reveal_strlit("Invalid term");
        }
        let toks = match lxr.take_rest() {
            Ok(t) => t,
            Err(_) => {
                return Err(Error::InvalidArguments(String::from_str("Invalid term")));
            },
        };
        let no_bound: Vec<String> = Vec::new();
        proof {
            assert(no_bound.deep_view() =~= Seq::<Seq<char>>::empty());
        }
        match ex_term(&toks, 0, &no_bound) {
            Some((t, j)) => {
                if j == toks.len() {
                    Ok(t)
                } else {
                    Err(Error::InvalidArguments(String::from_str("Invalid term")))
                }
            },
            None => Err(Error::InvalidArguments(String::from_str("Invalid term"))),
        }
    }
}


/// The token rendering of a term: its text, token by token.
pub open spec fn term_toks(t: SpecTerm) -> Seq<SpecToken>
    decreases t,
{
    match t {
        SpecTerm::Var(v) => seq![SpecToken::Ident(v)],
        SpecTerm::App(v, args) => if args.len() == 0 {
            seq![SpecToken::Ident(v)]
        } else {
            seq![SpecToken::Ident(v), SpecToken::OpenParen] + terms_toks(args) + seq![
                SpecToken::CloseParen,
            ]
        },
    }
}

/// The token rendering of a term list, comma-separated.
pub open spec fn terms_toks(ts: Seq<SpecTerm>) -> Seq<SpecToken>
    decreases ts,
{
    if ts.len() == 0 {
        Seq::empty()
    } else if ts.len() == 1 {
        term_toks(ts[0])
    } else {
        term_toks(ts[0]) + seq![SpecToken::Comma] + terms_toks(ts.drop_first())
    }
}

/// The variable discipline the parser maintains: a variable is bound by an
/// enclosing quantifier, and a bare constant is not.
pub open spec fn term_wf(bound: Seq<Seq<char>>, t: SpecTerm) -> bool
    decreases t,
{
    match t {
        SpecTerm::Var(v) => bound.contains(v),
        SpecTerm::App(v, args) => (args.len() == 0 ==> !bound.contains(v)) && terms_wf(
            bound,
            args,
        ),
    }
}

/// The variable discipline over a term list.
pub open spec fn terms_wf(bound: Seq<Seq<char>>, ts: Seq<SpecTerm>) -> bool
    decreases ts,
{
    if ts.len() == 0 {
        true
    } else {
        term_wf(bound, ts[0]) && terms_wf(bound, ts.drop_first())
    }
}

/// Parsing inverts a term's token rendering: wherever the tokens of a
/// well-formed term stand, not followed by an opening parenthesis, the
/// parser reads back exactly that term.
pub proof fn lemma_term_roundtrip(
    toks: Seq<SpecToken>,
    i: int,
    t: SpecTerm,
    bound: Seq<Seq<char>>,
)
    requires
        0 <= i,
        i + term_toks(t).len() <= toks.len(),
        toks.subrange(i, i + term_toks(t).len()) == term_toks(t),
        term_wf(bound, t),
        i + term_toks(t).len() < toks.len() ==> !(toks[i + term_toks(t).len()] is OpenParen),
    ensures
        sp_term(toks, i, bound) == Some((t, i + term_toks(t).len())),
    decreases crate::term::term_size(t), 0int,
{
    let n = term_toks(t).len() as int;
    assert(toks[i] == toks.subrange(i, i + n)[0]);
    assert(toks[i] == term_toks(t)[0]);
    match t {
        SpecTerm::Var(v) => {
            assert(toks[i] == SpecToken::Ident(v));
            assert(i + 1 < toks.len() ==> !(toks[i + 1] is OpenParen));
            assert(bound.contains(v));
        },
        SpecTerm::App(v, args) => {
            if args.len() == 0 {
                assert(toks[i] == SpecToken::Ident(v));
                assert(i + 1 < toks.len() ==> !(toks[i + 1] is OpenParen));
                assert(!bound.contains(v));
                assert(args =~= Seq::<SpecTerm>::empty());
            } else {
                let inner = terms_toks(args);
                assert(term_toks(t) == seq![SpecToken::Ident(v), SpecToken::OpenParen] + inner
                    + seq![SpecToken::CloseParen]);
                assert(toks[i + 1] == toks.subrange(i, i + n)[1]);
                assert(toks[i + 1] == term_toks(t)[1]);
                assert(toks[i + 1] is OpenParen);
                assert(toks.subrange(i + 2, i + 2 + inner.len()) =~= inner) by {
                    assert forall|k: int| 0 <= k < inner.len() implies toks.subrange(
                        i + 2,
                        i + 2 + inner.len(),
                    )[k] == inner[k] by {
                        assert(toks[i + 2 + k] == term_toks(t)[2 + k]);
                        assert(term_toks(t)[2 + k] == inner[k]);
                    }
                }
                assert(toks[i + 2 + inner.len()] == toks.subrange(i, i + n)[n - 1]);
                assert(toks[i + 2 + inner.len()] == term_toks(t)[n - 1]);
                assert(toks[i + 2 + inner.len()] is CloseParen);
                lemma_terms_roundtrip(toks, i + 2, args, bound);
            }
        },
    }
    assert(sp_term(toks, i, bound) =~= Some((t, i + n)));
}

/// Parsing inverts a term list's token rendering, up to the closing
/// parenthesis that follows it.
pub proof fn lemma_terms_roundtrip(
    toks: Seq<SpecToken>,
    i: int,
    ts: Seq<SpecTerm>,
    bound: Seq<Seq<char>>,
)
    requires
        0 <= i,
        ts.len() > 0,
        i + terms_toks(ts).len() < toks.len(),
        toks.subrange(i, i + terms_toks(ts).len()) == terms_toks(ts),
        terms_wf(bound, ts),
        toks[i + terms_toks(ts).len()] is CloseParen,
    ensures
        sp_terms(toks, i, bound) == Some((ts, i + terms_toks(ts).len())),
    decreases crate::term::terms_size(ts), 1int,
{
    let n0 = term_toks(ts[0]).len() as int;
    let n = terms_toks(ts).len() as int;
    assert(toks.subrange(i, i + n0) =~= term_toks(ts[0])) by {
        assert forall|k: int| 0 <= k < n0 implies toks.subrange(i, i + n0)[k] == term_toks(
            ts[0],
        )[k] by {
            assert(toks[i + k] == toks.subrange(i, i + n)[k]);
            assert(toks.subrange(i, i + n)[k] == terms_toks(ts)[k]);
            if ts.len() > 1 {
                assert(terms_toks(ts)[k] == (term_toks(ts[0]) + seq![SpecToken::Comma]
                    + terms_toks(ts.drop_first()))[k]);
            }
        }
    }
    if ts.len() == 1 {
        assert(terms_toks(ts) == term_toks(ts[0]));
        lemma_term_roundtrip(toks, i, ts[0], bound);
        assert(!(toks[i + n0] is Comma));
        assert(sp_terms_rest(toks, i + n0, bound, seq![ts[0]]) == Some(
            (seq![ts[0]], i + n0),
        ));
        assert(seq![ts[0]] =~= ts);
    } else {
        let rest = ts.drop_first();
        let rest_toks = terms_toks(rest);
        assert(terms_toks(ts) == term_toks(ts[0]) + seq![SpecToken::Comma] + rest_toks);
        assert(toks[i + n0] == toks.subrange(i, i + n)[n0]);
        assert(toks[i + n0] == terms_toks(ts)[n0]);
        assert(toks[i + n0] is Comma);
        lemma_term_roundtrip(toks, i, ts[0], bound);
        assert(crate::term::term_size(ts[0]) >= 1);
        assert(toks.subrange(i + n0 + 1, i + n) =~= rest_toks) by {
            assert forall|k: int| 0 <= k < rest_toks.len() implies toks.subrange(
                i + n0 + 1,
                i + n,
            )[k] == rest_toks[k] by {
                assert(toks[i + n0 + 1 + k] == terms_toks(ts)[n0 + 1 + k]);
                assert(terms_toks(ts)[n0 + 1 + k] == rest_toks[k]);
            }
        }
        lemma_terms_rest_roundtrip(toks, i + n0, rest, seq![ts[0]], bound);
        assert(seq![ts[0]] + rest =~= ts);
    }
}

/// Parsing inverts the continuation of a comma-separated term list.
pub proof fn lemma_terms_rest_roundtrip(
    toks: Seq<SpecToken>,
    i: int,
    remaining: Seq<SpecTerm>,
    acc: Seq<SpecTerm>,
    bound: Seq<Seq<char>>,
)
    requires
        0 <= i,
        remaining.len() > 0,
        i + 1 + terms_toks(remaining).len() < toks.len(),
        toks[i] is Comma,
        toks.subrange(i + 1, i + 1 + terms_toks(remaining).len()) == terms_toks(remaining),
        terms_wf(bound, remaining),
        toks[i + 1 + terms_toks(remaining).len()] is CloseParen,
    ensures
        sp_terms_rest(toks, i, bound, acc) == Some(
            (acc + remaining, i + 1 + terms_toks(remaining).len()),
        ),
    decreases crate::term::terms_size(remaining), 2int,
{
    let n0 = term_toks(remaining[0]).len() as int;
    let n = terms_toks(remaining).len() as int;
    assert(toks.subrange(i + 1, i + 1 + n0) =~= term_toks(remaining[0])) by {
        assert forall|k: int| 0 <= k < n0 implies toks.subrange(i + 1, i + 1 + n0)[k]
            == term_toks(remaining[0])[k] by {
            assert(toks[i + 1 + k] == toks.subrange(i + 1, i + 1 + n)[k]);
            assert(toks.subrange(i + 1, i + 1 + n)[k] == terms_toks(remaining)[k]);
            if remaining.len() > 1 {
                assert(terms_toks(remaining)[k] == (term_toks(remaining[0]) + seq![
                    SpecToken::Comma,
                ] + terms_toks(remaining.drop_first()))[k]);
            }
        }
    }
    if remaining.len() == 1 {
        assert(terms_toks(remaining) == term_toks(remaining[0]));
        lemma_term_roundtrip(toks, i + 1, remaining[0], bound);
        assert(!(toks[i + 1 + n0] is Comma));
        assert(sp_terms_rest(toks, i + 1 + n0, bound, acc.push(remaining[0])) == Some(
            (acc.push(remaining[0]), i + 1 + n0),
        ));
        assert(acc.push(remaining[0]) =~= acc + remaining);
    } else {
        let rest = remaining.drop_first();
        let rest_toks = terms_toks(rest);
        assert(terms_toks(remaining) == term_toks(remaining[0]) + seq![SpecToken::Comma]
            + rest_toks);
        assert(toks[i + 1 + n0] == toks.subrange(i + 1, i + 1 + n)[n0]);
        assert(toks[i + 1 + n0] == terms_toks(remaining)[n0]);
        assert(toks[i + 1 + n0] is Comma);
        lemma_term_roundtrip(toks, i + 1, remaining[0], bound);
        assert(crate::term::term_size(remaining[0]) >= 1);
        assert(toks.subrange(i + 1 + n0 + 1, i + 1 + n) =~= rest_toks) by {
            assert forall|k: int| 0 <= k < rest_toks.len() implies toks.subrange(
                i + 1 + n0 + 1,
                i + 1 + n,
            )[k] == rest_toks[k] by {
                assert(toks[i + 1 + n0 + 1 + k] == terms_toks(remaining)[n0 + 1 + k]);
                assert(terms_toks(remaining)[n0 + 1 + k] == rest_toks[k]);
            }
        }
        lemma_terms_rest_roundtrip(toks, i + 1 + n0, rest, acc.push(remaining[0]), bound);
        assert(acc.push(remaining[0]) + rest =~= acc + remaining);
    }
}

} // verus!
