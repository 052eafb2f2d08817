//! Parsing, printing and the variable machinery of terms and formulas.

use deducnat::formula::Formula;
use deducnat::term::Term;

fn formula(text: &str) -> Formula {
    *Formula::from_str(text).unwrap()
}

fn term(text: &str) -> Term {
    *Term::from_str(text).unwrap()
}

fn round_trips(text: &str) {
    let f = formula(text);
    let printed = f.to_text();
    let again = formula(printed.as_str());
    assert!(f.same_as(&again), "round trip changed {:?}", text);
}

#[test]
fn parse_simple_shapes() {
    assert!(matches!(formula("falsum"), Formula::Falsum));
    assert!(matches!(formula("A"), Formula::Relation(_, _)));
    assert!(matches!(formula("~A"), Formula::Not(_)));
    assert!(matches!(formula("A /\\ B"), Formula::And(_, _)));
    assert!(matches!(formula("A \\/ B"), Formula::Or(_, _)));
    assert!(matches!(formula("A => B"), Formula::Implies(_, _)));
    assert!(matches!(formula("forall x, P(x)"), Formula::Forall(_, _)));
    assert!(matches!(formula("exists x, P(x)"), Formula::Exists(_, _)));
}

#[test]
fn parse_rejects_broken_input() {
    assert!(Formula::from_str("").is_err());
    assert!(Formula::from_str("A =>").is_err());
    assert!(Formula::from_str("(A").is_err());
    assert!(Formula::from_str("A B").is_err());
    assert!(Formula::from_str("forall , A").is_err());
    assert!(Term::from_str("f(").is_err());
    assert!(Term::from_str("").is_err());
}

#[test]
fn implication_is_right_associative() {
    let f = formula("A => B => C");
    match f {
        Formula::Implies(lhs, rhs) => {
            assert_eq!(lhs.to_text().as_str(), "A");
            assert_eq!(rhs.to_text().as_str(), "B => C");
        },
        other => panic!("unexpected shape: {:?}", other),
    }
}

#[test]
fn conjunction_is_left_associative() {
    let f = formula("A /\\ B /\\ C");
    match f {
        Formula::And(lhs, rhs) => {
            assert_eq!(lhs.to_text().as_str(), "A /\\ B");
            assert_eq!(rhs.to_text().as_str(), "C");
        },
        other => panic!("unexpected shape: {:?}", other),
    }
}

#[test]
fn printing_follows_precedence() {
    // Disjunction and conjunction share one precedence level and associate
    // to the left, so the left operand needs no parentheses.
    assert_eq!(formula("(A \\/ B) /\\ C").to_text().as_str(), "A \\/ B /\\ C");
    assert_eq!(formula("A \\/ (B /\\ C)").to_text().as_str(), "A \\/ (B /\\ C)");
    assert_eq!(formula("(A => B) => C").to_text().as_str(), "(A => B) => C");
    assert_eq!(formula("A => (B => C)").to_text().as_str(), "A => B => C");
    assert_eq!(formula("~(A /\\ B)").to_text().as_str(), "~(A /\\ B)");
    assert_eq!(formula("~A").to_text().as_str(), "~A");
    assert_eq!(formula("~P(x, y)").to_text().as_str(), "~P(x, y)");
    assert_eq!(formula("forall x, P(x) => Q(x)").to_text().as_str(), "forall x, P(x) => Q(x)");
    assert_eq!(
        formula("(forall x, P(x)) => A").to_text().as_str(),
        "(forall x, P(x)) => A",
    );
    assert_eq!(formula("falsum").to_text().as_str(), "falsum");
}

#[test]
fn print_parse_round_trip() {
    round_trips("A");
    round_trips("falsum");
    round_trips("~~A");
    round_trips("A /\\ B \\/ C");
    round_trips("A \\/ (B /\\ C)");
    round_trips("(A => B) => A => B");
    round_trips("forall x, exists y, P(x, y)");
    round_trips("forall x, P(x) /\\ Q(f(x, c))");
    round_trips("~(A => B)");
    round_trips("exists x, ~P(x)");
}

#[test]
fn bound_occurrences_parse_as_variables() {
    let f = formula("forall x, P(x)");
    match f {
        Formula::Forall(v, body) => {
            assert_eq!(v.as_str(), "x");
            match *body {
                Formula::Relation(_, args) => {
                    assert!(matches!(&args[0], Term::Variable(n) if n == "x"));
                },
                other => panic!("unexpected body: {:?}", other),
            }
        },
        other => panic!("unexpected shape: {:?}", other),
    }
}

#[test]
fn free_occurrences_parse_as_constants() {
    let f = formula("P(x)");
    match f {
        Formula::Relation(_, args) => {
            assert!(matches!(&args[0], Term::Function(n, a) if n == "x" && a.is_empty()));
        },
        other => panic!("unexpected shape: {:?}", other),
    }
}

#[test]
fn term_operations() {
    let t = term("f(x, g(y))");
    assert!(t.occurs(&term("g(y)")));
    assert!(t.occurs(&term("y")));
    assert!(!t.occurs(&term("z")));
    let mut rewritten = t.clone();
    rewritten.rewrite(&term("g(y)"), &term("z"));
    assert!(rewritten.same_as(&term("f(x, z)")));
    // A term parsed on its own binds nothing, so its names are constants
    // and its variable domain is empty.
    assert!(t.domain().is_empty());
    let with_vars = Term::Function(
        String::from("f"),
        vec![
            Term::Variable(String::from("x")),
            Term::Function(String::from("g"), vec![Term::Variable(String::from("y"))]),
        ],
    );
    let dom = with_vars.domain();
    assert!(dom.iter().any(|n| n == "x"));
    assert!(dom.iter().any(|n| n == "y"));
}

#[test]
fn default_term_is_x() {
    let t = Term::default();
    assert!(t.same_as(&Term::Variable(String::from("x"))));
}

#[test]
fn formula_domain_is_the_free_variables() {
    let f = formula("forall x, P(x)");
    assert!(f.domain().is_empty());
    // A variable both free and bound in disjoint subtrees counts free.
    let free_x = Formula::Relation(
        String::from("P"),
        vec![Term::Variable(String::from("x"))],
    );
    let g = Formula::And(Box::new(free_x), Box::new(formula("forall x, Q(x)")));
    let dom = g.domain();
    assert!(dom.iter().any(|n| n == "x"));
    assert_eq!(dom.len(), 1);
}

#[test]
fn formula_rewrite_descends_under_binders() {
    let mut f = formula("forall x, P(c)");
    f.rewrite(&term("c"), &term("d"));
    assert_eq!(f.to_text().as_str(), "forall x, P(d)");
}

fn relation_on_variables(names: &[&str]) -> Formula {
    let args: Vec<Term> = names.iter().map(|n| Term::Variable(String::from(*n))).collect();
    Formula::Relation(String::from("P"), args)
}

#[test]
fn fresh_variable_order() {
    // Constants do not block freshness: only free variables count.
    assert_eq!(formula("P(a)").new_variable().as_str(), "x");
    assert_eq!(relation_on_variables(&["x"]).new_variable().as_str(), "y");
    assert_eq!(relation_on_variables(&["x", "y", "z"]).new_variable().as_str(), "w");
    // With every plain letter taken, a prime mark is appended.
    let crowded = relation_on_variables(&[
        "x", "y", "z", "w", "v", "u", "t", "s", "r", "q", "p", "o", "n", "m", "l", "k", "j",
        "i", "h", "g", "f", "e", "d", "c", "b", "a",
    ]);
    assert_eq!(crowded.new_variable().as_str(), "x'");
}

#[test]
fn precedence_levels() {
    assert_eq!(formula("falsum").get_precedence(), 5);
    assert_eq!(formula("A").get_precedence(), 5);
    assert_eq!(formula("~A").get_precedence(), 4);
    assert_eq!(formula("A /\\ B").get_precedence(), 3);
    assert_eq!(formula("A \\/ B").get_precedence(), 3);
    assert_eq!(formula("A => B").get_precedence(), 2);
    assert_eq!(formula("forall x, A").get_precedence(), 1);
    assert_eq!(formula("exists x, A").get_precedence(), 1);
}

#[test]
fn operator_symbols() {
    assert_eq!(formula("~A").get_op_symbol(), "~");
    assert_eq!(formula("A /\\ B").get_op_symbol(), "/\\");
    assert_eq!(formula("A \\/ B").get_op_symbol(), "\\/");
    assert_eq!(formula("A => B").get_op_symbol(), "=>");
    assert_eq!(formula("forall x, A").get_op_symbol(), "forall");
    assert_eq!(formula("exists x, A").get_op_symbol(), "exists");
    assert_eq!(formula("A").get_op_symbol(), "");
}

#[test]
fn term_printing() {
    assert_eq!(term("x").to_text().as_str(), "x");
    assert_eq!(term("f(x, y)").to_text().as_str(), "f(x, y)");
    assert_eq!(term("f(g(x), c)").to_text().as_str(), "f(g(x), c)");
}
