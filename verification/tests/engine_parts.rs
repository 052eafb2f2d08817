//! The context, the proof stack, the command table and the small helpers.

use deducnat::command::{ContextCommand, EngineCommand, RuleCommand, RuleCommandType};
use deducnat::context::{Context, ValueType};
use deducnat::engine::Engine;
use deducnat::error::Error;
use deducnat::formula::Formula;
use deducnat::lexer::{Lexer, Token, lex};
use deducnat::proofs::Proof;
use deducnat::rule::RuleType;
use deducnat::tools::{decimal_str, list_str, str_eq};

fn formula(text: &str) -> Box<Formula> {
    Formula::from_str(text).unwrap()
}

#[test]
fn context_keeps_the_three_kinds_apart() {
    let mut ctx = Context::new();
    ctx.add_theorem("t", formula("A")).unwrap();
    ctx.add_relation("R").unwrap();
    ctx.add_term("c").unwrap();
    assert!(matches!(ctx.get_type("t"), Some(ValueType::Theorem)));
    assert!(matches!(ctx.get_type("R"), Some(ValueType::Relation)));
    assert!(matches!(ctx.get_type("c"), Some(ValueType::Term)));
    assert!(ctx.get_type("other").is_none());
    assert!(ctx.expect_not_defined("fresh").is_ok());
    assert!(matches!(ctx.expect_not_defined("t"), Err(Error::AlreadyExists(_))));
}

#[test]
fn context_refuses_reused_names() {
    let mut ctx = Context::new();
    ctx.add_relation("R").unwrap();
    assert!(matches!(ctx.add_theorem("R", formula("A")), Err(Error::AlreadyExists(_))));
    assert!(matches!(ctx.add_relation("R"), Err(Error::AlreadyExists(_))));
    assert!(matches!(ctx.add_term("R"), Err(Error::AlreadyExists(_))));
}

#[test]
fn context_lookup_returns_the_formula() {
    let mut ctx = Context::new();
    ctx.add_theorem("t", formula("A => A")).unwrap();
    assert_eq!(ctx.get_theorem("t").unwrap().to_text().as_str(), "A => A");
    assert!(ctx.get_theorem("u").is_none());
}

#[test]
fn proof_starts_with_one_goal() {
    let p = Proof::start(formula("A => A"));
    assert!(!p.is_finished());
    assert_eq!(p.remaining_goals_nb(), 1);
    assert_eq!(p.step_count(), 0);
    assert_eq!(p.goal_formula().to_text().as_str(), "A => A");
}

#[test]
fn proof_apply_advances_the_stack() {
    let mut p = Proof::start(formula("A /\\ B"));
    p.apply(deducnat::rule::Rule::SplitAnd).unwrap();
    assert_eq!(p.remaining_goals_nb(), 2);
    assert_eq!(p.step_count(), 1);
    assert!(!p.is_finished());
}

#[test]
fn finished_proof_has_no_remaining_goals() {
    let mut p = Proof::start(formula("A => A"));
    p.apply(deducnat::rule::Rule::Intro).unwrap();
    p.apply(deducnat::rule::Rule::Axiom).unwrap();
    assert!(p.is_finished());
    assert_eq!(p.remaining_goals_nb(), 0);
    assert_eq!(p.step_count(), 2);
    // A finished proof refuses further rules and antecedents.
    assert!(p.apply(deducnat::rule::Rule::Intro).is_err());
    assert!(p.add_antecedent(formula("B")).is_err());
    assert!(p.get_applicable_rules().is_none());
}

#[test]
fn add_antecedent_deduplicates() {
    let mut p = Proof::start(formula("A"));
    p.add_antecedent(formula("B")).unwrap();
    p.add_antecedent(formula("B")).unwrap();
    let rules = p.get_applicable_rules().unwrap();
    assert!(rules.contains(&RuleType::Trans));
}

#[test]
fn lexer_tokens() {
    let toks = lex("Thm id :: A => (B /\\ C) . // end").unwrap();
    assert!(matches!(toks[0], Token::Thm));
    assert!(matches!(&toks[1], Token::Ident(s) if s == "id"));
    assert!(matches!(toks[2], Token::DoubleColon));
    assert!(matches!(&toks[3], Token::Ident(s) if s == "A"));
    assert!(matches!(toks[4], Token::DoubleArrow));
    assert!(matches!(toks[5], Token::OpenParen));
    assert!(matches!(toks[7], Token::And));
    assert!(matches!(toks.last().unwrap(), Token::Dot));
}

#[test]
fn lexer_rejects_unknown_symbols() {
    assert!(lex("A % B").is_err());
}

#[test]
fn lexer_splits_glued_symbols() {
    let toks = lex("~A=>B").unwrap();
    assert!(matches!(toks[0], Token::Wave));
    assert!(matches!(&toks[1], Token::Ident(s) if s == "A"));
    assert!(matches!(toks[2], Token::DoubleArrow));
    assert!(matches!(&toks[3], Token::Ident(s) if s == "B"));
}

#[test]
fn command_parse_covers_the_surface() {
    let cases = [
        ("Qed", true),
        ("Admit", true),
        ("Use id", true),
        ("Thm t :: A", true),
        ("axiom", true),
        ("intro", true),
        ("intros", true),
        ("trans A", true),
        ("split", true),
        ("and_left A", true),
        ("and_right A", true),
        ("keep_left", true),
        ("keep_right", true),
        ("from_or A \\/ B", true),
        ("gen c", true),
        ("fix_as c", true),
        ("consider exists x, P(x)", true),
        ("rename_as y", true),
        ("from_bottom", true),
        ("exfalso A", true),
        ("bogus", false),
        ("axiom extra_stuff", false),
        ("trans", false),
        ("Use", false),
        ("Thm t ::", false),
    ];
    for (text, ok) in cases {
        let mut lxr = Lexer::from(text);
        let r = EngineCommand::parse(&mut lxr);
        assert_eq!(r.is_ok(), ok, "case {:?}: {:?}", text, r);
    }
}

#[test]
fn empty_command_parses_to_nothing() {
    let mut lxr = Lexer::from("   ");
    assert!(EngineCommand::parse(&mut lxr).unwrap().is_none());
}

#[test]
fn unknown_command_is_reported() {
    let mut lxr = Lexer::from("frobnicate");
    assert!(matches!(
        EngineCommand::parse(&mut lxr),
        Err(Error::UnknownCommand(_))
    ));
}

#[test]
fn too_many_arguments_are_reported() {
    let mut lxr = Lexer::from("Qed now");
    assert!(matches!(
        EngineCommand::parse(&mut lxr),
        Err(Error::TooMuchArguments(_))
    ));
}

#[test]
fn command_names_and_docs() {
    let qed = EngineCommand::ContextCommand(ContextCommand::Qed);
    assert_eq!(qed.name(), Some("Qed"));
    assert!(qed.desc().is_some());
    assert!(qed.usage().is_none());
    let gen = EngineCommand::RuleCommand(RuleCommand::Generalize(Box::new(
        deducnat::term::Term::default(),
    )));
    assert_eq!(gen.name(), Some("gen"));
    assert_eq!(gen.usage(), Some("<T>"));
}

#[test]
fn rule_command_types_map_back_to_rules() {
    assert_eq!(RuleCommandType::from_rule(&RuleType::Axiom), vec![RuleCommandType::Axiom]);
    assert_eq!(
        RuleCommandType::from_rule(&RuleType::And),
        vec![RuleCommandType::AndRight, RuleCommandType::AndLeft],
    );
    assert_eq!(
        RuleCommandType::from_rule(&RuleType::Keep),
        vec![RuleCommandType::KeepRight, RuleCommandType::KeepLeft],
    );
}

#[test]
fn rule_command_schema() {
    let (premises, conclusion) = RuleCommand::Axiom.schema().unwrap();
    assert_eq!(premises.len(), 1);
    assert_eq!(conclusion, "G, F |- F");
    assert!(RuleCommand::Intros.schema().is_none());
}

#[test]
fn valid_commands_follow_the_mode() {
    let mut engine = Engine::new(String::from("session"));
    let outside = engine.get_valid_commands();
    assert_eq!(outside.len(), 1);
    assert_eq!(outside[0].name(), Some("Thm"));

    let mut lxr = Lexer::from("Thm t :: A => A");
    engine.execute(EngineCommand::parse(&mut lxr).unwrap().unwrap()).unwrap();
    let during = engine.get_valid_commands();
    assert!(during.iter().any(|c| c.name() == Some("intro")));
    assert!(during.iter().any(|c| c.name() == Some("trans")));

    let mut lxr2 = Lexer::from("intro");
    engine.execute(EngineCommand::parse(&mut lxr2).unwrap().unwrap()).unwrap();
    let mut lxr3 = Lexer::from("axiom");
    engine.execute(EngineCommand::parse(&mut lxr3).unwrap().unwrap()).unwrap();
    let finished = engine.get_valid_commands();
    assert_eq!(finished.len(), 2);
    assert_eq!(finished[0].name(), Some("Qed"));
    assert_eq!(finished[1].name(), Some("Admit"));
}

#[test]
fn command_log_grows_only_on_success() {
    let mut engine = Engine::new(String::from("session"));
    let mut lxr = Lexer::from("Thm t :: A");
    engine.execute(EngineCommand::parse(&mut lxr).unwrap().unwrap()).unwrap();
    assert_eq!(engine.get_current_stack().len(), 1);
    let mut bad = Lexer::from("split");
    let _ = engine.execute(EngineCommand::parse(&mut bad).unwrap().unwrap()).unwrap_err();
    assert_eq!(engine.get_current_stack().len(), 1);
}

#[test]
fn check_formula_declares_unknown_symbols() {
    let mut engine = Engine::new(String::from("session"));
    let effects = engine.check_formula(&formula("P(f(x)) /\\ Q"), true).unwrap();
    assert_eq!(effects.len(), 4);
    assert!(matches!(engine.context().get_type("P"), Some(ValueType::Relation)));
    assert!(matches!(engine.context().get_type("f"), Some(ValueType::Term)));
    assert!(matches!(engine.context().get_type("x"), Some(ValueType::Term)));
    assert!(matches!(engine.context().get_type("Q"), Some(ValueType::Relation)));
}

#[test]
fn check_formula_rejects_a_term_used_as_relation() {
    let mut engine = Engine::new(String::from("session"));
    engine.check_formula(&formula("P(c)"), true).unwrap();
    // `c` is now a term; using it as a relation is a structural error.
    let err = engine.check_formula(&formula("c"), true).unwrap_err();
    assert!(matches!(err, Error::InvalidFormula(_, _)));
    // And a relation used as a term is refused too.
    let err2 = engine.check_formula(&formula("Q(P)"), true).unwrap_err();
    assert!(matches!(err2, Error::InvalidTerm(_, _)));
}

#[test]
fn check_formula_without_forgiving_declares_nothing() {
    let mut engine = Engine::new(String::from("session"));
    let effects = engine.check_formula(&formula("P(x)"), false).unwrap();
    assert!(effects.is_empty());
    assert!(engine.context().get_type("P").is_none());
}

#[test]
fn quantifier_must_not_shadow_known_symbols() {
    let mut engine = Engine::new(String::from("session"));
    engine.check_formula(&formula("P(c)"), true).unwrap();
    let err = engine.check_formula(&formula("forall c, Q(c)"), true).unwrap_err();
    assert!(matches!(err, Error::AlreadyExists(_)));
}

#[test]
fn string_helpers() {
    assert!(str_eq("abc", "abc"));
    assert!(!str_eq("abc", "abd"));
    assert!(!str_eq("abc", "ab"));
    assert_eq!(decimal_str(0).as_str(), "0");
    assert_eq!(decimal_str(7).as_str(), "7");
    assert_eq!(decimal_str(210).as_str(), "210");
    let names = vec![String::from("a"), String::from("b"), String::from("c")];
    assert_eq!(list_str(&names, ", ").as_str(), "a, b, c");
    let one = vec![String::from("a")];
    assert_eq!(list_str(&one, ", ").as_str(), "a");
    let none: Vec<String> = Vec::new();
    assert_eq!(list_str(&none, ", ").as_str(), "");
}
