//! End-to-end scripts driven through the executor and the engine.

use deducnat::command::EngineCommand;
use deducnat::context::ValueType;
use deducnat::engine::{Engine, EngineEffect};
use deducnat::error::Error;
use deducnat::exec::Executor;
use deducnat::lexer::Lexer;

fn run_script(text: &str) -> Executor {
    let mut ex = Executor::from_source(String::from("script"), text).unwrap();
    match ex.exec_all() {
        Ok(_) => ex,
        Err((e, step)) => panic!("script failed at {:?}: {:?}", step.command_txt, e),
    }
}

fn command_of(text: &str) -> EngineCommand {
    let mut lxr = Lexer::from(text);
    EngineCommand::parse(&mut lxr).unwrap().unwrap()
}

#[test]
fn identity_implication() {
    let ex = run_script("Thm id :: A => A . intro . axiom . Qed .");
    let thm = ex.engine_ref().context().get_theorem("id").unwrap();
    assert_eq!(thm.to_text().as_str(), "A => A");
    assert!(!ex.engine_ref().has_active_proof());
}

#[test]
fn identity_implication_reused() {
    let ex = run_script(
        "Thm id :: A => A . intro . axiom . Qed . Thm next :: B . Use id . Admit .",
    );
    assert!(ex.engine_ref().context().get_theorem("next").is_some());
}

#[test]
fn use_adds_theorem_as_antecedent() {
    let mut engine = Engine::new(String::from("session"));
    engine.execute(command_of("Thm id :: A => A")).unwrap();
    engine.execute(command_of("intro")).unwrap();
    engine.execute(command_of("axiom")).unwrap();
    engine.execute(command_of("Qed")).unwrap();
    engine.execute(command_of("Thm other :: B => B")).unwrap();
    engine.execute(command_of("Use id")).unwrap();
    let proof = engine.active_proof().unwrap();
    let rules = proof.get_applicable_rules();
    assert!(rules.is_some());
}

#[test]
fn conjunction_split() {
    let ex = run_script(
        "Thm andcomm :: A /\\ B => B /\\ A . intro . split . and_right A . axiom . and_left B . axiom . Qed .",
    );
    let thm = ex.engine_ref().context().get_theorem("andcomm").unwrap();
    assert_eq!(thm.to_text().as_str(), "A /\\ B => B /\\ A");
}

#[test]
fn modus_ponens_via_trans() {
    let mut engine = Engine::new(String::from("session"));
    engine.execute(command_of("Thm mp :: (A => B) => A => B")).unwrap();
    engine.execute(command_of("intros")).unwrap();
    engine.execute(command_of("trans A")).unwrap();
    engine.execute(command_of("axiom")).unwrap();
    engine.execute(command_of("axiom")).unwrap();
    let proof = engine.active_proof().unwrap();
    assert!(proof.is_finished());
    assert_eq!(proof.step_count(), 5);
    engine.execute(command_of("Qed")).unwrap();
    assert!(engine.context().get_theorem("mp").is_some());
}

#[test]
fn ex_falso_quodlibet() {
    let ex = run_script(
        "Thm efq :: A => ~A => B . intros . from_bottom . exfalso A . axiom . axiom . Qed .",
    );
    assert!(ex.engine_ref().context().get_theorem("efq").is_some());
}

#[test]
fn auto_declaration_of_symbols() {
    let mut engine = Engine::new(String::from("session"));
    let effects = engine.execute(command_of("Thm t1 :: P(x) => P(x)")).unwrap();
    assert!(matches!(&effects[0], EngineEffect::DefinedRelation(n) if n == "P"));
    assert!(matches!(&effects[1], EngineEffect::DefinedTerm(n) if n == "x"));
    assert!(matches!(effects.last().unwrap(), EngineEffect::EnteredProofMode));
    engine.execute(command_of("intro")).unwrap();
    engine.execute(command_of("axiom")).unwrap();
    engine.execute(command_of("Qed")).unwrap();
    // The declarations are permanent additions to the context.
    assert!(matches!(engine.context().get_type("P"), Some(ValueType::Relation)));
    assert!(matches!(engine.context().get_type("x"), Some(ValueType::Term)));
}

#[test]
fn failure_leaves_engine_unchanged() {
    let mut engine = Engine::new(String::from("session"));
    engine.execute(command_of("Thm t :: A /\\ B")).unwrap();
    engine.execute(command_of("split")).unwrap();
    let stack_before = engine.get_current_stack().len();
    let err = engine.execute(command_of("Qed")).unwrap_err();
    match err {
        Error::CommandError(msg) => {
            assert_eq!(msg.as_str(), "2 goals have not been proven yet");
        },
        other => panic!("unexpected error: {:?}", other),
    }
    // The context still lacks the theorem, the proof is still open with two
    // pending goals, and nothing was logged.
    assert!(engine.context().get_theorem("t").is_none());
    let proof = engine.active_proof().unwrap();
    assert!(!proof.is_finished());
    assert_eq!(proof.remaining_goals_nb(), 2);
    assert_eq!(engine.get_current_stack().len(), stack_before);
}

#[test]
fn unfinished_proof_at_end_of_script() {
    let mut ex = Executor::from_source(String::from("s"), "Thm t :: A .").unwrap();
    let (err, _) = ex.exec_all().unwrap_err();
    assert!(matches!(err, Error::UnfinishedProof));
}

#[test]
fn empty_script_is_an_error() {
    let r = Executor::from_source(String::from("s"), "   \n  ");
    assert!(matches!(r, Err(Error::EmptyFile(_))));
}

#[test]
fn trailing_step_without_dot() {
    let r = Executor::from_source(String::from("s"), "Thm t :: A . intro");
    assert!(matches!(r, Err(Error::UnexpectedEOF)));
}

#[test]
fn comments_are_skipped() {
    let ex = run_script("// a comment\nThm id :: A => A . intro . axiom . Qed .");
    assert!(ex.engine_ref().context().get_theorem("id").is_some());
}

#[test]
fn step_positions_are_recorded() {
    let steps = deducnat::exec::parse_steps("Thm t :: A .\nintro .").unwrap();
    assert_eq!(steps.len(), 2);
    assert_eq!(steps[0].command_txt.as_str(), "Thm t :: A");
    assert_eq!(steps[0].start, (0, 0));
    assert_eq!(steps[1].command_txt.as_str(), "intro");
    assert_eq!(steps[1].start, (1, 0));
    assert_eq!(steps[1].end, (1, 5));
}

#[test]
fn already_proving_is_an_error() {
    let mut engine = Engine::new(String::from("session"));
    engine.execute(command_of("Thm t :: A")).unwrap();
    let err = engine.execute(command_of("Thm u :: B")).unwrap_err();
    assert!(matches!(err, Error::CommandError(_)));
}

#[test]
fn qed_without_proof_is_an_error() {
    let mut engine = Engine::new(String::from("session"));
    let err = engine.execute(command_of("Qed")).unwrap_err();
    assert!(matches!(err, Error::CommandError(_)));
}

#[test]
fn use_of_unknown_theorem_is_an_error() {
    let mut engine = Engine::new(String::from("session"));
    engine.execute(command_of("Thm t :: A")).unwrap();
    let err = engine.execute(command_of("Use missing")).unwrap_err();
    assert!(matches!(err, Error::CommandError(_)));
}

#[test]
fn admit_closes_any_proof() {
    let mut engine = Engine::new(String::from("session"));
    engine.execute(command_of("Thm t :: A /\\ B")).unwrap();
    let effects = engine.execute(command_of("Admit")).unwrap();
    assert!(matches!(effects[0], EngineEffect::ExitedProofMode));
    assert!(matches!(&effects[1], EngineEffect::NewTheorem(n, _) if n == "t"));
    assert!(engine.context().get_theorem("t").is_some());
}
