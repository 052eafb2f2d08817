//! The engine: a context coupled with an optional active proof, driven by
//! commands.

use vstd::prelude::*;
use crate::command::{ContextCommand, EngineCommand, SpecContextCommand, SpecEngineCommand};
use crate::context::{Context, SpecContext, lookup_thm};
use crate::error::{Error, ErrorKind};
use crate::formula::{Formula, SpecFormula, formula_weight};
use crate::proofs::{Proof, SpecProof, proof_apply_spec};
use crate::rule::Rule;
use crate::rule::add_antecedent_spec;
use crate::sequent::SpecSequent;
use crate::term::{SpecTerm, Term, terms_contain};
use crate::tools::decimal_str;

verus! {

broadcast use vstd::std_specs::vec::group_vec_axioms;

/// Mathematical model of an observable effect.
pub enum SpecEffect {
    NewTheorem(Seq<char>, SpecFormula),
    DefinedRelation(Seq<char>),
    DefinedTerm(Seq<char>),
    EnteredProofMode,
    ExitedProofMode,
}

/// Effect that a command had on the engine status.
/// Returned by [`Engine::execute`].
#[derive(Debug)]
pub enum EngineEffect {
    NewTheorem(String, Formula),
    DefinedRelation(String),
    DefinedTerm(String),
    EnteredProofMode,
    ExitedProofMode,
}

impl DeepView for EngineEffect {
    type V = SpecEffect;

    open spec fn deep_view(&self) -> SpecEffect {
        match self {
            EngineEffect::NewTheorem(n, f) => SpecEffect::NewTheorem(n@, f.deep_view()),
            EngineEffect::DefinedRelation(n) => SpecEffect::DefinedRelation(n@),
            EngineEffect::DefinedTerm(n) => SpecEffect::DefinedTerm(n@),
            EngineEffect::EnteredProofMode => SpecEffect::EnteredProofMode,
            EngineEffect::ExitedProofMode => SpecEffect::ExitedProofMode,
        }
    }
}

/// What checking a term does to the context: unknown function symbols are
/// declared as terms in forgiving mode; a name already used as a relation is
/// refused; a name already used as a theorem cannot be declared.
pub open spec fn check_term_spec(ctx: SpecContext, t: SpecTerm, forgiving: bool) -> Result<
    (SpecContext, Seq<SpecEffect>),
    ErrorKind,
>
    decreases t,
{
    match t {
        SpecTerm::Var(v) => if ctx.relations.contains(v) {
            Err(ErrorKind::InvalidTerm)
        } else {
            Ok((ctx, Seq::empty()))
        },
        SpecTerm::App(v, args) => if ctx.relations.contains(v) {
            Err(ErrorKind::InvalidTerm)
        } else if forgiving && !ctx.terms.contains(v) && ctx.defined(v) {
            Err(ErrorKind::AlreadyExists)
        } else {
            let (ctx1, effs1): (SpecContext, Seq<SpecEffect>) = if forgiving && !ctx.terms.contains(
                v,
            ) {
                (
                    SpecContext { terms: ctx.terms.push(v), ..ctx },
                    seq![SpecEffect::DefinedTerm(v)],
                )
            } else {
                (ctx, Seq::empty())
            };
            match check_terms_spec(ctx1, args, forgiving) {
                Err(k) => Err(k),
                Ok((ctx2, effs2)) => Ok((ctx2, effs1 + effs2)),
            }
        },
    }
}

/// Check each term in order, threading the context through.
pub open spec fn check_terms_spec(ctx: SpecContext, ts: Seq<SpecTerm>, forgiving: bool) -> Result<
    (SpecContext, Seq<SpecEffect>),
    ErrorKind,
>
    decreases ts,
{
    if ts.len() == 0 {
        Ok((ctx, Seq::empty()))
    } else {
        match check_term_spec(ctx, ts[0], forgiving) {
            Err(k) => Err(k),
            Ok((ctx1, effs1)) => match check_terms_spec(ctx1, ts.drop_first(), forgiving) {
                Err(k) => Err(k),
                Ok((ctx2, effs2)) => Ok((ctx2, effs1 + effs2)),
            },
        }
    }
}

/// What checking a formula does to the context: unknown relation symbols are
/// declared in forgiving mode, terms are checked under each relation, and a
/// quantifier variable must not shadow a known symbol.
pub open spec fn check_formula_spec(ctx: SpecContext, f: SpecFormula, forgiving: bool) -> Result<
    (SpecContext, Seq<SpecEffect>),
    ErrorKind,
>
    decreases f,
{
    match f {
        SpecFormula::Falsum => Ok((ctx, Seq::empty())),
        SpecFormula::Rel(n, args) => if ctx.terms.contains(n) {
            Err(ErrorKind::InvalidFormula)
        } else if forgiving && !ctx.relations.contains(n) && ctx.defined(n) {
            Err(ErrorKind::AlreadyExists)
        } else {
            let (ctx1, effs1): (SpecContext, Seq<SpecEffect>) = if forgiving
                && !ctx.relations.contains(n) {
                (
                    SpecContext { relations: ctx.relations.push(n), ..ctx },
                    seq![SpecEffect::DefinedRelation(n)],
                )
            } else {
                (ctx, Seq::empty())
            };
            match check_terms_spec(ctx1, args, forgiving) {
                Err(k) => Err(k),
                Ok((ctx2, effs2)) => Ok((ctx2, effs1 + effs2)),
            }
        },
        SpecFormula::Forall(v, g) => if ctx.defined(v) {
            Err(ErrorKind::AlreadyExists)
        } else {
            check_formula_spec(ctx, *g, forgiving)
        },
        SpecFormula::Exists(v, g) => if ctx.defined(v) {
            Err(ErrorKind::AlreadyExists)
        } else {
            check_formula_spec(ctx, *g, forgiving)
        },
        SpecFormula::Not(g) => check_formula_spec(ctx, *g, forgiving),
        SpecFormula::And(a, b) => match check_formula_spec(ctx, *a, forgiving) {
            Err(k) => Err(k),
            Ok((ctx1, effs1)) => match check_formula_spec(ctx1, *b, forgiving) {
                Err(k) => Err(k),
                Ok((ctx2, effs2)) => Ok((ctx2, effs1 + effs2)),
            },
        },
        SpecFormula::Or(a, b) => match check_formula_spec(ctx, *a, forgiving) {
            Err(k) => Err(k),
            Ok((ctx1, effs1)) => match check_formula_spec(ctx1, *b, forgiving) {
                Err(k) => Err(k),
                Ok((ctx2, effs2)) => Ok((ctx2, effs1 + effs2)),
            },
        },
        SpecFormula::Implies(a, b) => match check_formula_spec(ctx, *a, forgiving) {
            Err(k) => Err(k),
            Ok((ctx1, effs1)) => match check_formula_spec(ctx1, *b, forgiving) {
                Err(k) => Err(k),
                Ok((ctx2, effs2)) => Ok((ctx2, effs1 + effs2)),
            },
        },
    }
}

/// Mathematical model of the engine.
#[verifier::ext_equal]
pub struct SpecEngine {
    pub name: Seq<char>,
    pub context: SpecContext,
    pub active: Option<(Seq<char>, SpecProof)>,
    pub stack: Seq<SpecEngineCommand>,
}

impl SpecEngine {
    /// The context's names are hygienic and the active proof, if any, is
    /// well-formed.
    pub open spec fn wf(self) -> bool {
        &&& self.context.wf()
        &&& self.active matches Some((_, p)) ==> p.wf()
    }
}

/// What one command does to the engine: either a new engine state and the
/// observable effects, in order, or the kind of the error, with the engine
/// unchanged.
pub open spec fn engine_step(e: SpecEngine, cmd: SpecEngineCommand) -> Result<
    (SpecEngine, Seq<SpecEffect>),
    ErrorKind,
> {
    match cmd {
        SpecEngineCommand::Context(SpecContextCommand::Theorem(name, goal)) => {
            if e.active is Some {
                Err(ErrorKind::Command)
            } else if e.context.defined(name) {
                Err(ErrorKind::AlreadyExists)
            } else {
                match check_formula_spec(e.context, goal, true) {
                    Err(k) => Err(k),
                    Ok((ctx2, effs)) => Ok(
                        (
                            SpecEngine {
                                context: ctx2,
                                active: Some(
                                    (
                                        name,
                                        SpecProof {
                                            goal,
                                            active: Some(
                                                SpecSequent {
                                                    antecedents: Seq::empty(),
                                                    consequent: goal,
                                                },
                                            ),
                                            pending: Seq::empty(),
                                            step: 0,
                                        },
                                    ),
                                ),
                                stack: e.stack.push(cmd),
                                ..e
                            },
                            effs.push(SpecEffect::EnteredProofMode),
                        ),
                    ),
                }
            }
        },
        SpecEngineCommand::Context(SpecContextCommand::Use(n)) => {
            match e.active {
                None => Err(ErrorKind::Command),
                Some((thm_name, p)) => {
                    if p.active is None {
                        Err(ErrorKind::Command)
                    } else {
                        match lookup_thm(e.context.theorems, n) {
                            None => Err(ErrorKind::Command),
                            Some(f) => Ok(
                                (
                                    SpecEngine {
                                        active: Some(
                                            (
                                                thm_name,
                                                SpecProof {
                                                    active: Some(
                                                        SpecSequent {
                                                            antecedents: add_antecedent_spec(
                                                                p.active->0.antecedents,
                                                                f,
                                                            ),
                                                            ..p.active->0
                                                        },
                                                    ),
                                                    ..p
                                                },
                                            ),
                                        ),
                                        stack: e.stack.push(cmd),
                                        ..e
                                    },
                                    Seq::empty(),
                                ),
                            ),
                        }
                    }
                },
            }
        },
        SpecEngineCommand::Rule(rule) => {
            match e.active {
                None => Err(ErrorKind::Command),
                Some((thm_name, p)) => {
                    let checked: Result<(SpecContext, Seq<SpecEffect>), ErrorKind> = match rule {
                        crate::rule::SpecRule::Trans(f) => check_formula_spec(e.context, f, true),
                        crate::rule::SpecRule::And(_, f) => check_formula_spec(e.context, f, true),
                        crate::rule::SpecRule::FromOr(f) => check_formula_spec(e.context, f, true),
                        crate::rule::SpecRule::Consider(f) => check_formula_spec(
                            e.context,
                            f,
                            true,
                        ),
                        crate::rule::SpecRule::ExFalso(f) => check_formula_spec(
                            e.context,
                            f,
                            true,
                        ),
                        _ => Ok((e.context, Seq::empty())),
                    };
                    match checked {
                        Err(k) => Err(k),
                        Ok((ctx2, effs)) => match proof_apply_spec(p, rule) {
                            Err(k) => Err(k),
                            Ok(p2) => Ok(
                                (
                                    SpecEngine {
                                        context: ctx2,
                                        active: Some((thm_name, p2)),
                                        stack: e.stack.push(cmd),
                                        ..e
                                    },
                                    effs,
                                ),
                            ),
                        },
                    }
                },
            }
        },
        SpecEngineCommand::Context(SpecContextCommand::Qed) => {
            match e.active {
                None => Err(ErrorKind::Command),
                Some((n, p)) => {
                    if p.active is Some {
                        Err(ErrorKind::Command)
                    } else if e.context.defined(n) {
                        Err(ErrorKind::AlreadyExists)
                    } else {
                        Ok(
                            (
                                SpecEngine {
                                    context: SpecContext {
                                        theorems: e.context.theorems.push((n, p.goal)),
                                        ..e.context
                                    },
                                    active: None,
                                    stack: e.stack.push(cmd),
                                    ..e
                                },
                                seq![
                                    SpecEffect::ExitedProofMode,
                                    SpecEffect::NewTheorem(n, p.goal),
                                ],
                            ),
                        )
                    }
                },
            }
        },
        SpecEngineCommand::Context(SpecContextCommand::Admit) => {
            match e.active {
                None => Err(ErrorKind::Command),
                Some((n, p)) => {
                    if e.context.defined(n) {
                        Err(ErrorKind::AlreadyExists)
                    } else {
                        Ok(
                            (
                                SpecEngine {
                                    context: SpecContext {
                                        theorems: e.context.theorems.push((n, p.goal)),
                                        ..e.context
                                    },
                                    active: None,
                                    stack: e.stack.push(cmd),
                                    ..e
                                },
                                seq![
                                    SpecEffect::ExitedProofMode,
                                    SpecEffect::NewTheorem(n, p.goal),
                                ],
                            ),
                        )
                    }
                },
            }
        },
    }
}

/// The engine accepts commands to build proofs: a symbol context, an
/// optional active proof, and the log of executed commands.
pub struct Engine {
    pub name: String,
    context: Context,
    current_proof: Option<(String, Box<Proof>)>,
    command_stack: Vec<EngineCommand>,
}

impl DeepView for Engine {
    type V = SpecEngine;

    closed spec fn deep_view(&self) -> SpecEngine {
        SpecEngine {
            name: self.name@,
            context: self.context.deep_view(),
            active: match self.current_proof {
                Some((n, p)) => Some((n@, p.deep_view())),
                None => None,
            },
            stack: self.command_stack.deep_view(),
        }
    }
}

impl Engine {
    /// A fresh engine with an empty context and no active proof.
    pub fn new(name: String) -> (r: Engine)
        ensures
            r.deep_view().name == name@,
            r.deep_view().context.theorems =~= Seq::<(Seq<char>, SpecFormula)>::empty(),
            r.deep_view().context.relations =~= Seq::<Seq<char>>::empty(),
            r.deep_view().context.terms =~= Seq::<Seq<char>>::empty(),
            r.deep_view().active is None,
            r.deep_view().stack =~= Seq::<SpecEngineCommand>::empty(),
            r.deep_view().wf(),
    {
        let r = Engine {
            name,
            context: Context::new(),
            current_proof: None,
            command_stack: Vec::new(),
        };
        proof {
            assert(r.deep_view().stack =~= Seq::<SpecEngineCommand>::empty());
        }
        r
    }

    /// The symbol context.
    pub fn context(&self) -> (r: &Context)
        ensures
            r.deep_view() == self.deep_view().context,
    {
        &self.context
    }

    /// Whether a proof is in progress.
    pub fn has_active_proof(&self) -> (r: bool)
        ensures
            r == (self.deep_view().active is Some),
    {
        self.current_proof.is_some()
    }

    /// The name of the theorem being proven, if any.
    pub fn active_name(&self) -> (r: Option<&String>)
        ensures
            match r {
                Some(n) => self.deep_view().active is Some && n@ == (self.deep_view().active->0).0,
                None => self.deep_view().active is None,
            },
    {
        match &self.current_proof {
            Some((n, _)) => Some(n),
            None => None,
        }
    }

    /// The proof in progress, if any.
    pub fn active_proof(&self) -> (r: Option<&Proof>)
        ensures
            match r {
                Some(p) => self.deep_view().active is Some && p.deep_view()
                    == (self.deep_view().active->0).1,
                None => self.deep_view().active is None,
            },
    {
        match &self.current_proof {
            Some((_, p)) => Some(p),
            None => None,
        }
    }

    /// The log of the successfully executed commands, in order.
    pub fn get_current_stack(&self) -> (r: Vec<EngineCommand>)
        ensures
            r.deep_view() == self.deep_view().stack,
    {
        let mut r: Vec<EngineCommand> = Vec::new();
        let mut i: usize = 0;
        while i < self.command_stack.len()
            invariant
                i <= self.command_stack.len(),
                r@.len() == i,
                forall|j: int|
                    0 <= j < i ==> (#[trigger] r@[j]).deep_view()
                        == self.command_stack@[j].deep_view(),
            decreases self.command_stack.len() - i,
        {
            let c = self.command_stack[i].clone();
            r.push(c);
            i += 1;
        }
        proof {
            assert(r.deep_view() =~= self.deep_view().stack);
        }
        r
    }

    /// Check that the relation and term names used in the formula match the
    /// current context, declaring unknown names in forgiving mode, exactly
    /// as [`check_formula_spec`] describes. On failure the context is
    /// unchanged.
    pub fn check_formula(&mut self, f: &Formula, forgiving: bool) -> (r: Result<
        Vec<EngineEffect>,
        Error,
    >)
        ensures
            match r {
                Ok(effects) => {
                    &&& check_formula_spec(
                        old(self).deep_view().context,
                        f.deep_view(),
                        forgiving,
                    ) == Ok::<_, ErrorKind>((final(self).deep_view().context, effects.deep_view()))
                    &&& final(self).deep_view() == SpecEngine {
                        context: final(self).deep_view().context,
                        ..old(self).deep_view()
                    }
                },
                Err(e) => {
                    &&& check_formula_spec(
                        old(self).deep_view().context,
                        f.deep_view(),
                        forgiving,
                    ) is Err
                    &&& Err::<(SpecContext, Seq<SpecEffect>), ErrorKind>(e.kind())
                        == check_formula_spec(
                        old(self).deep_view().context,
                        f.deep_view(),
                        forgiving,
                    )
                    &&& final(self).deep_view() == old(self).deep_view()
                },
            },
            old(self).deep_view().wf() ==> final(self).deep_view().wf(),
    {
        let mut ctx2 = self.context.clone();
        match check_formula_inner(&mut ctx2, f, forgiving) {
            Ok(effects) => {
                self.context = ctx2;
                Ok(effects)
            },
            Err(e) => Err(e),
        }
    }
}


impl Engine {
    /// Execute one command: route control commands to the engine itself and
    /// rule commands to the active proof, exactly as [`engine_step`]
    /// describes. A failing command leaves the engine unchanged.
    pub fn execute(&mut self, command: EngineCommand) -> (r: Result<Vec<EngineEffect>, Error>)
        ensures
            match r {
                Ok(effects) => engine_step(old(self).deep_view(), command.deep_view()) == Ok::<
                    _,
                    ErrorKind,
                >((final(self).deep_view(), effects.deep_view())),
                Err(e) => {
                    &&& engine_step(old(self).deep_view(), command.deep_view()) is Err
                    &&& Err::<(SpecEngine, Seq<SpecEffect>), ErrorKind>(e.kind()) == engine_step(
                        old(self).deep_view(),
                        command.deep_view(),
                    )
                    &&& final(self).deep_view() == old(self).deep_view()
                },
            },
            old(self).deep_view().wf() ==> final(self).deep_view().wf(),
    {
        match &command {
            // Start of a proof.
            EngineCommand::ContextCommand(ContextCommand::Theorem(name, goal)) => {
                if self.current_proof.is_some() {
                    return Err(
                        Error::CommandError(String::from_str("Already proving a theorem")),
                    );
                }
                match self.context.expect_not_defined(name.as_str()) {
                    Err(e) => {
                        return Err(e);
                    },
                    Ok(()) => {},
                }
                let mut ctx2 = self.context.clone();
                let mut effects = match check_formula_inner(&mut ctx2, goal, true) {
                    Ok(e) => e,
                    Err(e) => {
                        return Err(e);
                    },
                };
                let ghost effs1 = effects.deep_view();
                let proof_started = Proof::start(Box::new((**goal).clone()));
                self.context = ctx2;
                self.current_proof = Some((name.clone(), Box::new(proof_started)));
                effects.push(EngineEffect::EnteredProofMode);
                let ghost cmdv = command.deep_view();
                self.command_stack.push(command);
                proof {
                    let step = engine_step(old(self).deep_view(), cmdv);
                    assert(self.deep_view().stack =~= old(self).deep_view().stack.push(cmdv));
                    assert(effects.deep_view() =~= effs1.push(SpecEffect::EnteredProofMode));
                    assert((self.deep_view().active->0).1 =~= (step->Ok_0.0.active->0).1);
                    assert(self.deep_view() =~= step->Ok_0.0);
                }
                Ok(effects)
            },

            // Import a proven theorem as an antecedent.
            EngineCommand::ContextCommand(ContextCommand::Use(s)) => {
                let finished = match &self.current_proof {
                    None => {
                        return Err(
                            Error::CommandError(String::from_str("Unable to apply command")),
                        );
                    },
                    Some((_, p)) => p.is_finished(),
                };
                if finished {
                    return Err(Error::CommandError(String::from_str("Proof is finished")));
                }
                let thm = match self.context.get_theorem(s.as_str()) {
                    None => {
                        return Err(
                            Error::CommandError(
                                String::from_str("Unknown theorem ").concat(s.as_str()),
                            ),
                        );
                    },
                    Some(f) => f.clone(),
                };
                let add_res = match &mut self.current_proof {
                    Some((_, p)) => p.add_antecedent(Box::new(thm)),
                    None => Ok(()),
                };
                match add_res {
                    Ok(()) => {},
                    Err(e) => {
                        return Err(e);
                    },
                }
                let ghost cmdv = command.deep_view();
                self.command_stack.push(command);
                proof {
                    let step = engine_step(old(self).deep_view(), cmdv);
                    assert(self.deep_view().stack =~= old(self).deep_view().stack.push(cmdv));
                    assert((self.deep_view().active->0).1 =~= (step->Ok_0.0.active->0).1);
                    assert(self.deep_view() =~= step->Ok_0.0);
                    assert(Seq::<SpecEffect>::empty() =~= step->Ok_0.1);
                }
                let r: Vec<EngineEffect> = Vec::new();
                assert(r.deep_view() =~= Seq::<SpecEffect>::empty());
                Ok(r)
            },

            // Rule application to a proof.
            EngineCommand::RuleCommand(rc) => {
                if self.current_proof.is_none() {
                    return Err(Error::CommandError(String::from_str("Unable to apply command")));
                }
                let rule = rc.to_rule();
                let mut ctx2 = self.context.clone();
                let mut effects: Vec<EngineEffect> = Vec::new();
                let checked = match &rule {
                    Rule::Trans(f) => Some(check_formula_inner(&mut ctx2, f, true)),
                    Rule::And(_, f) => Some(check_formula_inner(&mut ctx2, f, true)),
                    Rule::FromOr(f) => Some(check_formula_inner(&mut ctx2, f, true)),
                    Rule::Consider(f) => Some(check_formula_inner(&mut ctx2, f, true)),
                    Rule::ExFalso(f) => Some(check_formula_inner(&mut ctx2, f, true)),
                    _ => None,
                };
                match checked {
                    Some(Ok(mut e)) => {
                        let ghost edv = e.deep_view();
                        effects.append(&mut e);
                        assert(effects.deep_view() =~= edv);
                    },
                    Some(Err(e)) => {
                        return Err(e);
                    },
                    None => {
                        assert(ctx2.deep_view() == old(self).deep_view().context);
                        assert(effects.deep_view() =~= Seq::<SpecEffect>::empty());
                    },
                }
                let mut proof_copy = match &self.current_proof {
                    Some((_, p)) => (**p).clone(),
                    None => {
                        return Err(
                            Error::CommandError(String::from_str("Unable to apply command")),
                        );
                    },
                };
                match proof_copy.apply(rule) {
                    Ok(()) => {},
                    Err(e) => {
                        return Err(e);
                    },
                }
                let name = match &self.current_proof {
                    Some((n, _)) => n.clone(),
                    None => String::new(),
                };
                self.context = ctx2;
                self.current_proof = Some((name, Box::new(proof_copy)));
                let ghost cmdv = command.deep_view();
                self.command_stack.push(command);
                proof {
                    let step = engine_step(old(self).deep_view(), cmdv);
                    assert(self.deep_view().stack =~= old(self).deep_view().stack.push(cmdv));
                    assert(self.deep_view() =~= step->Ok_0.0);
                    assert(effects.deep_view() =~= step->Ok_0.1);
                }
                Ok(effects)
            },

            // Ending a proof using Qed.
            EngineCommand::ContextCommand(ContextCommand::Qed) => {
                let (finished, remaining) = match &self.current_proof {
                    None => {
                        return Err(Error::CommandError(String::from_str("Not in proof mode")));
                    },
                    Some((_, p)) => (p.is_finished(), p.remaining_goals_nb()),
                };
                if !finished {
                    let txt = if remaining == 1 {
                        String::from_str("One goal has not been proven yet")
                    } else {
                        decimal_str(remaining).concat(" goals have not been proven yet")
                    };
                    return Err(Error::CommandError(txt));
                }
                self.close_active_proof(command)
            },

            // Ending a proof with admit.
            EngineCommand::ContextCommand(ContextCommand::Admit) => {
                if self.current_proof.is_none() {
                    return Err(Error::CommandError(String::from_str("Not in proof mode")));
                }
                self.close_active_proof(command)
            },
        }
    }

    /// Move the active proof's goal into the theorem list and leave proof
    /// mode. The caller has already checked what its command requires.
    fn close_active_proof(&mut self, command: EngineCommand) -> (r: Result<
        Vec<EngineEffect>,
        Error,
    >)
        requires
            old(self).deep_view().active is Some,
            command.deep_view() == SpecEngineCommand::Context(SpecContextCommand::Qed)
                || command.deep_view() == SpecEngineCommand::Context(SpecContextCommand::Admit),
            command.deep_view() == SpecEngineCommand::Context(SpecContextCommand::Qed)
                ==> (old(self).deep_view().active->0).1.active is None,
        ensures
            match r {
                Ok(effects) => engine_step(old(self).deep_view(), command.deep_view()) == Ok::<
                    _,
                    ErrorKind,
                >((final(self).deep_view(), effects.deep_view())),
                Err(e) => {
                    &&& engine_step(old(self).deep_view(), command.deep_view()) is Err
                    &&& Err::<(SpecEngine, Seq<SpecEffect>), ErrorKind>(e.kind()) == engine_step(
                        old(self).deep_view(),
                        command.deep_view(),
                    )
                    &&& final(self).deep_view() == old(self).deep_view()
                },
            },
            old(self).deep_view().wf() ==> final(self).deep_view().wf(),
    {
        let (name, goal) = match &self.current_proof {
            Some((n, p)) => (n.clone(), p.goal_formula().clone()),
            None => {
                return Err(Error::CommandError(String::from_str("Not in proof mode")));
            },
        };
        let mut ctx2 = self.context.clone();
        match ctx2.add_theorem(name.as_str(), Box::new(goal.clone())) {
            Ok(()) => {},
            Err(e) => {
                return Err(e);
            },
        }
        self.context = ctx2;
        self.current_proof = None;
        let ghost cmdv = command.deep_view();
        self.command_stack.push(command);
        let effects = vec![
            EngineEffect::ExitedProofMode,
            EngineEffect::NewTheorem(name, goal),
        ];
        proof {
            let step = engine_step(old(self).deep_view(), cmdv);
            assert(self.deep_view().stack =~= old(self).deep_view().stack.push(cmdv));
            assert(self.deep_view() =~= step->Ok_0.0);
            assert(effects.deep_view() =~= step->Ok_0.1);
        }
        Ok(effects)
    }
}


impl Engine {
    /// The commands that make sense in the current mode: starting a theorem
    /// outside proof mode; closing commands on a finished proof; otherwise
    /// one template command per applicable rule.
    pub fn get_valid_commands(&self) -> (r: Vec<EngineCommand>)
        ensures
            self.deep_view().active is None ==> r@.len() == 1 && r@[0].deep_view() matches
                SpecEngineCommand::Context(SpecContextCommand::Theorem(_, _)),
            self.deep_view().active is Some && (self.deep_view().active->0).1.active is None
                ==> r@.len() == 2 && r@[0].deep_view() == SpecEngineCommand::Context(
                SpecContextCommand::Qed,
            ) && r@[1].deep_view() == SpecEngineCommand::Context(SpecContextCommand::Admit),
            self.deep_view().active is Some && (self.deep_view().active->0).1.active is Some
                ==> forall|i: int|
                0 <= i < r@.len() ==> (#[trigger] r@[i].deep_view()) is Rule,
    {
        match &self.current_proof {
            None => {
                vec![
                    EngineCommand::ContextCommand(
                        ContextCommand::Theorem(String::new(), Box::new(Formula::Falsum)),
                    ),
                ]
            },
            Some((_, p)) => {
                match p.get_applicable_rules() {
                    None => {
                        vec![
                            EngineCommand::ContextCommand(ContextCommand::Qed),
                            EngineCommand::ContextCommand(ContextCommand::Admit),
                        ]
                    },
                    Some(ruletypes) => {
                        let mut r: Vec<EngineCommand> = Vec::new();
                        let mut i: usize = 0;
                        while i < ruletypes.len()
                            invariant
                                i <= ruletypes.len(),
                                forall|k: int|
                                    0 <= k < r@.len() ==> (#[trigger] r@[k].deep_view()) is Rule,
                            decreases ruletypes.len() - i,
                        {
                            let types = crate::command::RuleCommandType::from_rule(&ruletypes[i]);
                            let mut k: usize = 0;
                            while k < types.len()
                                invariant
                                    k <= types.len(),
                                    forall|m: int|
                                        0 <= m < r@.len() ==> (#[trigger] r@[m].deep_view())
                                            is Rule,
                                decreases types.len() - k,
                            {
                                let c = EngineCommand::RuleCommand(types[k].get_default());
                                r.push(c);
                                k += 1;
                            }
                            i += 1;
                        }
                        r
                    },
                }
            },
        }
    }
}

/// Recursive worker behind formula checking: declares as it walks.
fn check_formula_inner(ctx: &mut Context, f: &Formula, forgiving: bool) -> (r: Result<
    Vec<EngineEffect>,
    Error,
>)
    ensures
        match r {
            Ok(effects) => check_formula_spec(old(ctx).deep_view(), f.deep_view(), forgiving)
                == Ok::<_, ErrorKind>((final(ctx).deep_view(), effects.deep_view())),
            Err(e) => check_formula_spec(old(ctx).deep_view(), f.deep_view(), forgiving) is Err
                && Err::<(SpecContext, Seq<SpecEffect>), ErrorKind>(e.kind())
                == check_formula_spec(old(ctx).deep_view(), f.deep_view(), forgiving),
        },
        old(ctx).deep_view().wf() ==> final(ctx).deep_view().wf(),
    decreases formula_weight(f.deep_view()), 0int,
{
    match f {
        Formula::Falsum => {
            let r: Vec<EngineEffect> = Vec::new();
            assert(r.deep_view() =~= Seq::<SpecEffect>::empty());
            Ok(r)
        },
        Formula::Relation(n, args) => {
            proof {
                crate::formula::lemma_rel_view(*f);
            }
            if contains_name_in(ctx.terms_list(), n) {
                return Err(
                    Error::InvalidFormula(
                        f.clone(),
                        String::from_str("'").concat(n.as_str()).concat(
                            "' used as a relation but defined as a term",
                        ),
                    ),
                );
            }
            let mut effects: Vec<EngineEffect> = Vec::new();
            if !contains_name_in(ctx.relations_list(), n) && forgiving {
                match ctx.add_relation(n.as_str()) {
                    Ok(()) => {
                        effects.push(EngineEffect::DefinedRelation(n.clone()));
                        assert(effects.deep_view() =~= seq![SpecEffect::DefinedRelation(n@)]);
                    },
                    Err(e) => {
                        return Err(e);
                    },
                }
            } else {
                assert(effects.deep_view() =~= Seq::<SpecEffect>::empty());
            }
            let ghost effs1 = effects.deep_view();
            let ghost ctx_mid = ctx.deep_view();
            proof {
                assert(args.deep_view().skip(0) =~= args.deep_view());
                assert(f.deep_view()->Rel_1 =~= args.deep_view());
                let step = check_formula_spec(old(ctx).deep_view(), f.deep_view(), forgiving);
                if forgiving && !old(ctx).deep_view().relations.contains(n@) {
                    assert(ctx_mid =~= SpecContext {
                        relations: old(ctx).deep_view().relations.push(n@),
                        ..old(ctx).deep_view()
                    });
                } else {
                    assert(ctx_mid =~= old(ctx).deep_view());
                }
            }
            match check_terms_inner(ctx, args, 0, forgiving) {
                Ok(mut more) => {
                    let ghost effs2 = more.deep_view();
                    effects.append(&mut more);
                    proof {
                        assert(effects.deep_view() =~= effs1 + effs2);
                    }
                    Ok(effects)
                },
                Err(e) => Err(e),
            }
        },
        Formula::Forall(v, g) => {
            match ctx.expect_not_defined(v.as_str()) {
                Err(e) => Err(e),
                Ok(()) => check_formula_inner(ctx, g, forgiving),
            }
        },
        Formula::Exists(v, g) => {
            match ctx.expect_not_defined(v.as_str()) {
                Err(e) => Err(e),
                Ok(()) => check_formula_inner(ctx, g, forgiving),
            }
        },
        Formula::Not(g) => check_formula_inner(ctx, g, forgiving),
        Formula::And(a, b) => check_formula_pair(ctx, a, b, forgiving),
        Formula::Or(a, b) => check_formula_pair(ctx, a, b, forgiving),
        Formula::Implies(a, b) => check_formula_pair(ctx, a, b, forgiving),
    }
}

/// Check two child formulas in order, concatenating their effects.
fn check_formula_pair(ctx: &mut Context, a: &Formula, b: &Formula, forgiving: bool) -> (r: Result<
    Vec<EngineEffect>,
    Error,
>)
    ensures
        match r {
            Ok(effects) => ({
                let step1 = check_formula_spec(old(ctx).deep_view(), a.deep_view(), forgiving);
                &&& step1 is Ok
                &&& check_formula_spec(step1->Ok_0.0, b.deep_view(), forgiving) matches Ok(
                    (c2, e2),
                ) && c2 == final(ctx).deep_view() && step1->Ok_0.1 + e2 == effects.deep_view()
            }),
            Err(e) => ({
                let step1 = check_formula_spec(old(ctx).deep_view(), a.deep_view(), forgiving);
                match step1 {
                    Err(k) => k == e.kind(),
                    Ok((c1, _)) => check_formula_spec(c1, b.deep_view(), forgiving) is Err
                        && check_formula_spec(c1, b.deep_view(), forgiving)->Err_0 == e.kind(),
                }
            }),
        },
        old(ctx).deep_view().wf() ==> final(ctx).deep_view().wf(),
    decreases formula_weight(a.deep_view()) + formula_weight(b.deep_view()), 1int,
{
    let mut effects = match check_formula_inner(ctx, a, forgiving) {
        Ok(e) => e,
        Err(e) => {
            return Err(e);
        },
    };
    let ghost effs1 = effects.deep_view();
    match check_formula_inner(ctx, b, forgiving) {
        Ok(mut more) => {
            let ghost effs2 = more.deep_view();
            effects.append(&mut more);
            proof {
                assert(effects.deep_view() =~= effs1 + effs2);
            }
            Ok(effects)
        },
        Err(e) => Err(e),
    }
}

/// Check the terms of `args` from index `i` on, threading the context.
fn check_terms_inner(ctx: &mut Context, args: &Vec<Term>, i: usize, forgiving: bool) -> (r: Result<
    Vec<EngineEffect>,
    Error,
>)
    requires
        i <= args.len(),
    ensures
        match r {
            Ok(effects) => check_terms_spec(
                old(ctx).deep_view(),
                args.deep_view().skip(i as int),
                forgiving,
            ) == Ok::<_, ErrorKind>((final(ctx).deep_view(), effects.deep_view())),
            Err(e) => check_terms_spec(
                old(ctx).deep_view(),
                args.deep_view().skip(i as int),
                forgiving,
            ) is Err && Err::<(SpecContext, Seq<SpecEffect>), ErrorKind>(e.kind())
                == check_terms_spec(
                old(ctx).deep_view(),
                args.deep_view().skip(i as int),
                forgiving,
            ),
        },
        old(ctx).deep_view().wf() ==> final(ctx).deep_view().wf(),
    decreases crate::term::terms_size(args.deep_view().skip(i as int)), 1int,
{
    if i == args.len() {
        let r: Vec<EngineEffect> = Vec::new();
        proof {
            assert(args.deep_view().skip(i as int).len() == 0);
            assert(r.deep_view() =~= Seq::<SpecEffect>::empty());
        }
        return Ok(r);
    }
    proof {
        assert(args.deep_view().skip(i as int)[0] == args.deep_view()[i as int]);
        assert(args.deep_view().skip(i as int).drop_first() =~= args.deep_view().skip(i + 1));
    }
    let mut effects = match check_term_inner(ctx, &args[i], forgiving) {
        Ok(e) => e,
        Err(e) => {
            return Err(e);
        },
    };
    let ghost effs1 = effects.deep_view();
    match check_terms_inner(ctx, args, i + 1, forgiving) {
        Ok(mut more) => {
            let ghost effs2 = more.deep_view();
            effects.append(&mut more);
            proof {
                assert(effects.deep_view() =~= effs1 + effs2);
            }
            Ok(effects)
        },
        Err(e) => Err(e),
    }
}

/// Recursive worker behind term checking: declares as it walks.
fn check_term_inner(ctx: &mut Context, t: &Term, forgiving: bool) -> (r: Result<
    Vec<EngineEffect>,
    Error,
>)
    ensures
        match r {
            Ok(effects) => check_term_spec(old(ctx).deep_view(), t.deep_view(), forgiving) == Ok::<
                _,
                ErrorKind,
            >((final(ctx).deep_view(), effects.deep_view())),
            Err(e) => check_term_spec(old(ctx).deep_view(), t.deep_view(), forgiving) is Err
                && Err::<(SpecContext, Seq<SpecEffect>), ErrorKind>(e.kind()) == check_term_spec(
                old(ctx).deep_view(),
                t.deep_view(),
                forgiving,
            ),
        },
        old(ctx).deep_view().wf() ==> final(ctx).deep_view().wf(),
    decreases crate::term::term_size(t.deep_view()), 0int,
{
    match t {
        Term::Variable(v) => {
            if contains_name_in(ctx.relations_list(), v) {
                Err(
                    Error::InvalidTerm(
                        t.clone(),
                        String::from_str("'").concat(v.as_str()).concat(
                            "' used as a term but defined as a relation",
                        ),
                    ),
                )
            } else {
                let r: Vec<EngineEffect> = Vec::new();
                assert(r.deep_view() =~= Seq::<SpecEffect>::empty());
                Ok(r)
            }
        },
        Term::Function(v, args) => {
            proof {
                crate::term::lemma_app_view(*t);
            }
            if contains_name_in(ctx.relations_list(), v) {
                return Err(
                    Error::InvalidTerm(
                        t.clone(),
                        String::from_str("'").concat(v.as_str()).concat(
                            "' used as a term but defined as a relation",
                        ),
                    ),
                );
            }
            let mut effects: Vec<EngineEffect> = Vec::new();
            if !contains_name_in(ctx.terms_list(), v) && forgiving {
                match ctx.add_term(v.as_str()) {
                    Ok(()) => {
                        effects.push(EngineEffect::DefinedTerm(v.clone()));
                        assert(effects.deep_view() =~= seq![SpecEffect::DefinedTerm(v@)]);
                    },
                    Err(e) => {
                        return Err(e);
                    },
                }
            } else {
                assert(effects.deep_view() =~= Seq::<SpecEffect>::empty());
            }
            let ghost effs1 = effects.deep_view();
            let ghost ctx_mid = ctx.deep_view();
            proof {
                assert(args.deep_view().skip(0) =~= args.deep_view());
                assert(t.deep_view()->App_1 =~= args.deep_view());
                assert(crate::term::terms_size(args.deep_view().skip(0)) == crate::term::terms_size(
                    t.deep_view()->App_1,
                ));
                if forgiving && !old(ctx).deep_view().terms.contains(v@) {
                    assert(ctx_mid =~= SpecContext {
                        terms: old(ctx).deep_view().terms.push(v@),
                        ..old(ctx).deep_view()
                    });
                } else {
                    assert(ctx_mid =~= old(ctx).deep_view());
                }
            }
            match check_terms_inner(ctx, args, 0, forgiving) {
                Ok(mut more) => {
                    let ghost effs2 = more.deep_view();
                    effects.append(&mut more);
                    proof {
                        assert(effects.deep_view() =~= effs1 + effs2);
                    }
                    Ok(effects)
                },
                Err(e) => Err(e),
            }
        },
    }
}

/// Whether `s` occurs in the list of names `v`.
fn contains_name_in(v: &Vec<String>, s: &String) -> (r: bool)
    ensures
        r == v.deep_view().contains(s@),
{
    let mut i: usize = 0;
    while i < v.len()
        invariant
            i <= v.len(),
            forall|j: int| 0 <= j < i ==> v.deep_view()[j] != s@,
        decreases v.len() - i,
    {
        if v[i].eq(s) {
            assert(v.deep_view()[i as int] == s@);
            return true;
        }
        i += 1;
    }
    assert(!v.deep_view().contains(s@));
    false
}

} // verus!
