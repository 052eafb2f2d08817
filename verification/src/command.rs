//! Commands accepted by the engine, and their mapping to rules.

use vstd::prelude::*;
use crate::error::{Error, ErrorKind};
use crate::formula::{Formula, SpecFormula};
use crate::lexer::{Lexer, SpecToken, Token};
use crate::rule::{Rule, RuleType, Side, SpecRule};
use crate::term::{SpecTerm, Term};

verus! {

/// Control command for the engine. Those commands are not directly linked to
/// natural deduction.
#[derive(Debug)]
pub enum ContextCommand {
    /// Create a new theorem and start the proof mode.
    Theorem(String, Box<Formula>),
    /// Add a previously proven theorem to the proof context.
    Use(String),
    /// Consider the current goal proven, exit proof mode.
    Admit,
    /// Finish the proof and exit proof mode (only when no more subgoals).
    Qed,
}

/// Command only available during a proof. Applies natural deduction rules.
#[derive(Debug)]
pub enum RuleCommand {
    Axiom,
    Intro,
    Intros,
    Trans(Box<Formula>),
    Split,
    AndLeft(Box<Formula>),
    AndRight(Box<Formula>),
    KeepLeft,
    KeepRight,
    FromOr(Box<Formula>),
    Generalize(Box<Term>),
    FixAs(Box<Term>),
    Consider(Box<Formula>),
    RenameAs(String),
    FromBottom,
    ExFalso(Box<Formula>),
}

/// One command for the engine: either a control command or a rule command.
#[derive(Debug)]
pub enum EngineCommand {
    ContextCommand(ContextCommand),
    RuleCommand(RuleCommand),
}

/// Mathematical model of a control command.
pub enum SpecContextCommand {
    Theorem(Seq<char>, SpecFormula),
    Use(Seq<char>),
    Admit,
    Qed,
}

/// Mathematical model of an engine command: a rule command is modelled by
/// the rule it builds.
pub enum SpecEngineCommand {
    Context(SpecContextCommand),
    Rule(SpecRule),
}

impl DeepView for ContextCommand {
    type V = SpecContextCommand;

    open spec fn deep_view(&self) -> SpecContextCommand {
        match self {
            ContextCommand::Theorem(n, f) => SpecContextCommand::Theorem(n@, f.deep_view()),
            ContextCommand::Use(n) => SpecContextCommand::Use(n@),
            ContextCommand::Admit => SpecContextCommand::Admit,
            ContextCommand::Qed => SpecContextCommand::Qed,
        }
    }
}

impl RuleCommand {
    /// The rule this command builds, as a model.
    pub open spec fn spec_to_rule(&self) -> SpecRule {
        match self {
            RuleCommand::Axiom => SpecRule::Axiom,
            RuleCommand::Intro => SpecRule::Intro,
            RuleCommand::Intros => SpecRule::Intros,
            RuleCommand::Trans(f) => SpecRule::Trans(f.deep_view()),
            RuleCommand::Split => SpecRule::SplitAnd,
            RuleCommand::AndLeft(f) => SpecRule::And(Side::Right, f.deep_view()),
            RuleCommand::AndRight(f) => SpecRule::And(Side::Left, f.deep_view()),
            RuleCommand::KeepLeft => SpecRule::Keep(Side::Left),
            RuleCommand::KeepRight => SpecRule::Keep(Side::Right),
            RuleCommand::FromOr(f) => SpecRule::FromOr(f.deep_view()),
            RuleCommand::Generalize(t) => SpecRule::Generalize(t.deep_view()),
            RuleCommand::FixAs(t) => SpecRule::FixAs(t.deep_view()),
            RuleCommand::Consider(f) => SpecRule::Consider(f.deep_view()),
            RuleCommand::RenameAs(v) => SpecRule::RenameAs(v@),
            RuleCommand::FromBottom => SpecRule::FromBottom,
            RuleCommand::ExFalso(f) => SpecRule::ExFalso(f.deep_view()),
        }
    }

    /// Build the rule the command stands for.
    pub fn to_rule(&self) -> (r: Rule)
        ensures
            r.deep_view() == self.spec_to_rule(),
    {
        match self {
            RuleCommand::Axiom => Rule::Axiom,
            RuleCommand::Intro => Rule::Intro,
            RuleCommand::Intros => Rule::Intros,
            RuleCommand::Trans(f) => Rule::Trans(Box::new((**f).clone())),
            RuleCommand::Split => Rule::SplitAnd,
            RuleCommand::AndLeft(f) => Rule::And(Side::Right, Box::new((**f).clone())),
            RuleCommand::AndRight(f) => Rule::And(Side::Left, Box::new((**f).clone())),
            RuleCommand::KeepLeft => Rule::Keep(Side::Left),
            RuleCommand::KeepRight => Rule::Keep(Side::Right),
            RuleCommand::FromOr(f) => Rule::FromOr(Box::new((**f).clone())),
            RuleCommand::Generalize(t) => Rule::Generalize(Box::new((**t).clone())),
            RuleCommand::FixAs(t) => Rule::FixAs(Box::new((**t).clone())),
            RuleCommand::Consider(f) => Rule::Consider(Box::new((**f).clone())),
            RuleCommand::RenameAs(v) => Rule::RenameAs(v.clone()),
            RuleCommand::FromBottom => Rule::FromBottom,
            RuleCommand::ExFalso(f) => Rule::ExFalso(Box::new((**f).clone())),
        }
    }

    /// Returns the schema associated to the rule: the premise sequents and
    /// the conclusion sequent, as display text.
    pub fn schema(&self) -> (r: Option<(Vec<&'static str>, &'static str)>)
        ensures
            r is Some <==> !(self is Intros),
    {
        let (ante, cons): (Vec<&'static str>, &'static str) = match self {
            RuleCommand::Axiom => (vec![""], "G, F |- F"),
            RuleCommand::Intro => (vec!["G, F |- G2"], "G |- F => G2"),
            RuleCommand::Trans(_) => (vec!["G |- F => G2", "G |- F"], "G |- G2"),
            RuleCommand::Split => (vec!["G |- F", "G |- G2"], "G |- F /\\ G2"),
            RuleCommand::AndLeft(_) => (vec!["G |- G2 /\\ F"], "G |- G2"),
            RuleCommand::AndRight(_) => (vec!["G |- F /\\ G2"], "G |- G2"),
            RuleCommand::KeepLeft => (vec!["G |- F"], "G |- F \\/ G2"),
            RuleCommand::KeepRight => (vec!["G |- G2"], "G |- F \\/ G2"),
            RuleCommand::FromOr(_) => (
                vec!["G |- F \\/ G2", "G, F |- H", "G, G2 |- H"],
                "G |- H",
            ),
            RuleCommand::Generalize(_) => (vec!["G |- forall v, F"], "G |- F[v -> T]"),
            RuleCommand::FixAs(_) => (vec!["G |- F[v -> T]"], "G |- exists v, F"),
            RuleCommand::Consider(_) => (vec!["G |- exists v, F", "G, F |- G2"], "G |- G2"),
            RuleCommand::RenameAs(_) => (
                vec!["G |- forall/exists v, F[x -> v]"],
                "G |- forall/exists x, F",
            ),
            RuleCommand::FromBottom => (vec!["G, ~F |- falsum"], "G |- F"),
            RuleCommand::ExFalso(_) => (vec!["G |- F", "G |- ~F"], "G |- falsum"),
            RuleCommand::Intros => {
                return None;
            },
        };
        Some((ante, cons))
    }
}

/// The kind of each rule command, without its operands.
#[derive(Clone, Copy, PartialEq, Eq, Structural, Debug)]
pub enum RuleCommandType {
    Axiom,
    Intro,
    Intros,
    Trans,
    Split,
    AndLeft,
    AndRight,
    KeepLeft,
    KeepRight,
    FromOr,
    Generalize,
    FixAs,
    Consider,
    RenameAs,
    FromBottom,
    ExFalso,
}

impl RuleCommandType {
    /// Return the rule command types that can produce a rule of the given
    /// kind, in menu order.
    pub fn from_rule(rule: &RuleType) -> (r: Vec<RuleCommandType>)
        ensures
            r@ == spec_from_rule(*rule),
    {
        let r = match rule {
            RuleType::Axiom => vec![RuleCommandType::Axiom],
            RuleType::Intro => vec![RuleCommandType::Intro],
            RuleType::Intros => vec![RuleCommandType::Intros],
            RuleType::Trans => vec![RuleCommandType::Trans],
            RuleType::SplitAnd => vec![RuleCommandType::Split],
            RuleType::And => vec![RuleCommandType::AndRight, RuleCommandType::AndLeft],
            RuleType::Keep => vec![RuleCommandType::KeepRight, RuleCommandType::KeepLeft],
            RuleType::FromOr => vec![RuleCommandType::FromOr],
            RuleType::Generalize => vec![RuleCommandType::Generalize],
            RuleType::FixAs => vec![RuleCommandType::FixAs],
            RuleType::Consider => vec![RuleCommandType::Consider],
            RuleType::RenameAs => vec![RuleCommandType::RenameAs],
            RuleType::FromBottom => vec![RuleCommandType::FromBottom],
            RuleType::ExFalso => vec![RuleCommandType::ExFalso],
        };
        proof {
            assert(r@ =~= spec_from_rule(*rule));
        }
        r
    }

    /// A template command of this type, with placeholder operands.
    pub fn get_default(&self) -> (r: RuleCommand)
        ensures
            r.spec_rule_command_type() == *self,
    {
        match self {
            RuleCommandType::Axiom => RuleCommand::Axiom,
            RuleCommandType::Intro => RuleCommand::Intro,
            RuleCommandType::Intros => RuleCommand::Intros,
            RuleCommandType::Trans => RuleCommand::Trans(Box::new(default_formula())),
            RuleCommandType::Split => RuleCommand::Split,
            RuleCommandType::AndLeft => RuleCommand::AndLeft(Box::new(default_formula())),
            RuleCommandType::AndRight => RuleCommand::AndRight(Box::new(default_formula())),
            RuleCommandType::KeepLeft => RuleCommand::KeepLeft,
            RuleCommandType::KeepRight => RuleCommand::KeepRight,
            RuleCommandType::FromOr => RuleCommand::FromOr(Box::new(default_formula())),
            RuleCommandType::Generalize => RuleCommand::Generalize(Box::new(Term::default())),
            RuleCommandType::FixAs => RuleCommand::FixAs(Box::new(Term::default())),
            RuleCommandType::Consider => RuleCommand::Consider(Box::new(default_formula())),
            RuleCommandType::RenameAs => RuleCommand::RenameAs(String::new()),
            RuleCommandType::FromBottom => RuleCommand::FromBottom,
            RuleCommandType::ExFalso => RuleCommand::ExFalso(Box::new(default_formula())),
        }
    }
}

/// A placeholder formula for template command instances.
fn default_formula() -> (r: Formula)
    ensures
        r.deep_view() == SpecFormula::Falsum,
{
    Formula::Falsum
}

/// The rule command types for each rule kind, in menu order.
pub open spec fn spec_from_rule(rule: RuleType) -> Seq<RuleCommandType> {
    match rule {
        RuleType::Axiom => seq![RuleCommandType::Axiom],
        RuleType::Intro => seq![RuleCommandType::Intro],
        RuleType::Intros => seq![RuleCommandType::Intros],
        RuleType::Trans => seq![RuleCommandType::Trans],
        RuleType::SplitAnd => seq![RuleCommandType::Split],
        RuleType::And => seq![RuleCommandType::AndRight, RuleCommandType::AndLeft],
        RuleType::Keep => seq![RuleCommandType::KeepRight, RuleCommandType::KeepLeft],
        RuleType::FromOr => seq![RuleCommandType::FromOr],
        RuleType::Generalize => seq![RuleCommandType::Generalize],
        RuleType::FixAs => seq![RuleCommandType::FixAs],
        RuleType::Consider => seq![RuleCommandType::Consider],
        RuleType::RenameAs => seq![RuleCommandType::RenameAs],
        RuleType::FromBottom => seq![RuleCommandType::FromBottom],
        RuleType::ExFalso => seq![RuleCommandType::ExFalso],
    }
}

impl RuleCommand {
    /// The kind of this rule command.
    pub open spec fn spec_rule_command_type(&self) -> RuleCommandType {
        match self {
            RuleCommand::Axiom => RuleCommandType::Axiom,
            RuleCommand::Intro => RuleCommandType::Intro,
            RuleCommand::Intros => RuleCommandType::Intros,
            RuleCommand::Trans(_) => RuleCommandType::Trans,
            RuleCommand::Split => RuleCommandType::Split,
            RuleCommand::AndLeft(_) => RuleCommandType::AndLeft,
            RuleCommand::AndRight(_) => RuleCommandType::AndRight,
            RuleCommand::KeepLeft => RuleCommandType::KeepLeft,
            RuleCommand::KeepRight => RuleCommandType::KeepRight,
            RuleCommand::FromOr(_) => RuleCommandType::FromOr,
            RuleCommand::Generalize(_) => RuleCommandType::Generalize,
            RuleCommand::FixAs(_) => RuleCommandType::FixAs,
            RuleCommand::Consider(_) => RuleCommandType::Consider,
            RuleCommand::RenameAs(_) => RuleCommandType::RenameAs,
            RuleCommand::FromBottom => RuleCommandType::FromBottom,
            RuleCommand::ExFalso(_) => RuleCommandType::ExFalso,
        }
    }
}

impl DeepView for EngineCommand {
    type V = SpecEngineCommand;

    open spec fn deep_view(&self) -> SpecEngineCommand {
        match self {
            EngineCommand::ContextCommand(c) => SpecEngineCommand::Context(c.deep_view()),
            EngineCommand::RuleCommand(c) => SpecEngineCommand::Rule(c.spec_to_rule()),
        }
    }
}

impl EngineCommand {
    /// The surface name of the command, if it has one.
    pub fn name(&self) -> (r: Option<&'static str>)
    {
        match self {
            EngineCommand::ContextCommand(c) => match c {
                ContextCommand::Theorem(_, _) => Some("Thm"),
                ContextCommand::Use(_) => Some("Use"),
                ContextCommand::Admit => Some("Admit"),
                ContextCommand::Qed => Some("Qed"),
            },
            EngineCommand::RuleCommand(c) => match c {
                RuleCommand::Axiom => Some("axiom"),
                RuleCommand::Intro => Some("intro"),
                RuleCommand::Intros => Some("intros"),
                RuleCommand::Trans(_) => Some("trans"),
                RuleCommand::Split => Some("split"),
                RuleCommand::AndLeft(_) => Some("and_left"),
                RuleCommand::AndRight(_) => Some("and_right"),
                RuleCommand::KeepLeft => Some("keep_left"),
                RuleCommand::KeepRight => Some("keep_right"),
                RuleCommand::FromOr(_) => Some("from_or"),
                RuleCommand::Generalize(_) => Some("gen"),
                RuleCommand::FixAs(_) => Some("fix_as"),
                RuleCommand::Consider(_) => Some("consider"),
                RuleCommand::RenameAs(_) => Some("rename_as"),
                RuleCommand::FromBottom => Some("from_bottom"),
                RuleCommand::ExFalso(_) => Some("exfalso"),
            },
        }
    }

    /// A short description of the command, if documented.
    pub fn desc(&self) -> (r: Option<&'static str>)
    {
        match self {
            EngineCommand::ContextCommand(c) => match c {
                ContextCommand::Theorem(_, _) => Some(
                    "Create a new theorem and start the proof mode",
                ),
                ContextCommand::Use(_) => Some("Adds a theorem to the proof context"),
                ContextCommand::Admit => Some("Consider the current goal proven, exit proof mode"),
                ContextCommand::Qed => Some(
                    "Finish the proof & exit proof mode (only when no more subgoals)",
                ),
            },
            EngineCommand::RuleCommand(c) => match c {
                RuleCommand::Intros => Some(
                    "Apply multiple 'intro' rules, until it's not longer possible",
                ),
                _ => None,
            },
        }
    }

    /// The usage line of the command, if it takes arguments.
    pub fn usage(&self) -> (r: Option<&'static str>)
    {
        match self {
            EngineCommand::ContextCommand(c) => match c {
                ContextCommand::Theorem(_, _) => Some("<thm_name> :: <F>"),
                ContextCommand::Use(_) => Some("<thm_name>"),
                _ => None,
            },
            EngineCommand::RuleCommand(c) => match c {
                RuleCommand::Trans(_) => Some("<F>"),
                RuleCommand::AndLeft(_) => Some("<F>"),
                RuleCommand::AndRight(_) => Some("<F>"),
                RuleCommand::FromOr(_) => Some("<F> \\/ <G>"),
                RuleCommand::Generalize(_) => Some("<T>"),
                RuleCommand::FixAs(_) => Some("<T>"),
                RuleCommand::Consider(_) => Some("exists <v>, <F>"),
                RuleCommand::RenameAs(_) => Some("<v>"),
                RuleCommand::FromBottom => Some("<F>"),
                RuleCommand::ExFalso(_) => Some("<F>"),
                _ => None,
            },
        }
    }
}

impl Clone for ContextCommand {
    /// Clones preserve the command's model exactly.
    fn clone(&self) -> (r: ContextCommand)
        ensures
            r.deep_view() == self.deep_view(),
    {
        match self {
            ContextCommand::Theorem(n, f) => ContextCommand::Theorem(
                n.clone(),
                Box::new((**f).clone()),
            ),
            ContextCommand::Use(n) => ContextCommand::Use(n.clone()),
            ContextCommand::Admit => ContextCommand::Admit,
            ContextCommand::Qed => ContextCommand::Qed,
        }
    }
}

impl Clone for RuleCommand {
    /// Clones preserve the command's model exactly.
    fn clone(&self) -> (r: RuleCommand)
        ensures
            r.spec_to_rule() == self.spec_to_rule(),
            r.spec_rule_command_type() == self.spec_rule_command_type(),
    {
        match self {
            RuleCommand::Axiom => RuleCommand::Axiom,
            RuleCommand::Intro => RuleCommand::Intro,
            RuleCommand::Intros => RuleCommand::Intros,
            RuleCommand::Trans(f) => RuleCommand::Trans(Box::new((**f).clone())),
            RuleCommand::Split => RuleCommand::Split,
            RuleCommand::AndLeft(f) => RuleCommand::AndLeft(Box::new((**f).clone())),
            RuleCommand::AndRight(f) => RuleCommand::AndRight(Box::new((**f).clone())),
            RuleCommand::KeepLeft => RuleCommand::KeepLeft,
            RuleCommand::KeepRight => RuleCommand::KeepRight,
            RuleCommand::FromOr(f) => RuleCommand::FromOr(Box::new((**f).clone())),
            RuleCommand::Generalize(t) => RuleCommand::Generalize(Box::new((**t).clone())),
            RuleCommand::FixAs(t) => RuleCommand::FixAs(Box::new((**t).clone())),
            RuleCommand::Consider(f) => RuleCommand::Consider(Box::new((**f).clone())),
            RuleCommand::RenameAs(v) => RuleCommand::RenameAs(v.clone()),
            RuleCommand::FromBottom => RuleCommand::FromBottom,
            RuleCommand::ExFalso(f) => RuleCommand::ExFalso(Box::new((**f).clone())),
        }
    }
}

impl Clone for EngineCommand {
    /// Clones preserve the command's model exactly.
    fn clone(&self) -> (r: EngineCommand)
        ensures
            r.deep_view() == self.deep_view(),
    {
        match self {
            EngineCommand::ContextCommand(c) => EngineCommand::ContextCommand(c.clone()),
            EngineCommand::RuleCommand(c) => EngineCommand::RuleCommand(c.clone()),
        }
    }
}


/// The names of the commands that apply rules or close proofs.
pub fn is_rule(name: &str) -> (r: bool)
{
    crate::tools::str_eq(name, "admit") || crate::tools::str_eq(name, "proof")
        || crate::tools::str_eq(name, "qed") || is_rule_name(name)
}

/// The names of the rule commands.
fn is_rule_name(name: &str) -> bool {
    crate::tools::str_eq(name, "axiom") || crate::tools::str_eq(name, "intro")
        || crate::tools::str_eq(name, "intros") || crate::tools::str_eq(name, "trans")
        || crate::tools::str_eq(name, "split") || crate::tools::str_eq(name, "and_left")
        || crate::tools::str_eq(name, "and_right") || crate::tools::str_eq(name, "keep_left")
        || crate::tools::str_eq(name, "keep_right") || crate::tools::str_eq(name, "from_or")
        || crate::tools::str_eq(name, "gen") || crate::tools::str_eq(name, "fix_as")
        || crate::tools::str_eq(name, "consider") || crate::tools::str_eq(name, "rename_as")
        || crate::tools::str_eq(name, "from_bottom") || crate::tools::str_eq(name, "exfalso")
}

/// What a token stream parses to as a command: the command, nothing for an
/// empty stream, or the kind of the error.
pub open spec fn spec_parse_command(toks: Seq<SpecToken>) -> Result<
    Option<SpecEngineCommand>,
    ErrorKind,
> {
    if toks.len() == 0 {
        Ok(None)
    } else {
        match toks[0] {
            SpecToken::Thm => spec_parse_thm(toks),
            SpecToken::Def => Err(ErrorKind::InvalidCommand),
            SpecToken::Use => spec_parse_use(toks),
            SpecToken::Qed => if toks.len() == 1 {
                Ok(Some(SpecEngineCommand::Context(SpecContextCommand::Qed)))
            } else {
                Err(ErrorKind::TooMuchArguments)
            },
            SpecToken::Admit => if toks.len() == 1 {
                Ok(Some(SpecEngineCommand::Context(SpecContextCommand::Admit)))
            } else {
                Err(ErrorKind::TooMuchArguments)
            },
            SpecToken::Ident(name) => spec_parse_rule(toks, name),
            _ => Err(ErrorKind::UnknownCommand),
        }
    }
}

/// Parse `Thm <ident> :: <formula>`.
pub open spec fn spec_parse_thm(toks: Seq<SpecToken>) -> Result<
    Option<SpecEngineCommand>,
    ErrorKind,
> {
    if toks.len() == 1 {
        Err(ErrorKind::UnexpectedEOF)
    } else if !(toks[1] is Ident) {
        Err(ErrorKind::InvalidCommand)
    } else if toks.len() == 2 {
        Err(ErrorKind::UnexpectedEOF)
    } else if !(toks[2] is DoubleColon) {
        Err(ErrorKind::InvalidCommand)
    } else {
        match crate::parser::sp_formula(toks, 3, Seq::empty()) {
            Some((f, j)) => if j == toks.len() {
                Ok(
                    Some(
                        SpecEngineCommand::Context(
                            SpecContextCommand::Theorem(toks[1]->Ident_0, f),
                        ),
                    ),
                )
            } else {
                Err(ErrorKind::InvalidArguments)
            },
            None => Err(ErrorKind::InvalidArguments),
        }
    }
}

/// Parse `Use <ident>`.
pub open spec fn spec_parse_use(toks: Seq<SpecToken>) -> Result<
    Option<SpecEngineCommand>,
    ErrorKind,
> {
    if toks.len() == 1 {
        Err(ErrorKind::ArgumentsRequired)
    } else if !(toks[1] is Ident) {
        Err(ErrorKind::InvalidArguments)
    } else if toks.len() == 2 {
        Ok(Some(SpecEngineCommand::Context(SpecContextCommand::Use(toks[1]->Ident_0))))
    } else {
        Err(ErrorKind::TooMuchArguments)
    }
}

/// Parse a rule command and its arguments.
pub open spec fn spec_parse_rule(toks: Seq<SpecToken>, name: Seq<char>) -> Result<
    Option<SpecEngineCommand>,
    ErrorKind,
> {
    if name == "axiom"@ {
        spec_no_arg(toks, SpecRule::Axiom)
    } else if name == "intro"@ {
        spec_no_arg(toks, SpecRule::Intro)
    } else if name == "intros"@ {
        spec_no_arg(toks, SpecRule::Intros)
    } else if name == "split"@ {
        spec_no_arg(toks, SpecRule::SplitAnd)
    } else if name == "keep_left"@ {
        spec_no_arg(toks, SpecRule::Keep(Side::Left))
    } else if name == "keep_right"@ {
        spec_no_arg(toks, SpecRule::Keep(Side::Right))
    } else if name == "from_bottom"@ {
        spec_no_arg(toks, SpecRule::FromBottom)
    } else if name == "trans"@ {
        spec_formula_arg_rule(toks, RuleCommandType::Trans)
    } else if name == "and_left"@ {
        spec_formula_arg_rule(toks, RuleCommandType::AndLeft)
    } else if name == "and_right"@ {
        spec_formula_arg_rule(toks, RuleCommandType::AndRight)
    } else if name == "from_or"@ {
        spec_formula_arg_rule(toks, RuleCommandType::FromOr)
    } else if name == "consider"@ {
        spec_formula_arg_rule(toks, RuleCommandType::Consider)
    } else if name == "exfalso"@ {
        spec_formula_arg_rule(toks, RuleCommandType::ExFalso)
    } else if name == "gen"@ {
        spec_term_arg_rule(toks, RuleCommandType::Generalize)
    } else if name == "fix_as"@ {
        spec_term_arg_rule(toks, RuleCommandType::FixAs)
    } else if name == "rename_as"@ {
        if toks.len() == 1 {
            Err(ErrorKind::ArgumentsRequired)
        } else if !(toks[1] is Ident) {
            Err(ErrorKind::InvalidArguments)
        } else if toks.len() == 2 {
            Ok(Some(SpecEngineCommand::Rule(SpecRule::RenameAs(toks[1]->Ident_0))))
        } else {
            Err(ErrorKind::TooMuchArguments)
        }
    } else {
        Err(ErrorKind::UnknownCommand)
    }
}

/// A rule command without arguments.
pub open spec fn spec_no_arg(toks: Seq<SpecToken>, rule: SpecRule) -> Result<
    Option<SpecEngineCommand>,
    ErrorKind,
> {
    if toks.len() == 1 {
        Ok(Some(SpecEngineCommand::Rule(rule)))
    } else {
        Err(ErrorKind::TooMuchArguments)
    }
}

/// A rule command taking one formula argument.
pub open spec fn spec_formula_arg_rule(toks: Seq<SpecToken>, rc: RuleCommandType) -> Result<
    Option<SpecEngineCommand>,
    ErrorKind,
> {
    if toks.len() == 1 {
        Err(ErrorKind::ArgumentsRequired)
    } else {
        match crate::parser::sp_formula(toks, 1, Seq::empty()) {
            Some((f, j)) => if j == toks.len() {
                Ok(Some(SpecEngineCommand::Rule(spec_rule_with_formula(rc, f))))
            } else {
                Err(ErrorKind::InvalidArguments)
            },
            None => Err(ErrorKind::InvalidArguments),
        }
    }
}

/// A rule command taking one term argument.
pub open spec fn spec_term_arg_rule(toks: Seq<SpecToken>, rc: RuleCommandType) -> Result<
    Option<SpecEngineCommand>,
    ErrorKind,
> {
    if toks.len() == 1 {
        Err(ErrorKind::ArgumentsRequired)
    } else {
        match crate::parser::sp_term(toks, 1, Seq::empty()) {
            Some((t, j)) => if j == toks.len() {
                Ok(Some(SpecEngineCommand::Rule(spec_rule_with_term(rc, t))))
            } else {
                Err(ErrorKind::InvalidArguments)
            },
            None => Err(ErrorKind::InvalidArguments),
        }
    }
}

/// The rule a formula-argument command builds.
pub open spec fn spec_rule_with_formula(rc: RuleCommandType, f: SpecFormula) -> SpecRule {
    match rc {
        RuleCommandType::Trans => SpecRule::Trans(f),
        RuleCommandType::AndLeft => SpecRule::And(Side::Right, f),
        RuleCommandType::AndRight => SpecRule::And(Side::Left, f),
        RuleCommandType::FromOr => SpecRule::FromOr(f),
        RuleCommandType::Consider => SpecRule::Consider(f),
        _ => SpecRule::ExFalso(f),
    }
}

/// The rule a term-argument command builds.
pub open spec fn spec_rule_with_term(rc: RuleCommandType, t: SpecTerm) -> SpecRule {
    match rc {
        RuleCommandType::Generalize => SpecRule::Generalize(t),
        _ => SpecRule::FixAs(t),
    }
}


impl EngineCommand {
    /// Parse one command out of a lexed command text, as
    /// [`spec_parse_command`] describes. An empty command parses to nothing.
    pub fn parse(command: &mut Lexer) -> (r: Result<Option<EngineCommand>, Error>)
        ensures
            match r {
                Ok(None) => !old(command).spec_failed() && spec_parse_command(
                    old(command).remaining(),
                ) == Ok::<Option<SpecEngineCommand>, ErrorKind>(None),
                Ok(Some(cmd)) => !old(command).spec_failed() && spec_parse_command(
                    old(command).remaining(),
                ) == Ok::<Option<SpecEngineCommand>, ErrorKind>(Some(cmd.deep_view())),
                Err(e) => (old(command).spec_failed() && e.kind() == ErrorKind::UnknownCommand)
                    || (spec_parse_command(old(command).remaining()) is Err
                    && spec_parse_command(old(command).remaining())->Err_0 == e.kind()),
            },
    {
        let toks = match command.take_rest() {
            Ok(t) => t,
            Err(crate::lexer::LexicalError::UnknownToken(w)) => {
                return Err(Error::UnknownCommand(w));
            },
        };
        parse_command_tokens(toks)
    }
}

/// Parse one command out of its tokens.
fn parse_command_tokens(toks: Vec<Token>) -> (r: Result<Option<EngineCommand>, Error>)
    ensures
        match r {
            Ok(None) => spec_parse_command(toks.deep_view()) == Ok::<
                Option<SpecEngineCommand>,
                ErrorKind,
            >(None),
            Ok(Some(cmd)) => spec_parse_command(toks.deep_view()) == Ok::<
                Option<SpecEngineCommand>,
                ErrorKind,
            >(Some(cmd.deep_view())),
            Err(e) => spec_parse_command(toks.deep_view()) is Err && spec_parse_command(
                toks.deep_view(),
            )->Err_0 == e.kind(),
        },
{
    proof {
        reveal_strlit("axiom");
        reveal_strlit("intro");
        reveal_strlit("intros");
        reveal_strlit("trans");
        reveal_strlit("split");
        reveal_strlit("and_left");
        reveal_strlit("and_right");
        reveal_strlit("keep_left");
        reveal_strlit("keep_right");
        reveal_strlit("from_or");
        reveal_strlit("gen");
        reveal_strlit("fix_as");
        reveal_strlit("consider");
        reveal_strlit("rename_as");
        reveal_strlit("from_bottom");
        reveal_strlit("exfalso");
    }
    if toks.len() == 0 {
        return Ok(None);
    }
    proof {
        assert(toks.deep_view()[0] == toks@[0].deep_view());
    }
    match &toks[0] {
        Token::Thm => parse_thm(&toks),
        Token::Def => Err(
            Error::InvalidCommand(String::from_str("Def")),
        ),
        Token::Use => parse_use(&toks),
        Token::Qed => {
            if toks.len() == 1 {
                Ok(Some(EngineCommand::ContextCommand(ContextCommand::Qed)))
            } else {
                Err(
                    Error::TooMuchArguments(
                        String::from_str("Too much arguments where supplied"),
                    ),
                )
            }
        },
        Token::Admit => {
            if toks.len() == 1 {
                Ok(Some(EngineCommand::ContextCommand(ContextCommand::Admit)))
            } else {
                Err(
                    Error::TooMuchArguments(
                        String::from_str("Too much arguments where supplied"),
                    ),
                )
            }
        },
        Token::Ident(name) => {
            let n = name.clone();
            parse_rule_command(&toks, &n)
        },
        _ => Err(Error::UnknownCommand(String::from_str("unexpected token"))),
    }
}

/// Parse `Thm <ident> :: <formula>`.
fn parse_thm(toks: &Vec<Token>) -> (r: Result<Option<EngineCommand>, Error>)
    requires
        toks@.len() > 0,
        toks.deep_view()[0] is Thm,
    ensures
        match r {
            Ok(None) => false,
            Ok(Some(cmd)) => spec_parse_thm(toks.deep_view()) == Ok::<
                Option<SpecEngineCommand>,
                ErrorKind,
            >(Some(cmd.deep_view())),
            Err(e) => spec_parse_thm(toks.deep_view()) is Err && spec_parse_thm(
                toks.deep_view(),
            )->Err_0 == e.kind(),
        },
{
    if toks.len() == 1 {
        return Err(Error::UnexpectedEOF);
    }
    proof {
        assert(toks.deep_view()[1] == toks@[1].deep_view());
    }
    let thm_name = match &toks[1] {
        Token::Ident(n) => n.clone(),
        _ => {
            return Err(Error::InvalidCommand(String::from_str("Expected a name")));
        },
    };
    if toks.len() == 2 {
        return Err(Error::UnexpectedEOF);
    }
    proof {
        assert(toks.deep_view()[2] == toks@[2].deep_view());
    }
    match &toks[2] {
        Token::DoubleColon => {},
        _ => {
            return Err(Error::InvalidCommand(String::from_str("Expected '::'")));
        },
    }
    let no_bound: Vec<String> = Vec::new();
    proof {
        assert(no_bound.deep_view() =~= Seq::<Seq<char>>::empty());
        reveal_strlit("Invalid formula");
    }
    match crate::parser::ex_formula(toks, 3, &no_bound) {
        Some((f, j)) => {
            if j == toks.len() {
                Ok(
                    Some(
                        EngineCommand::ContextCommand(
                            ContextCommand::Theorem(thm_name, Box::new(f)),
                        ),
                    ),
                )
            } else {
                Err(Error::InvalidArguments(String::from_str("Invalid formula")))
            }
        },
        None => Err(Error::InvalidArguments(String::from_str("Invalid formula"))),
    }
}

/// Parse `Use <ident>`.
fn parse_use(toks: &Vec<Token>) -> (r: Result<Option<EngineCommand>, Error>)
    requires
        toks@.len() > 0,
        toks.deep_view()[0] is Use,
    ensures
        match r {
            Ok(None) => false,
            Ok(Some(cmd)) => spec_parse_use(toks.deep_view()) == Ok::<
                Option<SpecEngineCommand>,
                ErrorKind,
            >(Some(cmd.deep_view())),
            Err(e) => spec_parse_use(toks.deep_view()) is Err && spec_parse_use(
                toks.deep_view(),
            )->Err_0 == e.kind(),
        },
{
    if toks.len() == 1 {
        return Err(Error::ArgumentsRequired(String::from_str("Expected a theorem name")));
    }
    proof {
        assert(toks.deep_view()[1] == toks@[1].deep_view());
    }
    match &toks[1] {
        Token::Ident(n) => {
            if toks.len() == 2 {
                Ok(Some(EngineCommand::ContextCommand(ContextCommand::Use(n.clone()))))
            } else {
                Err(
                    Error::TooMuchArguments(
                        String::from_str("Too much arguments where supplied"),
                    ),
                )
            }
        },
        _ => Err(Error::InvalidArguments(String::from_str("Expected a theorem name"))),
    }
}

/// Parse a rule command and its arguments.
fn parse_rule_command(toks: &Vec<Token>, name: &String) -> (r: Result<Option<EngineCommand>, Error>)
    requires
        toks@.len() > 0,
        toks.deep_view()[0] == SpecToken::Ident(name@),
    ensures
        match r {
            Ok(None) => false,
            Ok(Some(cmd)) => spec_parse_rule(toks.deep_view(), name@) == Ok::<
                Option<SpecEngineCommand>,
                ErrorKind,
            >(Some(cmd.deep_view())),
            Err(e) => spec_parse_rule(toks.deep_view(), name@) is Err && spec_parse_rule(
                toks.deep_view(),
                name@,
            )->Err_0 == e.kind(),
        },
{
    proof {
        reveal_strlit("axiom");
        reveal_strlit("intro");
        reveal_strlit("intros");
        reveal_strlit("trans");
        reveal_strlit("split");
        reveal_strlit("and_left");
        reveal_strlit("and_right");
        reveal_strlit("keep_left");
        reveal_strlit("keep_right");
        reveal_strlit("from_or");
        reveal_strlit("gen");
        reveal_strlit("fix_as");
        reveal_strlit("consider");
        reveal_strlit("rename_as");
        reveal_strlit("from_bottom");
        reveal_strlit("exfalso");
    }
    let s = name.as_str();
    if crate::tools::str_eq(s, "axiom") {
        no_arg_command(toks, RuleCommand::Axiom)
    } else if crate::tools::str_eq(s, "intro") {
        no_arg_command(toks, RuleCommand::Intro)
    } else if crate::tools::str_eq(s, "intros") {
        no_arg_command(toks, RuleCommand::Intros)
    } else if crate::tools::str_eq(s, "split") {
        no_arg_command(toks, RuleCommand::Split)
    } else if crate::tools::str_eq(s, "keep_left") {
        no_arg_command(toks, RuleCommand::KeepLeft)
    } else if crate::tools::str_eq(s, "keep_right") {
        no_arg_command(toks, RuleCommand::KeepRight)
    } else if crate::tools::str_eq(s, "from_bottom") {
        no_arg_command(toks, RuleCommand::FromBottom)
    } else if crate::tools::str_eq(s, "trans") {
        formula_arg_command(toks, RuleCommandType::Trans)
    } else if crate::tools::str_eq(s, "and_left") {
        formula_arg_command(toks, RuleCommandType::AndLeft)
    } else if crate::tools::str_eq(s, "and_right") {
        formula_arg_command(toks, RuleCommandType::AndRight)
    } else if crate::tools::str_eq(s, "from_or") {
        formula_arg_command(toks, RuleCommandType::FromOr)
    } else if crate::tools::str_eq(s, "consider") {
        formula_arg_command(toks, RuleCommandType::Consider)
    } else if crate::tools::str_eq(s, "exfalso") {
        formula_arg_command(toks, RuleCommandType::ExFalso)
    } else if crate::tools::str_eq(s, "gen") {
        term_arg_command(toks, RuleCommandType::Generalize)
    } else if crate::tools::str_eq(s, "fix_as") {
        term_arg_command(toks, RuleCommandType::FixAs)
    } else if crate::tools::str_eq(s, "rename_as") {
        if toks.len() == 1 {
            return Err(Error::ArgumentsRequired(String::from_str("Expected a variable name")));
        }
        proof {
            assert(toks.deep_view()[1] == toks@[1].deep_view());
        }
        match &toks[1] {
            Token::Ident(v) => {
                if toks.len() == 2 {
                    Ok(Some(EngineCommand::RuleCommand(RuleCommand::RenameAs(v.clone()))))
                } else {
                    Err(
                        Error::TooMuchArguments(
                            String::from_str("Too much arguments where supplied"),
                        ),
                    )
                }
            },
            _ => Err(Error::InvalidArguments(String::from_str("Expected a variable name"))),
        }
    } else {
        Err(Error::UnknownCommand(name.clone()))
    }
}

/// A rule command that takes no arguments.
fn no_arg_command(toks: &Vec<Token>, rc: RuleCommand) -> (r: Result<Option<EngineCommand>, Error>)
    requires
        toks@.len() > 0,
    ensures
        match r {
            Ok(None) => false,
            Ok(Some(cmd)) => spec_no_arg(toks.deep_view(), rc.spec_to_rule()) == Ok::<
                Option<SpecEngineCommand>,
                ErrorKind,
            >(Some(cmd.deep_view())),
            Err(e) => spec_no_arg(toks.deep_view(), rc.spec_to_rule()) is Err && spec_no_arg(
                toks.deep_view(),
                rc.spec_to_rule(),
            )->Err_0 == e.kind(),
        },
{
    if toks.len() == 1 {
        Ok(Some(EngineCommand::RuleCommand(rc)))
    } else {
        Err(Error::TooMuchArguments(String::from_str("Too much arguments where supplied")))
    }
}

/// A rule command that takes one formula argument.
fn formula_arg_command(toks: &Vec<Token>, rc: RuleCommandType) -> (r: Result<
    Option<EngineCommand>,
    Error,
>)
    requires
        toks@.len() > 0,
        rc == RuleCommandType::Trans || rc == RuleCommandType::AndLeft || rc
            == RuleCommandType::AndRight || rc == RuleCommandType::FromOr || rc
            == RuleCommandType::Consider || rc == RuleCommandType::ExFalso,
    ensures
        match r {
            Ok(None) => false,
            Ok(Some(cmd)) => spec_formula_arg_rule(toks.deep_view(), rc) == Ok::<
                Option<SpecEngineCommand>,
                ErrorKind,
            >(Some(cmd.deep_view())),
            Err(e) => spec_formula_arg_rule(toks.deep_view(), rc) is Err
                && spec_formula_arg_rule(toks.deep_view(), rc)->Err_0 == e.kind(),
        },
{
    if toks.len() == 1 {
        return Err(Error::ArgumentsRequired(String::from_str("Expected a formula")));
    }
    let no_bound: Vec<String> = Vec::new();
    proof {
        assert(no_bound.deep_view() =~= Seq::<Seq<char>>::empty());
        reveal_strlit("Invalid formula");
    }
    match crate::parser::ex_formula(toks, 1, &no_bound) {
        Some((f, j)) => {
            if j == toks.len() {
                let cmd = match rc {
                    RuleCommandType::Trans => RuleCommand::Trans(Box::new(f)),
                    RuleCommandType::AndLeft => RuleCommand::AndLeft(Box::new(f)),
                    RuleCommandType::AndRight => RuleCommand::AndRight(Box::new(f)),
                    RuleCommandType::FromOr => RuleCommand::FromOr(Box::new(f)),
                    RuleCommandType::Consider => RuleCommand::Consider(Box::new(f)),
                    _ => RuleCommand::ExFalso(Box::new(f)),
                };
                Ok(Some(EngineCommand::RuleCommand(cmd)))
            } else {
                Err(Error::InvalidArguments(String::from_str("Invalid formula")))
            }
        },
        None => Err(Error::InvalidArguments(String::from_str("Invalid formula"))),
    }
}

/// A rule command that takes one term argument.
fn term_arg_command(toks: &Vec<Token>, rc: RuleCommandType) -> (r: Result<
    Option<EngineCommand>,
    Error,
>)
    requires
        toks@.len() > 0,
        rc == RuleCommandType::Generalize || rc == RuleCommandType::FixAs,
    ensures
        match r {
            Ok(None) => false,
            Ok(Some(cmd)) => spec_term_arg_rule(toks.deep_view(), rc) == Ok::<
                Option<SpecEngineCommand>,
                ErrorKind,
            >(Some(cmd.deep_view())),
            Err(e) => spec_term_arg_rule(toks.deep_view(), rc) is Err && spec_term_arg_rule(
                toks.deep_view(),
                rc,
            )->Err_0 == e.kind(),
        },
{
    if toks.len() == 1 {
        return Err(Error::ArgumentsRequired(String::from_str("Expected a term")));
    }
    let no_bound: Vec<String> = Vec::new();
    proof {
        assert(no_bound.deep_view() =~= Seq::<Seq<char>>::empty());
        reveal_strlit("Invalid term");
    }
    match crate::parser::ex_term(toks, 1, &no_bound) {
        Some((t, j)) => {
            if j == toks.len() {
                let cmd = match rc {
                    RuleCommandType::Generalize => RuleCommand::Generalize(Box::new(t)),
                    _ => RuleCommand::FixAs(Box::new(t)),
                };
                Ok(Some(EngineCommand::RuleCommand(cmd)))
            } else {
                Err(Error::InvalidArguments(String::from_str("Invalid term")))
            }
        },
        None => Err(Error::InvalidArguments(String::from_str("Invalid term"))),
    }
}

} // verus!
