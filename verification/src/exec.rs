//! The script executor: a script is a sequence of steps separated by `.`,
//! each step one command.

use vstd::prelude::*;
use crate::command::{EngineCommand, spec_parse_command};
use crate::engine::{Engine, EngineEffect, SpecEffect, SpecEngine, engine_step};
use crate::error::{Error, ErrorKind};
use crate::lexer::{Lexer, spec_lex};

verus! {

broadcast use vstd::std_specs::vec::group_vec_axioms;

/// Mathematical model of a step.
pub struct SpecStep {
    pub text: Seq<char>,
    pub start: (usize, usize),
    pub end: (usize, usize),
}

/// One step of a script: its command text and its source range
/// (line, column), both ends inclusive.
#[derive(Debug)]
pub struct Step {
    pub command_txt: String,
    pub start: (usize, usize),
    pub end: (usize, usize),
}

impl DeepView for Step {
    type V = SpecStep;

    open spec fn deep_view(&self) -> SpecStep {
        SpecStep { text: self.command_txt@, start: self.start, end: self.end }
    }
}

impl Clone for Step {
    /// Clones preserve the step's model exactly.
    fn clone(&self) -> (r: Step)
        ensures
            r.deep_view() == self.deep_view(),
    {
        Step { command_txt: self.command_txt.clone(), start: self.start, end: self.end }
    }
}

/// Whether `c` counts as blank when trimming a step.
pub open spec fn spec_blank(c: char) -> bool {
    c == ' ' || c == '\t' || c == '\r' || c == '\n'
}

/// The text without leading blanks.
pub open spec fn trim_front(s: Seq<char>) -> Seq<char>
    decreases s,
{
    if s.len() > 0 && spec_blank(s[0]) {
        trim_front(s.drop_first())
    } else {
        s
    }
}

/// The text without trailing blanks.
pub open spec fn trim_back(s: Seq<char>) -> Seq<char>
    decreases s,
{
    if s.len() > 0 && spec_blank(s[s.len() - 1]) {
        trim_back(s.drop_last())
    } else {
        s
    }
}

/// The text without leading or trailing blanks.
pub open spec fn spec_trim(s: Seq<char>) -> Seq<char> {
    trim_back(trim_front(s))
}

/// The texts of the steps of a script from index `i` on, given the text
/// collected for the current step: the script splits at each `.`, each
/// step is trimmed and blank steps are dropped. Text after the last `.`
/// that is not blank has no terminating step.
pub open spec fn spec_step_texts(s: Seq<char>, i: int, buf: Seq<char>) -> Result<
    Seq<Seq<char>>,
    ErrorKind,
>
    decreases s.len() - i,
{
    if i < 0 {
        Err(ErrorKind::UnexpectedEOF)
    } else if i >= s.len() {
        if spec_trim(buf).len() == 0 {
            Ok(Seq::empty())
        } else {
            Err(ErrorKind::UnexpectedEOF)
        }
    } else if s[i] == '.' {
        match spec_step_texts(s, i + 1, Seq::empty()) {
            Err(k) => Err(k),
            Ok(rest) => if spec_trim(buf).len() == 0 {
                Ok(rest)
            } else {
                Ok(seq![spec_trim(buf)] + rest)
            },
        }
    } else {
        spec_step_texts(s, i + 1, buf.push(s[i]))
    }
}

/// Trim the blanks off both ends of a string.
pub fn trim_text(s: &String) -> (r: String)
    ensures
        r@ == spec_trim(s@),
{
    let n = s.as_str().unicode_len();
    let mut start: usize = 0;
    proof {
        assert(s@.skip(0) =~= s@);
    }
    while start < n && is_blank(s.as_str().get_char(start))
        invariant
            start <= n,
            n == s@.len(),
            trim_front(s@) == trim_front(s@.skip(start as int)),
        decreases n - start,
    {
        proof {
            assert(s@.skip(start as int).drop_first() =~= s@.skip(start + 1));
        }
        start += 1;
    }
    let mut stop: usize = n;
    proof {
        assert(s@.skip(start as int).take(n - start) =~= s@.skip(start as int));
    }
    while stop > start && is_blank(s.as_str().get_char(stop - 1))
        invariant
            start <= stop <= n,
            n == s@.len(),
            trim_front(s@) == trim_front(s@.skip(start as int)),
            start < n ==> !spec_blank(s@[start as int]),
            trim_back(s@.skip(start as int)) == trim_back(
                s@.skip(start as int).take(stop - start),
            ),
        decreases stop,
    {
        proof {
            assert(s@.skip(start as int).take(stop - start).drop_last() =~= s@.skip(
                start as int,
            ).take(stop - 1 - start));
        }
        stop -= 1;
    }
    let mut r = String::new();
    let mut i: usize = start;
    while i < stop
        invariant
            start <= i <= stop <= n,
            n == s@.len(),
            r@ == s@.subrange(start as int, i as int),
        decreases stop - i,
    {
        r.push(s.as_str().get_char(i));
        proof {
            assert(r@ =~= s@.subrange(start as int, i + 1));
        }
        i += 1;
    }
    proof {
        if start < n {
            assert(trim_front(s@.skip(start as int)) == s@.skip(start as int));
        } else {
            assert(s@.skip(start as int).len() == 0);
        }
        if stop > start {
            assert(!spec_blank(s@.skip(start as int).take(stop - start)[stop - start - 1]));
            assert(trim_back(s@.skip(start as int).take(stop - start)) == s@.skip(
                start as int,
            ).take(stop - start));
        } else {
            assert(s@.skip(start as int).take(0).len() == 0);
            assert(trim_back(s@.skip(start as int).take(stop - start)) =~= Seq::<char>::empty());
        }
        assert(r@ =~= s@.skip(start as int).take(stop - start));
    }
    r
}

/// Whether `c` is a blank.
fn is_blank(c: char) -> (r: bool)
    ensures
        r == spec_blank(c),
{
    c == ' ' || c == '\t' || c == '\r' || c == '\n'
}


/// The command texts of a list of steps.
pub open spec fn step_texts_of(ss: Seq<SpecStep>) -> Seq<Seq<char>> {
    Seq::new(ss.len(), |i: int| ss[i].text)
}

/// Split a script into steps, recording the source range of each.
pub fn parse_steps(content: &str) -> (r: Result<Vec<Step>, Error>)
    ensures
        match r {
            Ok(steps) => spec_step_texts(content@, 0, Seq::empty()) == Ok::<_, ErrorKind>(
                step_texts_of(steps.deep_view()),
            ),
            Err(e) => spec_step_texts(content@, 0, Seq::empty()) is Err && spec_step_texts(
                content@,
                0,
                Seq::empty(),
            )->Err_0 == e.kind(),
        },
{
    let chars = text_to_chars(content);
    steps_from(&chars, 0, String::new(), 0, 0, (0, 0), false)
}

/// Turn the text into characters.
fn text_to_chars(s: &str) -> (r: Vec<char>)
    ensures
        r@ == s@,
{
    let n = s.unicode_len();
    let mut r: Vec<char> = Vec::new();
    let mut i: usize = 0;
    while i < n
        invariant
            i <= n,
            n == s@.len(),
            r@.len() == i,
            forall|j: int| 0 <= j < i ==> r@[j] == s@[j],
        decreases n - i,
    {
        r.push(s.get_char(i));
        i += 1;
    }
    proof {
        assert(r@ =~= s@);
    }
    r
}

/// Collect the steps of the script from index `i` on. `buf` holds the text
/// read for the current step, `buf_start` its recorded start position, and
/// `fresh` whether the next plain character starts a new step.
fn steps_from(
    chars: &Vec<char>,
    i: usize,
    buf: String,
    line: usize,
    col: usize,
    buf_start: (usize, usize),
    fresh: bool,
) -> (r: Result<Vec<Step>, Error>)
    requires
        i <= chars@.len(),
    ensures
        match r {
            Ok(steps) => spec_step_texts(chars@, i as int, buf@) == Ok::<_, ErrorKind>(
                step_texts_of(steps.deep_view()),
            ),
            Err(e) => spec_step_texts(chars@, i as int, buf@) is Err && spec_step_texts(
                chars@,
                i as int,
                buf@,
            )->Err_0 == e.kind(),
        },
    decreases chars@.len() - i,
{
    if i == chars.len() {
        let t = trim_text(&buf);
        if t.as_str().unicode_len() == 0 {
            let r: Vec<Step> = Vec::new();
            proof {
                assert(step_texts_of(r.deep_view()) =~= Seq::<Seq<char>>::empty());
            }
            return Ok(r);
        }
        return Err(Error::UnexpectedEOF);
    }
    let c = chars[i];
    if c == '.' {
        let next_col = if col < usize::MAX {
            col + 1
        } else {
            col
        };
        let rest = match steps_from(chars, i + 1, String::new(), line, next_col, buf_start, true) {
            Ok(rest) => rest,
            Err(e) => {
                return Err(e);
            },
        };
        let t = trim_text(&buf);
        if t.as_str().unicode_len() == 0 {
            return Ok(rest);
        }
        let end_col = if col > 0 {
            col - 1
        } else {
            0
        };
        let step = Step { command_txt: t, start: buf_start, end: (line, end_col) };
        let mut steps = vec![step];
        let ghost first = steps.deep_view();
        let mut rest_v = rest;
        steps.append(&mut rest_v);
        proof {
            assert(step_texts_of(steps.deep_view()) =~= seq![spec_trim(buf@)]
                + spec_step_texts(chars@, i + 1, Seq::empty())->Ok_0);
        }
        Ok(steps)
    } else if c == '\r' {
        let next_col = if col < usize::MAX {
            col + 1
        } else {
            col
        };
        let mut buf2 = buf;
        buf2.push(c);
        steps_from(chars, i + 1, buf2, line, next_col, buf_start, fresh)
    } else if c == '\n' {
        let next_line = if line < usize::MAX {
            line + 1
        } else {
            line
        };
        let mut buf2 = buf;
        buf2.push(c);
        steps_from(chars, i + 1, buf2, next_line, 0, buf_start, fresh)
    } else {
        let start = if fresh {
            (line, col)
        } else {
            buf_start
        };
        let next_col = if col < usize::MAX {
            col + 1
        } else {
            col
        };
        let mut buf2 = buf;
        buf2.push(c);
        steps_from(chars, i + 1, buf2, line, next_col, start, false)
    }
}

/// What one step's text does to the engine: nothing for an empty command,
/// otherwise what the parsed command does.
pub open spec fn spec_run_step(e: SpecEngine, text: Seq<char>) -> Result<
    (SpecEngine, Seq<SpecEffect>),
    ErrorKind,
> {
    match spec_lex(text) {
        Err(_) => Err(ErrorKind::UnknownCommand),
        Ok(toks) => match spec_parse_command(toks) {
            Err(k) => Err(k),
            Ok(None) => Ok((e, Seq::empty())),
            Ok(Some(cmd)) => engine_step(e, cmd),
        },
    }
}

/// What running the steps from index `i` on does: the final engine and the
/// effects in order, or the index of the failing step and the error kind.
pub open spec fn spec_run_from(e: SpecEngine, texts: Seq<Seq<char>>, i: int) -> Result<
    (SpecEngine, Seq<SpecEffect>),
    (int, ErrorKind),
>
    decreases texts.len() - i,
{
    if i < 0 || i >= texts.len() {
        Ok((e, Seq::empty()))
    } else {
        match spec_run_step(e, texts[i]) {
            Err(k) => Err((i, k)),
            Ok((e2, effs)) => match spec_run_from(e2, texts, i + 1) {
                Ok((e3, effs2)) => Ok((e3, effs + effs2)),
                Err(x) => Err(x),
            },
        }
    }
}

/// Run one step against the engine.
fn run_step(engine: &mut Engine, step: &Step) -> (r: Result<Vec<EngineEffect>, Error>)
    ensures
        match r {
            Ok(effs) => spec_run_step(old(engine).deep_view(), step.deep_view().text) == Ok::<
                _,
                ErrorKind,
            >((final(engine).deep_view(), effs.deep_view())),
            Err(e) => {
                &&& spec_run_step(old(engine).deep_view(), step.deep_view().text) is Err
                &&& spec_run_step(old(engine).deep_view(), step.deep_view().text)->Err_0
                    == e.kind()
                &&& final(engine).deep_view() == old(engine).deep_view()
            },
        },
        old(engine).deep_view().wf() ==> final(engine).deep_view().wf(),
{
    let mut lxr = Lexer::from(step.command_txt.as_str());
    let cmd = match EngineCommand::parse(&mut lxr) {
        Ok(c) => c,
        Err(e) => {
            return Err(e);
        },
    };
    match cmd {
        None => {
            let r: Vec<EngineEffect> = Vec::new();
            assert(r.deep_view() =~= Seq::<SpecEffect>::empty());
            Ok(r)
        },
        Some(c) => engine.execute(c),
    }
}

/// Run the steps from index `i` on, stopping at the first failure.
fn run_from(engine: &mut Engine, steps: &Vec<Step>, i: usize) -> (r: Result<
    Vec<EngineEffect>,
    (Error, usize),
>)
    requires
        i <= steps@.len(),
    ensures
        match r {
            Ok(effs) => spec_run_from(
                old(engine).deep_view(),
                step_texts_of(steps.deep_view()),
                i as int,
            ) == Ok::<_, (int, ErrorKind)>((final(engine).deep_view(), effs.deep_view())),
            Err((e, k)) => {
                &&& spec_run_from(
                    old(engine).deep_view(),
                    step_texts_of(steps.deep_view()),
                    i as int,
                ) is Err
                &&& spec_run_from(
                    old(engine).deep_view(),
                    step_texts_of(steps.deep_view()),
                    i as int,
                )->Err_0 == (k as int, e.kind())
                &&& i <= k < steps@.len()
            },
        },
        old(engine).deep_view().wf() ==> final(engine).deep_view().wf(),
    decreases steps@.len() - i,
{
    if i == steps.len() {
        let r: Vec<EngineEffect> = Vec::new();
        assert(r.deep_view() =~= Seq::<SpecEffect>::empty());
        return Ok(r);
    }
    proof {
        assert(step_texts_of(steps.deep_view())[i as int] == steps@[i as int].deep_view().text);
    }
    let mut effs = match run_step(engine, &steps[i]) {
        Ok(e) => e,
        Err(e) => {
            return Err((e, i));
        },
    };
    let ghost effs1 = effs.deep_view();
    match run_from(engine, steps, i + 1) {
        Ok(mut more) => {
            let ghost effs2 = more.deep_view();
            effs.append(&mut more);
            proof {
                assert(effs.deep_view() =~= effs1 + effs2);
            }
            Ok(effs)
        },
        Err(x) => Err(x),
    }
}

/// Reads a script and interprets it all at once.
pub struct Executor {
    pub filepath: String,
    pub steps: Vec<Step>,
    current_step: usize,
    engine: Engine,
}

impl Executor {
    /// Build an executor from a script text. The file path only names the
    /// engine and the reports.
    pub fn from_source(path: String, content: &str) -> (r: Result<Executor, Error>)
        ensures
            match r {
                Ok(ex) => {
                    &&& spec_step_texts(content@, 0, Seq::empty()) == Ok::<_, ErrorKind>(
                        step_texts_of(ex.spec_steps()),
                    )
                    &&& ex.spec_steps().len() > 0
                    &&& ex.spec_engine().wf()
                    &&& ex.spec_engine().active is None
                },
                Err(e) => e.kind() == ErrorKind::EmptyFile || (spec_step_texts(
                    content@,
                    0,
                    Seq::empty(),
                ) is Err && spec_step_texts(content@, 0, Seq::empty())->Err_0 == e.kind()),
            },
    {
        let steps = match parse_steps(content) {
            Ok(s) => s,
            Err(e) => {
                return Err(e);
            },
        };
        if steps.len() == 0 {
            return Err(Error::EmptyFile(path));
        }
        let engine = Engine::new(path.clone());
        Ok(Executor { filepath: path, steps, current_step: 0, engine })
    }

    /// The steps' models.
    pub closed spec fn spec_steps(&self) -> Seq<SpecStep> {
        self.steps.deep_view()
    }

    /// The engine driven by this executor.
    pub fn engine_ref(&self) -> (r: &Engine)
        ensures
            r.deep_view() == self.spec_engine(),
    {
        &self.engine
    }

    /// The engine's model.
    pub closed spec fn spec_engine(&self) -> SpecEngine {
        self.engine.deep_view()
    }

    /// The step the executor stands at.
    pub fn current_step(&self) -> (r: Step)
        requires
            self.spec_current() < self.spec_steps().len(),
        ensures
            r.deep_view() == self.spec_steps()[self.spec_current() as int],
    {
        self.steps[self.current_step].clone()
    }

    /// The index of the current step.
    pub closed spec fn spec_current(&self) -> usize {
        self.current_step
    }

    /// Run every step in order, stopping at the first failure; at the end
    /// of the script an open proof is an error on the last step. On
    /// success the effects of all commands come back in order.
    pub fn exec_all(&mut self) -> (r: Result<Vec<EngineEffect>, (Error, Step)>)
        requires
            old(self).spec_steps().len() > 0,
        ensures
            match r {
                Ok(effs) => {
                    &&& spec_run_from(
                        old(self).spec_engine(),
                        step_texts_of(old(self).spec_steps()),
                        0,
                    ) == Ok::<_, (int, ErrorKind)>((final(self).spec_engine(), effs.deep_view()))
                    &&& final(self).spec_engine().active is None
                },
                Err((e, st)) => {
                    ||| (exists|k: int|
                        spec_run_from(
                            old(self).spec_engine(),
                            step_texts_of(old(self).spec_steps()),
                            0,
                        ) == Err::<(SpecEngine, Seq<SpecEffect>), (int, ErrorKind)>(
                            (k, e.kind()),
                        ) && 0 <= k < old(self).spec_steps().len() && st.deep_view() == old(
                            self,
                        ).spec_steps()[k])
                    ||| (e.kind() == ErrorKind::UnfinishedProof && spec_run_from(
                        old(self).spec_engine(),
                        step_texts_of(old(self).spec_steps()),
                        0,
                    ) is Ok && st.deep_view() == old(self).spec_steps()[old(
                        self,
                    ).spec_steps().len() - 1])
                },
            },
            old(self).spec_engine().wf() ==> final(self).spec_engine().wf(),
    {
        match run_from(&mut self.engine, &self.steps, 0) {
            Err((e, k)) => {
                let st = self.steps[k].clone();
                proof {
                    assert(st.deep_view() == self.spec_steps()[k as int]);
                    assert(spec_run_from(
                        old(self).spec_engine(),
                        step_texts_of(old(self).spec_steps()),
                        0,
                    ) == Err::<(SpecEngine, Seq<SpecEffect>), (int, ErrorKind)>(
                        (k as int, e.kind()),
                    ));
                }
                Err((e, st))
            },
            Ok(effs) => {
                if self.engine.has_active_proof() {
                    let last = self.steps.len() - 1;
                    Err((Error::UnfinishedProof, self.steps[last].clone()))
                } else {
                    Ok(effs)
                }
            },
        }
    }
}

} // verus!
