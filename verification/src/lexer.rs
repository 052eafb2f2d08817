//! The lexer that turns command text into tokens.
//!
//! Identifiers are runs of ASCII letters, digits and underscores or prime
//! marks; symbols are matched longest first. Comments start with `//` and
//! extend to the end of the line.

use vstd::prelude::*;

verus! {

broadcast use vstd::std_specs::vec::group_vec_axioms;

/// A lexical error: some text forms no token.
#[derive(Debug)]
pub enum LexicalError {
    UnknownToken(String),
}

/// One token of the command surface.
#[derive(Debug)]
pub enum Token {
    Def,
    Thm,
    Admit,
    Qed,
    Use,
    Ident(String),
    Falsum,
    Exists,
    Forall,
    /// `~`
    Wave,
    /// `=>`
    DoubleArrow,
    /// `\/`
    Or,
    /// `/\`
    And,
    /// `(`
    OpenParen,
    /// `)`
    CloseParen,
    /// `,`
    Comma,
    /// `.`
    Dot,
    /// `::`
    DoubleColon,
}

/// Mathematical model of a token.
pub enum SpecToken {
    Def,
    Thm,
    Admit,
    Qed,
    Use,
    Ident(Seq<char>),
    Falsum,
    Exists,
    Forall,
    Wave,
    DoubleArrow,
    Or,
    And,
    OpenParen,
    CloseParen,
    Comma,
    Dot,
    DoubleColon,
}

impl DeepView for Token {
    type V = SpecToken;

    open spec fn deep_view(&self) -> SpecToken {
        match self {
            Token::Def => SpecToken::Def,
            Token::Thm => SpecToken::Thm,
            Token::Admit => SpecToken::Admit,
            Token::Qed => SpecToken::Qed,
            Token::Use => SpecToken::Use,
            Token::Ident(s) => SpecToken::Ident(s@),
            Token::Falsum => SpecToken::Falsum,
            Token::Exists => SpecToken::Exists,
            Token::Forall => SpecToken::Forall,
            Token::Wave => SpecToken::Wave,
            Token::DoubleArrow => SpecToken::DoubleArrow,
            Token::Or => SpecToken::Or,
            Token::And => SpecToken::And,
            Token::OpenParen => SpecToken::OpenParen,
            Token::CloseParen => SpecToken::CloseParen,
            Token::Comma => SpecToken::Comma,
            Token::Dot => SpecToken::Dot,
            Token::DoubleColon => SpecToken::DoubleColon,
        }
    }
}

impl Clone for Token {
    /// Clones preserve the token's model exactly.
    fn clone(&self) -> (r: Token)
        ensures
            r.deep_view() == self.deep_view(),
    {
        match self {
            Token::Def => Token::Def,
            Token::Thm => Token::Thm,
            Token::Admit => Token::Admit,
            Token::Qed => Token::Qed,
            Token::Use => Token::Use,
            Token::Ident(s) => Token::Ident(s.clone()),
            Token::Falsum => Token::Falsum,
            Token::Exists => Token::Exists,
            Token::Forall => Token::Forall,
            Token::Wave => Token::Wave,
            Token::DoubleArrow => Token::DoubleArrow,
            Token::Or => Token::Or,
            Token::And => Token::And,
            Token::OpenParen => Token::OpenParen,
            Token::CloseParen => Token::CloseParen,
            Token::Comma => Token::Comma,
            Token::Dot => Token::Dot,
            Token::DoubleColon => Token::DoubleColon,
        }
    }
}

/// Whether `c` may appear in an identifier: an ASCII letter, a digit, an
/// underscore or a prime mark.
pub open spec fn spec_ident_char(c: char) -> bool {
    ('a' <= c && c <= 'z') || ('A' <= c && c <= 'Z') || ('0' <= c && c <= '9') || c == '_' || c
        == '\''
}

/// Whether `c` may appear in an identifier.
pub fn is_ident_allowed(c: char) -> (r: bool)
    ensures
        r == spec_ident_char(c),
{
    ('a' <= c && c <= 'z') || ('A' <= c && c <= 'Z') || ('0' <= c && c <= '9') || c == '_' || c
        == '\''
}

/// Whether `c` is blank space.
pub open spec fn spec_space_char(c: char) -> bool {
    c == ' ' || c == '\t' || c == '\r' || c == '\n'
}

/// The first index at or after `i` whose character cannot extend an
/// identifier.
pub open spec fn ident_end(s: Seq<char>, i: int) -> int
    decreases s.len() - i,
{
    if i < 0 || i >= s.len() {
        i
    } else if spec_ident_char(s[i]) {
        ident_end(s, i + 1)
    } else {
        i
    }
}

/// The first index at or after `i` past the current line.
pub open spec fn line_end(s: Seq<char>, i: int) -> int
    decreases s.len() - i,
{
    if i < 0 || i >= s.len() {
        i
    } else if s[i] == '\n' {
        i
    } else {
        line_end(s, i + 1)
    }
}

/// The token an identifier run stands for: a keyword or a plain identifier.
pub open spec fn spec_word_token(w: Seq<char>) -> SpecToken {
    if w == "Def"@ {
        SpecToken::Def
    } else if w == "Thm"@ {
        SpecToken::Thm
    } else if w == "Admit"@ {
        SpecToken::Admit
    } else if w == "Qed"@ {
        SpecToken::Qed
    } else if w == "Use"@ {
        SpecToken::Use
    } else if w == "falsum"@ {
        SpecToken::Falsum
    } else if w == "exists"@ {
        SpecToken::Exists
    } else if w == "forall"@ {
        SpecToken::Forall
    } else {
        SpecToken::Ident(w)
    }
}

/// The bounds of the identifier run: it starts where it starts and stays
/// inside the text.
pub proof fn lemma_ident_end_bounds(s: Seq<char>, i: int)
    requires
        0 <= i <= s.len(),
    ensures
        i <= ident_end(s, i) <= s.len(),
    decreases s.len() - i,
{
    if i < s.len() && spec_ident_char(s[i]) {
        lemma_ident_end_bounds(s, i + 1);
    }
}

/// The end of the line lies between `i` and the end of the text.
pub proof fn lemma_line_end_bounds(s: Seq<char>, i: int)
    requires
        0 <= i <= s.len(),
    ensures
        i <= line_end(s, i) <= s.len(),
    decreases s.len() - i,
{
    if i < s.len() && s[i] != '\n' {
        lemma_line_end_bounds(s, i + 1);
    }
}

/// The tokens of `s` from index `i` on, or the text that forms no token.
pub open spec fn spec_lex_from(s: Seq<char>, i: int) -> Result<Seq<SpecToken>, Seq<char>>
    decreases s.len() - i,
    via spec_lex_from_decreases
{
    if i < 0 || i >= s.len() {
        Ok(Seq::empty())
    } else if spec_space_char(s[i]) {
        spec_lex_from(s, i + 1)
    } else if s[i] == '/' && i + 1 < s.len() && s[i + 1] == '/' {
        spec_lex_from(s, line_end(s, i))
    } else if spec_ident_char(s[i]) {
        let j = ident_end(s, i);
        match spec_lex_from(s, j) {
            Ok(rest) => Ok(seq![spec_word_token(s.subrange(i, j))] + rest),
            Err(t) => Err(t),
        }
    } else if i + 1 < s.len() && s[i] == '=' && s[i + 1] == '>' {
        match spec_lex_from(s, i + 2) {
            Ok(rest) => Ok(seq![SpecToken::DoubleArrow] + rest),
            Err(t) => Err(t),
        }
    } else if i + 1 < s.len() && s[i] == '\\' && s[i + 1] == '/' {
        match spec_lex_from(s, i + 2) {
            Ok(rest) => Ok(seq![SpecToken::Or] + rest),
            Err(t) => Err(t),
        }
    } else if i + 1 < s.len() && s[i] == '/' && s[i + 1] == '\\' {
        match spec_lex_from(s, i + 2) {
            Ok(rest) => Ok(seq![SpecToken::And] + rest),
            Err(t) => Err(t),
        }
    } else if i + 1 < s.len() && s[i] == ':' && s[i + 1] == ':' {
        match spec_lex_from(s, i + 2) {
            Ok(rest) => Ok(seq![SpecToken::DoubleColon] + rest),
            Err(t) => Err(t),
        }
    } else if s[i] == '~' || s[i] == '(' || s[i] == ')' || s[i] == ',' || s[i] == '.' {
        let tok = if s[i] == '~' {
            SpecToken::Wave
        } else if s[i] == '(' {
            SpecToken::OpenParen
        } else if s[i] == ')' {
            SpecToken::CloseParen
        } else if s[i] == ',' {
            SpecToken::Comma
        } else {
            SpecToken::Dot
        };
        match spec_lex_from(s, i + 1) {
            Ok(rest) => Ok(seq![tok] + rest),
            Err(t) => Err(t),
        }
    } else {
        Err(s.subrange(i, i + 1))
    }
}

#[via_fn]
proof fn spec_lex_from_decreases(s: Seq<char>, i: int) {
    if 0 <= i < s.len() {
        if s[i] == '/' && i + 1 < s.len() && s[i + 1] == '/' {
            lemma_line_end_bounds(s, i + 1);
        } else if spec_ident_char(s[i]) {
            lemma_ident_end_bounds(s, i + 1);
        }
    }
}

/// The tokens of the whole text.
pub open spec fn spec_lex(s: Seq<char>) -> Result<Seq<SpecToken>, Seq<char>> {
    spec_lex_from(s, 0)
}

/// Turn the text into characters.
fn text_chars(s: &str) -> (r: Vec<char>)
    ensures
        r@ == s@,
{
    let n = s.unicode_len();
    let mut r: Vec<char> = Vec::new();
    let mut i: usize = 0;
    while i < n
        invariant
            i <= n,
            n == s@.len(),
            r@.len() == i,
            forall|j: int| 0 <= j < i ==> r@[j] == s@[j],
        decreases n - i,
    {
        r.push(s.get_char(i));
        i += 1;
    }
    proof {
        assert(r@ =~= s@);
    }
    r
}

/// Lex the characters of `s` from index `i` on.
fn lex_from(chars: &Vec<char>, i: usize) -> (r: Result<Vec<Token>, LexicalError>)
    requires
        i <= chars@.len(),
    ensures
        match r {
            Ok(toks) => spec_lex_from(chars@, i as int) == Ok::<_, Seq<char>>(toks.deep_view()),
            Err(e) => spec_lex_from(chars@, i as int) matches Err(t) && e matches
                LexicalError::UnknownToken(w) && w@ == t,
        },
    decreases chars@.len() - i,
{
    if i == chars.len() {
        let r: Vec<Token> = Vec::new();
        assert(r.deep_view() =~= Seq::<SpecToken>::empty());
        return Ok(r);
    }
    let c = chars[i];
    if c == ' ' || c == '\t' || c == '\r' || c == '\n' {
        return lex_from(chars, i + 1);
    }
    if c == '/' && i + 1 < chars.len() && chars[i + 1] == '/' {
        let mut j: usize = i;
        while j < chars.len() && chars[j] != '\n'
            invariant
                i <= j <= chars@.len(),
                line_end(chars@, i as int) == line_end(chars@, j as int),
            decreases chars@.len() - j,
        {
            j += 1;
        }
        proof {
            assert(line_end(chars@, j as int) == j as int);
        }
        return lex_from(chars, j);
    }
    if is_ident_allowed(c) {
        let mut j: usize = i + 1;
        while j < chars.len() && is_ident_allowed(chars[j])
            invariant
                i < j <= chars@.len(),
                ident_end(chars@, i as int) == ident_end(chars@, j as int),
                forall|k: int| i <= k < j ==> spec_ident_char(chars@[k]),
            decreases chars@.len() - j,
        {
            j += 1;
        }
        proof {
            assert(ident_end(chars@, j as int) == j as int);
        }
        let mut word = String::new();
        let mut k: usize = i;
        while k < j
            invariant
                i <= k <= j <= chars@.len(),
                word@ == chars@.subrange(i as int, k as int),
            decreases j - k,
        {
            word.push(chars[k]);
            proof {
                assert(word@ =~= chars@.subrange(i as int, k + 1));
            }
            k += 1;
        }
        let tok = word_token(word);
        match lex_from(chars, j) {
            Ok(rest) => {
                let mut toks = vec![tok];
                let ghost first = toks.deep_view();
                let mut rest_v = rest;
                toks.append(&mut rest_v);
                proof {
                    assert(toks.deep_view() =~= first + spec_lex_from(chars@, j as int)->Ok_0);
                    assert(first =~= seq![spec_word_token(chars@.subrange(i as int, j as int))]);
                }
                Ok(toks)
            },
            Err(e) => Err(e),
        }
    } else {
        let two = if i + 1 < chars.len() {
            let d = chars[i + 1];
            if c == '=' && d == '>' {
                Some(Token::DoubleArrow)
            } else if c == '\\' && d == '/' {
                Some(Token::Or)
            } else if c == '/' && d == '\\' {
                Some(Token::And)
            } else if c == ':' && d == ':' {
                Some(Token::DoubleColon)
            } else {
                None
            }
        } else {
            None
        };
        match two {
            Some(tok) => {
                match lex_from(chars, i + 2) {
                    Ok(rest) => {
                        let ghost tv = tok.deep_view();
                        let mut toks = vec![tok];
                        let mut rest_v = rest;
                        toks.append(&mut rest_v);
                        proof {
                            assert(toks.deep_view() =~= seq![tv] + spec_lex_from(
                                chars@,
                                i + 2,
                            )->Ok_0);
                        }
                        Ok(toks)
                    },
                    Err(e) => Err(e),
                }
            },
            None => {
                let one = if c == '~' {
                    Some(Token::Wave)
                } else if c == '(' {
                    Some(Token::OpenParen)
                } else if c == ')' {
                    Some(Token::CloseParen)
                } else if c == ',' {
                    Some(Token::Comma)
                } else if c == '.' {
                    Some(Token::Dot)
                } else {
                    None
                };
                match one {
                    Some(tok) => {
                        match lex_from(chars, i + 1) {
                            Ok(rest) => {
                                let ghost tv = tok.deep_view();
                                let mut toks = vec![tok];
                                let mut rest_v = rest;
                                toks.append(&mut rest_v);
                                proof {
                                    assert(toks.deep_view() =~= seq![tv] + spec_lex_from(
                                        chars@,
                                        i + 1,
                                    )->Ok_0);
                                }
                                Ok(toks)
                            },
                            Err(e) => Err(e),
                        }
                    },
                    None => {
                        let mut bad = String::new();
                        bad.push(c);
                        proof {
                            assert(bad@ =~= chars@.subrange(i as int, i + 1));
                        }
                        Err(LexicalError::UnknownToken(bad))
                    },
                }
            },
        }
    }
}

/// The token a word stands for.
fn word_token(w: String) -> (r: Token)
    ensures
        r.deep_view() == spec_word_token(w@),
{
    proof {
        reveal_strlit("Def");
        reveal_strlit("Thm");
        reveal_strlit("Admit");
        reveal_strlit("Qed");
        reveal_strlit("Use");
        reveal_strlit("falsum");
        reveal_strlit("exists");
        reveal_strlit("forall");
    }
    if crate::tools::str_eq(w.as_str(), "Def") {
        Token::Def
    } else if crate::tools::str_eq(w.as_str(), "Thm") {
        Token::Thm
    } else if crate::tools::str_eq(w.as_str(), "Admit") {
        Token::Admit
    } else if crate::tools::str_eq(w.as_str(), "Qed") {
        Token::Qed
    } else if crate::tools::str_eq(w.as_str(), "Use") {
        Token::Use
    } else if crate::tools::str_eq(w.as_str(), "falsum") {
        Token::Falsum
    } else if crate::tools::str_eq(w.as_str(), "exists") {
        Token::Exists
    } else if crate::tools::str_eq(w.as_str(), "forall") {
        Token::Forall
    } else {
        Token::Ident(w)
    }
}

/// Lex a whole text.
pub fn lex(s: &str) -> (r: Result<Vec<Token>, LexicalError>)
    ensures
        match r {
            Ok(toks) => spec_lex(s@) == Ok::<_, Seq<char>>(toks.deep_view()),
            Err(e) => spec_lex(s@) matches Err(t) && e matches LexicalError::UnknownToken(w) && w@
                == t,
        },
{
    let chars = text_chars(s);
    lex_from(&chars, 0)
}

/// A token stream over a fully lexed text. When the text held no valid
/// token the error surfaces once, after the tokens before it were
/// consumed-free: the stream is all-or-nothing.
pub struct Lexer {
    tokens: Vec<Token>,
    pos: usize,
    failed: Option<String>,
}

impl Lexer {
    /// The tokens not yet consumed.
    pub closed spec fn remaining(&self) -> Seq<SpecToken> {
        if self.pos <= self.tokens@.len() {
            self.tokens.deep_view().skip(self.pos as int)
        } else {
            Seq::empty()
        }
    }

    /// Whether lexing the text failed.
    pub closed spec fn spec_failed(&self) -> bool {
        self.failed is Some
    }

    /// Build a token stream from a text.
    pub fn from(s: &str) -> (r: Lexer)
        ensures
            match spec_lex(s@) {
                Ok(toks) => r.remaining() == toks && !r.spec_failed(),
                Err(_) => r.spec_failed() && r.remaining() == Seq::<SpecToken>::empty(),
            },
    {
        match lex(s) {
            Ok(tokens) => {
                let r = Lexer { tokens, pos: 0, failed: None };
                proof {
                    assert(r.remaining() =~= r.tokens.deep_view());
                }
                r
            },
            Err(LexicalError::UnknownToken(w)) => {
                let r = Lexer { tokens: Vec::new(), pos: 0, failed: Some(w) };
                proof {
                    assert(r.remaining() =~= Seq::<SpecToken>::empty());
                }
                r
            },
        }
    }

    /// The next token: `None` at the end of the text, an error when the
    /// text lexed to no valid token stream.
    pub fn next_token(&mut self) -> (r: Result<Option<Token>, LexicalError>)
        ensures
            match r {
                Ok(Some(t)) => {
                    &&& !old(self).spec_failed()
                    &&& old(self).remaining().len() > 0
                    &&& t.deep_view() == old(self).remaining()[0]
                    &&& final(self).remaining() == old(self).remaining().drop_first()
                },
                Ok(None) => {
                    &&& !old(self).spec_failed()
                    &&& old(self).remaining().len() == 0
                    &&& *final(self) == *old(self)
                },
                Err(_) => old(self).spec_failed() && *final(self) == *old(self),
            },
            final(self).spec_failed() == old(self).spec_failed(),
    {
        match &self.failed {
            Some(w) => Err(LexicalError::UnknownToken(w.clone())),
            None => {
                if self.pos < self.tokens.len() {
                    let t = self.tokens[self.pos].clone();
                    assert(t.deep_view() == self.remaining()[0]);
                    let ghost before = self.remaining();
                    self.pos = self.pos + 1;
                    proof {
                        assert(self.remaining() =~= before.drop_first());
                    }
                    Ok(Some(t))
                } else {
                    Ok(None)
                }
            },
        }
    }

    /// Take every remaining token out of the stream.
    pub fn take_rest(&mut self) -> (r: Result<Vec<Token>, LexicalError>)
        ensures
            match r {
                Ok(toks) => {
                    &&& !old(self).spec_failed()
                    &&& toks.deep_view() == old(self).remaining()
                    &&& final(self).remaining().len() == 0
                },
                Err(_) => old(self).spec_failed(),
            },
    {
        match &self.failed {
            Some(w) => Err(LexicalError::UnknownToken(w.clone())),
            None => {
                if self.pos >= self.tokens.len() {
                    self.pos = self.tokens.len();
                    let r: Vec<Token> = Vec::new();
                    proof {
                        assert(r.deep_view() =~= old(self).remaining());
                        assert(self.remaining().len() == 0);
                    }
                    return Ok(r);
                }
                let mut r: Vec<Token> = Vec::new();
                while self.pos < self.tokens.len()
                    invariant
                        self.pos <= self.tokens@.len(),
                        self.failed is None,
                        self.tokens == old(self).tokens,
                        r.deep_view() =~= old(self).remaining().take(
                            self.pos - old(self).pos as int,
                        ),
                        old(self).pos <= self.pos,
                    decreases self.tokens@.len() - self.pos,
                {
                    let t = self.tokens[self.pos].clone();
                    let ghost before = r.deep_view();
                    r.push(t);
                    proof {
                        assert(r.deep_view() =~= before.push(
                            self.tokens.deep_view()[self.pos as int],
                        ));
                        assert(r.deep_view() =~= old(self).remaining().take(
                            self.pos + 1 - old(self).pos,
                        ));
                    }
                    self.pos = self.pos + 1;
                }
                proof {
                    assert(old(self).remaining().take(
                        self.tokens@.len() - old(self).pos as int,
                    ) =~= old(self).remaining());
                    assert(self.remaining().len() == 0);
                }
                Ok(r)
            },
        }
    }

    /// Whether no token is left to read.
    pub fn is_finished(&self) -> (r: bool)
        ensures
            r == (self.remaining().len() == 0 && !self.spec_failed()),
    {
        match &self.failed {
            Some(_) => false,
            None => self.pos >= self.tokens.len(),
        }
    }
}

} // verus!
