//! The lexer: turns source text into a flat stream of typed tokens in a
//! single left-to-right pass with one character of lookahead.

use vstd::prelude::*;
use crate::expr::{is_ident_char, is_ident_start_char};

verus! {

/// The kind of a token.
#[derive(Debug, Clone, Copy, PartialEq, Eq, Structural)]
pub enum TokenKind {
    Sym,
    OpenParen,
    ClosedParen,
    Comma,
    Equals,
}

/// A token: its kind and its exact source text (the identifier for `Sym`,
/// the literal character for the others).
#[derive(Debug, PartialEq)]
pub struct Token {
    pub kind: TokenKind,
    pub text: String,
}

impl Clone for Token {
    /// A clone carries the same kind and text.
    fn clone(&self) -> (r: Self)
        ensures
            r@ == self@,
    {
        Token { kind: self.kind, text: self.text.clone() }
    }
}

/// Mathematical value of a token.
pub struct SpecToken {
    pub kind: TokenKind,
    pub text: Seq<char>,
}

impl View for Token {
    type V = SpecToken;

    open spec fn view(&self) -> SpecToken {
        SpecToken { kind: self.kind, text: self.text@ }
    }
}

/// The views of the elements of a sequence of tokens.
pub open spec fn seq_token_view(s: Seq<Token>) -> Seq<SpecToken> {
    Seq::new(s.len(), |i: int| s[i]@)
}

/// A lexical error: a character that cannot start any token, with its
/// position in the input.
#[derive(Debug, PartialEq)]
pub enum LexError {
    UnexpectedCharacter { ch: char, pos: usize },
}

/// Insignificant whitespace between tokens: space, tab, newline.
pub open spec fn is_whitespace_char(c: char) -> bool {
    c == ' ' || c == '\t' || c == '\n'
}

/// The first position at or after `i` that does not continue an identifier.
pub open spec fn ident_end(s: Seq<char>, i: int) -> int
    decreases s.len() - i,
{
    if i < 0 || i >= s.len() || !is_ident_char(s[i]) {
        i
    } else {
        ident_end(s, i + 1)
    }
}

/// `ident_end` stays within the input.
pub proof fn lemma_ident_end_bounds(s: Seq<char>, i: int)
    requires
        0 <= i <= s.len(),
    ensures
        i <= ident_end(s, i) <= s.len(),
    decreases s.len() - i,
{
    if !(i >= s.len() || !is_ident_char(s[i])) {
        lemma_ident_end_bounds(s, i + 1);
    }
}

/// The next token of `s` starting at position `i`, and the position after it:
/// whitespace is skipped; `Ok(None)` means the input is exhausted; an error
/// carries the offending character and its position.
pub open spec fn spec_next(s: Seq<char>, i: int) -> (Result<Option<SpecToken>, (char, int)>, int)
    decreases s.len() - i,
{
    if i < 0 || i >= s.len() {
        (Ok(None), s.len() as int)
    } else if is_whitespace_char(s[i]) {
        spec_next(s, i + 1)
    } else if s[i] == '(' {
        (Ok(Some(SpecToken { kind: TokenKind::OpenParen, text: seq!['('] })), i + 1)
    } else if s[i] == ')' {
        (Ok(Some(SpecToken { kind: TokenKind::ClosedParen, text: seq![')'] })), i + 1)
    } else if s[i] == ',' {
        (Ok(Some(SpecToken { kind: TokenKind::Comma, text: seq![','] })), i + 1)
    } else if s[i] == '=' {
        (Ok(Some(SpecToken { kind: TokenKind::Equals, text: seq!['='] })), i + 1)
    } else if is_ident_start_char(s[i]) {
        let j = ident_end(s, i + 1);
        (Ok(Some(SpecToken { kind: TokenKind::Sym, text: s.subrange(i, j) })), j)
    } else {
        (Err((s[i], i)), i)
    }
}

/// A produced token starts strictly after `i` and within the input.
pub proof fn lemma_spec_next_progress(s: Seq<char>, i: int)
    requires
        0 <= i,
    ensures
        spec_next(s, i).0 matches Ok(Some(_)) ==> i < spec_next(s, i).1 <= s.len(),
        spec_next(s, i).0 matches Ok(None) ==> spec_next(s, i).1 == s.len(),
    decreases s.len() - i,
{
    if 0 <= i < s.len() {
        if is_whitespace_char(s[i]) {
            lemma_spec_next_progress(s, i + 1);
        } else if is_ident_start_char(s[i]) && !(s[i] == '(' || s[i] == ')' || s[i] == ','
            || s[i] == '=') {
            lemma_ident_end_bounds(s, i + 1);
        }
    }
}

/// The whole token stream of `s` from position `i` on, or the first lexical
/// error.
pub open spec fn spec_lex_from(s: Seq<char>, i: int) -> Result<Seq<SpecToken>, (char, int)>
    decreases s.len() - i,
        via lex_from_decreases
{
    if i < 0 {
        Err((' ', i))
    } else {
        match spec_next(s, i) {
            (Err(e), _) => Err(e),
            (Ok(None), _) => Ok(Seq::empty()),
            (Ok(Some(t)), j) => match spec_lex_from(s, j) {
                Err(e) => Err(e),
                Ok(rest) => Ok(seq![t] + rest),
            },
        }
    }
}

#[via_fn]
proof fn lex_from_decreases(s: Seq<char>, i: int) {
    if i >= 0 {
        lemma_spec_next_progress(s, i);
    }
}

/// A lexer over a character sequence: a single pass, one character of
/// lookahead, no backtracking.
pub struct Lexer {
    chars: Vec<char>,
    pos: usize,
}

/// Whether `c` is insignificant whitespace.
fn is_ws_exec(c: char) -> (r: bool)
    ensures
        r == is_whitespace_char(c),
{
    c == ' ' || c == '\t' || c == '\n'
}

/// Whether `c` may start an identifier.
fn is_ident_start_exec(c: char) -> (r: bool)
    ensures
        r == is_ident_start_char(c),
{
    ('a' <= c && c <= 'z') || ('A' <= c && c <= 'Z') || c == '_'
}

/// Whether `c` may continue an identifier.
fn is_ident_char_exec(c: char) -> (r: bool)
    ensures
        r == is_ident_char(c),
{
    is_ident_start_exec(c) || ('0' <= c && c <= '9')
}

/// Relies on String::push: appends exactly one character to the string.
#[verifier::external_body]
fn push_char(s: &mut String, c: char)
    ensures
        final(s)@ == old(s)@.push(c),
{
    s.push(c);
}

impl Lexer {
    /// The characters being lexed.
    pub closed spec fn src(&self) -> Seq<char> {
        self.chars@
    }

    /// The current scan position.
    pub closed spec fn cursor(&self) -> int {
        self.pos as int
    }

    /// The position never runs past the input.
    pub closed spec fn wf(&self) -> bool {
        self.pos <= self.chars@.len()
    }

    /// Starts lexing the given character sequence from its beginning.
    pub fn from_iter(chars: Vec<char>) -> (r: Lexer)
        ensures
            r.src() == chars@,
            r.cursor() == 0,
            r.wf(),
    {
        Lexer { chars, pos: 0 }
    }

    /// Produces the next token: `Ok(None)` at the end of the input, an error
    /// on a character that cannot start a token (the lexer then does not
    /// advance, so lexing effectively stops).
    pub fn next(&mut self) -> (r: Result<Option<Token>, LexError>)
        requires
            old(self).wf(),
        ensures
            final(self).wf(),
            final(self).src() == old(self).src(),
            match spec_next(old(self).src(), old(self).cursor()).0 {
                Ok(None) => r matches Ok(t) && t is None,
                Ok(Some(st)) => r matches Ok(t) && (t matches Some(tok) && tok@ == st),
                Err(e) => r matches Err(le) && le == (LexError::UnexpectedCharacter {
                    ch: e.0,
                    pos: e.1 as usize,
                }),
            },
            final(self).cursor() == spec_next(old(self).src(), old(self).cursor()).1,
    {
        let ghost s = self.chars@;
        while self.pos < self.chars.len() && is_ws_exec(self.chars[self.pos])
            invariant
                self.wf(),
                self.chars@ == s,
                spec_next(s, old(self).cursor()) == spec_next(s, self.pos as int),
            decreases self.chars@.len() - self.pos,
        {
            self.pos = self.pos + 1;
        }
        if self.pos >= self.chars.len() {
            return Ok(None);
        }
        let c = self.chars[self.pos];
        if c == '(' {
            self.pos = self.pos + 1;
            let text = String::from_str("(");
            proof {
                reveal_strlit("(");
                assert(text@ =~= seq!['(']);
            }
            Ok(Some(Token { kind: TokenKind::OpenParen, text }))
        } else if c == ')' {
            self.pos = self.pos + 1;
            let text = String::from_str(")");
            proof {
                reveal_strlit(")");
                assert(text@ =~= seq![')']);
            }
            Ok(Some(Token { kind: TokenKind::ClosedParen, text }))
        } else if c == ',' {
            self.pos = self.pos + 1;
            let text = String::from_str(",");
            proof {
                reveal_strlit(",");
                assert(text@ =~= seq![',']);
            }
            Ok(Some(Token { kind: TokenKind::Comma, text }))
        } else if c == '=' {
            self.pos = self.pos + 1;
            let text = String::from_str("=");
            proof {
                reveal_strlit("=");
                assert(text@ =~= seq!['=']);
            }
            Ok(Some(Token { kind: TokenKind::Equals, text }))
        } else if is_ident_start_exec(c) {
            let ghost start = self.pos as int;
            let mut text = String::new();
            push_char(&mut text, c);
            self.pos = self.pos + 1;
            proof {
                assert(c == s[start]);
                assert(self.pos as int == start + 1);
                assert(0 <= start && start + 1 <= s.len());
                assert(text@ =~= seq![s[start]]);
                assert(s.subrange(start, start + 1) =~= seq![s[start]]);
                assert(text@ == s.subrange(start, start + 1));
                assert(text@ == s.subrange(start, self.pos as int));
            }
            while self.pos < self.chars.len() && is_ident_char_exec(self.chars[self.pos])
                invariant
                    self.wf(),
                    self.chars@ == s,
                    0 <= start < self.pos as int,
                    text@ == s.subrange(start, self.pos as int),
                    ident_end(s, start + 1) == ident_end(s, self.pos as int),
                decreases self.chars@.len() - self.pos,
            {
                let ghost before = self.pos as int;
                push_char(&mut text, self.chars[self.pos]);
                self.pos = self.pos + 1;
                proof {
                    assert(s.subrange(start, before + 1) =~= s.subrange(start, before).push(
                        s[before],
                    ));
                    assert(text@ == s.subrange(start, self.pos as int));
                }
            }
            proof {
                assert(ident_end(s, self.pos as int) == self.pos as int);
            }
            Ok(Some(Token { kind: TokenKind::Sym, text }))
        } else {
            Err(LexError::UnexpectedCharacter { ch: c, pos: self.pos })
        }
    }
}

/// Lexes a whole character sequence into its token stream, or reports the
/// first lexical error.
#[verifier::loop_isolation(false)]
pub fn tokenize(chars: Vec<char>) -> (r: Result<Vec<Token>, LexError>)
    ensures
        match spec_lex_from(chars@, 0) {
            Ok(ts) => r matches Ok(v) && seq_token_view(v@) == ts,
            Err(e) => r matches Err(le) && le == (LexError::UnexpectedCharacter {
                ch: e.0,
                pos: e.1 as usize,
            }),
        },
{
    let ghost s = chars@;
    let mut lexer = Lexer::from_iter(chars);
    let mut out: Vec<Token> = Vec::new();
    proof {
        assert(seq_token_view(out@) =~= Seq::<SpecToken>::empty());
    }
    loop
        invariant
            lexer.wf(),
            lexer.src() == s,
            0 <= lexer.cursor(),
            match spec_lex_from(s, lexer.cursor()) {
                Ok(rest) => spec_lex_from(s, 0) == Ok::<Seq<SpecToken>, (char, int)>(
                    seq_token_view(out@) + rest,
                ),
                Err(e) => spec_lex_from(s, 0) == Err::<Seq<SpecToken>, (char, int)>(e),
            },
        decreases s.len() - lexer.cursor(),
    {
        let ghost c_old = lexer.cursor();
        proof {
            lemma_spec_next_progress(s, c_old);
        }
        let ghost done = seq_token_view(out@);
        match lexer.next() {
            Ok(Some(tok)) => {
                out.push(tok);
                proof {
                    assert(seq_token_view(out@) =~= done + seq![tok@]);
                    if let Ok(rest2) = spec_lex_from(s, lexer.cursor()) {
                        assert(done + (seq![tok@] + rest2) =~= (done + seq![tok@]) + rest2);
                    }
                }
            },
            Ok(None) => {
                proof {
                    assert(spec_next(s, c_old).0 matches Ok(t) && t is None);
                    assert(spec_lex_from(s, c_old) == Ok::<Seq<SpecToken>, (char, int)>(
                        Seq::empty(),
                    ));
                    assert(seq_token_view(out@) + Seq::<SpecToken>::empty() =~= seq_token_view(
                        out@,
                    ));
                }
                return Ok(out);
            },
            Err(e) => {
                proof {
                    assert(spec_next(s, c_old).0 is Err);
                    assert(spec_lex_from(s, c_old) == Err::<Seq<SpecToken>, (char, int)>(
                        spec_next(s, c_old).0->Err_0,
                    ));
                }
                return Err(e);
            },
        }
    }
}

} // verus!
