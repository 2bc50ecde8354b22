//! The parser: consumes the lexer's token stream in a single pass with one
//! token of lookahead and builds expressions and rules.
//!
//! Grammar:
//! ```text
//! expr := Sym | Sym '(' args? ')'
//! args := expr (',' expr)*
//! rule := expr '=' expr
//! ```
//! A leading identifier immediately followed by `(` is an application,
//! otherwise a bare symbol.  Parsing fails fast on the first violation.

use vstd::prelude::*;
use crate::expr::{Expr, SpecExpr, seq_view};
use crate::lexer::{LexError, SpecToken, Token, TokenKind, seq_token_view, spec_lex_from, spec_next, tokenize};
use crate::rewrite::Rule;

verus! {

/// A parse error: a required token is missing or mismatched, or the stream
/// ends mid-construct.
#[derive(Debug, PartialEq)]
pub enum ParseError {
    UnexpectedToken { expected: TokenKind, found: Token },
    UnexpectedEndOfInput,
}

/// Mathematical value of a parse error.
pub enum SpecParseError {
    UnexpectedToken { expected: TokenKind, found: SpecToken },
    UnexpectedEndOfInput,
}

impl View for ParseError {
    type V = SpecParseError;

    open spec fn view(&self) -> SpecParseError {
        match self {
            ParseError::UnexpectedToken { expected, found } => SpecParseError::UnexpectedToken {
                expected: *expected,
                found: found@,
            },
            ParseError::UnexpectedEndOfInput => SpecParseError::UnexpectedEndOfInput,
        }
    }
}

/// Outcome of parsing one expression at a position: the expression and the
/// position after it, a parse error, or exhaustion of the recursion budget.
pub enum ExprOutcome {
    Found(SpecExpr, int),
    Fail(SpecParseError),
    OutOfFuel,
}

/// Outcome of parsing an argument list up to and including its `)`.
pub enum ArgsOutcome {
    Found(Seq<SpecExpr>, int),
    Fail(SpecParseError),
    OutOfFuel,
}

/// One expression starting at `i`, with an explicit recursion budget.
pub open spec fn parse_expr_fueled(ts: Seq<SpecToken>, i: int, fuel: int) -> ExprOutcome
    decreases fuel,
{
    if fuel <= 0 {
        ExprOutcome::OutOfFuel
    } else if i < 0 || i >= ts.len() {
        ExprOutcome::Fail(SpecParseError::UnexpectedEndOfInput)
    } else if ts[i].kind != TokenKind::Sym {
        ExprOutcome::Fail(
            SpecParseError::UnexpectedToken { expected: TokenKind::Sym, found: ts[i] },
        )
    } else if i + 1 >= ts.len() || ts[i + 1].kind != TokenKind::OpenParen {
        ExprOutcome::Found(SpecExpr::Sym { name: ts[i].text }, i + 1)
    } else {
        match parse_args_fueled(ts, i + 2, fuel - 1) {
            ArgsOutcome::Found(args, j) => ExprOutcome::Found(
                SpecExpr::Fun { name: ts[i].text, args },
                j,
            ),
            ArgsOutcome::Fail(e) => ExprOutcome::Fail(e),
            ArgsOutcome::OutOfFuel => ExprOutcome::OutOfFuel,
        }
    }
}

/// An argument list starting at `i` (just after the `(`), up to and
/// including the closing `)`, with an explicit recursion budget.
pub open spec fn parse_args_fueled(ts: Seq<SpecToken>, i: int, fuel: int) -> ArgsOutcome
    decreases fuel,
{
    if fuel <= 0 {
        ArgsOutcome::OutOfFuel
    } else if i < 0 || i >= ts.len() {
        ArgsOutcome::Fail(SpecParseError::UnexpectedEndOfInput)
    } else if ts[i].kind == TokenKind::ClosedParen {
        ArgsOutcome::Found(Seq::empty(), i + 1)
    } else {
        match parse_expr_fueled(ts, i, fuel - 1) {
            ExprOutcome::Found(e0, j) => {
                if j >= ts.len() {
                    ArgsOutcome::Fail(SpecParseError::UnexpectedEndOfInput)
                } else if ts[j].kind == TokenKind::Comma {
                    match parse_args_fueled(ts, j + 1, fuel - 1) {
                        ArgsOutcome::Found(rest, k) => ArgsOutcome::Found(seq![e0] + rest, k),
                        other => other,
                    }
                } else if ts[j].kind == TokenKind::ClosedParen {
                    ArgsOutcome::Found(seq![e0], j + 1)
                } else {
                    ArgsOutcome::Fail(
                        SpecParseError::UnexpectedToken {
                            expected: TokenKind::ClosedParen,
                            found: ts[j],
                        },
                    )
                }
            },
            ExprOutcome::Fail(e) => ArgsOutcome::Fail(e),
            ExprOutcome::OutOfFuel => ArgsOutcome::OutOfFuel,
        }
    }
}

/// A budget that always suffices to parse one expression at `i`.
pub open spec fn fuel_expr(ts: Seq<SpecToken>, i: int) -> int {
    if i <= ts.len() {
        2 * (ts.len() - i) + 2
    } else {
        2
    }
}

/// A budget that always suffices to parse an argument list at `i`.
pub open spec fn fuel_args(ts: Seq<SpecToken>, i: int) -> int {
    if i <= ts.len() {
        2 * (ts.len() - i) + 3
    } else {
        3
    }
}

/// Any budget at least `fuel_expr` gives the same outcome as `fuel_expr`
/// itself, never runs out, and consumes at least one token.
proof fn lemma_pe_canon(ts: Seq<SpecToken>, i: int, fuel: int)
    requires
        fuel >= fuel_expr(ts, i),
    ensures
        parse_expr_fueled(ts, i, fuel) == parse_expr_fueled(ts, i, fuel_expr(ts, i)),
        !(parse_expr_fueled(ts, i, fuel) is OutOfFuel),
        parse_expr_fueled(ts, i, fuel) matches ExprOutcome::Found(_, j) ==> i < j <= ts.len(),
    decreases fuel,
{
    let fe = fuel_expr(ts, i);
    if 0 <= i && i + 1 < ts.len() && ts[i].kind == TokenKind::Sym && ts[i + 1].kind
        == TokenKind::OpenParen {
        lemma_pa_canon(ts, i + 2, fuel - 1);
        lemma_pa_canon(ts, i + 2, fe - 1);
    }
}

/// Any budget at least `fuel_args` gives the same outcome as `fuel_args`
/// itself, never runs out, and consumes at least one token.
proof fn lemma_pa_canon(ts: Seq<SpecToken>, i: int, fuel: int)
    requires
        fuel >= fuel_args(ts, i),
    ensures
        parse_args_fueled(ts, i, fuel) == parse_args_fueled(ts, i, fuel_args(ts, i)),
        !(parse_args_fueled(ts, i, fuel) is OutOfFuel),
        parse_args_fueled(ts, i, fuel) matches ArgsOutcome::Found(_, j) ==> i < j <= ts.len(),
    decreases fuel,
{
    let fa = fuel_args(ts, i);
    if 0 <= i && i < ts.len() && ts[i].kind != TokenKind::ClosedParen {
        lemma_pe_canon(ts, i, fuel - 1);
        lemma_pe_canon(ts, i, fa - 1);
        match parse_expr_fueled(ts, i, fa - 1) {
            ExprOutcome::Found(e0, j) => {
                if j < ts.len() && ts[j].kind == TokenKind::Comma {
                    lemma_pa_canon(ts, j + 1, fuel - 1);
                    lemma_pa_canon(ts, j + 1, fa - 1);
                }
            },
            _ => {},
        }
    }
}

/// One expression at `i`, with the canonical (always sufficient) budget.
pub open spec fn spec_parse_expr_at(ts: Seq<SpecToken>, i: int) -> ExprOutcome {
    parse_expr_fueled(ts, i, fuel_expr(ts, i))
}

/// An argument list at `i`, with the canonical (always sufficient) budget.
pub open spec fn spec_parse_args_at(ts: Seq<SpecToken>, i: int) -> ArgsOutcome {
    parse_args_fueled(ts, i, fuel_args(ts, i))
}

/// How `spec_parse_expr_at` unfolds one step, in terms of
/// `spec_parse_args_at` for the application case.
pub proof fn lemma_parse_expr_step(ts: Seq<SpecToken>, i: int)
    ensures
        (i < 0 || i >= ts.len()) ==> spec_parse_expr_at(ts, i) == ExprOutcome::Fail(
            SpecParseError::UnexpectedEndOfInput,
        ),
        (0 <= i < ts.len() && ts[i].kind != TokenKind::Sym) ==> spec_parse_expr_at(ts, i)
            == ExprOutcome::Fail(
            SpecParseError::UnexpectedToken { expected: TokenKind::Sym, found: ts[i] },
        ),
        (0 <= i < ts.len() && ts[i].kind == TokenKind::Sym && (i + 1 >= ts.len() || ts[i + 1].kind
            != TokenKind::OpenParen)) ==> spec_parse_expr_at(ts, i) == ExprOutcome::Found(
            SpecExpr::Sym { name: ts[i].text },
            i + 1,
        ),
        (0 <= i && i + 1 < ts.len() && ts[i].kind == TokenKind::Sym && ts[i + 1].kind
            == TokenKind::OpenParen) ==> spec_parse_expr_at(ts, i) == (match spec_parse_args_at(
            ts,
            i + 2,
        ) {
            ArgsOutcome::Found(args, j) => ExprOutcome::Found(
                SpecExpr::Fun { name: ts[i].text, args },
                j,
            ),
            ArgsOutcome::Fail(e) => ExprOutcome::Fail(e),
            ArgsOutcome::OutOfFuel => ExprOutcome::OutOfFuel,
        }),
        !(spec_parse_expr_at(ts, i) is OutOfFuel),
        spec_parse_expr_at(ts, i) matches ExprOutcome::Found(_, j) ==> i < j <= ts.len(),
{
    lemma_pe_canon(ts, i, fuel_expr(ts, i));
    if 0 <= i && i + 1 < ts.len() && ts[i].kind == TokenKind::Sym && ts[i + 1].kind
        == TokenKind::OpenParen {
        lemma_pa_canon(ts, i + 2, fuel_expr(ts, i) - 1);
    }
}

/// How `spec_parse_args_at` unfolds one step, in terms of
/// `spec_parse_expr_at` for the first argument and `spec_parse_args_at`
/// after a comma.
pub proof fn lemma_parse_args_step(ts: Seq<SpecToken>, i: int)
    ensures
        (i < 0 || i >= ts.len()) ==> spec_parse_args_at(ts, i) == ArgsOutcome::Fail(
            SpecParseError::UnexpectedEndOfInput,
        ),
        (0 <= i < ts.len() && ts[i].kind == TokenKind::ClosedParen) ==> spec_parse_args_at(ts, i)
            == ArgsOutcome::Found(Seq::<SpecExpr>::empty(), i + 1),
        (0 <= i < ts.len() && ts[i].kind != TokenKind::ClosedParen) ==> spec_parse_args_at(ts, i)
            == (match spec_parse_expr_at(ts, i) {
            ExprOutcome::Found(e0, j) => {
                if j >= ts.len() {
                    ArgsOutcome::Fail(SpecParseError::UnexpectedEndOfInput)
                } else if ts[j].kind == TokenKind::Comma {
                    match spec_parse_args_at(ts, j + 1) {
                        ArgsOutcome::Found(rest, k) => ArgsOutcome::Found(seq![e0] + rest, k),
                        other => other,
                    }
                } else if ts[j].kind == TokenKind::ClosedParen {
                    ArgsOutcome::Found(seq![e0], j + 1)
                } else {
                    ArgsOutcome::Fail(
                        SpecParseError::UnexpectedToken {
                            expected: TokenKind::ClosedParen,
                            found: ts[j],
                        },
                    )
                }
            },
            ExprOutcome::Fail(e) => ArgsOutcome::Fail(e),
            ExprOutcome::OutOfFuel => ArgsOutcome::OutOfFuel,
        }),
        !(spec_parse_args_at(ts, i) is OutOfFuel),
        spec_parse_args_at(ts, i) matches ArgsOutcome::Found(_, j) ==> i < j <= ts.len(),
{
    let fa = fuel_args(ts, i);
    lemma_pa_canon(ts, i, fa);
    if 0 <= i && i < ts.len() && ts[i].kind != TokenKind::ClosedParen {
        lemma_pe_canon(ts, i, fa - 1);
        lemma_pe_canon(ts, i, fuel_expr(ts, i));
        match parse_expr_fueled(ts, i, fa - 1) {
            ExprOutcome::Found(e0, j) => {
                if j < ts.len() && ts[j].kind == TokenKind::Comma {
                    lemma_pa_canon(ts, j + 1, fa - 1);
                    lemma_pa_canon(ts, j + 1, fuel_args(ts, j + 1));
                }
            },
            _ => {},
        }
    }
}

/// Parses one expression starting at token position `pos`.
fn parse_expr_at(tokens: &Vec<Token>, pos: usize) -> (r: (Result<Expr, ParseError>, usize))
    requires
        pos <= tokens@.len(),
    ensures
        match spec_parse_expr_at(seq_token_view(tokens@), pos as int) {
            ExprOutcome::Found(se, j) => r.0 matches Ok(e) && e@ == se && r.1 as int == j,
            ExprOutcome::Fail(pe) => r.0 matches Err(er) && er@ == pe,
            ExprOutcome::OutOfFuel => false,
        },
        r.1 <= tokens@.len(),
    decreases tokens@.len() - pos, 0int,
{
    let ghost tv = seq_token_view(tokens@);
    proof {
        lemma_parse_expr_step(tv, pos as int);
    }
    if pos >= tokens.len() {
        return (Err(ParseError::UnexpectedEndOfInput), pos);
    }
    proof {
        assert(tv[pos as int] == tokens@[pos as int]@);
    }
    if !(tokens[pos].kind == TokenKind::Sym) {
        let found = tokens[pos].clone();
        return (Err(ParseError::UnexpectedToken { expected: TokenKind::Sym, found }), pos);
    }
    if pos + 1 >= tokens.len() || !(tokens[pos + 1].kind == TokenKind::OpenParen) {
        proof {
            if pos as int + 1 < tv.len() {
                assert(tv[pos as int + 1] == tokens@[pos as int + 1]@);
            }
        }
        let name = tokens[pos].text.clone();
        return (Ok(Expr::Sym(name)), pos + 1);
    }
    proof {
        assert(tv[pos as int + 1] == tokens@[pos as int + 1]@);
    }
    let name = tokens[pos].text.clone();
    let sub = parse_args_at(tokens, pos + 2);
    match sub.0 {
        Ok(args) => {
            let e = Expr::Fun(name, args);
            proof {
                if let ArgsOutcome::Found(sargs, _) = spec_parse_args_at(tv, pos as int + 2) {
                    assert(e@ == (SpecExpr::Fun { name: tv[pos as int].text, args: sargs }));
                }
            }
            (Ok(e), sub.1)
        },
        Err(e) => (Err(e), sub.1),
    }
}

/// Parses an argument list starting at `pos` (just after a `(`), consuming
/// the closing `)`.  After each argument only `,` or `)` may follow, so a
/// mismatch there is reported as expecting the closing parenthesis.
fn parse_args_at(tokens: &Vec<Token>, pos: usize) -> (r: (Result<Vec<Expr>, ParseError>, usize))
    requires
        pos <= tokens@.len(),
    ensures
        match spec_parse_args_at(seq_token_view(tokens@), pos as int) {
            ArgsOutcome::Found(ses, j) => r.0 matches Ok(v) && seq_view(v@) == ses && r.1 as int
                == j,
            ArgsOutcome::Fail(pe) => r.0 matches Err(er) && er@ == pe,
            ArgsOutcome::OutOfFuel => false,
        },
        r.1 <= tokens@.len(),
    decreases tokens@.len() - pos, 1int,
{
    let ghost tv = seq_token_view(tokens@);
    proof {
        lemma_parse_args_step(tv, pos as int);
        lemma_parse_expr_step(tv, pos as int);
    }
    if pos >= tokens.len() {
        return (Err(ParseError::UnexpectedEndOfInput), pos);
    }
    proof {
        assert(tv[pos as int] == tokens@[pos as int]@);
    }
    if tokens[pos].kind == TokenKind::ClosedParen {
        let v: Vec<Expr> = Vec::new();
        proof {
            assert(seq_view(v@) =~= Seq::<SpecExpr>::empty());
        }
        return (Ok(v), pos + 1);
    }
    let first = parse_expr_at(tokens, pos);
    match first.0 {
        Err(e) => (Err(e), first.1),
        Ok(e0) => {
            let j = first.1;
            if j >= tokens.len() {
                return (Err(ParseError::UnexpectedEndOfInput), j);
            }
            proof {
                assert(tv[j as int] == tokens@[j as int]@);
            }
            if tokens[j].kind == TokenKind::Comma {
                let rest = parse_args_at(tokens, j + 1);
                match rest.0 {
                    Err(e) => (Err(e), rest.1),
                    Ok(mut v) => {
                        let ghost tail = v@;
                        v.insert(0, e0);
                        proof {
                            assert(seq_view(v@) =~= seq![e0@] + seq_view(tail));
                        }
                        (Ok(v), rest.1)
                    },
                }
            } else if tokens[j].kind == TokenKind::ClosedParen {
                let mut v: Vec<Expr> = Vec::new();
                v.push(e0);
                proof {
                    assert(seq_view(v@) =~= seq![e0@]);
                }
                (Ok(v), j + 1)
            } else {
                let found = tokens[j].clone();
                (Err(ParseError::UnexpectedToken { expected: TokenKind::ClosedParen, found }), j)
            }
        },
    }
}

/// One whole expression from a token stream.  A complete expression can only
/// be followed by `=` (in a rule), so a trailing token is reported as an
/// unexpected token where `=` could have stood.
pub open spec fn spec_parse_expr_toks(ts: Seq<SpecToken>) -> Result<SpecExpr, SpecParseError> {
    match spec_parse_expr_at(ts, 0) {
        ExprOutcome::Found(e, j) => if j == ts.len() {
            Ok(e)
        } else {
            Err(SpecParseError::UnexpectedToken { expected: TokenKind::Equals, found: ts[j] })
        },
        ExprOutcome::Fail(e) => Err(e),
        ExprOutcome::OutOfFuel => Err(SpecParseError::UnexpectedEndOfInput),
    }
}

/// A whole rule `head = body` from a token stream.
pub open spec fn spec_parse_rule_toks(ts: Seq<SpecToken>) -> Result<
    (SpecExpr, SpecExpr),
    SpecParseError,
> {
    match spec_parse_expr_at(ts, 0) {
        ExprOutcome::Found(h, j) => if j >= ts.len() {
            Err(SpecParseError::UnexpectedEndOfInput)
        } else if ts[j].kind != TokenKind::Equals {
            Err(SpecParseError::UnexpectedToken { expected: TokenKind::Equals, found: ts[j] })
        } else {
            match spec_parse_expr_at(ts, j + 1) {
                ExprOutcome::Found(b, k) => if k == ts.len() {
                    Ok((h, b))
                } else {
                    Err(
                        SpecParseError::UnexpectedToken {
                            expected: TokenKind::Equals,
                            found: ts[k],
                        },
                    )
                },
                ExprOutcome::Fail(e) => Err(e),
                ExprOutcome::OutOfFuel => Err(SpecParseError::UnexpectedEndOfInput),
            }
        },
        ExprOutcome::Fail(e) => Err(e),
        ExprOutcome::OutOfFuel => Err(SpecParseError::UnexpectedEndOfInput),
    }
}

/// Parses one whole expression from a token stream; trailing tokens are an
/// error.
pub fn parse_expr_tokens(tokens: &Vec<Token>) -> (r: Result<Expr, ParseError>)
    ensures
        match spec_parse_expr_toks(seq_token_view(tokens@)) {
            Ok(se) => r matches Ok(e) && e@ == se,
            Err(pe) => r matches Err(er) && er@ == pe,
        },
{
    let ghost tv = seq_token_view(tokens@);
    let first = parse_expr_at(tokens, 0);
    match first.0 {
        Ok(e) => {
            if first.1 >= tokens.len() {
                Ok(e)
            } else {
                proof {
                    assert(tv[first.1 as int] == tokens@[first.1 as int]@);
                }
                let found = tokens[first.1].clone();
                Err(ParseError::UnexpectedToken { expected: TokenKind::Equals, found })
            }
        },
        Err(e) => Err(e),
    }
}

/// Parses a whole rule `head = body` from a token stream.
pub fn parse_rule_tokens(tokens: &Vec<Token>) -> (r: Result<Rule, ParseError>)
    ensures
        match spec_parse_rule_toks(seq_token_view(tokens@)) {
            Ok(hb) => r matches Ok(rl) && rl.head@ == hb.0 && rl.body@ == hb.1,
            Err(pe) => r matches Err(er) && er@ == pe,
        },
{
    let ghost tv = seq_token_view(tokens@);
    let first = parse_expr_at(tokens, 0);
    match first.0 {
        Err(e) => Err(e),
        Ok(head) => {
            let j = first.1;
            if j >= tokens.len() {
                return Err(ParseError::UnexpectedEndOfInput);
            }
            proof {
                assert(tv[j as int] == tokens@[j as int]@);
            }
            if !(tokens[j].kind == TokenKind::Equals) {
                let found = tokens[j].clone();
                return Err(ParseError::UnexpectedToken { expected: TokenKind::Equals, found });
            }
            let second = parse_expr_at(tokens, j + 1);
            match second.0 {
                Err(e) => Err(e),
                Ok(body) => {
                    if second.1 >= tokens.len() {
                        Ok(Rule { head, body })
                    } else {
                        proof {
                            assert(tv[second.1 as int] == tokens@[second.1 as int]@);
                        }
                        let found = tokens[second.1].clone();
                        Err(ParseError::UnexpectedToken { expected: TokenKind::Equals, found })
                    }
                },
            }
        },
    }
}

/// A syntax error from the text front end: lexical or grammatical.
#[derive(Debug, PartialEq)]
pub enum SyntaxError {
    Lex(LexError),
    Parse(ParseError),
}

/// Mathematical value of a syntax error.
pub enum SpecSyntaxError {
    Lex { ch: char, pos: int },
    Parse { err: SpecParseError },
}

impl View for SyntaxError {
    type V = SpecSyntaxError;

    open spec fn view(&self) -> SpecSyntaxError {
        match self {
            SyntaxError::Lex(le) => match le {
                LexError::UnexpectedCharacter { ch, pos } => SpecSyntaxError::Lex {
                    ch: *ch,
                    pos: *pos as int,
                },
            },
            SyntaxError::Parse(pe) => SpecSyntaxError::Parse { err: pe@ },
        }
    }
}

/// The position of a lexical error lies within the input.
proof fn lemma_lex_err_pos(s: Seq<char>, i: int)
    requires
        0 <= i,
    ensures
        spec_lex_from(s, i) matches Err(e) ==> 0 <= e.1 < s.len(),
    decreases s.len() - i,
{
    crate::lexer::lemma_spec_next_progress(s, i);
    lemma_next_err_pos(s, i);
    match spec_next(s, i).0 {
        Ok(Some(_)) => {
            lemma_lex_err_pos(s, spec_next(s, i).1);
        },
        _ => {},
    }
}

/// The position of the error of `spec_next` lies within the input.
proof fn lemma_next_err_pos(s: Seq<char>, i: int)
    requires
        0 <= i,
    ensures
        spec_next(s, i).0 matches Err(e) ==> 0 <= e.1 < s.len() && e.1 == spec_next(s, i).1,
    decreases s.len() - i,
{
    if 0 <= i < s.len() && crate::lexer::is_whitespace_char(s[i]) {
        lemma_next_err_pos(s, i + 1);
    }
}

/// One whole expression from source text.
pub open spec fn spec_parse_expr_text(s: Seq<char>) -> Result<SpecExpr, SpecSyntaxError> {
    match spec_lex_from(s, 0) {
        Err(e) => Err(SpecSyntaxError::Lex { ch: e.0, pos: e.1 }),
        Ok(ts) => match spec_parse_expr_toks(ts) {
            Ok(e) => Ok(e),
            Err(pe) => Err(SpecSyntaxError::Parse { err: pe }),
        },
    }
}

/// A whole rule from source text.
pub open spec fn spec_parse_rule_text(s: Seq<char>) -> Result<
    (SpecExpr, SpecExpr),
    SpecSyntaxError,
> {
    match spec_lex_from(s, 0) {
        Err(e) => Err(SpecSyntaxError::Lex { ch: e.0, pos: e.1 }),
        Ok(ts) => match spec_parse_rule_toks(ts) {
            Ok(hb) => Ok(hb),
            Err(pe) => Err(SpecSyntaxError::Parse { err: pe }),
        },
    }
}

/// Lexes and parses one whole expression from source text.
pub fn parse_expr_text(chars: Vec<char>) -> (r: Result<Expr, SyntaxError>)
    ensures
        match spec_parse_expr_text(chars@) {
            Ok(se) => r matches Ok(e) && e@ == se,
            Err(sse) => r matches Err(er) && er@ == sse,
        },
{
    let char_count = chars.len();
    proof {
        assert(chars@.len() == char_count);
        lemma_lex_err_pos(chars@, 0);
    }
    match tokenize(chars) {
        Err(le) => Err(SyntaxError::Lex(le)),
        Ok(tokens) => match parse_expr_tokens(&tokens) {
            Ok(e) => Ok(e),
            Err(pe) => Err(SyntaxError::Parse(pe)),
        },
    }
}

/// Lexes and parses a whole rule `head = body` from source text.
pub fn parse_rule_text(chars: Vec<char>) -> (r: Result<Rule, SyntaxError>)
    ensures
        match spec_parse_rule_text(chars@) {
            Ok(hb) => r matches Ok(rl) && rl.head@ == hb.0 && rl.body@ == hb.1,
            Err(sse) => r matches Err(er) && er@ == sse,
        },
{
    let char_count = chars.len();
    proof {
        assert(chars@.len() == char_count);
        lemma_lex_err_pos(chars@, 0);
    }
    match tokenize(chars) {
        Err(le) => Err(SyntaxError::Lex(le)),
        Ok(tokens) => match parse_rule_tokens(&tokens) {
            Ok(rl) => Ok(rl),
            Err(pe) => Err(SyntaxError::Parse(pe)),
        },
    }
}

} // verus!
