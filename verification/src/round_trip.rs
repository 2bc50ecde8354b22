//! The round trip between rendering and parsing: the canonical text of a
//! well-formed expression lexes to its canonical token stream, and that
//! stream parses back to the same expression.

use vstd::prelude::*;
use crate::expr::{
    SpecExpr, is_ident_char, is_ident_start_char, spec_render, spec_render_args, wf_sexpr,
};
use crate::lexer::{
    SpecToken, TokenKind, ident_end, is_whitespace_char, spec_lex_from, spec_next,
};
use crate::parser::{
    ArgsOutcome, ExprOutcome, SpecSyntaxError, lemma_parse_args_step, lemma_parse_expr_step,
    spec_parse_args_at, spec_parse_expr_at, spec_parse_expr_text, spec_parse_expr_toks,
};

verus! {

/// The canonical token stream of an expression: what lexing its canonical
/// text yields.
pub open spec fn toks_of(e: SpecExpr) -> Seq<SpecToken>
    decreases e,
{
    match e {
        SpecExpr::Sym { name } => seq![SpecToken { kind: TokenKind::Sym, text: name }],
        SpecExpr::Fun { name, args } => seq![
            SpecToken { kind: TokenKind::Sym, text: name },
            SpecToken { kind: TokenKind::OpenParen, text: seq!['('] },
        ] + toks_args(args) + seq![SpecToken { kind: TokenKind::ClosedParen, text: seq![')'] }],
    }
}

/// The canonical token stream of an argument list, comma-separated.
pub open spec fn toks_args(args: Seq<SpecExpr>) -> Seq<SpecToken>
    decreases args,
{
    if args.len() == 0 {
        Seq::empty()
    } else if args.len() == 1 {
        toks_of(args[0])
    } else {
        toks_of(args[0]) + seq![SpecToken { kind: TokenKind::Comma, text: seq![','] }]
            + toks_args(args.drop_first())
    }
}

/// A token stream starts with a `Sym` token.
proof fn lemma_toks_first(e: SpecExpr)
    ensures
        toks_of(e).len() >= 1,
        toks_of(e)[0].kind == TokenKind::Sym,
{
}

/// Prepends already-lexed tokens onto the outcome of lexing a suffix.
spec fn lex_cons(pre: Seq<SpecToken>, r: Result<Seq<SpecToken>, (char, int)>) -> Result<
    Seq<SpecToken>,
    (char, int),
> {
    match r {
        Ok(rest) => Ok(pre + rest),
        Err(e) => Err(e),
    }
}

proof fn lemma_lex_cons_assoc(
    a: Seq<SpecToken>,
    b: Seq<SpecToken>,
    r: Result<Seq<SpecToken>, (char, int)>,
)
    ensures
        lex_cons(a, lex_cons(b, r)) == lex_cons(a + b, r),
{
    match r {
        Ok(rest) => {
            assert(a + (b + rest) =~= (a + b) + rest);
        },
        Err(_) => {},
    }
}

/// Identifier characters run exactly up to the first non-identifier position.
proof fn lemma_ident_end_range(s: Seq<char>, a: int, b: int)
    requires
        0 <= a <= b <= s.len(),
        forall|k: int| a <= k < b ==> is_ident_char(#[trigger] s[k]),
        b == s.len() || !is_ident_char(s[b]),
    ensures
        ident_end(s, a) == b,
    decreases b - a,
{
    if a < b {
        lemma_ident_end_range(s, a + 1, b);
    }
}

/// The token kind of a structural character.
spec fn punct_kind(c: char) -> TokenKind {
    if c == '(' {
        TokenKind::OpenParen
    } else if c == ')' {
        TokenKind::ClosedParen
    } else if c == ',' {
        TokenKind::Comma
    } else {
        TokenKind::Equals
    }
}

/// Lexing steps over one whitespace character.
proof fn lemma_lex_step_ws(s: Seq<char>, i: int)
    requires
        0 <= i < s.len(),
        is_whitespace_char(s[i]),
    ensures
        spec_lex_from(s, i) == spec_lex_from(s, i + 1),
{
    assert(spec_next(s, i) == spec_next(s, i + 1));
}

/// Lexing takes one structural character as one token.
proof fn lemma_lex_step_punct(s: Seq<char>, i: int)
    requires
        0 <= i < s.len(),
        s[i] == '(' || s[i] == ')' || s[i] == ',' || s[i] == '=',
    ensures
        spec_lex_from(s, i) == lex_cons(
            seq![SpecToken { kind: punct_kind(s[i]), text: seq![s[i]] }],
            spec_lex_from(s, i + 1),
        ),
{
}

/// Lexing takes a maximal identifier run as one `Sym` token.
proof fn lemma_lex_step_ident(s: Seq<char>, i: int, j: int)
    requires
        0 <= i < j <= s.len(),
        is_ident_start_char(s[i]),
        forall|k: int| i <= k < j ==> is_ident_char(#[trigger] s[k]),
        j == s.len() || !is_ident_char(s[j]),
    ensures
        spec_lex_from(s, i) == lex_cons(
            seq![SpecToken { kind: TokenKind::Sym, text: s.subrange(i, j) }],
            spec_lex_from(s, j),
        ),
{
    lemma_ident_end_range(s, i + 1, j);
    assert(!is_whitespace_char(s[i]));
    assert(s[i] != '(' && s[i] != ')' && s[i] != ',' && s[i] != '=');
}

/// Lexing the canonical text of a well-formed expression, embedded in a
/// larger text and not followed by an identifier character, yields its
/// canonical tokens followed by whatever the rest lexes to.
proof fn lemma_lex_render(e: SpecExpr, s: Seq<char>, i: int)
    requires
        wf_sexpr(e),
        0 <= i,
        i + spec_render(e).len() <= s.len(),
        s.subrange(i, i + spec_render(e).len() as int) == spec_render(e),
        i + spec_render(e).len() == s.len() || !is_ident_char(s[i + spec_render(e).len() as int]),
    ensures
        spec_lex_from(s, i) == lex_cons(
            toks_of(e),
            spec_lex_from(s, i + spec_render(e).len() as int),
        ),
    decreases e,
{
    let r = spec_render(e);
    let n = r.len() as int;
    assert forall|k: int| 0 <= k < n implies s[i + k] == r[k] by {
        assert(s.subrange(i, i + n)[k] == s[i + k]);
    }
    match e {
        SpecExpr::Sym { name } => {
            assert forall|k: int| i <= k < i + n implies is_ident_char(#[trigger] s[k]) by {
                assert(s[k] == name[k - i]);
            }
            assert(s[i] == name[0]);
            lemma_lex_step_ident(s, i, i + n);
            assert(s.subrange(i, i + n) == name);
        },
        SpecExpr::Fun { name, args } => {
            let nl = name.len() as int;
            let ra = spec_render_args(args);
            let p1 = i + nl;
            let p2 = p1 + 1;
            let p3 = i + n - 1;
            assert(n == nl + 1 + ra.len() + 1);
            assert forall|k: int| 0 <= k < nl implies r[k] == name[k] by {}
            assert(r[nl] == '(');
            assert forall|k: int| 0 <= k < ra.len() implies r[nl + 1 + k] == ra[k] by {}
            assert(r[n - 1] == ')');
            // the name
            assert forall|k: int| i <= k < p1 implies is_ident_char(#[trigger] s[k]) by {
                assert(s[k] == name[k - i]);
            }
            assert(s[i] == name[0]);
            assert(s[p1] == '(');
            assert(!is_ident_char('('));
            lemma_lex_step_ident(s, i, p1);
            assert(s.subrange(i, p1) =~= name);
            // the opening parenthesis
            lemma_lex_step_punct(s, p1);
            assert(punct_kind('(') == TokenKind::OpenParen);
            // the arguments
            assert forall|k: int| 0 <= k < ra.len() implies s[p2 + k] == ra[k] by {}
            assert(s.subrange(p2, p2 + ra.len() as int) =~= ra);
            assert(s[p3] == ')');
            lemma_lex_render_args(args, s, p2);
            // the closing parenthesis
            lemma_lex_step_punct(s, p3);
            assert(punct_kind(')') == TokenKind::ClosedParen);
            let t_sym = seq![SpecToken { kind: TokenKind::Sym, text: name }];
            let t_open = seq![SpecToken { kind: TokenKind::OpenParen, text: seq!['('] }];
            let t_close = seq![SpecToken { kind: TokenKind::ClosedParen, text: seq![')'] }];
            let ta = toks_args(args);
            lemma_lex_cons_assoc(ta, t_close, spec_lex_from(s, i + n));
            lemma_lex_cons_assoc(t_open, ta + t_close, spec_lex_from(s, i + n));
            lemma_lex_cons_assoc(t_sym, t_open + (ta + t_close), spec_lex_from(s, i + n));
            assert(toks_of(e) =~= t_sym + (t_open + (ta + t_close)));
        },
    }
}

/// Lexing the canonical text of an argument list, followed by a `)`, yields
/// its canonical tokens followed by whatever the rest (starting at the `)`)
/// lexes to.
proof fn lemma_lex_render_args(args: Seq<SpecExpr>, s: Seq<char>, i: int)
    requires
        forall|k: int| 0 <= k < args.len() ==> wf_sexpr(#[trigger] args[k]),
        0 <= i,
        i + spec_render_args(args).len() < s.len(),
        s.subrange(i, i + spec_render_args(args).len() as int) == spec_render_args(args),
        s[i + spec_render_args(args).len() as int] == ')',
    ensures
        spec_lex_from(s, i) == lex_cons(
            toks_args(args),
            spec_lex_from(s, i + spec_render_args(args).len() as int),
        ),
    decreases args,
{
    let ra = spec_render_args(args);
    let n = ra.len() as int;
    assert forall|k: int| 0 <= k < n implies s[i + k] == ra[k] by {
        assert(s.subrange(i, i + n)[k] == s[i + k]);
    }
    if args.len() == 0 {
        assert(toks_args(args) =~= Seq::<SpecToken>::empty());
        match spec_lex_from(s, i) {
            Ok(rest) => {
                assert(Seq::<SpecToken>::empty() + rest =~= rest);
            },
            Err(_) => {},
        }
    } else if args.len() == 1 {
        assert(ra == spec_render(args[0]));
        assert(!is_ident_char(')'));
        lemma_lex_render(args[0], s, i);
    } else {
        let r0 = spec_render(args[0]);
        let q = i + r0.len() as int;
        let rest_r = spec_render_args(args.drop_first());
        assert(ra == r0 + seq![',', ' '] + rest_r);
        assert forall|k: int| 0 <= k < r0.len() implies ra[k] == r0[k] by {}
        assert(ra[r0.len() as int] == ',');
        assert(ra[r0.len() as int + 1] == ' ');
        assert forall|k: int| 0 <= k < rest_r.len() implies ra[r0.len() as int + 2 + k] == rest_r[k] by {}
        // the first argument, bounded by the comma
        assert(s.subrange(i, q) =~= r0);
        assert(s[q] == ',');
        assert(!is_ident_char(','));
        lemma_lex_render(args[0], s, i);
        // the comma
        lemma_lex_step_punct(s, q);
        assert(punct_kind(',') == TokenKind::Comma);
        // the space
        assert(s[q + 1] == ' ');
        lemma_lex_step_ws(s, q + 1);
        // the remaining arguments
        assert forall|k: int| 0 <= k < rest_r.len() implies s[q + 2 + k] == rest_r[k] by {}
        assert(s.subrange(q + 2, q + 2 + rest_r.len() as int) =~= rest_r);
        assert(s[q + 2 + rest_r.len() as int] == ')');
        assert forall|k: int| 0 <= k < args.drop_first().len() implies wf_sexpr(
            #[trigger] args.drop_first()[k],
        ) by {
            assert(args.drop_first()[k] == args[k + 1]);
        }
        lemma_lex_render_args(args.drop_first(), s, q + 2);
        // compose
        let t0 = toks_of(args[0]);
        let t_comma = seq![SpecToken { kind: TokenKind::Comma, text: seq![','] }];
        let t_rest = toks_args(args.drop_first());
        lemma_lex_cons_assoc(t_comma, t_rest, spec_lex_from(s, i + n));
        lemma_lex_cons_assoc(t0, t_comma + t_rest, spec_lex_from(s, i + n));
        assert(toks_args(args) =~= t0 + (t_comma + t_rest));
    }
}

/// Parsing a canonical token stream, embedded in a larger stream and not
/// followed by an opening parenthesis, yields the expression back and stops
/// right after it.
proof fn lemma_parse_toks(e: SpecExpr, ts: Seq<SpecToken>, i: int)
    requires
        0 <= i,
        i + toks_of(e).len() <= ts.len(),
        ts.subrange(i, i + toks_of(e).len() as int) == toks_of(e),
        i + toks_of(e).len() == ts.len() || ts[i + toks_of(e).len() as int].kind
            != TokenKind::OpenParen,
    ensures
        spec_parse_expr_at(ts, i) == ExprOutcome::Found(e, i + toks_of(e).len() as int),
    decreases e,
{
    let m = toks_of(e).len() as int;
    assert forall|k: int| 0 <= k < m implies ts[i + k] == toks_of(e)[k] by {
        assert(ts.subrange(i, i + m)[k] == ts[i + k]);
    }
    lemma_parse_expr_step(ts, i);
    assert(ts[i + 0] == toks_of(e)[0]);
    match e {
        SpecExpr::Sym { name } => {
            assert(ts[i] == (SpecToken { kind: TokenKind::Sym, text: name }));
        },
        SpecExpr::Fun { name, args } => {
            let ta = toks_args(args).len() as int;
            assert(m == 2 + ta + 1);
            assert(ts[i] == (SpecToken { kind: TokenKind::Sym, text: name }));
            assert(ts[i + 1] == toks_of(e)[1]);
            assert(toks_of(e)[1].kind == TokenKind::OpenParen);
            assert forall|k: int| 0 <= k < ta implies ts[i + 2 + k] == toks_args(args)[k] by {
                assert(ts[i + (2 + k)] == toks_of(e)[2 + k]);
                assert(toks_of(e)[2 + k] == toks_args(args)[k]);
            }
            assert(ts.subrange(i + 2, i + 2 + ta) =~= toks_args(args));
            assert(ts[i + (2 + ta)] == toks_of(e)[2 + ta]);
            assert(toks_of(e)[2 + ta].kind == TokenKind::ClosedParen);
            assert(ts[i + 2 + ta].kind == TokenKind::ClosedParen);
            lemma_parse_toks_args(args, ts, i + 2);
        },
    }
}

/// Parsing the canonical tokens of an argument list followed by a `)`
/// yields the arguments back and stops right after the `)`.
proof fn lemma_parse_toks_args(args: Seq<SpecExpr>, ts: Seq<SpecToken>, i: int)
    requires
        0 <= i,
        i + toks_args(args).len() + 1 <= ts.len(),
        ts.subrange(i, i + toks_args(args).len() as int) == toks_args(args),
        ts[i + toks_args(args).len() as int].kind == TokenKind::ClosedParen,
    ensures
        spec_parse_args_at(ts, i) == ArgsOutcome::Found(
            args,
            i + toks_args(args).len() as int + 1,
        ),
    decreases args,
{
    let ta = toks_args(args).len() as int;
    assert forall|k: int| 0 <= k < ta implies ts[i + k] == toks_args(args)[k] by {
        assert(ts.subrange(i, i + ta)[k] == ts[i + k]);
    }
    lemma_parse_args_step(ts, i);
    if args.len() == 0 {
        assert(args =~= Seq::<SpecExpr>::empty());
    } else {
        lemma_toks_first(args[0]);
        let m0 = toks_of(args[0]).len() as int;
        let q = i + m0;
        assert(ts[i + 0] == toks_args(args)[0]);
        assert(toks_args(args)[0] == toks_of(args[0])[0]);
        assert(ts[i].kind == TokenKind::Sym);
        if args.len() == 1 {
            assert(toks_args(args) == toks_of(args[0]));
            assert(ts.subrange(i, q) =~= toks_of(args[0]));
            assert(ts[q].kind == TokenKind::ClosedParen);
            lemma_parse_toks(args[0], ts, i);
            assert(args =~= seq![args[0]]);
        } else {
            let rest_t = toks_args(args.drop_first());
            assert(toks_args(args) == toks_of(args[0]) + seq![
                SpecToken { kind: TokenKind::Comma, text: seq![','] },
            ] + rest_t);
            assert forall|k: int| 0 <= k < m0 implies toks_args(args)[k] == toks_of(args[0])[k]
                by {}
            assert(toks_args(args)[m0].kind == TokenKind::Comma);
            assert forall|k: int| 0 <= k < rest_t.len() implies toks_args(args)[m0 + 1 + k]
                == rest_t[k] by {}
            assert(ts.subrange(i, q) =~= toks_of(args[0]));
            assert(ts[q].kind == TokenKind::Comma);
            lemma_parse_toks(args[0], ts, i);
            assert forall|k: int| 0 <= k < rest_t.len() implies ts[q + 1 + k] == rest_t[k] by {}
            assert(ts.subrange(q + 1, q + 1 + rest_t.len() as int) =~= rest_t);
            assert(ts[q + 1 + rest_t.len() as int].kind == TokenKind::ClosedParen);
            lemma_parse_toks_args(args.drop_first(), ts, q + 1);
            assert(seq![args[0]] + args.drop_first() =~= args);
        }
    }
}

/// Round trip: parsing the canonical text of any grammar-well-formed
/// expression yields that same expression back.
pub proof fn lemma_render_parse_round_trip(e: SpecExpr)
    requires
        wf_sexpr(e),
    ensures
        spec_parse_expr_text(spec_render(e)) == Ok::<SpecExpr, SpecSyntaxError>(e),
{
    let s = spec_render(e);
    let n = s.len() as int;
    assert(s.subrange(0, n) =~= s);
    lemma_lex_render(e, s, 0);
    assert(spec_lex_from(s, n) == Ok::<Seq<SpecToken>, (char, int)>(Seq::empty()));
    let ts = toks_of(e);
    assert(ts + Seq::<SpecToken>::empty() =~= ts);
    assert(spec_lex_from(s, 0) == Ok::<Seq<SpecToken>, (char, int)>(ts));
    assert(ts.subrange(0, ts.len() as int) =~= ts);
    lemma_parse_toks(e, ts, 0);
    assert(spec_parse_expr_at(ts, 0) == ExprOutcome::Found(e, ts.len() as int));
    assert(spec_parse_expr_toks(ts) == Ok::<SpecExpr, crate::parser::SpecParseError>(e));
}

} // verus!
