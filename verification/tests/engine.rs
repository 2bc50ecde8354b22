use noq::expr::Expr;
use noq::bindings::Bindings;
use noq::matcher::pattern_match;
use noq::subst::{substitute_bindings, SubstError};
use noq::rewrite::Rule;
use noq::lexer::{tokenize, Lexer, TokenKind};
use noq::parser::{parse_expr_text, parse_expr_tokens, parse_rule_text, ParseError, SyntaxError};
use noq::lexer::LexError;

fn sym(name: &str) -> Expr {
    Expr::Sym(name.to_string())
}

fn fun(name: &str, args: Vec<Expr>) -> Expr {
    Expr::Fun(name.to_string(), args)
}

fn chars(s: &str) -> Vec<char> {
    s.chars().collect()
}

#[test]
pub fn rule_apply_all() {
    let swap = Rule {
        head: fun("swap", vec![fun("pair", vec![sym("a"), sym("b")])]),
        body: fun("pair", vec![sym("b"), sym("a")]),
    };

    let expr = fun(
        "foo",
        vec![
            fun("swap", vec![fun("pair", vec![fun("f", vec![sym("a")]), fun("g", vec![sym("b")])])]),
            fun("swap", vec![fun("pair", vec![fun("q", vec![sym("c")]), fun("z", vec![sym("d")])])]),
        ],
    );
    let expected = fun(
        "foo",
        vec![
            fun("pair", vec![fun("g", vec![sym("b")]), fun("f", vec![sym("a")])]),
            fun("pair", vec![fun("z", vec![sym("d")]), fun("q", vec![sym("c")])]),
        ],
    );
    println!("Rule:         {}", swap.render());
    println!("Expression:   {}", expr.render());
    println!("Expression':  {:?}", swap.apply_all(&expr));

    assert_eq!(swap.apply_all(&expr), Ok(expected));
}

#[test]
fn render_canonical_forms() {
    assert_eq!(sym("a").render(), "a");
    assert_eq!(fun("g", vec![sym("b"), sym("a")]).render(), "g(b, a)");
    assert_eq!(fun("f", vec![fun("g", vec![sym("a")])]).render(), "f(g(a))");
    assert_eq!(
        fun("f", vec![fun("g", vec![sym("a")]), fun("k", vec![sym("q"), fun("l", vec![sym("a")])])])
            .render(),
        "f(g(a), k(q, l(a)))"
    );
    assert_eq!(fun("f", vec![]).render(), "f()");
}

#[test]
fn rule_render() {
    let swap = Rule {
        head: fun("swap", vec![fun("pair", vec![sym("a"), sym("b")])]),
        body: fun("pair", vec![sym("b"), sym("a")]),
    };
    assert_eq!(swap.render(), "swap(pair(a, b)) = pair(b, a)");
}

#[test]
fn matcher_linearity_success() {
    let pattern = fun("f", vec![sym("X"), sym("X")]);
    let value = fun("f", vec![sym("a"), sym("a")]);
    let bindings = pattern_match(&pattern, &value).expect("f(X, X) must match f(a, a)");
    assert_eq!(bindings.get(&"X".to_string()), Some(&sym("a")));
}

#[test]
fn matcher_linearity_failure() {
    let pattern = fun("f", vec![sym("X"), sym("X")]);
    let value = fun("f", vec![sym("a"), sym("b")]);
    assert!(pattern_match(&pattern, &value).is_none());
}

#[test]
fn matcher_name_mismatch() {
    let pattern = fun("f", vec![sym("X")]);
    let value = fun("g", vec![sym("a")]);
    assert!(pattern_match(&pattern, &value).is_none());
}

#[test]
fn matcher_arity_mismatch() {
    let pattern = fun("f", vec![sym("X")]);
    let value = fun("f", vec![sym("a"), sym("b")]);
    assert!(pattern_match(&pattern, &value).is_none());
}

#[test]
fn matcher_application_vs_symbol() {
    let pattern = fun("f", vec![sym("X")]);
    let value = sym("f");
    assert!(pattern_match(&pattern, &value).is_none());
}

#[test]
fn matcher_binds_subtrees() {
    let pattern = fun("swap", vec![fun("pair", vec![sym("a"), sym("b")])]);
    let value = fun("swap", vec![fun("pair", vec![fun("f", vec![sym("x")]), sym("y")])]);
    let bindings = pattern_match(&pattern, &value).expect("pattern must match");
    assert_eq!(bindings.get(&"a".to_string()), Some(&fun("f", vec![sym("x")])));
    assert_eq!(bindings.get(&"b".to_string()), Some(&sym("y")));
    assert_eq!(bindings.get(&"c".to_string()), None);
}

#[test]
fn substitution_empty_bindings_identity() {
    let e = fun("f", vec![fun("g", vec![sym("a")]), sym("b")]);
    assert_eq!(substitute_bindings(&Bindings::new(), &e), Ok(e));
}

#[test]
fn substitution_replaces_symbols() {
    let mut b = Bindings::new();
    b.insert("X".to_string(), fun("g", vec![sym("a")]));
    let body = fun("pair", vec![sym("X"), sym("y")]);
    assert_eq!(
        substitute_bindings(&b, &body),
        Ok(fun("pair", vec![fun("g", vec![sym("a")]), sym("y")]))
    );
}

#[test]
fn substitution_renames_function_symbol() {
    let mut b = Bindings::new();
    b.insert("F".to_string(), sym("g"));
    let body = fun("F", vec![sym("a")]);
    assert_eq!(substitute_bindings(&b, &body), Ok(fun("g", vec![sym("a")])));
}

#[test]
fn substitution_invalid_target() {
    let mut b = Bindings::new();
    b.insert("F".to_string(), fun("pair", vec![sym("a"), sym("b")]));
    let body = fun("F", vec![sym("a")]);
    assert_eq!(substitute_bindings(&b, &body), Err(SubstError::InvalidSubstitutionTarget));
}

#[test]
fn rewrite_invalid_substitution_reported() {
    let rule = Rule { head: fun("f", vec![sym("X")]), body: fun("X", vec![sym("k")]) };
    let input = fun("f", vec![fun("pair", vec![sym("a"), sym("b")])]);
    assert_eq!(rule.apply_all(&input), Err(SubstError::InvalidSubstitutionTarget));
}

#[test]
fn rewrite_locality() {
    let rule = Rule {
        head: fun("swap", vec![fun("pair", vec![sym("X"), sym("Y")])]),
        body: fun("pair", vec![sym("Y"), sym("X")]),
    };
    let input = fun(
        "foo",
        vec![
            fun("swap", vec![fun("pair", vec![fun("f", vec![sym("a")]), fun("g", vec![sym("b")])])]),
            fun("swap", vec![fun("pair", vec![fun("q", vec![sym("c")]), fun("z", vec![sym("d")])])]),
        ],
    );
    let expected = fun(
        "foo",
        vec![
            fun("pair", vec![fun("g", vec![sym("b")]), fun("f", vec![sym("a")])]),
            fun("pair", vec![fun("z", vec![sym("d")]), fun("q", vec![sym("c")])]),
        ],
    );
    assert_eq!(rule.apply_all(&input), Ok(expected));
}

#[test]
fn rewrite_no_match_passthrough() {
    let rule = Rule {
        head: fun("swap", vec![fun("pair", vec![sym("X"), sym("Y")])]),
        body: fun("pair", vec![sym("Y"), sym("X")]),
    };
    let input = fun("bar", vec![sym("1")]);
    assert_eq!(rule.apply_all(&input), Ok(fun("bar", vec![sym("1")])));
}

#[test]
fn rewrite_single_pass_not_fixpoint() {
    let rule = Rule {
        head: fun("swap", vec![fun("pair", vec![sym("X"), sym("Y")])]),
        body: fun("pair", vec![sym("Y"), sym("X")]),
    };
    // the outermost redex wins; the inner redex is carried over unrewritten
    let input = fun(
        "swap",
        vec![fun("pair", vec![fun("swap", vec![fun("pair", vec![sym("a"), sym("b")])]), sym("c")])],
    );
    let expected = fun(
        "pair",
        vec![sym("c"), fun("swap", vec![fun("pair", vec![sym("a"), sym("b")])])],
    );
    assert_eq!(rule.apply_all(&input), Ok(expected));
}

#[test]
fn lexer_token_stream() {
    let tokens = tokenize(chars("swap(pair(a,b)) = pair(b,a)")).expect("input must lex");
    let expected: Vec<(TokenKind, &str)> = vec![
        (TokenKind::Sym, "swap"),
        (TokenKind::OpenParen, "("),
        (TokenKind::Sym, "pair"),
        (TokenKind::OpenParen, "("),
        (TokenKind::Sym, "a"),
        (TokenKind::Comma, ","),
        (TokenKind::Sym, "b"),
        (TokenKind::ClosedParen, ")"),
        (TokenKind::ClosedParen, ")"),
        (TokenKind::Equals, "="),
        (TokenKind::Sym, "pair"),
        (TokenKind::OpenParen, "("),
        (TokenKind::Sym, "b"),
        (TokenKind::Comma, ","),
        (TokenKind::Sym, "a"),
        (TokenKind::ClosedParen, ")"),
    ];
    assert_eq!(tokens.len(), expected.len());
    for (tok, (kind, text)) in tokens.iter().zip(expected.iter()) {
        assert_eq!(tok.kind, *kind);
        assert_eq!(tok.text, *text);
    }
}

#[test]
fn lexer_skips_whitespace() {
    let tokens = tokenize(chars(" a\tb\nc ")).expect("input must lex");
    assert_eq!(tokens.len(), 3);
    assert_eq!(tokens[0].text, "a");
    assert_eq!(tokens[1].text, "b");
    assert_eq!(tokens[2].text, "c");
}

#[test]
fn lexer_empty_input() {
    let tokens = tokenize(Vec::new()).expect("empty input must lex");
    assert!(tokens.is_empty());
}

#[test]
fn lexer_unexpected_character() {
    assert_eq!(
        tokenize(chars("a $b")),
        Err(LexError::UnexpectedCharacter { ch: '$', pos: 2 })
    );
}

#[test]
fn lexer_step_by_step() {
    let mut lexer = Lexer::from_iter(chars("f(x)"));
    let t = lexer.next().unwrap().unwrap();
    assert_eq!(t.kind, TokenKind::Sym);
    assert_eq!(t.text, "f");
    let t = lexer.next().unwrap().unwrap();
    assert_eq!(t.kind, TokenKind::OpenParen);
    let t = lexer.next().unwrap().unwrap();
    assert_eq!(t.kind, TokenKind::Sym);
    assert_eq!(t.text, "x");
    let t = lexer.next().unwrap().unwrap();
    assert_eq!(t.kind, TokenKind::ClosedParen);
    assert_eq!(lexer.next(), Ok(None));
}

#[test]
fn parse_simple_expression() {
    assert_eq!(parse_expr_text(chars("a")), Ok(sym("a")));
    assert_eq!(parse_expr_text(chars("f()")), Ok(fun("f", vec![])));
    assert_eq!(
        parse_expr_text(chars("f(a, g(b))")),
        Ok(fun("f", vec![sym("a"), fun("g", vec![sym("b")])]))
    );
}

#[test]
fn parse_from_tokens() {
    let tokens = tokenize(chars("pair(a, b)")).expect("input must lex");
    assert_eq!(parse_expr_tokens(&tokens), Ok(fun("pair", vec![sym("a"), sym("b")])));
}

#[test]
fn parse_rule() {
    let rule = parse_rule_text(chars("swap(pair(a, b)) = pair(b, a)")).expect("rule must parse");
    assert_eq!(rule.head, fun("swap", vec![fun("pair", vec![sym("a"), sym("b")])]));
    assert_eq!(rule.body, fun("pair", vec![sym("b"), sym("a")]));
}

#[test]
fn parsed_rule_rewrites() {
    let rule = parse_rule_text(chars("swap(pair(a, b)) = pair(b, a)")).expect("rule must parse");
    let input = parse_expr_text(chars("swap(pair(x, y))")).expect("input must parse");
    assert_eq!(rule.apply_all(&input), Ok(fun("pair", vec![sym("y"), sym("x")])));
}

#[test]
fn parse_unexpected_end_of_input() {
    assert_eq!(
        parse_expr_text(chars("f(")),
        Err(SyntaxError::Parse(ParseError::UnexpectedEndOfInput))
    );
    assert_eq!(
        parse_expr_text(chars("f(a")),
        Err(SyntaxError::Parse(ParseError::UnexpectedEndOfInput))
    );
    assert_eq!(
        parse_expr_text(chars("")),
        Err(SyntaxError::Parse(ParseError::UnexpectedEndOfInput))
    );
}

#[test]
fn parse_unexpected_token() {
    match parse_expr_text(chars(",a")) {
        Err(SyntaxError::Parse(ParseError::UnexpectedToken { expected, found })) => {
            assert_eq!(expected, TokenKind::Sym);
            assert_eq!(found.kind, TokenKind::Comma);
        }
        other => panic!("expected an unexpected-token error, got {:?}", other),
    }
    match parse_expr_text(chars("f(a b)")) {
        Err(SyntaxError::Parse(ParseError::UnexpectedToken { expected, found })) => {
            assert_eq!(expected, TokenKind::ClosedParen);
            assert_eq!(found.text, "b");
        }
        other => panic!("expected an unexpected-token error, got {:?}", other),
    }
    match parse_expr_text(chars("a b")) {
        Err(SyntaxError::Parse(ParseError::UnexpectedToken { expected, found })) => {
            assert_eq!(expected, TokenKind::Equals);
            assert_eq!(found.text, "b");
        }
        other => panic!("expected an unexpected-token error, got {:?}", other),
    }
}

#[test]
fn parse_rule_missing_equals() {
    match parse_rule_text(chars("a b")) {
        Err(SyntaxError::Parse(ParseError::UnexpectedToken { expected, found })) => {
            assert_eq!(expected, TokenKind::Equals);
            assert_eq!(found.text, "b");
        }
        other => panic!("expected an unexpected-token error, got {:?}", other),
    }
}

#[test]
fn round_trip_render_then_parse() {
    let examples = vec![
        sym("a"),
        fun("f", vec![]),
        fun("g", vec![sym("b"), sym("a")]),
        fun("f", vec![fun("g", vec![sym("a")]), fun("k", vec![sym("q"), fun("l", vec![sym("a")])])]),
        fun("swap", vec![fun("pair", vec![sym("x_1"), sym("Y2")])]),
    ];
    for e in examples {
        let rendered = e.render();
        assert_eq!(parse_expr_text(rendered.chars().collect()), Ok(e));
    }
}

#[test]
fn expr_clone_is_equal() {
    let e = fun("f", vec![fun("g", vec![sym("a")]), sym("b")]);
    assert_eq!(e.clone(), e);
}
