use oak::ast::{CharacterInterval, Expression, ExpressionNode, Grammar, Span, TypeAnnotation};
use oak::diagnostic::{Diagnostic, Severity};
use oak::parser::Parser;
use oak::token::{SpannedToken, Token};

fn stream(tokens: Vec<Token>) -> Vec<SpannedToken> {
    tokens
        .into_iter()
        .enumerate()
        .map(|(i, tok)| SpannedToken { tok, span: Span { lo: i * 10, hi: i * 10 + 5 } })
        .collect()
}

fn ident(s: &str) -> Token {
    Token::Ident(s.to_string())
}

fn lit(s: &str) -> Token {
    Token::StrLit(s.to_string())
}

fn parse(tokens: Vec<Token>) -> (Result<Grammar, Diagnostic>, Vec<Diagnostic>) {
    let mut p = Parser::new(stream(tokens), "g".to_string());
    let r = p.parse_grammar();
    (r, p.diagnostics)
}

fn str_node(e: &Expression, expected: &str) {
    match &e.node {
        ExpressionNode::StrLiteral(s) => assert_eq!(s, expected),
        other => panic!("expected string literal, got {:?}", other),
    }
}

#[test]
fn choice_binds_looser_than_sequence() {
    // "a" "b" / "c"
    let (r, diags) = parse(vec![ident("r"), Token::Eq, lit("a"), lit("b"), Token::Slash, lit("c")]);
    let g = r.unwrap();
    assert_eq!(diags.len(), 0);
    assert_eq!(g.rules.len(), 1);
    match &g.rules[0].def.node {
        ExpressionNode::Choice(alts) => {
            assert_eq!(alts.len(), 2);
            match &alts[0].node {
                ExpressionNode::Sequence(es) => {
                    assert_eq!(es.len(), 2);
                    str_node(&es[0], "a");
                    str_node(&es[1], "b");
                },
                other => panic!("expected sequence, got {:?}", other),
            }
            match &alts[1].node {
                ExpressionNode::Sequence(es) => {
                    assert_eq!(es.len(), 1);
                    str_node(&es[0], "c");
                },
                other => panic!("expected sequence, got {:?}", other),
            }
        },
        other => panic!("expected choice, got {:?}", other),
    }
}

#[test]
fn predicate_at_end_of_input_is_fatal() {
    // r = !
    let (r, _) = parse(vec![ident("r"), Token::Eq, Token::Not]);
    let d = r.unwrap_err();
    assert_eq!(d.severity, Severity::Fatal);
}

#[test]
fn and_predicate_at_end_of_input_is_fatal() {
    let (r, _) = parse(vec![ident("r"), Token::Eq, Token::And]);
    assert_eq!(r.unwrap_err().severity, Severity::Fatal);
}

#[test]
fn rule_boundary_lookahead_stops_sequence() {
    // r1 = "a" r2 = "b"
    let (r, diags) = parse(vec![
        ident("r1"),
        Token::Eq,
        lit("a"),
        ident("r2"),
        Token::Eq,
        lit("b"),
    ]);
    let g = r.unwrap();
    assert_eq!(diags.len(), 0);
    assert_eq!(g.rules.len(), 2);
    assert_eq!(g.rules[0].name.node, "r1");
    assert_eq!(g.rules[1].name.node, "r2");
    match &g.rules[0].def.node {
        ExpressionNode::Sequence(es) => {
            assert_eq!(es.len(), 1);
            str_node(&es[0], "a");
        },
        other => panic!("expected sequence, got {:?}", other),
    }
}

#[test]
fn empty_sequence_recovers_with_one_error() {
    // r = / "a"
    let (r, diags) = parse(vec![ident("r"), Token::Eq, Token::Slash, lit("a")]);
    let g = r.unwrap();
    assert_eq!(diags.len(), 1);
    assert_eq!(diags[0].severity, Severity::Error);
    assert_eq!(diags[0].message, "In rule r: must define at least one expression.");
    match &g.rules[0].def.node {
        ExpressionNode::Choice(alts) => {
            assert_eq!(alts.len(), 2);
            match &alts[0].node {
                ExpressionNode::Sequence(es) => assert_eq!(es.len(), 0),
                other => panic!("expected empty sequence, got {:?}", other),
            }
        },
        other => panic!("expected choice, got {:?}", other),
    }
}

fn class_of(body: &str) -> (Vec<CharacterInterval>, Vec<Diagnostic>) {
    let (r, diags) = parse(vec![ident("r"), Token::Eq, Token::LBracket, lit(body), Token::RBracket]);
    let g = r.unwrap();
    match &g.rules[0].def.node {
        ExpressionNode::Sequence(es) => match &es[0].node {
            ExpressionNode::CharacterClass(ivs) => (ivs.clone(), diags),
            other => panic!("expected character class, got {:?}", other),
        },
        other => panic!("expected sequence, got {:?}", other),
    }
}

fn iv(lo: char, hi: char) -> CharacterInterval {
    CharacterInterval { lo, hi }
}

#[test]
fn char_class_simple_range() {
    let (ivs, diags) = class_of("a-z");
    assert_eq!(ivs, vec![iv('a', 'z')]);
    assert_eq!(diags.len(), 0);
}

#[test]
fn char_class_two_ranges() {
    let (ivs, diags) = class_of("a-z0-9");
    assert_eq!(ivs, vec![iv('a', 'z'), iv('0', '9')]);
    assert_eq!(diags.len(), 0);
}

#[test]
fn char_class_leading_dash_is_literal() {
    let (ivs, diags) = class_of("-az");
    assert_eq!(ivs, vec![iv('-', '-'), iv('a', 'a'), iv('z', 'z')]);
    assert_eq!(diags.len(), 0);
}

#[test]
fn char_class_trailing_dash_is_literal() {
    let (ivs, diags) = class_of("a-");
    assert_eq!(ivs, vec![iv('a', 'a'), iv('-', '-')]);
    assert_eq!(diags.len(), 0);
}

#[test]
fn char_class_double_dash_reports_and_stops() {
    let (ivs, diags) = class_of("a--");
    assert_eq!(ivs, vec![]);
    assert_eq!(diags.len(), 1);
    assert_eq!(diags[0].severity, Severity::Error);
}

#[test]
fn char_class_keeps_intervals_before_malformed_separator() {
    let (ivs, diags) = class_of("a-z--");
    assert_eq!(ivs, vec![iv('a', 'z')]);
    assert_eq!(diags.len(), 1);
}

#[test]
fn char_class_single_char() {
    let (ivs, diags) = class_of("x");
    assert_eq!(ivs, vec![iv('x', 'x')]);
    assert_eq!(diags.len(), 0);
}

#[test]
fn char_class_leading_dash_then_trailing_dash() {
    let (ivs, diags) = class_of("-a-");
    assert_eq!(ivs, vec![iv('-', '-'), iv('a', 'a'), iv('-', '-')]);
    assert_eq!(diags.len(), 0);
}

#[test]
fn char_class_empty_body_has_no_intervals() {
    let (ivs, diags) = class_of("");
    assert_eq!(ivs, vec![]);
    assert_eq!(diags.len(), 0);
}

#[test]
fn char_class_unterminated_is_fatal() {
    let (r, _) = parse(vec![ident("r"), Token::Eq, Token::LBracket, lit("a-z")]);
    assert_eq!(r.unwrap_err().severity, Severity::Fatal);
}

#[test]
fn char_class_without_literal_is_fatal() {
    let (r, _) = parse(vec![ident("r"), Token::Eq, Token::LBracket, Token::Dot, Token::RBracket]);
    assert_eq!(r.unwrap_err().severity, Severity::Fatal);
}

#[test]
fn suffix_operators_wrap_atoms() {
    // r = "a"* "b"+ "c"? .
    let (r, diags) = parse(vec![
        ident("r"),
        Token::Eq,
        lit("a"),
        Token::Star,
        lit("b"),
        Token::Plus,
        lit("c"),
        Token::Question,
        Token::Dot,
    ]);
    let g = r.unwrap();
    assert_eq!(diags.len(), 0);
    match &g.rules[0].def.node {
        ExpressionNode::Sequence(es) => {
            assert_eq!(es.len(), 4);
            assert!(matches!(es[0].node, ExpressionNode::ZeroOrMore(_)));
            assert!(matches!(es[1].node, ExpressionNode::OneOrMore(_)));
            assert!(matches!(es[2].node, ExpressionNode::Optional(_)));
            assert!(matches!(es[3].node, ExpressionNode::AnySingleChar));
        },
        other => panic!("expected sequence, got {:?}", other),
    }
}

#[test]
fn nonterminal_reference_parses() {
    // r = other
    let (r, _) = parse(vec![ident("r"), Token::Eq, ident("other")]);
    let g = r.unwrap();
    match &g.rules[0].def.node {
        ExpressionNode::Sequence(es) => match &es[0].node {
            ExpressionNode::NonTerminalSymbol(n) => assert_eq!(n, "other"),
            other => panic!("expected nonterminal, got {:?}", other),
        },
        other => panic!("expected sequence, got {:?}", other),
    }
}

#[test]
fn semantic_action_attaches_to_alternative() {
    // r = "a" > f
    let (r, _) = parse(vec![ident("r"), Token::Eq, lit("a"), Token::Gt, ident("f")]);
    let g = r.unwrap();
    match &g.rules[0].def.node {
        ExpressionNode::SemanticAction(inner, name) => {
            assert_eq!(name, "f");
            assert!(matches!(inner.node, ExpressionNode::Sequence(_)));
        },
        other => panic!("expected semantic action, got {:?}", other),
    }
}

#[test]
fn unit_annotation_sets_type() {
    // r = "a" -> ()
    let (r, diags) = parse(vec![
        ident("r"),
        Token::Eq,
        lit("a"),
        Token::RArrow,
        Token::LParen,
        Token::RParen,
    ]);
    let g = r.unwrap();
    assert_eq!(diags.len(), 0);
    assert_eq!(g.rules[0].def.ty, Some(TypeAnnotation::Unit));
}

#[test]
fn invisible_annotation_sets_type() {
    // r = "a" -> (^)
    let (r, diags) = parse(vec![
        ident("r"),
        Token::Eq,
        lit("a"),
        Token::RArrow,
        Token::LParen,
        Token::Caret,
        Token::RParen,
    ]);
    let g = r.unwrap();
    assert_eq!(diags.len(), 0);
    assert_eq!(g.rules[0].def.ty, Some(TypeAnnotation::Invisible));
}

#[test]
fn bad_token_after_arrow_is_nonfatal() {
    // r = "a" -> / "b"  : the annotation stays unset, one error is recorded,
    // and parsing continues with the second alternative.
    let (r, diags) = parse(vec![
        ident("r"),
        Token::Eq,
        lit("a"),
        Token::RArrow,
        Token::Slash,
        lit("b"),
    ]);
    let g = r.unwrap();
    match &g.rules[0].def.node {
        ExpressionNode::Choice(alts) => {
            assert_eq!(alts.len(), 2);
            assert_eq!(alts[0].ty, None);
        },
        other => panic!("expected choice, got {:?}", other),
    }
    assert_eq!(diags.len(), 1);
    assert_eq!(
        diags[0].message,
        "In rule r: Unknown token after `->`. Use the arrow to annotate an expression with the unit type `()` or the invisible type `(^)`."
    );
}

#[test]
fn parenthesized_group_reenters_choice() {
    // r = ("a" / "b") "c"
    let (r, diags) = parse(vec![
        ident("r"),
        Token::Eq,
        Token::LParen,
        lit("a"),
        Token::Slash,
        lit("b"),
        Token::RParen,
        lit("c"),
    ]);
    let g = r.unwrap();
    assert_eq!(diags.len(), 0);
    match &g.rules[0].def.node {
        ExpressionNode::Sequence(es) => {
            assert_eq!(es.len(), 2);
            assert!(matches!(es[0].node, ExpressionNode::Choice(_)));
            str_node(&es[1], "c");
        },
        other => panic!("expected sequence, got {:?}", other),
    }
}

#[test]
fn predicate_wraps_following_expression() {
    // r = !"a" .
    let (r, _) = parse(vec![ident("r"), Token::Eq, Token::Not, lit("a"), Token::Dot]);
    let g = r.unwrap();
    match &g.rules[0].def.node {
        ExpressionNode::Sequence(es) => {
            assert_eq!(es.len(), 2);
            match &es[0].node {
                ExpressionNode::NotPredicate(inner) => str_node(inner, "a"),
                other => panic!("expected not-predicate, got {:?}", other),
            }
        },
        other => panic!("expected sequence, got {:?}", other),
    }
}

#[test]
fn host_items_and_attributes_pass_through() {
    let host = oak::ast::RItem {
        name: oak::ast::SpannedIdent { node: "helper".to_string(), span: Span { lo: 0, hi: 1 } },
        is_fn: true,
        text: "fn helper() {}".to_string(),
    };
    let (r, diags) = parse(vec![
        Token::InnerAttr("grammar_attr".to_string()),
        Token::HostItem(host.clone()),
        ident("r"),
        Token::Eq,
        lit("a"),
    ]);
    let g = r.unwrap();
    assert_eq!(diags.len(), 0);
    assert_eq!(g.attributes, vec!["grammar_attr".to_string()]);
    assert_eq!(g.rust_items, vec![host]);
    assert_eq!(g.rules.len(), 1);
    assert_eq!(g.name, "g");
}

#[test]
fn malformed_annotation_parenthesis_is_fatal() {
    // r = "a" -> (x
    let (r, _) = parse(vec![
        ident("r"),
        Token::Eq,
        lit("a"),
        Token::RArrow,
        Token::LParen,
        ident("x"),
    ]);
    assert_eq!(r.unwrap_err().severity, Severity::Fatal);
}

#[test]
fn suffix_applies_to_character_class() {
    // r = ["0-9"]+
    let (r, diags) = parse(vec![
        ident("r"),
        Token::Eq,
        Token::LBracket,
        lit("0-9"),
        Token::RBracket,
        Token::Plus,
    ]);
    let g = r.unwrap();
    assert_eq!(diags.len(), 0);
    match &g.rules[0].def.node {
        ExpressionNode::Sequence(es) => match &es[0].node {
            ExpressionNode::OneOrMore(inner) => match &inner.node {
                ExpressionNode::CharacterClass(ivs) => {
                    assert_eq!(ivs, &vec![iv('0', '9')]);
                },
                other => panic!("expected character class, got {:?}", other),
            },
            other => panic!("expected one-or-more, got {:?}", other),
        },
        other => panic!("expected sequence, got {:?}", other),
    }
}

#[test]
fn outer_attributes_attach_to_rule() {
    let (r, diags) = parse(vec![
        Token::OuterAttr("inline_attr".to_string()),
        ident("r"),
        Token::Eq,
        lit("a"),
    ]);
    let g = r.unwrap();
    assert_eq!(diags.len(), 0);
    assert_eq!(g.rules[0].attributes, vec!["inline_attr".to_string()]);
}
