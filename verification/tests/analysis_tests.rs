use oak::analysis::{rule_duplicate, rust_functions_duplicate, DuplicateItem};
use oak::ast::{
    EvaluationContext, Expression, ExpressionNode, Grammar, RItem, Rule, Span, SpannedIdent,
};
use oak::diagnostic::{Diagnostic, Partial, Severity};
use oak::typing::top_down_unit_inference;
use oak::parser::Parser;
use oak::token::{SpannedToken, Token};

fn span(lo: usize) -> Span {
    Span { lo, hi: lo + 1 }
}

fn rule(name: &str, lo: usize, text: &str) -> Rule {
    Rule {
        name: SpannedIdent { node: name.to_string(), span: span(lo) },
        attributes: vec![],
        def: Expression {
            span: span(lo),
            node: ExpressionNode::StrLiteral(text.to_string()),
            ty: None,
            context: None,
        },
    }
}

fn empty_grammar() -> Grammar {
    Grammar {
        name: "g".to_string(),
        rules: vec![],
        rust_functions: vec![],
        rust_items: vec![],
        attributes: vec![],
    }
}

fn ritem(name: &str, lo: usize, is_fn: bool) -> RItem {
    RItem {
        name: SpannedIdent { node: name.to_string(), span: span(lo) },
        is_fn,
        text: String::new(),
    }
}

#[test]
fn duplicate_rule_keeps_first_and_reports_once() {
    let rules = vec![rule("foo", 0, "a"), rule("foo", 10, "b")];
    let mut diags: Vec<Diagnostic> = Vec::new();
    let r = rule_duplicate(empty_grammar(), rules, &mut diags);
    let g = match r {
        Partial::Fake(g) => g,
        Partial::Value(_) => panic!("duplicates must degrade the result"),
    };
    assert_eq!(g.rules.len(), 1);
    match &g.rules[0].def.node {
        ExpressionNode::StrLiteral(s) => assert_eq!(s, "a"),
        other => panic!("expected the first foo's body, got {:?}", other),
    }
    assert_eq!(diags.len(), 1);
    assert_eq!(diags[0].severity, Severity::Error);
    assert_eq!(diags[0].message, "duplicate definition of rule `foo`");
    assert_eq!(diags[0].span, span(10));
    let (prev_span, prev_msg) = diags[0].previous.clone().unwrap();
    assert_eq!(prev_span, span(0));
    assert_eq!(prev_msg, "previous definition of rule `foo` here");
}

#[test]
fn distinct_rules_are_clean() {
    let rules = vec![rule("a", 0, "x"), rule("b", 10, "y")];
    let mut diags: Vec<Diagnostic> = Vec::new();
    let r = rule_duplicate(empty_grammar(), rules, &mut diags);
    match r {
        Partial::Value(g) => assert_eq!(g.rules.len(), 2),
        Partial::Fake(_) => panic!("no duplicates, result must be clean"),
    }
    assert_eq!(diags.len(), 0);
}

#[test]
fn three_same_names_give_two_reports() {
    let rules = vec![rule("r", 0, "a"), rule("r", 10, "b"), rule("r", 20, "c")];
    let mut diags: Vec<Diagnostic> = Vec::new();
    let r = rule_duplicate(empty_grammar(), rules, &mut diags);
    let g = r.get();
    assert_eq!(g.rules.len(), 1);
    assert_eq!(diags.len(), 2);
    // both reports point back at the surviving first definition
    assert_eq!(diags[0].previous.clone().unwrap().0, span(0));
    assert_eq!(diags[1].previous.clone().unwrap().0, span(0));
}

#[test]
fn functions_are_split_from_other_items() {
    let items = vec![
        ritem("f", 0, true),
        ritem("s", 10, false),
        ritem("g", 20, true),
    ];
    let mut diags: Vec<Diagnostic> = Vec::new();
    let r = rust_functions_duplicate(empty_grammar(), items, &mut diags);
    let g = match r {
        Partial::Value(g) => g,
        Partial::Fake(_) => panic!("no duplicates, result must be clean"),
    };
    assert_eq!(g.rust_functions.len(), 2);
    assert_eq!(g.rust_functions[0].name.node, "f");
    assert_eq!(g.rust_functions[1].name.node, "g");
    assert_eq!(g.rust_items.len(), 1);
    assert_eq!(g.rust_items[0].name.node, "s");
    assert_eq!(diags.len(), 0);
}

#[test]
fn duplicate_function_names_are_reported() {
    let items = vec![ritem("f", 0, true), ritem("f", 10, true)];
    let mut diags: Vec<Diagnostic> = Vec::new();
    let r = rust_functions_duplicate(empty_grammar(), items, &mut diags);
    assert!(matches!(r, Partial::Fake(_)));
    assert_eq!(diags.len(), 1);
    assert_eq!(diags[0].message, "duplicate definition of rust function `f`");
}

#[test]
fn analyse_is_usable_on_its_own() {
    let items = vec![ritem("x", 0, true), ritem("x", 10, true), ritem("y", 20, true)];
    let mut diags: Vec<Diagnostic> = Vec::new();
    let r = DuplicateItem::analyse(items, "rust function", &mut diags);
    let kept = r.get();
    assert_eq!(kept.len(), 2);
    assert_eq!(kept[0].name.node, "x");
    assert_eq!(kept[1].name.node, "y");
    assert_eq!(diags.len(), 1);
}

fn parse(tokens: Vec<Token>) -> Grammar {
    let spanned = tokens
        .into_iter()
        .enumerate()
        .map(|(i, tok)| SpannedToken { tok, span: Span { lo: i * 10, hi: i * 10 + 5 } })
        .collect();
    let mut p = Parser::new(spanned, "g".to_string());
    p.parse_grammar().unwrap()
}

fn ident(s: &str) -> Token {
    Token::Ident(s.to_string())
}

fn lit(s: &str) -> Token {
    Token::StrLit(s.to_string())
}

#[test]
fn rule_body_starts_in_context_both() {
    // r = "a"
    let mut g = parse(vec![ident("r"), Token::Eq, lit("a")]);
    top_down_unit_inference(&mut g);
    assert_eq!(g.rules[0].def.context, Some(EvaluationContext::Both));
}

#[test]
fn predicate_operand_is_unvalued() {
    // r = &"a" "b"
    let mut g = parse(vec![ident("r"), Token::Eq, Token::And, lit("a"), lit("b")]);
    top_down_unit_inference(&mut g);
    match &g.rules[0].def.node {
        ExpressionNode::Sequence(es) => {
            match &es[0].node {
                ExpressionNode::AndPredicate(inner) => {
                    assert_eq!(inner.context, Some(EvaluationContext::UnValued));
                },
                other => panic!("expected and-predicate, got {:?}", other),
            }
            // the predicate node itself keeps the surrounding context
            assert_eq!(es[0].context, Some(EvaluationContext::Both));
            assert_eq!(es[1].context, Some(EvaluationContext::Both));
        },
        other => panic!("expected sequence, got {:?}", other),
    }
}

#[test]
fn unit_annotation_downgrades_children() {
    // r = ("a" "b") -> ()
    let mut g = parse(vec![
        ident("r"),
        Token::Eq,
        Token::LParen,
        lit("a"),
        lit("b"),
        Token::RParen,
        Token::RArrow,
        Token::LParen,
        Token::RParen,
    ]);
    top_down_unit_inference(&mut g);
    let def = &g.rules[0].def;
    assert_eq!(def.context, Some(EvaluationContext::Both));
    match &def.node {
        ExpressionNode::Sequence(es) => match &es[0].node {
            ExpressionNode::Sequence(inner) => {
                assert_eq!(inner.len(), 2);
                assert_eq!(inner[0].context, Some(EvaluationContext::UnValued));
                assert_eq!(inner[1].context, Some(EvaluationContext::UnValued));
            },
            other => panic!("expected inner sequence, got {:?}", other),
        },
        other => panic!("expected sequence, got {:?}", other),
    }
}

#[test]
fn inference_twice_changes_nothing() {
    let tokens = || {
        vec![
            ident("r"),
            Token::Eq,
            Token::Not,
            lit("a"),
            ident("s"),
            Token::Star,
            Token::Slash,
            lit("b"),
            Token::Gt,
            ident("f"),
        ]
    };
    let mut once = parse(tokens());
    top_down_unit_inference(&mut once);
    let mut twice = parse(tokens());
    top_down_unit_inference(&mut twice);
    top_down_unit_inference(&mut twice);
    assert_eq!(once, twice);
}

#[test]
fn inference_keeps_everything_but_contexts() {
    let mut g = parse(vec![ident("r"), Token::Eq, lit("a"), Token::Gt, ident("f")]);
    let name_before = g.rules[0].name.clone();
    top_down_unit_inference(&mut g);
    assert_eq!(g.rules[0].name, name_before);
    match &g.rules[0].def.node {
        ExpressionNode::SemanticAction(_, f) => assert_eq!(f, "f"),
        other => panic!("expected semantic action, got {:?}", other),
    }
}

#[test]
fn invisible_annotation_downgrades_children() {
    // r = "a" -> (^)
    let mut g = parse(vec![
        ident("r"),
        Token::Eq,
        lit("a"),
        Token::RArrow,
        Token::LParen,
        Token::Caret,
        Token::RParen,
    ]);
    top_down_unit_inference(&mut g);
    let def = &g.rules[0].def;
    assert_eq!(def.context, Some(EvaluationContext::Both));
    match &def.node {
        ExpressionNode::Sequence(es) => {
            assert_eq!(es[0].context, Some(EvaluationContext::UnValued));
        },
        other => panic!("expected sequence, got {:?}", other),
    }
}
