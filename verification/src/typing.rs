//! Evaluation-context inference: a top-down pass that annotates every
//! expression of every rule with whether its match result is required
//! (`Value`), discardable (`UnValued`), or both. Context flows from the root
//! of each rule downward; it never crosses a rule-call boundary, and each
//! rule body starts from the conservative context `Both` because a rule may
//! be invoked both by callers that need its value and by callers that do not.

use vstd::prelude::*;
use crate::ast::{EvaluationContext, Expression, ExpressionNode, Grammar, Rule, TypeAnnotation};

verus! {

broadcast use vstd::std_specs::vec::group_vec_axioms;

/// The context stored on a node after merging the incoming context into what
/// the node already carried (an unset context simply takes the incoming one).
pub open spec fn merged_context(
    stored: Option<EvaluationContext>,
    ctx: EvaluationContext,
) -> EvaluationContext {
    match stored {
        None => ctx,
        Some(c) => c.spec_merge(ctx),
    }
}

/// Exactly how one inference step annotates `e` into `r` under incoming
/// context `ctx`: the span, annotation and payload shape are kept; the stored
/// context becomes the join of the old one with `ctx`; children are visited
/// with `ctx` unless this node is unit-annotated, in which case they are
/// visited with `UnValued`; predicate operands are always visited with
/// `UnValued`, whatever the context here.
pub open spec fn inferred(e: Expression, r: Expression, ctx: EvaluationContext) -> bool
    decreases e,
{
    &&& r.span == e.span
    &&& r.ty == e.ty
    &&& r.context == Some(merged_context(e.context, ctx))
    &&& {
        let child_ctx = if e.spec_is_unit() {
            EvaluationContext::UnValued
        } else {
            ctx
        };
        inferred_node(e.node, r.node, child_ctx)
    }
}

/// The structural part of `inferred`, on the expression payload; `ctx` is the
/// context the children of this node are to be visited with.
pub open spec fn inferred_node(n: ExpressionNode, rn: ExpressionNode, ctx: EvaluationContext) -> bool
    decreases n,
{
    match (n, rn) {
        (ExpressionNode::Sequence(a), ExpressionNode::Sequence(b)) => inferred_seq(a@, b@, ctx),
        (ExpressionNode::Choice(a), ExpressionNode::Choice(b)) => inferred_seq(a@, b@, ctx),
        (ExpressionNode::ZeroOrMore(a), ExpressionNode::ZeroOrMore(b)) => inferred(*a, *b, ctx),
        (ExpressionNode::OneOrMore(a), ExpressionNode::OneOrMore(b)) => inferred(*a, *b, ctx),
        (ExpressionNode::Optional(a), ExpressionNode::Optional(b)) => inferred(*a, *b, ctx),
        (ExpressionNode::SemanticAction(a, fa), ExpressionNode::SemanticAction(b, fb)) => {
            fb@ == fa@ && inferred(*a, *b, ctx)
        },
        (ExpressionNode::NotPredicate(a), ExpressionNode::NotPredicate(b)) => {
            inferred(*a, *b, EvaluationContext::UnValued)
        },
        (ExpressionNode::AndPredicate(a), ExpressionNode::AndPredicate(b)) => {
            inferred(*a, *b, EvaluationContext::UnValued)
        },
        (ExpressionNode::StrLiteral(s), ExpressionNode::StrLiteral(t)) => t@ == s@,
        (ExpressionNode::AnySingleChar, ExpressionNode::AnySingleChar) => true,
        (ExpressionNode::NonTerminalSymbol(s), ExpressionNode::NonTerminalSymbol(t)) => t@ == s@,
        (ExpressionNode::CharacterClass(a), ExpressionNode::CharacterClass(b)) => b@ == a@,
        _ => false,
    }
}

/// Children annotated element by element, all under the same context.
pub open spec fn inferred_seq(a: Seq<Expression>, b: Seq<Expression>, ctx: EvaluationContext) -> bool
    decreases a,
{
    if a.len() == 0 {
        b.len() == 0
    } else {
        &&& b.len() == a.len()
        &&& inferred(a[0], b[0], ctx)
        &&& inferred_seq(a.drop_first(), b.drop_first(), ctx)
    }
}

/// Children that are annotated pointwise are annotated as a sequence.
proof fn lemma_inferred_seq_intro(a: Seq<Expression>, b: Seq<Expression>, ctx: EvaluationContext)
    requires
        b.len() == a.len(),
        forall|i: int| 0 <= i < a.len() ==> #[trigger] inferred(a[i], b[i], ctx),
    ensures
        inferred_seq(a, b, ctx),
    decreases a.len(),
{
    if a.len() > 0 {
        assert(inferred(a[0], b[0], ctx));
        let a1 = a.drop_first();
        let b1 = b.drop_first();
        assert forall|i: int| 0 <= i < a1.len() implies #[trigger] inferred(a1[i], b1[i], ctx) by {
            assert(a1[i] == a[i + 1]);
            assert(b1[i] == b[i + 1]);
            assert(inferred(a[i + 1], b[i + 1], ctx));
        }
        lemma_inferred_seq_intro(a1, b1, ctx);
    }
}

/// Children annotated as a sequence are annotated pointwise.
pub proof fn lemma_inferred_seq_elim(a: Seq<Expression>, b: Seq<Expression>, ctx: EvaluationContext)
    requires
        inferred_seq(a, b, ctx),
    ensures
        b.len() == a.len(),
        forall|i: int| 0 <= i < a.len() ==> #[trigger] inferred(a[i], b[i], ctx),
    decreases a.len(),
{
    if a.len() > 0 {
        let a1 = a.drop_first();
        let b1 = b.drop_first();
        lemma_inferred_seq_elim(a1, b1, ctx);
        assert forall|i: int| 0 <= i < a.len() implies #[trigger] inferred(a[i], b[i], ctx) by {
            if i > 0 {
                assert(inferred(a1[i - 1], b1[i - 1], ctx));
                assert(a1[i - 1] == a[i]);
                assert(b1[i - 1] == b[i]);
            }
        }
    }
}

/// A rule after inference: same name and attributes, body annotated from the
/// starting context `Both`.
pub open spec fn rule_inferred(r0: Rule, r1: Rule) -> bool {
    &&& r1.name == r0.name
    &&& r1.attributes == r0.attributes
    &&& inferred(r0.def, r1.def, EvaluationContext::Both)
}

fn visit_expr(e: Expression, context: EvaluationContext) -> (r: Expression)
    ensures
        inferred(e, r, context),
    decreases e,
{
    let ghost e0 = e;
    let Expression { span, node, ty, context: stored } = e;
    let merged = match stored {
        None => context,
        Some(c) => c.merge(context),
    };
    let child_ctx = match ty {
        Some(TypeAnnotation::Unit) => EvaluationContext::UnValued,
        Some(TypeAnnotation::Invisible) => EvaluationContext::UnValued,
        None => context,
    };
    assert(child_ctx == if e0.spec_is_unit() {
        EvaluationContext::UnValued
    } else {
        context
    });
    assert(decreases_to!(e0 => node));
    let new_node = visit_expr_node(node, child_ctx);
    Expression { span, node: new_node, ty, context: Some(merged) }
}

fn visit_expr_node(n: ExpressionNode, context: EvaluationContext) -> (rn: ExpressionNode)
    ensures
        inferred_node(n, rn, context),
    decreases n,
{
    let ghost n0 = n;
    match n {
        ExpressionNode::Sequence(exprs) => {
            assert(decreases_to!(n0 => exprs));
            let ghost a0 = exprs;
            let out = visit_exprs(exprs, context);
            let result = ExpressionNode::Sequence(out);
            proof {
                lemma_inferred_seq_intro(a0@, out@, context);
            }
            result
        },
        ExpressionNode::Choice(exprs) => {
            assert(decreases_to!(n0 => exprs));
            let ghost a0 = exprs;
            let out = visit_exprs(exprs, context);
            let result = ExpressionNode::Choice(out);
            proof {
                lemma_inferred_seq_intro(a0@, out@, context);
            }
            result
        },
        ExpressionNode::ZeroOrMore(e) => {
            ExpressionNode::ZeroOrMore(Box::new(visit_expr(*e, context)))
        },
        ExpressionNode::OneOrMore(e) => {
            ExpressionNode::OneOrMore(Box::new(visit_expr(*e, context)))
        },
        ExpressionNode::Optional(e) => {
            ExpressionNode::Optional(Box::new(visit_expr(*e, context)))
        },
        ExpressionNode::SemanticAction(e, fun) => {
            ExpressionNode::SemanticAction(Box::new(visit_expr(*e, context)), fun)
        },
        ExpressionNode::NotPredicate(e) => {
            ExpressionNode::NotPredicate(
                Box::new(visit_expr(*e, EvaluationContext::UnValued)),
            )
        },
        ExpressionNode::AndPredicate(e) => {
            ExpressionNode::AndPredicate(
                Box::new(visit_expr(*e, EvaluationContext::UnValued)),
            )
        },
        other => other,
    }
}

#[verifier::loop_isolation(false)]
fn visit_exprs(exprs: Vec<Expression>, context: EvaluationContext) -> (r: Vec<Expression>)
    ensures
        r@.len() == exprs@.len(),
        forall|i: int| 0 <= i < exprs@.len() ==> #[trigger] inferred(exprs@[i], r@[i], context),
    decreases exprs,
{
    let ghost v0 = exprs;
    let ghost orig = exprs@;
    let mut rest = exprs;
    let mut out: Vec<Expression> = Vec::new();
    while rest.len() > 0
        invariant
            out@.len() + rest@.len() == orig.len(),
            rest@ == orig.subrange(out@.len() as int, orig.len() as int),
            forall|i: int| 0 <= i < out@.len() ==> #[trigger] inferred(orig[i], out@[i], context),
        decreases rest@.len(),
    {
        let ghost k = out@.len() as int;
        let e = rest.remove(0);
        assert(e == orig[k]);
        proof {
            assert(v0@ == orig);
            assert(0 <= k < v0.len());
            vstd::std_specs::vec::axiom_vec_index_decreases::<Expression>(v0, k);
        }
        let v = visit_expr(e, context);
        out.push(v);
        assert(rest@ =~= orig.subrange(out@.len() as int, orig.len() as int));
    }
    assert(out@.len() == orig.len());
    out
}

fn visit_rule(rule: Rule) -> (r: Rule)
    ensures
        rule_inferred(rule, r),
{
    let Rule { name, attributes, def } = rule;
    Rule { name, attributes, def: visit_expr(def, EvaluationContext::Both) }
}

#[verifier::loop_isolation(false)]
fn visit_rules(rules: &mut Vec<Rule>)
    ensures
        final(rules)@.len() == old(rules)@.len(),
        forall|i: int| 0 <= i < old(rules)@.len()
            ==> #[trigger] rule_inferred(old(rules)@[i], final(rules)@[i]),
{
    let ghost orig = rules@;
    let mut out: Vec<Rule> = Vec::new();
    while rules.len() > 0
        invariant
            out@.len() + rules@.len() == orig.len(),
            rules@ == orig.subrange(out@.len() as int, orig.len() as int),
            forall|i: int| 0 <= i < out@.len() ==> #[trigger] rule_inferred(orig[i], out@[i]),
        decreases rules@.len(),
    {
        let r = rules.remove(0);
        let v = visit_rule(r);
        out.push(v);
        assert(rules@ =~= orig.subrange(out@.len() as int, orig.len() as int));
    }
    *rules = out;
}

/// Annotates every rule body of the grammar, each from the starting context
/// `Both`; everything else in the grammar is left untouched.
pub fn top_down_unit_inference(grammar: &mut Grammar)
    ensures
        final(grammar).name == old(grammar).name,
        final(grammar).rust_functions == old(grammar).rust_functions,
        final(grammar).rust_items == old(grammar).rust_items,
        final(grammar).attributes == old(grammar).attributes,
        final(grammar).rules@.len() == old(grammar).rules@.len(),
        forall|i: int| 0 <= i < old(grammar).rules@.len()
            ==> #[trigger] rule_inferred(old(grammar).rules@[i], final(grammar).rules@[i]),
{
    visit_rules(&mut grammar.rules);
}

/// Context inference is idempotent: a tree that already carries the
/// annotations of one inference run is reproduced unchanged, node for node,
/// by a second run under the same incoming context.
pub proof fn lemma_inference_idempotent(e: Expression, r: Expression, ctx: EvaluationContext)
    requires
        inferred(e, r, ctx),
    ensures
        inferred(r, r, ctx),
    decreases e,
{
    lemma_merge_absorb(e.context, ctx);
    lemma_inference_idempotent_node(
        e.node,
        r.node,
        if e.spec_is_unit() {
            EvaluationContext::UnValued
        } else {
            ctx
        },
    );
}

/// The payload half of the idempotence argument.
proof fn lemma_inference_idempotent_node(n: ExpressionNode, rn: ExpressionNode, ctx: EvaluationContext)
    requires
        inferred_node(n, rn, ctx),
    ensures
        inferred_node(rn, rn, ctx),
    decreases n,
{
    match (n, rn) {
        (ExpressionNode::Sequence(a), ExpressionNode::Sequence(b)) => {
            lemma_inference_idempotent_seq(a@, b@, ctx);
        },
        (ExpressionNode::Choice(a), ExpressionNode::Choice(b)) => {
            lemma_inference_idempotent_seq(a@, b@, ctx);
        },
        (ExpressionNode::ZeroOrMore(a), ExpressionNode::ZeroOrMore(b)) => {
            lemma_inference_idempotent(*a, *b, ctx);
        },
        (ExpressionNode::OneOrMore(a), ExpressionNode::OneOrMore(b)) => {
            lemma_inference_idempotent(*a, *b, ctx);
        },
        (ExpressionNode::Optional(a), ExpressionNode::Optional(b)) => {
            lemma_inference_idempotent(*a, *b, ctx);
        },
        (ExpressionNode::SemanticAction(a, _), ExpressionNode::SemanticAction(b, _)) => {
            lemma_inference_idempotent(*a, *b, ctx);
        },
        (ExpressionNode::NotPredicate(a), ExpressionNode::NotPredicate(b)) => {
            lemma_inference_idempotent(*a, *b, EvaluationContext::UnValued);
        },
        (ExpressionNode::AndPredicate(a), ExpressionNode::AndPredicate(b)) => {
            lemma_inference_idempotent(*a, *b, EvaluationContext::UnValued);
        },
        _ => {},
    }
}

/// The sequence half of the idempotence argument.
proof fn lemma_inference_idempotent_seq(a: Seq<Expression>, b: Seq<Expression>, ctx: EvaluationContext)
    requires
        inferred_seq(a, b, ctx),
    ensures
        inferred_seq(b, b, ctx),
    decreases a,
{
    if a.len() > 0 {
        lemma_inference_idempotent(a[0], b[0], ctx);
        lemma_inference_idempotent_seq(a.drop_first(), b.drop_first(), ctx);
    }
}

/// Merging a context into a node twice is the same as merging it once: the
/// stored context after a merge absorbs any further merge of the same input.
proof fn lemma_merge_absorb(stored: Option<EvaluationContext>, ctx: EvaluationContext)
    ensures
        merged_context(Some(merged_context(stored, ctx)), ctx) == merged_context(stored, ctx),
{
}

} // verus!

