//! The grammar syntax tree: rules over expressions built from literals,
//! character classes, sequencing, ordered choice, repetition, predicates and
//! semantic actions.

use vstd::prelude::*;

verus! {

/// A source location supplied by the host lexer: an inclusive-exclusive
/// offset range into the grammar source text.
#[derive(Clone, Copy, Debug, PartialEq, Eq, Structural)]
pub struct Span {
    pub lo: usize,
    pub hi: usize,
}

/// An identifier together with the source location it was written at.
#[derive(Clone, Debug, PartialEq, Eq)]
pub struct SpannedIdent {
    pub node: String,
    pub span: Span,
}

/// An explicit type annotation on an expression: `()` discards the match,
/// `(^)` discards it and hides it from an enclosing sequence's value tuple.
#[derive(Clone, Copy, Debug, PartialEq, Eq, Structural)]
pub enum TypeAnnotation {
    Unit,
    Invisible,
}

/// Whether an expression's match result is required, discardable, or both.
/// The three points form a join-semilattice with `Both` on top.
#[derive(Clone, Copy, Debug, PartialEq, Eq, Structural)]
pub enum EvaluationContext {
    Value,
    UnValued,
    Both,
}

impl EvaluationContext {
    /// The join of two contexts: equal contexts keep their value, distinct
    /// contexts meet at the top element `Both`.
    pub open spec fn spec_merge(self, other: EvaluationContext) -> EvaluationContext {
        if self == other {
            self
        } else {
            EvaluationContext::Both
        }
    }

    pub fn merge(self, other: EvaluationContext) -> (r: EvaluationContext)
        ensures
            r == self.spec_merge(other),
    {
        if self == other {
            self
        } else {
            EvaluationContext::Both
        }
    }
}

/// An inclusive character range inside a character class; `lo == hi` stands
/// for a single character.
#[derive(Clone, Copy, Debug, PartialEq, Eq, Structural)]
pub struct CharacterInterval {
    pub lo: char,
    pub hi: char,
}

/// The payload of an expression: the closed set of grammar operators.
#[derive(Debug, PartialEq, Eq)]
pub enum ExpressionNode {
    /// A string literal to match, escapes already resolved by the host lexer.
    StrLiteral(String),
    /// `.`: matches any single character.
    AnySingleChar,
    /// A reference to another rule by name.
    NonTerminalSymbol(String),
    /// `["a-z"]`: an ordered list of inclusive character intervals.
    CharacterClass(Vec<CharacterInterval>),
    /// Juxtaposition: every child must match in order.
    Sequence(Vec<Expression>),
    /// `/`-separated ordered alternatives: the first success wins.
    Choice(Vec<Expression>),
    /// `e*`
    ZeroOrMore(Box<Expression>),
    /// `e+`
    OneOrMore(Box<Expression>),
    /// `e?`
    Optional(Box<Expression>),
    /// `!e`: negative lookahead, consumes nothing, produces no value.
    NotPredicate(Box<Expression>),
    /// `&e`: positive lookahead, consumes nothing, produces no value.
    AndPredicate(Box<Expression>),
    /// `e > f`: runs host function `f` on the child's value on success.
    SemanticAction(Box<Expression>, String),
}

/// A node of the grammar syntax tree: a payload, the source span it covers,
/// an optional explicit type annotation, and the evaluation context filled in
/// by the inference pass (unset until then).
#[derive(Debug, PartialEq, Eq)]
pub struct Expression {
    pub span: Span,
    pub node: ExpressionNode,
    pub ty: Option<TypeAnnotation>,
    pub context: Option<EvaluationContext>,
}

impl Expression {
    /// An expression is intrinsically unit-typed when its explicit annotation
    /// says the match produces no value.
    pub open spec fn spec_is_unit(self) -> bool {
        self.ty == Some(TypeAnnotation::Unit) || self.ty == Some(TypeAnnotation::Invisible)
    }

    pub fn is_unit(&self) -> (b: bool)
        ensures
            b == self.spec_is_unit(),
    {
        match self.ty {
            Some(TypeAnnotation::Unit) => true,
            Some(TypeAnnotation::Invisible) => true,
            None => false,
        }
    }
}

/// Builds a bare expression covering offsets `lo..hi`, with no annotation and
/// no evaluation context yet.
pub fn spanned_expr(lo: usize, hi: usize, node: ExpressionNode) -> (e: Expression)
    ensures
        e.span == (Span { lo, hi }),
        e.node == node,
        e.ty is None,
        e.context is None,
{
    Expression { span: Span { lo, hi }, node, ty: None, context: None }
}

/// Builds a bare expression covering a given span.
pub fn respan_expr(span: Span, node: ExpressionNode) -> (e: Expression)
    ensures
        e.span == span,
        e.node == node,
        e.ty is None,
        e.context is None,
{
    Expression { span, node, ty: None, context: None }
}

/// A named grammar production: `name = body`.
#[derive(Debug, PartialEq, Eq)]
pub struct Rule {
    pub name: SpannedIdent,
    pub attributes: Vec<String>,
    pub def: Expression,
}

/// A host-language item interleaved with the rules and passed through
/// verbatim; only its name, location and whether it is a function declaration
/// are inspected here.
#[derive(Clone, Debug, PartialEq, Eq)]
pub struct RItem {
    pub name: SpannedIdent,
    pub is_fn: bool,
    pub text: String,
}

impl SpannedIdent {
    pub fn duplicate(&self) -> (r: SpannedIdent)
        ensures
            r == *self,
    {
        SpannedIdent { node: self.node.clone(), span: self.span }
    }
}

impl RItem {
    pub fn duplicate(&self) -> (r: RItem)
        ensures
            r == *self,
    {
        RItem { name: self.name.duplicate(), is_fn: self.is_fn, text: self.text.clone() }
    }
}

/// A whole compilation unit: the parsed rules in declaration order, the host
/// items carried through, the extracted host functions available to semantic
/// actions, and the grammar-level attributes.
#[derive(Debug, PartialEq, Eq)]
pub struct Grammar {
    pub name: String,
    pub rules: Vec<Rule>,
    pub rust_functions: Vec<RItem>,
    pub rust_items: Vec<RItem>,
    pub attributes: Vec<String>,
}

} // verus!
