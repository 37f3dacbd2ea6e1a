//! The grammar parser: a recursive descent over the host-lexed token stream
//! that builds the grammar syntax tree. Fatal problems (a predicate with
//! nothing to apply to, an unterminated character class) abort the parse;
//! everything else is recorded in the diagnostics sink and parsing continues
//! on a best-effort node.

use vstd::prelude::*;
use vstd::string::StrSliceExecFns;
use crate::ast::{
    CharacterInterval, Expression, ExpressionNode, Grammar, RItem, Rule, Span, SpannedIdent,
    TypeAnnotation, respan_expr, spanned_expr,
};
use crate::diagnostic::{concat3, Diagnostic, Severity};
use crate::token::{SpannedToken, Token};

verus! {

/// The parser state: the token stream, the cursor, the file-level attributes
/// collected so far, the grammar's name, and the non-fatal diagnostics sink.
pub struct Parser {
    pub tokens: Vec<SpannedToken>,
    pub pos: usize,
    pub inner_attrs: Vec<String>,
    pub grammar_name: String,
    pub diagnostics: Vec<Diagnostic>,
}

/// The span of the token at `pos`, or of the last token once the stream is
/// exhausted (diagnostics at end of input point at the last thing written).
pub open spec fn span_at(toks: Seq<SpannedToken>, pos: int) -> Span {
    if 0 <= pos < toks.len() {
        toks[pos].span
    } else if toks.len() > 0 {
        toks[toks.len() - 1].span
    } else {
        Span { lo: 0, hi: 0 }
    }
}

/// Whether the token at `pos` opens an atom: a literal, `.`, `(`, `[`, or an
/// identifier that does not itself start the next rule declaration (the
/// one-token lookahead: an identifier directly followed by `=` is a rule
/// left-hand side, not a nonterminal reference).
pub open spec fn starts_atom(toks: Seq<SpannedToken>, pos: int) -> bool {
    0 <= pos < toks.len() && match toks[pos].tok {
        Token::StrLit(_) => true,
        Token::Dot => true,
        Token::LParen => true,
        Token::LBracket => true,
        Token::Ident(_) => !(pos + 1 < toks.len() && toks[pos + 1].tok is Eq),
        _ => false,
    }
}

/// Whether the token at `pos` is a predicate prefix (`!` or `&`).
pub open spec fn starts_prefix(toks: Seq<SpannedToken>, pos: int) -> bool {
    0 <= pos < toks.len() && (toks[pos].tok is Not || toks[pos].tok is And)
}

impl Parser {
    /// The cursor never leaves the token stream.
    pub open spec fn wf(self) -> bool {
        self.pos <= self.tokens@.len()
    }

    /// What every parsing step preserves: the stream and the grammar name are
    /// read-only, the cursor only moves forward, and the diagnostics sink
    /// only grows.
    pub open spec fn steps_from(self, o: Parser) -> bool {
        &&& self.tokens == o.tokens
        &&& self.grammar_name == o.grammar_name
        &&& o.pos <= self.pos <= self.tokens@.len()
        &&& self.diagnostics@.len() >= o.diagnostics@.len()
        &&& self.diagnostics@.subrange(0, o.diagnostics@.len() as int) =~= o.diagnostics@
    }

    pub fn new(tokens: Vec<SpannedToken>, grammar_name: String) -> (p: Parser)
        ensures
            p.tokens == tokens,
            p.pos == 0,
            p.inner_attrs@.len() == 0,
            p.grammar_name == grammar_name,
            p.diagnostics@.len() == 0,
            p.wf(),
    {
        Parser {
            tokens,
            pos: 0,
            inner_attrs: Vec::new(),
            grammar_name,
            diagnostics: Vec::new(),
        }
    }

    /// True once every token has been consumed.
    fn at_eof(&self) -> (b: bool)
        requires
            self.wf(),
        ensures
            b == (self.pos == self.tokens@.len()),
    {
        self.pos >= self.tokens.len()
    }

    fn bump(&mut self)
        requires
            old(self).wf(),
        ensures
            final(self).tokens == old(self).tokens,
            final(self).inner_attrs == old(self).inner_attrs,
            final(self).grammar_name == old(self).grammar_name,
            final(self).diagnostics == old(self).diagnostics,
            old(self).pos < old(self).tokens@.len() ==> final(self).pos == old(self).pos + 1,
            old(self).pos == old(self).tokens@.len() ==> final(self).pos == old(self).pos,
            final(self).wf(),
    {
        if self.pos < self.tokens.len() {
            self.pos = self.pos + 1;
        }
    }

    /// The span of the current token (or of the last one at end of input).
    fn current_span(&self) -> (s: Span)
        requires
            self.wf(),
        ensures
            s == span_at(self.tokens@, self.pos as int),
    {
        if self.pos < self.tokens.len() {
            self.tokens[self.pos].span
        } else if self.tokens.len() > 0 {
            self.tokens[self.tokens.len() - 1].span
        } else {
            Span { lo: 0, hi: 0 }
        }
    }

    /// The span of the most recently consumed token.
    fn last_span(&self) -> (s: Span)
        requires
            self.wf(),
        ensures
            s == span_at(self.tokens@, self.pos - 1),
    {
        if self.pos > 0 && self.pos <= self.tokens.len() {
            self.tokens[self.pos - 1].span
        } else if self.tokens.len() > 0 {
            self.tokens[self.tokens.len() - 1].span
        } else {
            Span { lo: 0, hi: 0 }
        }
    }

    /// A bare expression node spanning the most recently consumed token.
    fn last_respan(&self, node: ExpressionNode) -> (e: Expression)
        requires
            self.wf(),
        ensures
            e.span == span_at(self.tokens@, self.pos - 1),
            e.node == node,
            e.ty is None,
            e.context is None,
    {
        respan_expr(self.last_span(), node)
    }

    /// A fatal diagnostic at the current token; the caller unwinds with it.
    fn fatal_error(&self, err_msg: String) -> (d: Diagnostic)
        requires
            self.wf(),
        ensures
            d.severity == Severity::Fatal,
            d.span == span_at(self.tokens@, self.pos as int),
            d.message == err_msg,
            d.previous is None,
    {
        Diagnostic::fatal(self.current_span(), err_msg)
    }

    /// The rule-boundary lookahead: the current token is an identifier and
    /// the one after it is `=`, so a new rule declaration starts here.
    fn is_rule_lhs(&self) -> (b: bool)
        requires
            self.wf(),
        ensures
            b == (self.pos + 1 < self.tokens@.len() && self.tokens@[self.pos + 1].tok is Eq),
    {
        if self.pos < self.tokens.len() && self.tokens.len() - self.pos > 1 {
            match self.tokens[self.pos + 1].tok {
                Token::Eq => true,
                _ => false,
            }
        } else {
            false
        }
    }
}

/// An error diagnostic with no attached note.
pub open spec fn is_error_diag(d: Diagnostic, span: Span, msg: Seq<char>) -> bool {
    &&& d.severity == Severity::Error
    &&& d.span == span
    &&& d.message@ == msg
    &&& d.previous is None
}

/// The non-fatal report for a sequence with no expression in it.
pub open spec fn empty_seq_msg(rule: Seq<char>) -> Seq<char> {
    "In rule "@ + rule + ": must define at least one expression."@
}

/// The non-fatal report for an unusable token after `->`.
pub open spec fn arrow_msg(rule: Seq<char>) -> Seq<char> {
    "In rule "@ + rule
        + ": Unknown token after `->`. Use the arrow to annotate an expression with the unit type `()` or the invisible type `(^)`."@
}

/// The non-fatal report for a misplaced separator inside a character class.
pub open spec fn sep_msg(rule: Seq<char>) -> Seq<char> {
    "In rule "@ + rule
        + ": Unexpected separator `-`. Put it in the start or the end if you want to accept it as a character in the set. Otherwise, you should only use it for character intervals as in `[\"a-z\"]`."@
}

/// What scanning the class body from position `i` onward yields: the
/// intervals collected, and whether a malformed separator stopped the scan
/// (everything after the offending unit is dropped). One unit is either a
/// range `c-h`, a single character, or the two singletons of a trailing
/// `c-`; a unit beginning with `-` before the end of the body is the error.
pub open spec fn scan_class(s: Seq<char>, i: int) -> (Seq<CharacterInterval>, bool)
    decreases s.len() - i,
{
    if i < 0 || i >= s.len() {
        (Seq::empty(), false)
    } else {
        let c = s[i];
        if c == '-' && i + 1 < s.len() {
            (Seq::empty(), true)
        } else if i + 1 >= s.len() {
            (seq![CharacterInterval { lo: c, hi: c }], false)
        } else if s[i + 1] == '-' {
            if i + 2 >= s.len() {
                (
                    seq![
                        CharacterInterval { lo: c, hi: c },
                        CharacterInterval { lo: '-', hi: '-' },
                    ],
                    false,
                )
            } else if s[i + 2] == '-' {
                (Seq::empty(), true)
            } else {
                let rest = scan_class(s, i + 3);
                (seq![CharacterInterval { lo: c, hi: s[i + 2] }] + rest.0, rest.1)
            }
        } else {
            let rest = scan_class(s, i + 1);
            (seq![CharacterInterval { lo: c, hi: c }] + rest.0, rest.1)
        }
    }
}

/// The intervals of a whole class body: a leading `-` is the one place where
/// a separator is a literal character, then the units follow.
pub open spec fn class_intervals(s: Seq<char>) -> Seq<CharacterInterval> {
    if s.len() > 0 && s[0] == '-' {
        seq![CharacterInterval { lo: '-', hi: '-' }] + scan_class(s, 1).0
    } else {
        scan_class(s, 0).0
    }
}

/// Whether scanning the class body reports a malformed separator.
pub open spec fn class_error(s: Seq<char>) -> bool {
    if s.len() > 0 && s[0] == '-' {
        scan_class(s, 1).1
    } else {
        scan_class(s, 0).1
    }
}

/// The characters of a string, in order.
#[verifier::loop_isolation(false)]
fn str_chars(s: &str) -> (v: Vec<char>)
    ensures
        v@ == s@,
{
    let n = s.unicode_len();
    let mut v: Vec<char> = Vec::new();
    let mut i: usize = 0;
    while i < n
        invariant
            i <= n,
            v@ =~= s@.subrange(0, i as int),
        decreases n - i,
    {
        v.push(s.get_char(i));
        i += 1;
        assert(v@ =~= s@.subrange(0, i as int));
    }
    assert(s@.subrange(0, n as int) =~= s@);
    v
}

/// The character at `i`.
fn char_at(chars: &Vec<char>, i: usize) -> (c: char)
    requires
        i < chars@.len(),
    ensures
        c == chars@[i as int],
{
    chars[i]
}

/// One pass over the class body from position `i`: the collected intervals
/// and whether a malformed separator was hit.
fn parse_char_range(chars: &Vec<char>, i: usize) -> (r: (Vec<CharacterInterval>, bool))
    ensures
        r.0@ == scan_class(chars@, i as int).0,
        r.1 == scan_class(chars@, i as int).1,
    decreases chars@.len() - i,
{
    if i >= chars.len() {
        let v: Vec<CharacterInterval> = Vec::new();
        proof {
            assert(v@ =~= scan_class(chars@, i as int).0);
        }
        (v, false)
    } else {
        let c = char_at(chars, i);
        if c == '-' && i + 1 < chars.len() {
            let v: Vec<CharacterInterval> = Vec::new();
            proof {
                assert(v@ =~= scan_class(chars@, i as int).0);
            }
            (v, true)
        } else if i + 1 >= chars.len() {
            let mut v: Vec<CharacterInterval> = Vec::new();
            v.push(CharacterInterval { lo: c, hi: c });
            proof {
                assert(v@ =~= scan_class(chars@, i as int).0);
            }
            (v, false)
        } else if char_at(chars, i + 1) == '-' {
            if i + 2 >= chars.len() {
                let mut v: Vec<CharacterInterval> = Vec::new();
                v.push(CharacterInterval { lo: c, hi: c });
                v.push(CharacterInterval { lo: '-', hi: '-' });
                proof {
                    assert(v@ =~= scan_class(chars@, i as int).0);
                }
                (v, false)
            } else if char_at(chars, i + 2) == '-' {
                let v: Vec<CharacterInterval> = Vec::new();
                proof {
                    assert(v@ =~= scan_class(chars@, i as int).0);
                }
                (v, true)
            } else {
                let hi = char_at(chars, i + 2);
                let (mut rest_ivs, rest_err) = parse_char_range(chars, i + 3);
                let ghost r0 = rest_ivs@;
                let mut v: Vec<CharacterInterval> = Vec::new();
                v.push(CharacterInterval { lo: c, hi });
                v.append(&mut rest_ivs);
                proof {
                    assert(v@ =~= seq![CharacterInterval { lo: c, hi: chars@[i + 2] }] + r0);
                    assert(v@ =~= scan_class(chars@, i as int).0);
                }
                (v, rest_err)
            }
        } else {
            let (mut rest_ivs, rest_err) = parse_char_range(chars, i + 1);
            let ghost r0 = rest_ivs@;
            let mut v: Vec<CharacterInterval> = Vec::new();
            v.push(CharacterInterval { lo: c, hi: c });
            v.append(&mut rest_ivs);
            proof {
                assert(v@ =~= seq![CharacterInterval { lo: c, hi: c }] + r0);
                assert(v@ =~= scan_class(chars@, i as int).0);
            }
            (v, rest_err)
        }
    }
}

impl Parser {
    /// Turns the literal body of a character class into a `CharacterClass`
    /// expression; a malformed separator keeps the intervals collected before
    /// it and records one non-fatal error.
    pub fn parse_set_of_char_range(&mut self, ranges: &String, rule_name: &str) -> (e: Expression)
        requires
            old(self).wf(),
        ensures
            final(self).wf(),
            final(self).tokens == old(self).tokens,
            final(self).pos == old(self).pos,
            final(self).inner_attrs == old(self).inner_attrs,
            final(self).grammar_name == old(self).grammar_name,
            e.node matches ExpressionNode::CharacterClass(ivs) && ivs@ == class_intervals(
                ranges@,
            ),
            e.span == span_at(old(self).tokens@, old(self).pos as int),
            e.ty is None && e.context is None,
            class_error(ranges@) ==> final(self).diagnostics@.len() == old(
                self,
            ).diagnostics@.len() + 1 && final(self).diagnostics@.subrange(
                0,
                old(self).diagnostics@.len() as int,
            ) == old(self).diagnostics@ && is_error_diag(
                final(self).diagnostics@.last(),
                span_at(old(self).tokens@, old(self).pos as int),
                sep_msg(rule_name@),
            ),
            !class_error(ranges@) ==> final(self).diagnostics == old(self).diagnostics,
    {
        let chars = str_chars(ranges.as_str());
        let mut intervals: Vec<CharacterInterval> = Vec::new();
        let mut start: usize = 0;
        if chars.len() > 0 && char_at(&chars, 0) == '-' {
            intervals.push(CharacterInterval { lo: '-', hi: '-' });
            start = 1;
        }
        let mut scanned = parse_char_range(&chars, start);
        intervals.append(&mut scanned.0);
        proof {
            assert(intervals@ =~= class_intervals(ranges@));
        }
        if scanned.1 {
            let msg = concat3(
                "In rule ",
                rule_name,
                ": Unexpected separator `-`. Put it in the start or the end if you want to accept it as a character in the set. Otherwise, you should only use it for character intervals as in `[\"a-z\"]`.",
            );
            let d = Diagnostic::error(self.current_span(), msg);
            self.diagnostics.push(d);
            proof {
                assert(final(self).diagnostics@.subrange(0, old(self).diagnostics@.len() as int)
                    =~= old(self).diagnostics@);
            }
        }
        let span = self.current_span();
        respan_expr(span, ExpressionNode::CharacterClass(intervals))
    }
}

/// A well-formed character-class atom after the opening `[`: a string literal
/// closed by `]`.
pub open spec fn bracket_ok(toks: Seq<SpannedToken>, p: int) -> bool {
    &&& p + 2 < toks.len()
    &&& toks[p + 1].tok is StrLit
    &&& toks[p + 2].tok is RBracket
}

/// The expression payload a one-token atom at `p` parses to, if the atom is a
/// literal, `.`, or a nonterminal reference (an identifier that does not open
/// the next rule declaration).
pub open spec fn leaf_node(toks: Seq<SpannedToken>, p: int) -> Option<ExpressionNode> {
    if 0 <= p < toks.len() {
        match toks[p].tok {
            Token::StrLit(s) => Some(ExpressionNode::StrLiteral(s)),
            Token::Dot => Some(ExpressionNode::AnySingleChar),
            Token::Ident(id) => if !(p + 1 < toks.len() && toks[p + 1].tok is Eq) {
                Some(ExpressionNode::NonTerminalSymbol(id))
            } else {
                None
            },
            _ => None,
        }
    } else {
        None
    }
}

/// A postfix operator token: `*`, `+` or `?`.
pub open spec fn suffix_token(t: Token) -> bool {
    t is Star || t is Plus || t is Question
}

/// A simple atom: one whose width in tokens is fixed by the tokens alone — a
/// literal, `.`, a nonterminal reference, or a well-formed character class.
/// Parenthesized groups are not simple: their width depends on the whole
/// inner parse.
pub open spec fn simple_atom_ok(toks: Seq<SpannedToken>, p: int) -> bool {
    leaf_node(toks, p) is Some || (0 <= p < toks.len() && toks[p].tok is LBracket && bracket_ok(
        toks,
        p,
    ))
}

/// How many tokens a simple atom occupies.
pub open spec fn simple_atom_width(toks: Seq<SpannedToken>, p: int) -> int {
    if leaf_node(toks, p) is Some {
        1
    } else {
        3
    }
}

/// The expression a simple atom parses to.
pub open spec fn simple_atom_result(toks: Seq<SpannedToken>, p: int, e: Expression) -> bool {
    &&& e.ty is None && e.context is None
    &&& if leaf_node(toks, p) is Some {
        e.node == leaf_node(toks, p)->0 && e.span == toks[p].span
    } else {
        &&& toks[p + 1].tok matches Token::StrLit(lit) && e.node matches
            ExpressionNode::CharacterClass(ivs) && ivs@ == class_intervals(lit@)
        &&& e.span == toks[p + 2].span
    }
}

/// Where a simple atom plus its optional postfix operator ends.
pub open spec fn simple_suffixed_end(toks: Seq<SpannedToken>, p: int) -> int {
    let b = p + simple_atom_width(toks, p);
    if b < toks.len() && suffix_token(toks[b].tok) {
        b + 1
    } else {
        b
    }
}

/// The expression a simple atom plus its optional postfix operator parses to:
/// `*`, `+` and `?` wrap the atom once; no operator leaves it bare.
pub open spec fn simple_suffixed_rel(toks: Seq<SpannedToken>, p: int, e: Expression) -> bool {
    let b = p + simple_atom_width(toks, p);
    if b < toks.len() && suffix_token(toks[b].tok) {
        &&& (toks[b].tok is Star ==> (e.node matches ExpressionNode::ZeroOrMore(inner)
            && simple_atom_result(toks, p, *inner)))
        &&& (toks[b].tok is Plus ==> (e.node matches ExpressionNode::OneOrMore(inner)
            && simple_atom_result(toks, p, *inner)))
        &&& (toks[b].tok is Question ==> (e.node matches ExpressionNode::Optional(inner)
            && simple_atom_result(toks, p, *inner)))
        &&& e.span == (Span { lo: span_at(toks, p).lo, hi: span_at(toks, b).hi })
        &&& e.ty is None && e.context is None
    } else {
        simple_atom_result(toks, p, e)
    }
}

/// A simple prefixed expression: an optional `!` or `&` applied to a simple
/// suffixed atom.
pub open spec fn simple_item_ok(toks: Seq<SpannedToken>, p: int) -> bool {
    if starts_prefix(toks, p) {
        simple_atom_ok(toks, p + 1)
    } else {
        simple_atom_ok(toks, p)
    }
}

/// Where a simple prefixed expression ends.
pub open spec fn simple_item_end(toks: Seq<SpannedToken>, p: int) -> int {
    if starts_prefix(toks, p) {
        simple_suffixed_end(toks, p + 1)
    } else {
        simple_suffixed_end(toks, p)
    }
}

/// The expression a simple prefixed expression parses to: the predicate, if
/// any, wraps the suffixed atom after it.
pub open spec fn simple_item_rel(toks: Seq<SpannedToken>, p: int, e: Expression) -> bool {
    if starts_prefix(toks, p) {
        &&& (toks[p].tok is Not ==> (e.node matches ExpressionNode::NotPredicate(inner)
            && simple_suffixed_rel(toks, p + 1, *inner)))
        &&& (toks[p].tok is And ==> (e.node matches ExpressionNode::AndPredicate(inner)
            && simple_suffixed_rel(toks, p + 1, *inner)))
        &&& e.span == (Span {
            lo: span_at(toks, p).lo,
            hi: span_at(toks, simple_item_end(toks, p)).hi,
        })
        &&& e.ty is None && e.context is None
    } else {
        simple_suffixed_rel(toks, p, e)
    }
}

/// A simple sequence: a maximal run of simple prefixed expressions.
pub open spec fn simple_seq(toks: Seq<SpannedToken>, p: int) -> bool
    decreases toks.len() - p,
{
    if !(starts_prefix(toks, p) || starts_atom(toks, p)) {
        true
    } else if simple_item_ok(toks, p) {
        let q = simple_item_end(toks, p);
        p < q <= toks.len() && simple_seq(toks, q)
    } else {
        false
    }
}

/// Where a simple sequence ends: the first position where no atom and no
/// predicate starts.
pub open spec fn simple_seq_end(toks: Seq<SpannedToken>, p: int) -> int
    decreases toks.len() - p,
{
    if !(starts_prefix(toks, p) || starts_atom(toks, p)) {
        p
    } else if simple_item_ok(toks, p) {
        let q = simple_item_end(toks, p);
        if p < q <= toks.len() {
            simple_seq_end(toks, q)
        } else {
            p
        }
    } else {
        p
    }
}

/// The elements a simple sequence parses to, one per run item, in order.
pub open spec fn simple_seq_items(toks: Seq<SpannedToken>, p: int, s: Seq<Expression>) -> bool
    decreases toks.len() - p,
{
    if !(starts_prefix(toks, p) || starts_atom(toks, p)) {
        s.len() == 0
    } else if simple_item_ok(toks, p) {
        let q = simple_item_end(toks, p);
        &&& p < q <= toks.len()
        &&& s.len() > 0
        &&& simple_item_rel(toks, p, s[0])
        &&& simple_seq_items(toks, q, s.drop_first())
    } else {
        false
    }
}

/// The `Sequence` expression a simple sequence parses to.
pub open spec fn simple_seq_result(toks: Seq<SpannedToken>, p: int, e: Expression) -> bool {
    &&& e.node matches ExpressionNode::Sequence(items) && simple_seq_items(toks, p, items@)
    &&& e.ty is None && e.context is None
    &&& e.span == (Span {
        lo: span_at(toks, p).lo,
        hi: span_at(toks, simple_seq_end(toks, p) - 1).hi,
    })
}

/// A simple alternative: a simple sequence with an optional trailing `> f`,
/// a well-formed `-> ()` / `-> (^)` annotation, or a recovered bad arrow.
pub open spec fn simple_alt_ok(toks: Seq<SpannedToken>, p: int) -> bool {
    &&& simple_seq(toks, p)
    &&& {
        let q = simple_seq_end(toks, p);
        if q < toks.len() && toks[q].tok is Gt {
            q + 1 < toks.len() && toks[q + 1].tok is Ident
        } else if q < toks.len() && toks[q].tok is RArrow {
            if q + 1 < toks.len() && toks[q + 1].tok is LParen {
                (q + 2 < toks.len() && toks[q + 2].tok is RParen) || (q + 3 < toks.len() && toks[q
                    + 2].tok is Caret && toks[q + 3].tok is RParen)
            } else {
                true
            }
        } else {
            true
        }
    }
}

/// Where a simple alternative ends.
pub open spec fn simple_alt_end(toks: Seq<SpannedToken>, p: int) -> int {
    let q = simple_seq_end(toks, p);
    if q < toks.len() && toks[q].tok is Gt {
        q + 2
    } else if q < toks.len() && toks[q].tok is RArrow {
        if q + 1 < toks.len() && toks[q + 1].tok is LParen {
            if q + 2 < toks.len() && toks[q + 2].tok is RParen {
                q + 3
            } else {
                q + 4
            }
        } else {
            q + 1
        }
    } else {
        q
    }
}

/// The expression a simple alternative parses to: `> f` wraps the sequence in
/// a semantic action, a well-formed arrow annotates it, a bad arrow leaves it
/// unannotated (after the recovered error), nothing leaves it bare.
pub open spec fn simple_alt_result(toks: Seq<SpannedToken>, p: int, e: Expression) -> bool {
    let q = simple_seq_end(toks, p);
    if q < toks.len() && toks[q].tok is Gt {
        &&& q + 1 < toks.len()
        &&& (toks[q + 1].tok matches Token::Ident(f) && (e.node matches
            ExpressionNode::SemanticAction(inner, fname) && fname@ == f@ && simple_seq_result(
            toks,
            p,
            *inner,
        )))
        &&& e.span == toks[q + 1].span
        &&& e.ty is None && e.context is None
    } else if q < toks.len() && toks[q].tok is RArrow && q + 1 < toks.len() && toks[q
        + 1].tok is LParen {
        &&& e.node matches ExpressionNode::Sequence(items) && simple_seq_items(toks, p, items@)
        &&& e.context is None
        &&& e.span == (Span { lo: span_at(toks, p).lo, hi: span_at(toks, q - 1).hi })
        &&& if q + 2 < toks.len() && toks[q + 2].tok is RParen {
            e.ty == Some(TypeAnnotation::Unit)
        } else {
            e.ty == Some(TypeAnnotation::Invisible)
        }
    } else {
        simple_seq_result(toks, p, e)
    }
}

/// A simple choice: one or more `/`-separated simple alternatives.
pub open spec fn simple_choice(toks: Seq<SpannedToken>, p: int) -> bool
    decreases toks.len() - p,
{
    &&& simple_alt_ok(toks, p)
    &&& {
        let q = simple_alt_end(toks, p);
        if p <= q && q < toks.len() && toks[q].tok is Slash {
            simple_choice(toks, q + 1)
        } else {
            true
        }
    }
}

/// Where a simple choice ends.
pub open spec fn simple_choice_end(toks: Seq<SpannedToken>, p: int) -> int
    decreases toks.len() - p,
{
    let q = simple_alt_end(toks, p);
    if p <= q && q < toks.len() && toks[q].tok is Slash {
        simple_choice_end(toks, q + 1)
    } else {
        q
    }
}

/// The alternatives a simple choice parses to, in source order.
pub open spec fn simple_alts(toks: Seq<SpannedToken>, p: int, s: Seq<Expression>) -> bool
    decreases toks.len() - p,
{
    &&& s.len() > 0
    &&& simple_alt_result(toks, p, s[0])
    &&& {
        let q = simple_alt_end(toks, p);
        if p <= q && q < toks.len() && toks[q].tok is Slash {
            simple_alts(toks, q + 1, s.drop_first())
        } else {
            s.len() == 1
        }
    }
}

/// The expression a simple choice parses to: a single alternative stands
/// bare, two or more are wrapped in a `Choice` in source order.
pub open spec fn simple_choice_result(toks: Seq<SpannedToken>, p: int, e: Expression) -> bool {
    let q = simple_alt_end(toks, p);
    if p <= q && q < toks.len() && toks[q].tok is Slash {
        &&& e.node matches ExpressionNode::Choice(alts) && alts@.len() >= 2 && simple_alts(
            toks,
            p,
            alts@,
        )
        &&& e.ty is None && e.context is None
        &&& e.span == (Span {
            lo: span_at(toks, p).lo,
            hi: span_at(toks, simple_choice_end(toks, p) - 1).hi,
        })
    } else {
        simple_alt_result(toks, p, e)
    }
}

/// A simple rule: `name = body` with a simple choice as body.
pub open spec fn simple_rule(toks: Seq<SpannedToken>, p: int) -> bool {
    starts_rule_shape(toks, p) && simple_choice(toks, p + 2)
}

/// Where a simple rule ends.
pub open spec fn simple_rule_end(toks: Seq<SpannedToken>, p: int) -> int {
    simple_choice_end(toks, p + 2)
}

/// The rule a simple rule declaration parses to.
pub open spec fn simple_rule_result(toks: Seq<SpannedToken>, p: int, rl: Rule) -> bool {
    &&& 0 <= p < toks.len()
    &&& toks[p].tok matches Token::Ident(id) && rl.name.node@ == id@
    &&& rl.name.span == toks[p].span
    &&& rl.attributes@.len() == 0
    &&& simple_choice_result(toks, p + 2, rl.def)
}

/// A simple grammar: simple rules back to back until the end of the input,
/// with no host items and no attributes.
pub open spec fn simple_grammar(toks: Seq<SpannedToken>, p: int) -> bool
    decreases toks.len() - p,
{
    if p >= toks.len() {
        true
    } else {
        &&& simple_rule(toks, p)
        &&& {
            let q = simple_rule_end(toks, p);
            &&& p < q <= toks.len()
            &&& q == toks.len() || starts_rule_shape(toks, q)
            &&& simple_grammar(toks, q)
        }
    }
}

/// The rules a simple grammar parses to, in declaration order.
pub open spec fn simple_rules(toks: Seq<SpannedToken>, p: int, s: Seq<Rule>) -> bool
    decreases toks.len() - p,
{
    if p >= toks.len() {
        s.len() == 0
    } else {
        &&& s.len() > 0
        &&& simple_rule_result(toks, p, s[0])
        &&& {
            let q = simple_rule_end(toks, p);
            p < q <= toks.len() && simple_rules(toks, q, s.drop_first())
        }
    }
}

/// A run of attribute tokens carrying exactly the payloads `s`.
pub open spec fn attr_run(toks: Seq<SpannedToken>, p: int, s: Seq<String>, outer: bool) -> bool
    decreases s.len(),
{
    if s.len() == 0 {
        true
    } else {
        &&& 0 <= p < toks.len()
        &&& if outer {
            (toks[p].tok matches Token::OuterAttr(a) && a@ == s[0]@)
        } else {
            (toks[p].tok matches Token::InnerAttr(a) && a@ == s[0]@)
        }
        &&& attr_run(toks, p + 1, s.drop_first(), outer)
    }
}

/// Extending an attribute run by the attribute token at its end.
pub proof fn lemma_attr_run_snoc(
    toks: Seq<SpannedToken>,
    p: int,
    s: Seq<String>,
    a: String,
    outer: bool,
)
    requires
        attr_run(toks, p, s, outer),
        0 <= p + s.len() < toks.len(),
        outer ==> (toks[p + s.len()].tok matches Token::OuterAttr(x) && x@ == a@),
        !outer ==> (toks[p + s.len()].tok matches Token::InnerAttr(x) && x@ == a@),
    ensures
        attr_run(toks, p, s.push(a), outer),
    decreases s.len(),
{
    if s.len() == 0 {
        assert(s.push(a)[0] == a);
        assert(s.push(a).drop_first() =~= Seq::<String>::empty());
        assert(attr_run(toks, p + 1, Seq::<String>::empty(), outer));
        assert(attr_run(toks, p + 1, s.push(a).drop_first(), outer));
    } else {
        lemma_attr_run_snoc(toks, p + 1, s.drop_first(), a, outer);
        assert(s.push(a).drop_first() =~= s.drop_first().push(a));
        assert(attr_run(toks, p + 1, s.push(a).drop_first(), outer));
        assert(s.push(a)[0] == s[0]);
    }
}

/// A partial run of simple prefixed expressions: the items parsed so far,
/// from `p` up to `q`, with the run possibly continuing after `q`.
pub open spec fn simple_items_to(toks: Seq<SpannedToken>, p: int, s: Seq<Expression>, q: int) -> bool
    decreases s.len(),
{
    if s.len() == 0 {
        q == p
    } else {
        &&& starts_prefix(toks, p) || starts_atom(toks, p)
        &&& simple_item_ok(toks, p)
        &&& p < simple_item_end(toks, p) <= toks.len()
        &&& simple_item_rel(toks, p, s[0])
        &&& simple_items_to(toks, simple_item_end(toks, p), s.drop_first(), q)
    }
}

/// Extending a partial run by the item parsed at its end.
pub proof fn lemma_simple_items_to_snoc(
    toks: Seq<SpannedToken>,
    p: int,
    s: Seq<Expression>,
    m: int,
    x: Expression,
)
    requires
        simple_items_to(toks, p, s, m),
        starts_prefix(toks, m) || starts_atom(toks, m),
        simple_item_ok(toks, m),
        m < simple_item_end(toks, m) <= toks.len(),
        simple_item_rel(toks, m, x),
    ensures
        simple_items_to(toks, p, s.push(x), simple_item_end(toks, m)),
    decreases s.len(),
{
    if s.len() == 0 {
        assert(s.push(x)[0] == x);
        assert(s.push(x).drop_first() =~= Seq::<Expression>::empty());
        assert(simple_items_to(
            toks,
            simple_item_end(toks, p),
            Seq::<Expression>::empty(),
            simple_item_end(toks, m),
        ));
        assert(simple_items_to(
            toks,
            simple_item_end(toks, p),
            s.push(x).drop_first(),
            simple_item_end(toks, m),
        ));
    } else {
        lemma_simple_items_to_snoc(toks, simple_item_end(toks, p), s.drop_first(), m, x);
        assert(s.push(x).drop_first() =~= s.drop_first().push(x));
        assert(simple_items_to(
            toks,
            simple_item_end(toks, p),
            s.push(x).drop_first(),
            simple_item_end(toks, m),
        ));
        assert(s.push(x)[0] == s[0]);
    }
}

/// A partial run that stops where no atom and no predicate starts is the
/// whole sequence: it gives the elements, the recognizer, and the end.
pub proof fn lemma_simple_items_to_complete(
    toks: Seq<SpannedToken>,
    p: int,
    s: Seq<Expression>,
    q: int,
)
    requires
        simple_items_to(toks, p, s, q),
        !(starts_prefix(toks, q) || starts_atom(toks, q)),
    ensures
        simple_seq_items(toks, p, s),
        simple_seq(toks, p),
        simple_seq_end(toks, p) == q,
    decreases s.len(),
{
    if s.len() == 0 {
    } else {
        lemma_simple_items_to_complete(toks, simple_item_end(toks, p), s.drop_first(), q);
    }
}

/// A simple sequence never ends before it starts.
pub proof fn lemma_simple_seq_end_lb(toks: Seq<SpannedToken>, p: int)
    ensures
        p <= simple_seq_end(toks, p),
    decreases toks.len() - p,
{
    if !(starts_prefix(toks, p) || starts_atom(toks, p)) {
    } else if simple_item_ok(toks, p) {
        let q = simple_item_end(toks, p);
        if p < q <= toks.len() {
            lemma_simple_seq_end_lb(toks, q);
        }
    }
}

/// A simple alternative never ends before it starts.
pub proof fn lemma_simple_alt_end_lb(toks: Seq<SpannedToken>, p: int)
    ensures
        p <= simple_alt_end(toks, p),
{
    lemma_simple_seq_end_lb(toks, p);
}

/// A partial run of alternatives: those parsed so far, the last ending at `q`.
pub open spec fn simple_alts_to(toks: Seq<SpannedToken>, p: int, s: Seq<Expression>, q: int) -> bool
    decreases s.len(),
{
    if s.len() == 0 {
        false
    } else if s.len() == 1 {
        &&& simple_alt_ok(toks, p)
        &&& simple_alt_result(toks, p, s[0])
        &&& q == simple_alt_end(toks, p)
    } else {
        &&& simple_alt_ok(toks, p)
        &&& simple_alt_result(toks, p, s[0])
        &&& {
            let m = simple_alt_end(toks, p);
            &&& p <= m < toks.len()
            &&& toks[m].tok is Slash
            &&& simple_alts_to(toks, m + 1, s.drop_first(), q)
        }
    }
}

/// Extending a partial run of alternatives past the separator at its end.
pub proof fn lemma_simple_alts_to_snoc(
    toks: Seq<SpannedToken>,
    p: int,
    s: Seq<Expression>,
    m: int,
    x: Expression,
)
    requires
        simple_alts_to(toks, p, s, m),
        0 <= m < toks.len(),
        toks[m].tok is Slash,
        simple_alt_ok(toks, m + 1),
        simple_alt_result(toks, m + 1, x),
    ensures
        simple_alts_to(toks, p, s.push(x), simple_alt_end(toks, m + 1)),
    decreases s.len(),
{
    lemma_simple_alt_end_lb(toks, p);
    if s.len() == 1 {
        assert(s.push(x)[0] == s[0]);
        assert(s.push(x).drop_first() =~= seq![x]);
        assert(s.push(x).drop_first()[0] == x);
        assert(m == simple_alt_end(toks, p));
        assert(simple_alts_to(toks, m + 1, seq![x], simple_alt_end(toks, m + 1)));
        assert(simple_alts_to(toks, m + 1, s.push(x).drop_first(), simple_alt_end(toks, m + 1)));
    } else {
        lemma_simple_alts_to_snoc(toks, simple_alt_end(toks, p) + 1, s.drop_first(), m, x);
        assert(s.push(x).drop_first() =~= s.drop_first().push(x));
        assert(simple_alts_to(
            toks,
            simple_alt_end(toks, p) + 1,
            s.push(x).drop_first(),
            simple_alt_end(toks, m + 1),
        ));
        assert(s.push(x)[0] == s[0]);
    }
}

/// A partial run of alternatives that stops where no separator follows is the
/// whole choice: it gives the alternatives, the recognizer, and the end.
pub proof fn lemma_simple_alts_to_complete(
    toks: Seq<SpannedToken>,
    p: int,
    s: Seq<Expression>,
    q: int,
)
    requires
        simple_alts_to(toks, p, s, q),
        p <= q,
        !(q < toks.len() && toks[q].tok is Slash),
    ensures
        simple_alts(toks, p, s),
        simple_choice(toks, p),
        simple_choice_end(toks, p) == q,
        s.len() == 1 ==> q == simple_alt_end(toks, p) && !(p <= q < toks.len()
            && toks[q].tok is Slash),
        s.len() >= 2 ==> (p <= simple_alt_end(toks, p) < toks.len() && toks[simple_alt_end(
            toks,
            p,
        )].tok is Slash),
    decreases s.len(),
{
    lemma_simple_alt_end_lb(toks, p);
    if s.len() == 1 {
        assert(simple_alts(toks, p, s));
        assert(simple_choice(toks, p));
    } else {
        lemma_simple_alts_to_lb(toks, simple_alt_end(toks, p) + 1, s.drop_first(), q);
        lemma_simple_alts_to_complete(toks, simple_alt_end(toks, p) + 1, s.drop_first(), q);
        assert(simple_alts(toks, p, s));
        assert(simple_choice(toks, p));
    }
}

/// A partial run of alternatives never ends before it starts.
pub proof fn lemma_simple_alts_to_lb(toks: Seq<SpannedToken>, p: int, s: Seq<Expression>, q: int)
    requires
        simple_alts_to(toks, p, s, q),
    ensures
        p <= q,
    decreases s.len(),
{
    lemma_simple_alt_end_lb(toks, p);
    if s.len() == 1 {
    } else {
        lemma_simple_alts_to_lb(toks, simple_alt_end(toks, p) + 1, s.drop_first(), q);
    }
}

/// A partial run of simple rules: those parsed so far, the last ending at `q`.
pub open spec fn simple_rules_to(toks: Seq<SpannedToken>, p: int, s: Seq<Rule>, q: int) -> bool
    decreases s.len(),
{
    if s.len() == 0 {
        q == p
    } else {
        &&& simple_rule(toks, p)
        &&& simple_rule_result(toks, p, s[0])
        &&& {
            let m = simple_rule_end(toks, p);
            p < m <= toks.len() && simple_rules_to(toks, m, s.drop_first(), q)
        }
    }
}

/// Extending a partial run of rules by the rule parsed at its end.
pub proof fn lemma_simple_rules_to_snoc(
    toks: Seq<SpannedToken>,
    p: int,
    s: Seq<Rule>,
    m: int,
    x: Rule,
)
    requires
        simple_rules_to(toks, p, s, m),
        simple_rule(toks, m),
        simple_rule_result(toks, m, x),
        m < simple_rule_end(toks, m) <= toks.len(),
    ensures
        simple_rules_to(toks, p, s.push(x), simple_rule_end(toks, m)),
    decreases s.len(),
{
    if s.len() == 0 {
        assert(s.push(x)[0] == x);
        assert(s.push(x).drop_first() =~= Seq::<Rule>::empty());
        assert(simple_rules_to(
            toks,
            simple_rule_end(toks, p),
            Seq::<Rule>::empty(),
            simple_rule_end(toks, m),
        ));
        assert(simple_rules_to(
            toks,
            simple_rule_end(toks, p),
            s.push(x).drop_first(),
            simple_rule_end(toks, m),
        ));
    } else {
        lemma_simple_rules_to_snoc(toks, simple_rule_end(toks, p), s.drop_first(), m, x);
        assert(s.push(x).drop_first() =~= s.drop_first().push(x));
        assert(simple_rules_to(
            toks,
            simple_rule_end(toks, p),
            s.push(x).drop_first(),
            simple_rule_end(toks, m),
        ));
        assert(s.push(x)[0] == s[0]);
    }
}

/// A partial run of rules that reaches the end of the input is the whole
/// grammar's rule list.
pub proof fn lemma_simple_rules_to_complete(
    toks: Seq<SpannedToken>,
    p: int,
    s: Seq<Rule>,
    q: int,
)
    requires
        simple_rules_to(toks, p, s, q),
        q == toks.len(),
    ensures
        simple_rules(toks, p, s),
    decreases s.len(),
{
    if s.len() == 0 {
    } else {
        lemma_simple_rules_to_complete(toks, simple_rule_end(toks, p), s.drop_first(), q);
    }
}

impl Parser {
    /// Reads the string literal of a character class after its `[` and turns
    /// it into a `CharacterClass` expression; anything but a string literal
    /// here is fatal.
    pub fn parse_char_class(&mut self, rule_name: &str) -> (r: Result<Expression, Diagnostic>)
        requires
            old(self).wf(),
        ensures
            final(self).wf(),
            final(self).steps_from(*old(self)),
            final(self).inner_attrs == old(self).inner_attrs,
            r matches Err(d) ==> d.severity == Severity::Fatal && *final(self) == *old(self),
            old(self).pos < old(self).tokens@.len() ==> (old(self).tokens@[old(
                self,
            ).pos as int].tok matches Token::StrLit(lit) ==> {
                &&& r matches Ok(e)
                &&& final(self).pos == old(self).pos + 1
                &&& e.node matches ExpressionNode::CharacterClass(ivs) && ivs@ == class_intervals(
                    lit@,
                )
                &&& e.span == span_at(old(self).tokens@, old(self).pos + 1)
                &&& e.ty is None && e.context is None
                &&& class_error(lit@) ==> final(self).diagnostics@.len() == old(
                    self,
                ).diagnostics@.len() + 1 && is_error_diag(
                    final(self).diagnostics@.last(),
                    span_at(old(self).tokens@, old(self).pos + 1),
                    sep_msg(rule_name@),
                )
                &&& !class_error(lit@) ==> final(self).diagnostics == old(self).diagnostics
            }),
            !(old(self).pos < old(self).tokens@.len() && old(self).tokens@[old(
                self,
            ).pos as int].tok is StrLit) ==> r is Err,
    {
        if self.at_eof() {
            return Err(
                self.fatal_error(
                    concat3(
                        "In rule ",
                        rule_name,
                        ": Unexpected character in this character class. `[` must only be followed by a string literal (such as in `[\"a-z\"]`)",
                    ),
                ),
            );
        }
        let lit_opt: Option<String> = match &self.tokens[self.pos].tok {
            Token::StrLit(s) => Some(s.clone()),
            _ => None,
        };
        match lit_opt {
            Some(lit) => {
                self.bump();
                let e = self.parse_set_of_char_range(&lit, rule_name);
                Ok(e)
            },
            None => Err(
                self.fatal_error(
                    concat3(
                        "In rule ",
                        rule_name,
                        ": Unexpected character in this character class. `[` must only be followed by a string literal (such as in `[\"a-z\"]`)",
                    ),
                ),
            ),
        }
    }

    /// Parses one atom: a string literal, `.`, a parenthesized choice, a
    /// nonterminal reference, or a character class. `Ok(None)` means no atom
    /// starts here (including an identifier that opens the next rule, found
    /// by the one-token lookahead); the enclosing sequence then stops. An
    /// unterminated character class is fatal; inside parentheses the whole
    /// choice grammar applies, and its fatal errors pass through.
    pub fn parse_rule_atom(&mut self, rule_name: &str) -> (r: Result<
        Option<Expression>,
        Diagnostic,
    >)
        requires
            old(self).wf(),
        ensures
            final(self).wf(),
            final(self).steps_from(*old(self)),
            final(self).inner_attrs == old(self).inner_attrs,
            r matches Err(d) ==> d.severity == Severity::Fatal,
            r matches Ok(None) ==> *final(self) == *old(self),
            r matches Ok(None) ==> !starts_atom(old(self).tokens@, old(self).pos as int),
            !starts_atom(old(self).tokens@, old(self).pos as int) ==> r matches Ok(None),
            r matches Ok(Some(_)) ==> starts_atom(old(self).tokens@, old(self).pos as int)
                && final(self).pos > old(self).pos,
            r is Err ==> starts_atom(old(self).tokens@, old(self).pos as int) && (old(
                self,
            ).tokens@[old(self).pos as int].tok is LParen || (old(self).tokens@[old(
                self,
            ).pos as int].tok is LBracket && !bracket_ok(old(self).tokens@, old(self).pos as int))),
            leaf_node(old(self).tokens@, old(self).pos as int) matches Some(ln) ==> {
                &&& r matches Ok(Some(e))
                &&& e.node == ln
                &&& e.span == old(self).tokens@[old(self).pos as int].span
                &&& e.ty is None && e.context is None
                &&& final(self).pos == old(self).pos + 1
                &&& final(self).diagnostics == old(self).diagnostics
            },
            old(self).pos < old(self).tokens@.len() && old(self).tokens@[old(
                self,
            ).pos as int].tok is LBracket && bracket_ok(old(self).tokens@, old(self).pos as int)
                ==> {
                let lit = old(self).tokens@[old(self).pos + 1].tok->StrLit_0;
                &&& r matches Ok(Some(e))
                &&& e.node matches ExpressionNode::CharacterClass(ivs) && ivs@ == class_intervals(
                    lit@,
                )
                &&& e.span == old(self).tokens@[old(self).pos + 2].span
                &&& e.ty is None && e.context is None
                &&& final(self).pos == old(self).pos + 3
                &&& class_error(lit@) ==> final(self).diagnostics@.len() == old(
                    self,
                ).diagnostics@.len() + 1 && is_error_diag(
                    final(self).diagnostics@.last(),
                    old(self).tokens@[old(self).pos + 2].span,
                    sep_msg(rule_name@),
                )
                &&& !class_error(lit@) ==> final(self).diagnostics == old(self).diagnostics
            },
            old(self).pos < old(self).tokens@.len() && old(self).tokens@[old(
                self,
            ).pos as int].tok is LBracket && !bracket_ok(old(self).tokens@, old(self).pos as int)
                ==> r is Err,
            old(self).pos < old(self).tokens@.len() && old(self).tokens@[old(
                self,
            ).pos as int].tok is LParen ==> (r matches Ok(Some(_)) ==> final(self).pos > old(
                self,
            ).pos + 1 && final(self).tokens@[final(self).pos - 1].tok is RParen),
        decreases old(self).tokens@.len() - old(self).pos, 1int,
    {
        if self.at_eof() {
            return Ok(None);
        }
        let is_lhs = self.is_rule_lhs();
        let mut is_paren = false;
        match &self.tokens[self.pos].tok {
            Token::StrLit(s) => {
                let lit = s.clone();
                self.bump();
                return Ok(Some(self.last_respan(ExpressionNode::StrLiteral(lit))));
            },
            Token::Dot => {
                self.bump();
                return Ok(Some(self.last_respan(ExpressionNode::AnySingleChar)));
            },
            Token::Ident(id) => {
                if is_lhs {
                    return Ok(None);
                }
                let name = id.clone();
                self.bump();
                return Ok(Some(self.last_respan(ExpressionNode::NonTerminalSymbol(name))));
            },
            Token::LParen => {
                is_paren = true;
            },
            Token::LBracket => {
                is_paren = false;
            },
            _ => {
                return Ok(None);
            },
        }
        if is_paren {
            self.bump();
            let res = match self.parse_rule_rhs(rule_name) {
                Ok(e) => e,
                Err(d) => {
                    return Err(d);
                },
            };
            let close = if self.at_eof() {
                false
            } else {
                match &self.tokens[self.pos].tok {
                    Token::RParen => true,
                    _ => false,
                }
            };
            if close {
                self.bump();
                Ok(Some(res))
            } else {
                Err(self.fatal_error(concat3("In rule ", rule_name, ": expected `)`")))
            }
        } else {
            self.bump();
            let res = match self.parse_char_class(rule_name) {
                Ok(e) => e,
                Err(d) => {
                    return Err(d);
                },
            };
            let close = if self.at_eof() {
                false
            } else {
                match &self.tokens[self.pos].tok {
                    Token::RBracket => true,
                    _ => false,
                }
            };
            if close {
                self.bump();
                Ok(Some(res))
            } else {
                Err(
                    self.fatal_error(
                        concat3(
                            "In rule ",
                            rule_name,
                            ": A character class must always be terminated by `]` and can only contain a string literal (such as in `[\"a-z\"]`",
                        ),
                    ),
                )
            }
        }
    }

    /// Parses an atom and at most one postfix operator: `*` repeats it, `+`
    /// repeats it at least once, `?` makes it optional; postfix operators do
    /// not stack.
    pub fn parse_rule_suffixed(&mut self, rule_name: &str) -> (r: Result<
        Option<Expression>,
        Diagnostic,
    >)
        requires
            old(self).wf(),
        ensures
            final(self).wf(),
            final(self).steps_from(*old(self)),
            final(self).inner_attrs == old(self).inner_attrs,
            r matches Err(d) ==> d.severity == Severity::Fatal,
            r matches Ok(None) ==> *final(self) == *old(self),
            !starts_atom(old(self).tokens@, old(self).pos as int) ==> r matches Ok(None),
            r matches Ok(None) ==> !starts_atom(old(self).tokens@, old(self).pos as int),
            r matches Ok(Some(_)) ==> final(self).pos > old(self).pos,
            leaf_node(old(self).tokens@, old(self).pos as int) matches Some(ln) ==> {
                let toks = old(self).tokens@;
                let p = old(self).pos as int;
                &&& r matches Ok(Some(e))
                &&& final(self).diagnostics == old(self).diagnostics
                &&& if p + 1 < toks.len() && toks[p + 1].tok is Star {
                    &&& e.node matches ExpressionNode::ZeroOrMore(inner) && inner.node == ln
                        && inner.span == toks[p].span && inner.ty is None && inner.context is None
                    &&& final(self).pos == p + 2
                } else if p + 1 < toks.len() && toks[p + 1].tok is Plus {
                    &&& e.node matches ExpressionNode::OneOrMore(inner) && inner.node == ln
                        && inner.span == toks[p].span && inner.ty is None && inner.context is None
                    &&& final(self).pos == p + 2
                } else if p + 1 < toks.len() && toks[p + 1].tok is Question {
                    &&& e.node matches ExpressionNode::Optional(inner) && inner.node == ln
                        && inner.span == toks[p].span && inner.ty is None && inner.context is None
                    &&& final(self).pos == p + 2
                } else {
                    &&& e.node == ln && e.span == toks[p].span
                    &&& e.ty is None && e.context is None
                    &&& final(self).pos == p + 1
                }
            },
            simple_atom_ok(old(self).tokens@, old(self).pos as int) ==> (r matches Ok(Some(e))
                && simple_suffixed_rel(old(self).tokens@, old(self).pos as int, e) && final(self).pos == simple_suffixed_end(old(self).tokens@, old(self).pos as int)),
        decreases old(self).tokens@.len() - old(self).pos, 2int,
    {
        let lo = self.current_span().lo;
        let atom = match self.parse_rule_atom(rule_name) {
            Ok(a) => a,
            Err(d) => {
                return Err(d);
            },
        };
        let expr = match atom {
            Some(e) => e,
            None => {
                return Ok(None);
            },
        };
        let hi = self.current_span().hi;
        if self.at_eof() {
            return Ok(Some(expr));
        }
        let suffix: u8 = match &self.tokens[self.pos].tok {
            Token::Star => 1,
            Token::Plus => 2,
            Token::Question => 3,
            _ => 0,
        };
        if suffix == 1 {
            self.bump();
            Ok(Some(spanned_expr(lo, hi, ExpressionNode::ZeroOrMore(Box::new(expr)))))
        } else if suffix == 2 {
            self.bump();
            Ok(Some(spanned_expr(lo, hi, ExpressionNode::OneOrMore(Box::new(expr)))))
        } else if suffix == 3 {
            self.bump();
            Ok(Some(spanned_expr(lo, hi, ExpressionNode::Optional(Box::new(expr)))))
        } else {
            Ok(Some(expr))
        }
    }

    /// Parses one predicate: the `!` or `&` at the cursor applied to the
    /// suffixed expression after it. A predicate with nothing valid to apply
    /// to is fatal: there is no node to attach it to.
    pub fn parse_prefix(&mut self, rule_name: &str, negative: bool) -> (r: Result<
        Expression,
        Diagnostic,
    >)
        requires
            old(self).wf(),
            starts_prefix(old(self).tokens@, old(self).pos as int),
        ensures
            final(self).wf(),
            final(self).steps_from(*old(self)),
            final(self).inner_attrs == old(self).inner_attrs,
            r matches Err(d) ==> d.severity == Severity::Fatal,
            r matches Ok(e) ==> {
                &&& final(self).pos > old(self).pos
                &&& negative ==> e.node is NotPredicate
                &&& !negative ==> e.node is AndPredicate
                &&& e.ty is None && e.context is None
            },
            !starts_atom(old(self).tokens@, old(self).pos + 1) ==> r is Err,
            (negative <==> old(self).tokens@[old(self).pos as int].tok is Not) && simple_atom_ok(
                old(self).tokens@,
                old(self).pos + 1,
            ) ==> (r matches Ok(e) && simple_item_rel(old(self).tokens@, old(self).pos as int, e)
                && final(self).pos == simple_item_end(old(self).tokens@, old(self).pos as int)),
        decreases old(self).tokens@.len() - old(self).pos, 3int,
    {
        let lo = self.current_span().lo;
        self.bump();
        let suffixed = match self.parse_rule_suffixed(rule_name) {
            Ok(s) => s,
            Err(d) => {
                return Err(d);
            },
        };
        match suffixed {
            Some(expr) => {
                let hi = self.current_span().hi;
                if negative {
                    Ok(spanned_expr(lo, hi, ExpressionNode::NotPredicate(Box::new(expr))))
                } else {
                    Ok(spanned_expr(lo, hi, ExpressionNode::AndPredicate(Box::new(expr))))
                }
            },
            None => {
                let head = concat3("In rule ", rule_name, ": ");
                let pred_name = if negative {
                    "A not predicate (`!expr`)"
                } else {
                    "An and predicate (`&expr`)"
                };
                Err(
                    self.fatal_error(
                        concat3(
                            head.as_str(),
                            pred_name,
                            " is not followed by a valid expression. Do not forget it must be in front of the expression.",
                        ),
                    ),
                )
            },
        }
    }

    /// Parses one prefixed expression: an optional single leading `!` or `&`
    /// applied to a suffixed expression. `Ok(None)` means neither a predicate
    /// nor an atom starts here.
    pub fn parse_rule_prefixed(&mut self, rule_name: &str) -> (r: Result<
        Option<Expression>,
        Diagnostic,
    >)
        requires
            old(self).wf(),
        ensures
            final(self).wf(),
            final(self).steps_from(*old(self)),
            final(self).inner_attrs == old(self).inner_attrs,
            r matches Err(d) ==> d.severity == Severity::Fatal,
            r matches Ok(None) ==> *final(self) == *old(self),
            r matches Ok(None) ==> !(starts_prefix(old(self).tokens@, old(self).pos as int)
                || starts_atom(old(self).tokens@, old(self).pos as int)),
            !(starts_prefix(old(self).tokens@, old(self).pos as int) || starts_atom(
                old(self).tokens@,
                old(self).pos as int,
            )) ==> r matches Ok(None),
            r matches Ok(Some(_)) ==> final(self).pos > old(self).pos,
            starts_prefix(old(self).tokens@, old(self).pos as int) ==> (r matches Ok(Some(e))
                ==> (old(self).tokens@[old(self).pos as int].tok is Not ==> e.node is NotPredicate)
                && (old(self).tokens@[old(self).pos as int].tok is And
                ==> e.node is AndPredicate)),
            starts_prefix(old(self).tokens@, old(self).pos as int) && !starts_atom(
                old(self).tokens@,
                old(self).pos + 1,
            ) ==> r is Err,
            simple_item_ok(old(self).tokens@, old(self).pos as int) ==> (r matches Ok(Some(e))
                && simple_item_rel(old(self).tokens@, old(self).pos as int, e) && final(self).pos
                == simple_item_end(old(self).tokens@, old(self).pos as int)),
        decreases old(self).tokens@.len() - old(self).pos, 4int,
    {
        if self.at_eof() {
            return Ok(None);
        }
        let pred: u8 = match &self.tokens[self.pos].tok {
            Token::Not => 1,
            Token::And => 2,
            _ => 0,
        };
        if pred == 1 {
            match self.parse_prefix(rule_name, true) {
                Ok(e) => Ok(Some(e)),
                Err(d) => Err(d),
            }
        } else if pred == 2 {
            match self.parse_prefix(rule_name, false) {
                Ok(e) => Ok(Some(e)),
                Err(d) => Err(d),
            }
        } else {
            self.parse_rule_suffixed(rule_name)
        }
    }
}

impl Parser {
    /// Parses a maximal run of prefixed expressions into a `Sequence` node;
    /// the run stops exactly where neither a predicate nor an atom starts
    /// (in particular at the identifier that opens the next rule). An empty
    /// run is a non-fatal error, reported and recovered as an empty sequence.
    #[verifier::loop_isolation(false)]
    pub fn parse_rule_seq(&mut self, rule_name: &str) -> (r: Result<Expression, Diagnostic>)
        requires
            old(self).wf(),
        ensures
            final(self).wf(),
            final(self).steps_from(*old(self)),
            final(self).inner_attrs == old(self).inner_attrs,
            r matches Err(d) ==> d.severity == Severity::Fatal,
            r matches Ok(e) ==> e.node is Sequence && e.ty is None && e.context is None,
            r matches Ok(e) ==> !(starts_prefix(old(self).tokens@, final(self).pos as int)
                || starts_atom(old(self).tokens@, final(self).pos as int)),
            r matches Ok(e) ==> (e.node matches ExpressionNode::Sequence(es) && (es@.len() == 0
                <==> !(starts_prefix(old(self).tokens@, old(self).pos as int) || starts_atom(
                old(self).tokens@,
                old(self).pos as int,
            )))),
            !(starts_prefix(old(self).tokens@, old(self).pos as int) || starts_atom(
                old(self).tokens@,
                old(self).pos as int,
            )) ==> {
                &&& r is Ok
                &&& final(self).pos == old(self).pos
                &&& final(self).diagnostics@.len() == old(self).diagnostics@.len() + 1
                &&& is_error_diag(
                    final(self).diagnostics@.last(),
                    Span {
                        lo: span_at(old(self).tokens@, old(self).pos as int).lo,
                        hi: span_at(old(self).tokens@, old(self).pos - 1).hi,
                    },
                    empty_seq_msg(rule_name@),
                )
            },
            starts_prefix(old(self).tokens@, old(self).pos as int) && !starts_atom(
                old(self).tokens@,
                old(self).pos + 1,
            ) ==> r is Err,
            simple_seq(old(self).tokens@, old(self).pos as int) ==> (r matches Ok(e)
                && simple_seq_result(old(self).tokens@, old(self).pos as int, e) && final(self).pos == simple_seq_end(old(self).tokens@, old(self).pos as int)),
        decreases old(self).tokens@.len() - old(self).pos, 5int,
    {
        let lo = self.current_span().lo;
        let mut seq_items: Vec<Expression> = Vec::new();
        let mut stop = false;
        while !stop
            invariant
                self.wf(),
                self.steps_from(*old(self)),
                self.inner_attrs == old(self).inner_attrs,
                seq_items@.len() == 0 && !stop ==> *self == *old(self),
                stop ==> !(starts_prefix(self.tokens@, self.pos as int) || starts_atom(
                    self.tokens@,
                    self.pos as int,
                )),
                stop && seq_items@.len() == 0 ==> *self == *old(self),
                seq_items@.len() > 0 ==> self.pos > old(self).pos,
                seq_items@.len() > 0 ==> (starts_prefix(old(self).tokens@, old(self).pos as int)
                    || starts_atom(old(self).tokens@, old(self).pos as int)),
                (seq_items@.len() > 0 || stop) ==> !(starts_prefix(
                    old(self).tokens@,
                    old(self).pos as int,
                ) && !starts_atom(old(self).tokens@, old(self).pos + 1)),
                simple_seq(old(self).tokens@, old(self).pos as int) ==> {
                    &&& simple_seq(old(self).tokens@, self.pos as int)
                    &&& simple_seq_end(old(self).tokens@, old(self).pos as int) == simple_seq_end(
                        old(self).tokens@,
                        self.pos as int,
                    )
                    &&& simple_items_to(
                        old(self).tokens@,
                        old(self).pos as int,
                        seq_items@,
                        self.pos as int,
                    )
                    &&& (stop ==> self.pos == simple_seq_end(
                        old(self).tokens@,
                        old(self).pos as int,
                    ))
                },
            decreases
                old(self).tokens@.len() - self.pos,
                (if stop { 0int } else { 1int }),
        {
            let ghost cur = self.pos as int;
            let item = match self.parse_rule_prefixed(rule_name) {
                Ok(i) => i,
                Err(d) => {
                    return Err(d);
                },
            };
            match item {
                Some(e) => {
                    proof {
                        if simple_seq(old(self).tokens@, old(self).pos as int) {
                            lemma_simple_items_to_snoc(
                                old(self).tokens@,
                                old(self).pos as int,
                                seq_items@,
                                cur,
                                e,
                            );
                        }
                    }
                    seq_items.push(e);
                },
                None => {
                    stop = true;
                },
            }
        }
        proof {
            if simple_seq(old(self).tokens@, old(self).pos as int) {
                lemma_simple_items_to_complete(
                    old(self).tokens@,
                    old(self).pos as int,
                    seq_items@,
                    self.pos as int,
                );
            }
        }
        let hi = self.last_span().hi;
        if seq_items.len() == 0 {
            let msg = concat3("In rule ", rule_name, ": must define at least one expression.");
            let d = Diagnostic::error(Span { lo, hi }, msg);
            self.diagnostics.push(d);
            proof {
                assert(final(self).diagnostics@.subrange(0, old(self).diagnostics@.len() as int)
                    =~= old(self).diagnostics@);
            }
        }
        Ok(spanned_expr(lo, hi, ExpressionNode::Sequence(seq_items)))
    }

    /// Attaches what may follow one alternative: `> f` wraps it in a semantic
    /// action, `->` hands over to the type annotation; anything else leaves it
    /// untouched.
    pub fn parse_semantic_action_or_ty(&mut self, expr: Expression, rule_name: &str) -> (r: Result<
        Expression,
        Diagnostic,
    >)
        requires
            old(self).wf(),
        ensures
            final(self).wf(),
            final(self).steps_from(*old(self)),
            final(self).inner_attrs == old(self).inner_attrs,
            r matches Err(d) ==> d.severity == Severity::Fatal,
            r matches Ok(e) ==> (e.node is SemanticAction || e.node == expr.node),
            !(old(self).pos < old(self).tokens@.len() && (old(self).tokens@[old(
                self,
            ).pos as int].tok is Gt || old(self).tokens@[old(self).pos as int].tok is RArrow))
                ==> (r matches Ok(e) && e == expr && *final(self) == *old(self)),
            old(self).pos < old(self).tokens@.len() && old(self).tokens@[old(
                self,
            ).pos as int].tok is Gt ==> {
                let toks = old(self).tokens@;
                let p = old(self).pos as int;
                &&& (p + 1 < toks.len() ==> (toks[p + 1].tok matches Token::Ident(f) ==> {
                    &&& r matches Ok(e)
                    &&& e.node matches ExpressionNode::SemanticAction(inner, fname) && *inner
                        == expr && fname@ == f@
                    &&& e.span == toks[p + 1].span
                    &&& e.ty is None && e.context is None
                    &&& final(self).pos == p + 2
                    &&& final(self).diagnostics == old(self).diagnostics
                }))
                &&& (!(p + 1 < toks.len() && toks[p + 1].tok is Ident) ==> r is Err)
            },
            old(self).pos < old(self).tokens@.len() && old(self).tokens@[old(
                self,
            ).pos as int].tok is RArrow ==> {
                let toks = old(self).tokens@;
                let q = old(self).pos + 1;
                &&& (q < toks.len() && toks[q].tok is LParen && q + 1 < toks.len() && toks[q
                    + 1].tok is RParen ==> {
                    &&& r matches Ok(e)
                    &&& e.node == expr.node && e.span == expr.span && e.context == expr.context
                    &&& e.ty == Some(TypeAnnotation::Unit)
                    &&& final(self).pos == q + 2
                    &&& final(self).diagnostics == old(self).diagnostics
                })
                &&& (q < toks.len() && toks[q].tok is LParen && q + 1 < toks.len() && toks[q
                    + 1].tok is Caret && q + 2 < toks.len() && toks[q + 2].tok is RParen ==> {
                    &&& r matches Ok(e)
                    &&& e.node == expr.node && e.span == expr.span && e.context == expr.context
                    &&& e.ty == Some(TypeAnnotation::Invisible)
                    &&& final(self).pos == q + 3
                    &&& final(self).diagnostics == old(self).diagnostics
                })
                &&& (!(q < toks.len() && toks[q].tok is LParen) ==> {
                    &&& r matches Ok(e) && e == expr
                    &&& final(self).pos == q
                    &&& final(self).diagnostics@.len() == old(self).diagnostics@.len() + 1
                    &&& is_error_diag(
                        final(self).diagnostics@.last(),
                        span_at(toks, q),
                        arrow_msg(rule_name@),
                    )
                })
                &&& (r is Err ==> q < toks.len() && toks[q].tok is LParen)
            },
        decreases old(self).tokens@.len() - old(self).pos, 4int,
    {
        if self.at_eof() {
            return Ok(expr);
        }
        let action: u8 = match &self.tokens[self.pos].tok {
            Token::Gt => 1,
            Token::RArrow => 2,
            _ => 0,
        };
        if action == 1 {
            self.bump();
            if self.at_eof() {
                return Err(self.fatal_error(concat3("In rule ", rule_name, ": expected identifier")));
            }
            let fun_name: Option<String> = match &self.tokens[self.pos].tok {
                Token::Ident(f) => Some(f.clone()),
                _ => None,
            };
            match fun_name {
                Some(f) => {
                    self.bump();
                    Ok(self.last_respan(ExpressionNode::SemanticAction(Box::new(expr), f)))
                },
                None => Err(
                    self.fatal_error(concat3("In rule ", rule_name, ": expected identifier")),
                ),
            }
        } else if action == 2 {
            self.bump();
            self.parse_type(expr, rule_name)
        } else {
            Ok(expr)
        }
    }

    /// Parses the `()` or `(^)` after `->` and stores it as the expression's
    /// type annotation; any other token is a non-fatal error that leaves the
    /// annotation unset, except a malformed parenthesis, which is fatal.
    pub fn parse_type(&mut self, expr: Expression, rule_name: &str) -> (r: Result<
        Expression,
        Diagnostic,
    >)
        requires
            old(self).wf(),
        ensures
            final(self).wf(),
            final(self).steps_from(*old(self)),
            final(self).inner_attrs == old(self).inner_attrs,
            r matches Err(d) ==> d.severity == Severity::Fatal,
            r matches Ok(e) ==> e.node == expr.node && e.span == expr.span && e.context
                == expr.context,
            ({
                let toks = old(self).tokens@;
                let q = old(self).pos as int;
                &&& (q < toks.len() && toks[q].tok is LParen && q + 1 < toks.len() && toks[q
                    + 1].tok is RParen ==> {
                    &&& r matches Ok(e)
                    &&& e.node == expr.node && e.span == expr.span && e.context == expr.context
                    &&& e.ty == Some(TypeAnnotation::Unit)
                    &&& final(self).pos == q + 2
                    &&& final(self).diagnostics == old(self).diagnostics
                })
                &&& (q < toks.len() && toks[q].tok is LParen && q + 1 < toks.len() && toks[q
                    + 1].tok is Caret && q + 2 < toks.len() && toks[q + 2].tok is RParen ==> {
                    &&& r matches Ok(e)
                    &&& e.node == expr.node && e.span == expr.span && e.context == expr.context
                    &&& e.ty == Some(TypeAnnotation::Invisible)
                    &&& final(self).pos == q + 3
                    &&& final(self).diagnostics == old(self).diagnostics
                })
                &&& (!(q < toks.len() && toks[q].tok is LParen) ==> {
                    &&& r matches Ok(e) && e == expr
                    &&& final(self).pos == old(self).pos
                    &&& final(self).diagnostics@.len() == old(self).diagnostics@.len() + 1
                    &&& is_error_diag(
                        final(self).diagnostics@.last(),
                        span_at(toks, q),
                        arrow_msg(rule_name@),
                    )
                })
                &&& (r is Err ==> q < toks.len() && toks[q].tok is LParen)
                &&& (q < toks.len() && toks[q].tok is LParen && !(q + 1 < toks.len() && toks[q
                    + 1].tok is RParen) && !(q + 2 < toks.len() && toks[q + 1].tok is Caret
                    && toks[q + 2].tok is RParen) ==> r is Err)
            }),
        decreases old(self).tokens@.len() - old(self).pos, 3int,
    {
        let open = if self.at_eof() {
            false
        } else {
            match &self.tokens[self.pos].tok {
                Token::LParen => true,
                _ => false,
            }
        };
        if open {
            self.bump();
            let invisible = if self.at_eof() {
                false
            } else {
                match &self.tokens[self.pos].tok {
                    Token::Caret => true,
                    _ => false,
                }
            };
            if invisible {
                self.bump();
            }
            let close = if self.at_eof() {
                false
            } else {
                match &self.tokens[self.pos].tok {
                    Token::RParen => true,
                    _ => false,
                }
            };
            if close {
                self.bump();
                let mut e = expr;
                e.ty = Some(
                    if invisible {
                        TypeAnnotation::Invisible
                    } else {
                        TypeAnnotation::Unit
                    },
                );
                Ok(e)
            } else {
                Err(self.fatal_error(concat3("In rule ", rule_name, ": expected `)`")))
            }
        } else {
            let msg = concat3(
                "In rule ",
                rule_name,
                ": Unknown token after `->`. Use the arrow to annotate an expression with the unit type `()` or the invisible type `(^)`.",
            );
            let d = Diagnostic::error(self.current_span(), msg);
            self.diagnostics.push(d);
            proof {
                assert(final(self).diagnostics@.subrange(0, old(self).diagnostics@.len() as int)
                    =~= old(self).diagnostics@);
            }
            Ok(expr)
        }
    }

    /// True when the current token is the choice separator `/`.
    fn next_is_slash(&self) -> (b: bool)
        requires
            self.wf(),
        ensures
            b == (self.pos < self.tokens@.len() && self.tokens@[self.pos as int].tok is Slash),
    {
        if self.at_eof() {
            false
        } else {
            match &self.tokens[self.pos].tok {
                Token::Slash => true,
                _ => false,
            }
        }
    }

    /// Parses `/`-separated alternatives, each a sequence with an optional
    /// trailing semantic action or type annotation. A single alternative is
    /// returned as itself; two or more are wrapped in a `Choice` in
    /// declaration order, so choice binds looser than sequence.
    #[verifier::loop_isolation(false)]
    pub fn parse_rule_choice(&mut self, rule_name: &str) -> (r: Result<Expression, Diagnostic>)
        requires
            old(self).wf(),
        ensures
            final(self).wf(),
            final(self).steps_from(*old(self)),
            final(self).inner_attrs == old(self).inner_attrs,
            r matches Err(d) ==> d.severity == Severity::Fatal,
            r is Ok ==> !(final(self).pos < final(self).tokens@.len() && final(self).tokens@[final(self).pos as int].tok is Slash),
            r matches Ok(e) ==> (e.node matches ExpressionNode::Choice(alts) ==> alts@.len() >= 2),
            starts_prefix(old(self).tokens@, old(self).pos as int) && !starts_atom(
                old(self).tokens@,
                old(self).pos + 1,
            ) ==> r is Err,
            simple_choice(old(self).tokens@, old(self).pos as int) ==> (r matches Ok(e)
                && simple_choice_result(old(self).tokens@, old(self).pos as int, e) && final(self).pos == simple_choice_end(old(self).tokens@, old(self).pos as int)),
        decreases old(self).tokens@.len() - old(self).pos, 6int,
    {
        let ghost toks0 = old(self).tokens@;
        let ghost p0 = old(self).pos as int;
        let lo = self.current_span().lo;
        let mut choices: Vec<Expression> = Vec::new();
        let ghost alt_start = self.pos as int;
        let seq0 = match self.parse_rule_seq(rule_name) {
            Ok(e) => e,
            Err(d) => {
                return Err(d);
            },
        };
        let ghost g_seq0 = seq0;
        let ghost seq_end0 = self.pos as int;
        let ann0 = match self.parse_semantic_action_or_ty(seq0, rule_name) {
            Ok(e) => e,
            Err(d) => {
                return Err(d);
            },
        };
        proof {
            if simple_choice(toks0, p0) {
                assert(simple_alt_ok(toks0, p0));
                assert(seq_end0 == simple_seq_end(toks0, p0));
                assert(simple_alt_result(toks0, p0, ann0));
                assert(self.pos == simple_alt_end(toks0, p0));
            }
        }
        choices.push(ann0);
        while self.next_is_slash()
            invariant
                self.wf(),
                self.steps_from(*old(self)),
                self.inner_attrs == old(self).inner_attrs,
                choices@.len() >= 1,
                choices@[0].node is Sequence || choices@[0].node is SemanticAction,
                simple_choice(toks0, p0) ==> {
                    &&& simple_alts_to(toks0, p0, choices@, self.pos as int)
                    &&& (self.pos < toks0.len() && toks0[self.pos as int].tok is Slash
                        ==> simple_choice(toks0, self.pos + 1))
                },
            decreases self.tokens@.len() - self.pos,
        {
            self.bump();
            let ghost alt_p = self.pos as int;
            let seq = match self.parse_rule_seq(rule_name) {
                Ok(e) => e,
                Err(d) => {
                    return Err(d);
                },
            };
            let ghost g_seq = seq;
            let ghost seq_end = self.pos as int;
            let ann = match self.parse_semantic_action_or_ty(seq, rule_name) {
                Ok(e) => e,
                Err(d) => {
                    return Err(d);
                },
            };
            proof {
                if simple_choice(toks0, p0) {
                    assert(simple_choice(toks0, alt_p));
                    assert(simple_alt_ok(toks0, alt_p));
                    assert(seq_end == simple_seq_end(toks0, alt_p));
                    assert(simple_alt_result(toks0, alt_p, ann));
                    assert(self.pos == simple_alt_end(toks0, alt_p));
                    lemma_simple_alts_to_snoc(toks0, p0, choices@, alt_p - 1, ann);
                }
            }
            choices.push(ann);
        }
        proof {
            if simple_choice(toks0, p0) {
                lemma_simple_alts_to_complete(toks0, p0, choices@, self.pos as int);
            }
        }
        let hi = self.last_span().hi;
        if choices.len() == 1 {
            let e = choices.remove(0);
            Ok(e)
        } else {
            Ok(spanned_expr(lo, hi, ExpressionNode::Choice(choices)))
        }
    }

    /// Parses one rule body: the whole choice grammar.
    pub fn parse_rule_rhs(&mut self, rule_name: &str) -> (r: Result<Expression, Diagnostic>)
        requires
            old(self).wf(),
        ensures
            final(self).wf(),
            final(self).steps_from(*old(self)),
            final(self).inner_attrs == old(self).inner_attrs,
            r matches Err(d) ==> d.severity == Severity::Fatal,
            r matches Ok(e) ==> (e.node matches ExpressionNode::Choice(alts) ==> alts@.len() >= 2),
            starts_prefix(old(self).tokens@, old(self).pos as int) && !starts_atom(
                old(self).tokens@,
                old(self).pos + 1,
            ) ==> r is Err,
            simple_choice(old(self).tokens@, old(self).pos as int) ==> (r matches Ok(e)
                && simple_choice_result(old(self).tokens@, old(self).pos as int, e) && final(self).pos == simple_choice_end(old(self).tokens@, old(self).pos as int)),
        decreases old(self).tokens@.len() - old(self).pos, 7int,
    {
        self.parse_rule_choice(rule_name)
    }

    /// Parses the rule's name.
    pub fn parse_rule_decl(&mut self) -> (r: Result<SpannedIdent, Diagnostic>)
        requires
            old(self).wf(),
        ensures
            final(self).wf(),
            final(self).steps_from(*old(self)),
            final(self).inner_attrs == old(self).inner_attrs,
            r matches Err(d) ==> d.severity == Severity::Fatal && *final(self) == *old(self),
            old(self).pos < old(self).tokens@.len() ==> (old(self).tokens@[old(
                self,
            ).pos as int].tok matches Token::Ident(id) ==> {
                &&& r matches Ok(si)
                &&& si.node@ == id@
                &&& si.span == old(self).tokens@[old(self).pos as int].span
                &&& final(self).pos == old(self).pos + 1
                &&& final(self).diagnostics == old(self).diagnostics
            }),
            !(old(self).pos < old(self).tokens@.len() && old(self).tokens@[old(
                self,
            ).pos as int].tok is Ident) ==> r is Err,
    {
        if self.at_eof() {
            return Err(self.fatal_error("expected identifier".to_owned()));
        }
        let sp = self.current_span();
        let name: Option<String> = match &self.tokens[self.pos].tok {
            Token::Ident(id) => Some(id.clone()),
            _ => None,
        };
        match name {
            Some(node) => {
                self.bump();
                Ok(SpannedIdent { node, span: sp })
            },
            None => Err(self.fatal_error("expected identifier".to_owned())),
        }
    }

    /// Parses one rule: outer attributes, the name, `=`, and the body.
    #[verifier::loop_isolation(false)]
    pub fn parse_rule(&mut self) -> (r: Result<Rule, Diagnostic>)
        requires
            old(self).wf(),
        ensures
            final(self).wf(),
            final(self).steps_from(*old(self)),
            final(self).inner_attrs == old(self).inner_attrs,
            r matches Err(d) ==> d.severity == Severity::Fatal,
            r is Ok ==> final(self).pos > old(self).pos,
            old(self).pos < old(self).tokens@.len() ==> (old(self).tokens@[old(
                self,
            ).pos as int].tok matches Token::Ident(id) ==> (r matches Ok(rule) ==> rule.name.node@
                == id@ && rule.name.span == old(self).tokens@[old(self).pos as int].span
                && rule.attributes@.len() == 0)),
            old(self).pos < old(self).tokens@.len() && old(self).tokens@[old(
                self,
            ).pos as int].tok is Ident && !(old(self).pos + 1 < old(self).tokens@.len() && old(
                self,
            ).tokens@[old(self).pos + 1].tok is Eq) ==> r is Err,
            starts_rule_shape(old(self).tokens@, old(self).pos as int) && starts_prefix(
                old(self).tokens@,
                old(self).pos + 2,
            ) && !starts_atom(old(self).tokens@, old(self).pos + 3) ==> r is Err,
            simple_rule(old(self).tokens@, old(self).pos as int) ==> (r matches Ok(rule)
                && simple_rule_result(old(self).tokens@, old(self).pos as int, rule) && final(self).pos == simple_rule_end(old(self).tokens@, old(self).pos as int)),
            r matches Ok(rule) ==> {
                let toks = old(self).tokens@;
                let p = old(self).pos as int;
                let pa = p + rule.attributes@.len();
                &&& attr_run(toks, p, rule.attributes@, true)
                &&& !(pa < toks.len() && toks[pa].tok is OuterAttr)
                &&& pa < toks.len()
                &&& (toks[pa].tok matches Token::Ident(id) && rule.name.node@ == id@)
                &&& rule.name.span == toks[pa].span
                &&& pa + 1 < toks.len() && toks[pa + 1].tok is Eq
            },
    {
        let ghost toks0 = old(self).tokens@;
        let ghost p0 = old(self).pos as int;
        let mut outer_attrs: Vec<String> = Vec::new();
        let mut scanning = true;
        while scanning
            invariant
                self.wf(),
                self.steps_from(*old(self)),
                self.inner_attrs == old(self).inner_attrs,
                self.diagnostics == old(self).diagnostics,
                scanning && outer_attrs@.len() == 0 ==> *self == *old(self),
                !scanning ==> !(self.pos < self.tokens@.len() && self.tokens@[self.pos as int].tok
                    is OuterAttr),
                !scanning && outer_attrs@.len() == 0 ==> *self == *old(self),
                !(old(self).pos < old(self).tokens@.len() && old(self).tokens@[old(
                    self,
                ).pos as int].tok is OuterAttr) ==> (*self == *old(self) && outer_attrs@.len()
                    == 0),
                attr_run(toks0, p0, outer_attrs@, true),
                self.pos == p0 + outer_attrs@.len(),
                !scanning ==> !(self.pos < self.tokens@.len() && self.tokens@[self.pos as int].tok
                    is OuterAttr),
            decreases
                self.tokens@.len() - self.pos,
                (if scanning { 1int } else { 0int }),
        {
            if self.at_eof() {
                scanning = false;
            } else {
                let attr: Option<String> = match &self.tokens[self.pos].tok {
                    Token::OuterAttr(a) => Some(a.clone()),
                    _ => None,
                };
                match attr {
                    Some(a) => {
                        proof {
                            lemma_attr_run_snoc(toks0, p0, outer_attrs@, a, true);
                        }
                        outer_attrs.push(a);
                        self.bump();
                    },
                    None => {
                        scanning = false;
                    },
                }
            }
        }
        let name = match self.parse_rule_decl() {
            Ok(n) => n,
            Err(d) => {
                return Err(d);
            },
        };
        let eq = if self.at_eof() {
            false
        } else {
            match &self.tokens[self.pos].tok {
                Token::Eq => true,
                _ => false,
            }
        };
        if !eq {
            return Err(self.fatal_error("expected `=`".to_owned()));
        }
        self.bump();
        let rule_name = name.node.clone();
        let body = match self.parse_rule_rhs(rule_name.as_str()) {
            Ok(b) => b,
            Err(d) => {
                return Err(d);
            },
        };
        Ok(Rule { name, attributes: outer_attrs, def: body })
    }

    /// Collects the file-level attributes at the cursor onto the grammar.
    #[verifier::loop_isolation(false)]
    pub fn parse_inner_attributes(&mut self)
        requires
            old(self).wf(),
        ensures
            final(self).wf(),
            final(self).steps_from(*old(self)),
            final(self).diagnostics == old(self).diagnostics,
            !(final(self).pos < final(self).tokens@.len() && final(self).tokens@[final(self).pos as int].tok is InnerAttr),
            final(self).inner_attrs@.len() >= old(self).inner_attrs@.len(),
            final(self).inner_attrs@.subrange(0, old(self).inner_attrs@.len() as int) == old(
                self,
            ).inner_attrs@,
            final(self).pos == old(self).pos <==> final(self).inner_attrs == old(self).inner_attrs,
            !(old(self).pos < old(self).tokens@.len() && old(self).tokens@[old(
                self,
            ).pos as int].tok is InnerAttr) ==> *final(self) == *old(self),
            attr_run(
                old(self).tokens@,
                old(self).pos as int,
                final(self).inner_attrs@.skip(old(self).inner_attrs@.len() as int),
                false,
            ),
            final(self).pos == old(self).pos + final(self).inner_attrs@.len() - old(
                self,
            ).inner_attrs@.len(),
    {
        let mut scanning = true;
        while scanning
            invariant
                self.wf(),
                self.steps_from(*old(self)),
                self.diagnostics == old(self).diagnostics,
                self.inner_attrs@.len() >= old(self).inner_attrs@.len(),
                self.inner_attrs@.subrange(0, old(self).inner_attrs@.len() as int) == old(
                    self,
                ).inner_attrs@,
                self.pos == old(self).pos <==> self.inner_attrs == old(self).inner_attrs,
                self.pos > old(self).pos ==> self.inner_attrs@.len() > old(
                    self,
                ).inner_attrs@.len(),
                !scanning ==> !(self.pos < self.tokens@.len() && self.tokens@[self.pos as int].tok
                    is InnerAttr),
                !(old(self).pos < old(self).tokens@.len() && old(self).tokens@[old(
                    self,
                ).pos as int].tok is InnerAttr) ==> *self == *old(self),
                attr_run(
                    old(self).tokens@,
                    old(self).pos as int,
                    self.inner_attrs@.skip(old(self).inner_attrs@.len() as int),
                    false,
                ),
                self.pos == old(self).pos + self.inner_attrs@.len() - old(
                    self,
                ).inner_attrs@.len(),
            decreases
                self.tokens@.len() - self.pos,
                (if scanning { 1int } else { 0int }),
        {
            if self.at_eof() {
                scanning = false;
            } else {
                let attr: Option<String> = match &self.tokens[self.pos].tok {
                    Token::InnerAttr(a) => Some(a.clone()),
                    _ => None,
                };
                match attr {
                    Some(a) => {
                        let ghost before = self.inner_attrs@;
                        proof {
                            lemma_attr_run_snoc(
                                old(self).tokens@,
                                old(self).pos as int,
                                before.skip(old(self).inner_attrs@.len() as int),
                                a,
                                false,
                            );
                        }
                        self.inner_attrs.push(a);
                        self.bump();
                        proof {
                            assert(self.inner_attrs@.subrange(
                                0,
                                old(self).inner_attrs@.len() as int,
                            ) =~= old(self).inner_attrs@);
                            assert(self.inner_attrs@.skip(old(self).inner_attrs@.len() as int)
                                =~= before.skip(old(self).inner_attrs@.len() as int).push(a));
                        }
                    },
                    None => {
                        scanning = false;
                    },
                }
            }
        }
    }

    /// The top-level loop: a free interleaving of host items and rules, with
    /// file-level attributes collected along the way. Consumes every token or
    /// aborts on the first fatal error.
    #[verifier::loop_isolation(false)]
    pub fn parse_blocks(&mut self) -> (r: Result<(Vec<Rule>, Vec<RItem>), Diagnostic>)
        requires
            old(self).wf(),
        ensures
            final(self).wf(),
            final(self).steps_from(*old(self)),
            r matches Err(d) ==> d.severity == Severity::Fatal,
            r is Ok ==> final(self).pos == final(self).tokens@.len(),
            starts_rule_shape(old(self).tokens@, old(self).pos as int) && starts_prefix(
                old(self).tokens@,
                old(self).pos + 2,
            ) && !starts_atom(old(self).tokens@, old(self).pos + 3) ==> r is Err,
            simple_grammar(old(self).tokens@, old(self).pos as int) ==> (r matches Ok(pair)
                && simple_rules(old(self).tokens@, old(self).pos as int, pair.0@)
                && pair.1@.len() == 0 && final(self).inner_attrs == old(self).inner_attrs),
    {
        let ghost toks0 = old(self).tokens@;
        let ghost p0 = old(self).pos as int;
        let ghost bad_pred = starts_rule_shape(toks0, p0) && starts_prefix(toks0, p0 + 2)
            && !starts_atom(toks0, p0 + 3);
        let mut rules: Vec<Rule> = Vec::new();
        let mut rust_items: Vec<RItem> = Vec::new();
        while !self.at_eof()
            invariant
                self.wf(),
                self.steps_from(*old(self)),
                bad_pred ==> *self == *old(self),
                simple_grammar(toks0, p0) ==> {
                    &&& simple_grammar(toks0, self.pos as int)
                    &&& self.pos as int == toks0.len() || starts_rule_shape(
                        toks0,
                        self.pos as int,
                    )
                    &&& simple_rules_to(toks0, p0, rules@, self.pos as int)
                    &&& rust_items@.len() == 0
                    &&& self.inner_attrs == old(self).inner_attrs
                },
            decreases self.tokens@.len() - self.pos,
        {
            let ghost cur = self.pos as int;
            self.parse_inner_attributes();
            if self.at_eof() {
                break;
            }
            let item: Option<RItem> = match &self.tokens[self.pos].tok {
                Token::HostItem(it) => Some(it.duplicate()),
                _ => None,
            };
            match item {
                Some(it) => {
                    rust_items.push(it);
                    self.bump();
                },
                None => {
                    let rule = match self.parse_rule() {
                        Ok(ru) => ru,
                        Err(d) => {
                            return Err(d);
                        },
                    };
                    proof {
                        if simple_grammar(toks0, p0) {
                            lemma_simple_rules_to_snoc(toks0, p0, rules@, cur, rule);
                        }
                    }
                    rules.push(rule);
                },
            }
        }
        proof {
            if simple_grammar(toks0, p0) {
                lemma_simple_rules_to_complete(toks0, p0, rules@, self.pos as int);
            }
        }
        Ok((rules, rust_items))
    }

    /// Parses a whole grammar: every rule and host item of the token stream,
    /// under the grammar's name, with the file-level attributes collected on
    /// the way. Returns the fatal diagnostic instead if one aborts the parse;
    /// non-fatal reports are in the diagnostics sink either way.
    #[verifier::loop_isolation(false)]
    pub fn parse_grammar(&mut self) -> (r: Result<Grammar, Diagnostic>)
        requires
            old(self).wf(),
        ensures
            final(self).wf(),
            final(self).steps_from(*old(self)),
            r matches Err(d) ==> d.severity == Severity::Fatal,
            r matches Ok(g) ==> {
                &&& final(self).pos == final(self).tokens@.len()
                &&& g.name@ == final(self).grammar_name@
                &&& g.attributes@ == final(self).inner_attrs@
                &&& g.rust_functions@.len() == 0
            },
            starts_rule_shape(old(self).tokens@, old(self).pos as int) && starts_prefix(
                old(self).tokens@,
                old(self).pos + 2,
            ) && !starts_atom(old(self).tokens@, old(self).pos + 3) ==> r is Err,
            simple_grammar(old(self).tokens@, old(self).pos as int) ==> (r matches Ok(g)
                && simple_rules(old(self).tokens@, old(self).pos as int, g.rules@)
                && g.rust_items@.len() == 0),
    {
        let blocks = match self.parse_blocks() {
            Ok(b) => b,
            Err(d) => {
                return Err(d);
            },
        };
        let (rules, rust_items) = blocks;
        let mut attributes: Vec<String> = Vec::new();
        let mut i: usize = 0;
        while i < self.inner_attrs.len()
            invariant
                i <= self.inner_attrs@.len(),
                attributes@ =~= self.inner_attrs@.subrange(0, i as int),
            decreases self.inner_attrs@.len() - i,
        {
            let a = self.inner_attrs[i].clone();
            attributes.push(a);
            i += 1;
        }
        proof {
            assert(self.inner_attrs@.subrange(0, self.inner_attrs@.len() as int)
                =~= self.inner_attrs@);
            assert(attributes@ =~= self.inner_attrs@);
        }
        let name = self.grammar_name.clone();
        Ok(
            Grammar {
                name,
                rules,
                rust_functions: Vec::new(),
                rust_items,
                attributes,
            },
        )
    }
}

/// The first two tokens declare a rule: an identifier followed by `=`.
pub open spec fn starts_rule_shape(toks: Seq<SpannedToken>, p: int) -> bool {
    &&& 0 <= p
    &&& p + 1 < toks.len()
    &&& toks[p].tok is Ident
    &&& toks[p + 1].tok is Eq
}


} // verus!
