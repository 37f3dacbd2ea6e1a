//! The token stream the parser consumes. The host lexer has already resolved
//! string escapes, bundled attributes, and pre-parsed host-language items
//! into single opaque tokens.

use vstd::prelude::*;
use crate::ast::{RItem, Span};

verus! {

/// One lexed token of the grammar source.
#[derive(Clone, Debug, PartialEq, Eq)]
pub enum Token {
    /// An identifier that is not a keyword.
    Ident(String),
    /// A string literal, escapes already resolved.
    StrLit(String),
    /// `.`
    Dot,
    /// `=`
    Eq,
    /// `/`
    Slash,
    /// `*`
    Star,
    /// `+`
    Plus,
    /// `?`
    Question,
    /// `!`
    Not,
    /// `&`
    And,
    /// `>`
    Gt,
    /// `->`
    RArrow,
    /// `^`
    Caret,
    /// `(`
    LParen,
    /// `)`
    RParen,
    /// `[`
    LBracket,
    /// `]`
    RBracket,
    /// A file-level attribute, carried opaquely onto the grammar.
    InnerAttr(String),
    /// An attribute attached to the next rule, carried opaquely.
    OuterAttr(String),
    /// A host-language item, pre-parsed by the host and passed through.
    HostItem(RItem),
}

/// A token together with its source location.
#[derive(Clone, Debug, PartialEq, Eq)]
pub struct SpannedToken {
    pub tok: Token,
    pub span: Span,
}

} // verus!
