//! The tokens of a source text.
//!
//! A lexer turns a source text into a list of [`LexItem`]s. What only the lexer's side can
//! compute, the values of numbers and the text of a line's tail, comes with the tokens.

use crate::entities::{Ebb, Value};
use crate::error::{Error, Failure, Location};
use crate::text::same_text;
use crate::types::Type;
use vstd::prelude::*;

verus! {

/// Text that looks like an integer.
#[derive(Copy, Clone, PartialEq, Eq, Debug)]
pub struct IntegerText<'a> {
    pub text: &'a str,
    /// The text as a 64-bit immediate, or a message that says why it is none.
    pub imm64: Result<i64, &'a str>,
}

/// Text that looks like a floating point number.
#[derive(Copy, Clone, PartialEq, Eq, Debug)]
pub struct FloatText<'a> {
    pub text: &'a str,
    /// The bits of the text as a 32-bit float, or a message that says why it is none.
    pub ieee32: Result<u32, &'a str>,
    /// The bits of the text as a 64-bit float, or a message that says why it is none.
    pub ieee64: Result<u64, &'a str>,
}

/// A token.
#[derive(Copy, Clone, PartialEq, Eq, Debug)]
pub enum Token<'a> {
    /// A comment, from its semicolon to the end of the line.
    Comment(&'a str),
    LPar,
    RPar,
    LBrace,
    RBrace,
    Comma,
    Dot,
    Colon,
    Equal,
    /// "->"
    Arrow,
    Float(FloatText<'a>),
    Integer(IntegerText<'a>),
    Type(Type),
    /// v12, vx7
    Value(Value),
    /// ebb3
    Ebb(Ebb),
    /// ss3
    StackSlot(u32),
    /// jt2
    JumpTable(u32),
    /// fn2
    FuncRef(u32),
    /// sig2
    SigRef(u32),
    /// Any other word.
    Identifier(&'a str),
}

impl<'a> Token<'a> {
    /// Are the two tokens the same? Payloads that are texts are compared as texts.
    pub open spec fn same(self, other: Token<'a>) -> bool {
        match (self, other) {
            (Token::Comment(a), Token::Comment(b)) => a@ == b@,
            (Token::Float(a), Token::Float(b)) => a.text@ == b.text@,
            (Token::Integer(a), Token::Integer(b)) => a.text@ == b.text@,
            (Token::Identifier(a), Token::Identifier(b)) => a@ == b@,
            _ => self == other,
        }
    }
}

/// Compare two tokens.
pub fn same_token<'a>(token: Token<'a>, other: Token<'a>) -> (same: bool)
    ensures
        same == token.same(other),
{
    match (token, other) {
        (Token::LPar, Token::LPar) => true,
        (Token::RPar, Token::RPar) => true,
        (Token::LBrace, Token::LBrace) => true,
        (Token::RBrace, Token::RBrace) => true,
        (Token::Comma, Token::Comma) => true,
        (Token::Dot, Token::Dot) => true,
        (Token::Colon, Token::Colon) => true,
        (Token::Equal, Token::Equal) => true,
        (Token::Arrow, Token::Arrow) => true,
        (Token::Comment(a), Token::Comment(b)) => same_text(a, b),
        (Token::Float(a), Token::Float(b)) => same_text(a.text, b.text),
        (Token::Integer(a), Token::Integer(b)) => same_text(a.text, b.text),
        (Token::Type(a), Token::Type(b)) => a == b,
        (Token::Value(a), Token::Value(b)) => a == b,
        (Token::Ebb(a), Token::Ebb(b)) => a == b,
        (Token::StackSlot(a), Token::StackSlot(b)) => a == b,
        (Token::JumpTable(a), Token::JumpTable(b)) => a == b,
        (Token::FuncRef(a), Token::FuncRef(b)) => a == b,
        (Token::SigRef(a), Token::SigRef(b)) => a == b,
        (Token::Identifier(a), Token::Identifier(b)) => same_text(a, b),
        _ => false,
    }
}

/// The token that a parser looks at, once it has looked for one. It is no comment.
#[derive(Copy, Clone)]
pub struct Lookahead<'a> {
    pub(crate) token: Option<Token<'a>>,
}

impl<'a> Lookahead<'a> {
    #[verifier::type_invariant]
    spec fn is_no_comment(self) -> bool {
        !(self.token matches Some(Token::Comment(_)))
    }

    /// No token yet.
    pub(crate) fn nothing() -> (r: Lookahead<'a>)
        ensures
            r.token is None,
    {
        Lookahead { token: None }
    }

    /// A token.
    pub(crate) fn at(token: Token<'a>) -> (r: Lookahead<'a>)
        requires
            !(token is Comment),
        ensures
            r.token == Some(token),
    {
        Lookahead { token: Some(token) }
    }

    /// The token, if there is one.
    pub(crate) fn get(&self) -> (token: Option<Token<'a>>)
        ensures
            token == self.token,
            !(token matches Some(Token::Comment(_))),
    {
        proof {
            use_type_invariant(self);
        }
        self.token
    }
}

/// What a lexer says about a piece of text that is no token.
#[derive(Copy, Clone, PartialEq, Eq, Debug)]
pub struct LexError<'a> {
    pub message: &'a str,
}

/// A lexer error with its place.
#[derive(Copy, Clone, PartialEq, Eq, Debug)]
pub struct LocatedError<'a> {
    pub error: LexError<'a>,
    pub location: Location,
}

impl<'a> LocatedError<'a> {
    /// The error that a reader reports for it: the message of the lexer.
    pub open spec fn failure(self) -> Failure {
        Failure { location: self.location, message: self.error.message@ }
    }

    /// Report the message of the lexer.
    pub fn report(&self) -> (e: Error)
        ensures
            e@ == self.failure(),
    {
        Error::new(self.location, self.error.message)
    }
}

/// A token, or a lexer error, with its place. No token extends over more than one line.
#[derive(Copy, Clone, PartialEq, Eq, Debug)]
pub struct LexItem<'a> {
    pub content: Result<Token<'a>, LexError<'a>>,
    pub location: Location,
    /// The text that follows the item on its line.
    pub tail: &'a str,
}

} // verus!
