//! The parser.

use crate::entities::{AnyEntity, Ebb, Value};
use crate::error::{plain, Error, Failure, Location};
use crate::function::{ArgumentExtension, ArgumentType};
use crate::instructions::{position_of_name, InstructionSet};
use crate::reading::{lemma_fill, skip_items, ParserState};
use crate::testfile::Comment;
use crate::text::{parse_u8, same_text};
use crate::token::{same_token, LexItem, LocatedError, Lookahead, Token};
use crate::types::Type;
use vstd::prelude::*;
use vstd::slice::slice_subrange;

verus! {

broadcast use lemma_fill;

/// A parser for the tokens of a file.
pub struct Parser<'a, 's> {
    pub(crate) isa: &'a InstructionSet<'a>,
    pub(crate) items: &'s [LexItem<'a>],
    pub(crate) lex_error: Option<LocatedError<'a>>,
    pub(crate) lookahead: Lookahead<'a>,
    pub(crate) tail: &'a str,
    pub(crate) loc: Location,
    pub(crate) comment_entity: Option<AnyEntity>,
    pub(crate) comments: Vec<Comment<'a>>,
}

impl<'a, 's> View for Parser<'a, 's> {
    type V = ParserState<'a>;

    open(crate) spec fn view(&self) -> ParserState<'a> {
        ParserState {
            isa: self.isa,
            items: self.items@,
            lex_error: self.lex_error,
            lookahead: self.lookahead.token,
            tail: self.tail,
            loc: self.loc,
            comment_entity: self.comment_entity,
            comments: self.comments@,
        }
    }
}

impl<'a, 's> Parser<'a, 's> {
    /// Create a new parser which reads `items`.
    pub fn new(items: &'s [LexItem<'a>], isa: &'a InstructionSet<'a>) -> (parser: Parser<'a, 's>)
        ensures
            parser@ == ParserState::start(isa, items@),
    {
        Parser {
            isa,
            items,
            lex_error: None,
            lookahead: Lookahead::nothing(),
            tail: "",
            loc: Location { line_number: 0 },
            comment_entity: None,
            comments: Vec::new(),
        }
    }

    /// The last error of the lexer that the parser met.
    pub fn lex_error(&self) -> (error: Option<LocatedError<'a>>)
        ensures
            error == self@.lex_error,
    {
        self.lex_error
    }

    /// Consume the current lookahead token and return it.
    pub(crate) fn consume(&mut self) -> (token: Token<'a>)
        requires
            old(self)@.lookahead is Some,
        ensures
            old(self)@.lookahead == Some(token),
            final(self)@ == (ParserState { lookahead: None, ..old(self)@ }),
    {
        let token = self.lookahead.get().unwrap();
        self.lookahead = Lookahead::nothing();
        token
    }

    /// Consume the whole line following the current lookahead token. Return the text of the line
    /// tail.
    pub(crate) fn consume_line(&mut self) -> (rest: &'a str)
        requires
            old(self)@.lookahead is Some,
        ensures
            rest == old(self)@.tail,
            final(self)@ == old(self)@.eat_line(),
    {
        let rest = self.tail;
        let line: usize = self.loc.line_number;
        while self.items.len() > 0 && self.items[0].location.line_number == line
            invariant
                skip_items(self.items@, line) == skip_items(old(self)@.items, line),
                self@ == (ParserState { items: self.items@, ..old(self)@ }),
            decreases self.items@.len(),
        {
            self.items = slice_subrange(self.items, 1, self.items.len());
        }
        self.consume();
        rest
    }

    /// Get the current lookahead token, after making sure there is one.
    pub(crate) fn token(&mut self) -> (token: Option<Token<'a>>)
        ensures
            token == old(self)@.peek(),
            final(self)@ == old(self)@.fill(),
            !(token matches Some(Token::Comment(_))),
    {
        while self.lookahead.get().is_none() && self.items.len() > 0
            invariant
                self@.fill() == old(self)@.fill(),
            decreases self.items@.len(),
        {
            let item = self.items[0];
            self.items = slice_subrange(self.items, 1, self.items.len());
            self.loc = item.location;
            match item.content {
                Ok(Token::Comment(text)) => {
                    if let Some(entity) = self.comment_entity {
                        self.comments.push(Comment { entity, text });
                    }
                },
                Ok(token) => {
                    self.lookahead = Lookahead::at(token);
                    self.tail = item.tail;
                },
                Err(error) => {
                    self.lex_error = Some(LocatedError { error, location: item.location });
                    return None;
                },
            }
        }
        self.lookahead.get()
    }

    /// Begin gathering comments associated with `entity`.
    pub(crate) fn gather_comments(&mut self, entity: AnyEntity)
        ensures
            final(self)@ == old(self)@.gather(entity),
    {
        self.comment_entity = Some(entity);
    }

    /// Get the comments gathered so far, clearing out the internal list.
    pub(crate) fn take_comments(&mut self) -> (comments: Vec<Comment<'a>>)
        ensures
            comments@ == old(self)@.comments,
            final(self)@ == (ParserState { comments: seq![], ..old(self)@ }),
    {
        let mut comments: Vec<Comment<'a>> = Vec::new();
        std::mem::swap(&mut comments, &mut self.comments);
        comments
    }

    /// Rewrite the entity of the last added comments from `from` to `to`. Also switch to
    /// collecting future comments for `to`.
    pub(crate) fn rewrite_last_comment_entities(&mut self, from: AnyEntity, to: AnyEntity)
        ensures
            final(self)@ == old(self)@.retarget(from, to),
    {
        let ghost before = self.comments@;
        let ghost goal = self@.retarget(from, to).comments;
        let mut i: usize = self.comments.len();
        while i > 0 && self.comments[i - 1].entity == from
            invariant
                before == old(self)@.comments,
                goal == old(self)@.retarget(from, to).comments,
                i <= before.len(),
                self.comments@.len() == before.len(),
                self@ == (ParserState { comments: self.comments@, ..old(self)@ }),
                forall|k: int| 0 <= k < i ==> self.comments@[k] == before[k],
                forall|k: int| i <= k < before.len() ==> (#[trigger] before[k]).entity == from,
                forall|k: int| i <= k < before.len() ==> self.comments@[k] == goal[k],
            decreases i,
        {
            i -= 1;
            let text = self.comments[i].text;
            self.comments[i] = Comment { entity: to, text };
        }
        self.comment_entity = Some(to);
        assert(i > 0 ==> before[i - 1] == self.comments@[i - 1]);
        assert(self.comments@ =~= goal);
    }

    /// An error at the current location.
    pub(crate) fn error(&self, message: &str) -> (e: Error)
        ensures
            e@ == self@.failure(message@),
    {
        Error::new(self.loc, message)
    }

    /// Match and consume a token.
    pub(crate) fn match_token(&mut self, want: Token<'a>, err_msg: &str) -> (r: Result<
        Token<'a>,
        Error,
    >)
        ensures
            (plain(r), final(self)@) == old(self)@.expect(want, err_msg@),
    {
        if let Some(token) = self.token() {
            if same_token(token, want) {
                return Ok(self.consume());
            }
        }
        Err(self.error(err_msg))
    }

    /// If the next token is a `want`, consume it, otherwise do nothing.
    pub(crate) fn optional(&mut self, want: Token<'a>) -> (found: bool)
        ensures
            (found, final(self)@) == old(self)@.optional(want),
    {
        if let Some(token) = self.token() {
            if same_token(token, want) {
                self.consume();
                return true;
            }
        }
        false
    }

    /// Is the next token this word?
    pub(crate) fn at_word(&mut self, want: &str) -> (found: bool)
        ensures
            found == old(self)@.at_word(want@),
            final(self)@ == old(self)@.fill(),
    {
        if let Some(Token::Identifier(text)) = self.token() {
            same_text(text, want)
        } else {
            false
        }
    }

    /// Match and consume a specific identifier string. Used for pseudo-keywords like "stack_slot"
    /// that only appear in certain contexts.
    pub(crate) fn match_identifier(&mut self, want: &str, err_msg: &str) -> (r: Result<
        Token<'a>,
        Error,
    >)
        ensures
            (plain(r), final(self)@) == old(self)@.expect_word(want@, err_msg@),
    {
        if self.at_word(want) {
            Ok(self.consume())
        } else {
            Err(self.error(err_msg))
        }
    }

    /// Match and consume a type.
    pub(crate) fn match_type(&mut self, err_msg: &str) -> (r: Result<Type, Error>)
        ensures
            (plain(r), final(self)@) == old(self)@.match_type(err_msg@),
    {
        if let Some(Token::Type(t)) = self.token() {
            self.consume();
            Ok(t)
        } else {
            Err(self.error(err_msg))
        }
    }

    /// Match and consume a stack slot reference.
    pub(crate) fn match_ss(&mut self, err_msg: &str) -> (r: Result<u32, Error>)
        ensures
            (plain(r), final(self)@) == old(self)@.match_ss(err_msg@),
    {
        if let Some(Token::StackSlot(ss)) = self.token() {
            self.consume();
            Ok(ss)
        } else {
            Err(self.error(err_msg))
        }
    }

    /// Match and consume a function reference.
    pub(crate) fn match_fn(&mut self, err_msg: &str) -> (r: Result<u32, Error>)
        ensures
            (plain(r), final(self)@) == old(self)@.match_fn(err_msg@),
    {
        if let Some(Token::FuncRef(fnref)) = self.token() {
            self.consume();
            Ok(fnref)
        } else {
            Err(self.error(err_msg))
        }
    }

    /// Match and consume a signature reference.
    pub(crate) fn match_sig(&mut self, err_msg: &str) -> (r: Result<u32, Error>)
        ensures
            (plain(r), final(self)@) == old(self)@.match_sig(err_msg@),
    {
        if let Some(Token::SigRef(sigref)) = self.token() {
            self.consume();
            Ok(sigref)
        } else {
            Err(self.error(err_msg))
        }
    }

    /// Match and consume a jump table reference.
    pub(crate) fn match_jt(&mut self) -> (r: Result<u32, Error>)
        ensures
            (plain(r), final(self)@) == old(self)@.match_jt(),
    {
        if let Some(Token::JumpTable(jt)) = self.token() {
            self.consume();
            Ok(jt)
        } else {
            Err(self.error("expected jump table number: jt«n»"))
        }
    }

    /// Match and consume an ebb reference.
    pub(crate) fn match_ebb(&mut self, err_msg: &str) -> (r: Result<Ebb, Error>)
        ensures
            (plain(r), final(self)@) == old(self)@.match_ebb(err_msg@),
    {
        if let Some(Token::Ebb(ebb)) = self.token() {
            self.consume();
            Ok(ebb)
        } else {
            Err(self.error(err_msg))
        }
    }

    /// Match and consume a value reference, direct or vtable. This does not convert from the
    /// source value numbering to our in-memory value numbering.
    pub(crate) fn match_value(&mut self, err_msg: &str) -> (r: Result<Value, Error>)
        ensures
            (plain(r), final(self)@) == old(self)@.match_value(err_msg@),
    {
        if let Some(Token::Value(v)) = self.token() {
            self.consume();
            Ok(v)
        } else {
            Err(self.error(err_msg))
        }
    }

    /// Match and consume a 64-bit immediate.
    pub(crate) fn match_imm64(&mut self, err_msg: &str) -> (r: Result<i64, Error>)
        ensures
            (plain(r), final(self)@) == old(self)@.match_imm64(err_msg@),
    {
        if let Some(Token::Integer(t)) = self.token() {
            self.consume();
            match t.imm64 {
                Ok(n) => Ok(n),
                Err(message) => Err(self.error(message)),
            }
        } else {
            Err(self.error(err_msg))
        }
    }

    /// Match and consume a u8 immediate. This is used for lane numbers in SIMD vectors.
    pub(crate) fn match_uimm8(&mut self, err_msg: &str) -> (r: Result<u8, Error>)
        ensures
            (plain(r), final(self)@) == old(self)@.match_uimm8(err_msg@),
    {
        if let Some(Token::Integer(t)) = self.token() {
            self.consume();
            match parse_u8(t.text) {
                Some(n) => Ok(n),
                None => Err(self.error("expected u8 decimal immediate")),
            }
        } else {
            Err(self.error(err_msg))
        }
    }

    /// Match and consume the bits of a 32-bit float immediate.
    pub(crate) fn match_ieee32(&mut self, err_msg: &str) -> (r: Result<u32, Error>)
        ensures
            (plain(r), final(self)@) == old(self)@.match_ieee32(err_msg@),
    {
        if let Some(Token::Float(t)) = self.token() {
            self.consume();
            match t.ieee32 {
                Ok(bits) => Ok(bits),
                Err(message) => Err(self.error(message)),
            }
        } else {
            Err(self.error(err_msg))
        }
    }

    /// Match and consume the bits of a 64-bit float immediate.
    pub(crate) fn match_ieee64(&mut self, err_msg: &str) -> (r: Result<u64, Error>)
        ensures
            (plain(r), final(self)@) == old(self)@.match_ieee64(err_msg@),
    {
        if let Some(Token::Float(t)) = self.token() {
            self.consume();
            match t.ieee64 {
                Ok(bits) => Ok(bits),
                Err(message) => Err(self.error(message)),
            }
        } else {
            Err(self.error(err_msg))
        }
    }

    /// Match and consume one of a list of names, like one of the condition codes.
    pub(crate) fn match_enum(
        &mut self,
        names: &Vec<&'a str>,
        err_msg: &str,
    ) -> (r: Result<usize, Error>)
        ensures
            (plain(r), final(self)@) == old(self)@.match_enum(names@, err_msg@),
    {
        if let Some(Token::Identifier(text)) = self.token() {
            self.consume();
            match position_of_name(names, text) {
                Some(i) => Ok(i),
                None => Err(self.error(err_msg)),
            }
        } else {
            Err(self.error(err_msg))
        }
    }

    /// Parse a single argument type with flags.
    ///
    /// arg ::= type { flag }
    pub fn parse_argument_type(&mut self) -> (r: Result<ArgumentType, Error>)
        ensures
            (plain(r), final(self)@) == old(self)@.argument_type(),
    {
        let mut arg = ArgumentType::new(self.match_type("expected argument type")?);
        let ghost flags = self@.flags(arg);
        loop
            invariant
                self@.flags(arg) == flags,
                old(self)@.argument_type() == (Ok::<ArgumentType, Failure>(flags.0), flags.1),
            decreases self@.remaining(),
        {
            let word = match self.token() {
                Some(Token::Identifier(word)) => word,
                _ => return Ok(arg),
            };
            if same_text(word, "uext") {
                arg.extension = ArgumentExtension::Uext;
            } else if same_text(word, "sext") {
                arg.extension = ArgumentExtension::Sext;
            } else if same_text(word, "inreg") {
                arg.inreg = true;
            } else {
                return Ok(arg);
            }
            self.consume();
        }
    }
}

} // verus!
