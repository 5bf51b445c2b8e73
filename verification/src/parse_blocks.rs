//! Parsing of extended basic blocks and function bodies.

use crate::body::{leaves_room, lemma_extended_basic_block, lemma_instruction};
use crate::context::{lemma_def_value, lemma_located, lemma_with_ebb_arg, Context};
use crate::entities::{AnyEntity, Ebb, EntityRef};
use crate::error::Error;
use crate::parser::Parser;
use crate::reading::lemma_fill;
use crate::sourcemap::{lemma_faithful_value, updated};
use crate::token::Token;
use vstd::prelude::*;

verus! {

broadcast use lemma_fill;

impl<'a, 's> Parser<'a, 's> {
    /// Parse a single EBB argument declaration, and append it to `ebb`.
    ///
    /// ebb-arg ::= Value(vx) ":" Type(t)
    fn parse_ebb_arg(&mut self, ctx: &mut Context<'a>, ebb: Ebb) -> (r: Result<(), Error>)
        requires
            old(self)@.room(old(ctx)@),
            ebb.number() < old(ctx)@.function.ebbs.len(),
        ensures
            (updated(r, final(ctx)@), final(self)@) == old(self)@.ebb_arg(old(ctx)@, ebb),
            r is Ok ==> {
                &&& leaves_room((old(self)@, old(ctx)@), (final(self)@, final(ctx)@))
                &&& final(ctx)@.function.ebbs.len() == old(ctx)@.function.ebbs.len()
            },
    {
        let vx = self.match_value("EBB argument must be a value")?;
        let vx_location = self.loc;
        self.match_token(Token::Colon, "expected ':' after EBB argument")?;
        let t = self.match_type("expected EBB argument type")?;
        let ghost before = ctx@;
        // Allocate the EBB argument and add the mapping.
        let value = ctx.function.append_ebb_arg(ebb, t);
        proof {
            lemma_with_ebb_arg(before, ebb, t);
            if before.map.def_value(vx, value, vx_location) is Ok {
                lemma_def_value(ctx@, vx, value, vx_location);
            }
        }
        ctx.map.def_value(vx, value, vx_location)?;
        proof {
            lemma_located(before, ctx@);
            lemma_faithful_value(before.map, vx, value, vx_location);
        }
        Ok(())
    }

    /// Parse parenthesized list of EBB arguments.
    ///
    /// ebb-args ::= "(" ebb-arg { "," ebb-arg } ")"
    fn parse_ebb_args(&mut self, ctx: &mut Context<'a>, ebb: Ebb) -> (r: Result<(), Error>)
        requires
            old(self)@.room(old(ctx)@),
            ebb.number() < old(ctx)@.function.ebbs.len(),
        ensures
            (updated(r, final(ctx)@), final(self)@) == old(self)@.ebb_args(old(ctx)@, ebb),
            r is Ok ==> {
                &&& leaves_room((old(self)@, old(ctx)@), (final(self)@, final(ctx)@))
                &&& final(ctx)@.function.ebbs.len() == old(ctx)@.function.ebbs.len()
            },
    {
        self.match_token(Token::LPar, "expected '(' before EBB arguments")?;
        self.parse_ebb_arg(ctx, ebb)?;
        let ghost goal = self@.more_ebb_args(ctx@, ebb);
        loop
            invariant
                self@.more_ebb_args(ctx@, ebb) == goal,
                goal == old(self)@.ebb_args(old(ctx)@, ebb),
                leaves_room((old(self)@, old(ctx)@), (self@, ctx@)),
                ctx@.function.ebbs.len() == old(ctx)@.function.ebbs.len(),
                ebb.number() < ctx@.function.ebbs.len(),
            decreases self@.remaining(),
        {
            if !self.optional(Token::Comma) {
                self.match_token(Token::RPar, "expected ')' after EBB arguments")?;
                return Ok(());
            }
            self.parse_ebb_arg(ctx, ebb)?;
        }
    }

    /// Parse an extended basic block, add contents to `ctx`.
    ///
    /// extended-basic-block ::= ebb-header { instruction }
    ///
    /// ebb-header ::= Ebb(ebb) [ebb-args] ":"
    fn parse_extended_basic_block(&mut self, ctx: &mut Context<'a>) -> (r: Result<(), Error>)
        requires
            old(self)@.isa.is_complete(),
            old(self)@.room(old(ctx)@),
        ensures
            (updated(r, final(ctx)@), final(self)@) == old(self)@.extended_basic_block(
                old(ctx)@,
            ),
            r is Ok ==> leaves_room((old(self)@, old(ctx)@), (final(self)@, final(ctx)@)),
    {
        let ebb_num = self.match_ebb("expected EBB header")?;
        let ebb = ctx.add_ebb(ebb_num, self.loc)?;
        self.gather_comments(AnyEntity::Ebb(ebb));
        if !self.optional(Token::Colon) {
            self.parse_ebb_args(ctx, ebb)?;
            self.match_token(Token::Colon, "expected ':' after EBB arguments")?;
        }
        let ghost goal = self@.instructions(ctx@, ebb);
        loop
            invariant
                self@.instructions(ctx@, ebb) == goal,
                goal == old(self)@.extended_basic_block(old(ctx)@),
                leaves_room((old(self)@, old(ctx)@), (self@, ctx@)),
                self@.isa.is_complete(),
                ebb.number() + 1 == ctx@.function.ebbs.len(),
            decreases self@.remaining(),
        {
            match self.token() {
                Some(Token::Value(_)) => {},
                Some(Token::Identifier(_)) => {},
                _ => return Ok(()),
            }
            proof {
                lemma_instruction(self@, ctx@, ebb);
            }
            self.parse_instruction(ctx, ebb)?;
        }
    }

    /// Parse a function body, add contents to `ctx`.
    ///
    /// function-body ::= { extended-basic-block }
    pub(crate) fn parse_function_body(&mut self, ctx: &mut Context<'a>) -> (r: Result<(), Error>)
        requires
            old(self)@.isa.is_complete(),
            old(self)@.room(old(ctx)@),
        ensures
            (updated(r, final(ctx)@), final(self)@) == old(self)@.function_body(old(ctx)@),
            r is Ok ==> leaves_room((old(self)@, old(ctx)@), (final(self)@, final(ctx)@)),
    {
        let ghost goal = self@.function_body(ctx@);
        loop
            invariant
                self@.function_body(ctx@) == goal,
                goal == old(self)@.function_body(old(ctx)@),
                leaves_room((old(self)@, old(ctx)@), (self@, ctx@)),
                self@.isa.is_complete(),
            decreases self@.remaining(),
        {
            if let Some(Token::RBrace) = self.token() {
                return Ok(());
            }
            proof {
                lemma_extended_basic_block(self@, ctx@);
            }
            self.parse_extended_basic_block(ctx)?;
        }
    }
}

} // verus!
