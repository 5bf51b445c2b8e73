//! Parsing of signatures and of the declarations in a function preamble.

use crate::body::leaves_room;
use crate::context::{lemma_def_entity, lemma_grown, lemma_located, Context, ContextModel};
use crate::entities::{AnyEntity, Ebb, EntityRef, FuncRef, JumpTable, SigRef, StackSlot};
use crate::error::{plain, viewed, Error, Failure, Location};
use crate::function::{
    ArgumentType, ExtFuncData, JumpTableData, Signature, SignatureModel, StackSlotData,
};
use crate::parser::Parser;
use crate::reading::{
    lemma_argument_type, lemma_fill, lemma_function_spec, lemma_jump_table_entry,
    lemma_preamble_decl,
};
use crate::sourcemap::{lemma_faithful_entity, updated};
use crate::text::same_text;
use crate::token::Token;
use vstd::prelude::*;
use vstd::string::*;

verus! {

broadcast use lemma_fill;

impl<'a, 's> Parser<'a, 's> {
    /// Parse list of function argument / return value types.
    ///
    /// arglist ::= arg { "," arg }
    fn parse_argument_list(&mut self) -> (r: Result<Vec<ArgumentType>, Error>)
        ensures
            (viewed(r), final(self)@) == old(self)@.argument_list(),
    {
        broadcast use lemma_argument_type;

        let mut list: Vec<ArgumentType> = Vec::new();
        let arg = self.parse_argument_type()?;
        list.push(arg);
        assert(list@ =~= seq![arg]);
        let ghost goal = self@.more_arguments(list@);
        while self.optional(Token::Comma)
            invariant_except_break
                self@.more_arguments(list@) == goal,
            invariant
                goal == old(self)@.argument_list(),
            ensures
                (Ok::<Seq<ArgumentType>, Failure>(list@), self@) == goal,
            decreases self@.remaining(),
        {
            broadcast use lemma_argument_type;

            let arg = self.parse_argument_type()?;
            list.push(arg);
        }
        Ok(list)
    }

    /// Parse a function signature.
    ///
    /// signature ::= "(" [arglist] ")" ["->" retlist] [call_conv]
    pub fn parse_signature(&mut self) -> (r: Result<Signature, Error>)
        ensures
            (viewed(r), final(self)@) == old(self)@.signature(),
    {
        let mut sig = Signature::new();
        self.match_token(Token::LPar, "expected function signature: ( args... )")?;
        let empty = matches!(self.token(), Some(Token::RPar));
        if !empty {
            sig.argument_types = self.parse_argument_list()?;
        }
        self.match_token(Token::RPar, "expected ')' after function arguments")?;
        if self.optional(Token::Arrow) {
            sig.return_types = self.parse_argument_list()?;
        }
        Ok(sig)
    }

    /// Parse a function name.
    ///
    /// function ::= "function" name signature { ... }
    fn parse_function_name(&mut self) -> (r: Result<&'a str, Error>)
        ensures
            (plain(r), final(self)@) == old(self)@.function_name(),
    {
        if let Some(Token::Identifier(s)) = self.token() {
            self.consume();
            Ok(s)
        } else {
            Err(self.error("expected function name"))
        }
    }

    /// Parse a function spec.
    ///
    /// function-spec ::= "function" name signature
    pub(crate) fn parse_function_spec(&mut self) -> (r: Result<
        (Location, &'a str, Signature),
        Error,
    >)
        ensures
            match r {
                Ok((location, name, sig)) => old(self)@.function_spec() == (
                    Ok::<(Location, &'a str, SignatureModel), Failure>((location, name, sig@)),
                    final(self)@,
                ),
                Err(e) => old(self)@.function_spec() == (
                    Err::<(Location, &'a str, SignatureModel), Failure>(e@),
                    final(self)@,
                ),
            },
    {
        self.match_identifier("function", "expected 'function'")?;
        let location = self.loc;
        let name = self.parse_function_name()?;
        let sig = self.parse_signature()?;
        Ok((location, name, sig))
    }

    /// Parse a stack slot decl.
    ///
    /// stack-slot-decl ::= StackSlot(ss) "=" "stack_slot" Bytes {"," stack-slot-flag}
    fn parse_stack_slot_decl(&mut self) -> (r: Result<(u32, StackSlotData), Error>)
        ensures
            (plain(r), final(self)@) == old(self)@.stack_slot_decl(),
    {
        let number: u32 = self.match_ss("expected stack slot number: ss«n»")?;
        self.match_token(Token::Equal, "expected '=' in stack_slot decl")?;
        self.match_identifier("stack_slot", "expected 'stack_slot'")?;
        let bytes: i64 = self.match_imm64("expected byte-size in stack_slot decl")?;
        if bytes < 0 {
            return Err(self.error("negative stack slot size"));
        }
        if bytes > u32::MAX as i64 {
            return Err(self.error("stack slot too large"));
        }
        Ok((number, StackSlotData { size: bytes as u32 }))
    }

    /// Parse a signature decl.
    ///
    /// signature-decl ::= SigRef(sigref) "=" "signature" signature
    fn parse_signature_decl(&mut self) -> (r: Result<(u32, Signature), Error>)
        ensures
            match r {
                Ok((number, data)) => old(self)@.signature_decl() == (
                    Ok::<(u32, SignatureModel), Failure>((number, data@)),
                    final(self)@,
                ),
                Err(e) => old(self)@.signature_decl() == (
                    Err::<(u32, SignatureModel), Failure>(e@),
                    final(self)@,
                ),
            },
    {
        let number: u32 = self.match_sig("expected signature number: sig«n»")?;
        self.match_token(Token::Equal, "expected '=' in signature decl")?;
        self.match_identifier("signature", "expected 'signature'")?;
        let data = self.parse_signature()?;
        Ok((number, data))
    }

    /// Parse a function decl.
    ///
    /// Two variants:
    ///
    /// function-decl ::= FuncRef(fnref) "=" function-spec
    ///                   FuncRef(fnref) "=" SigRef(sig) name
    ///
    /// The first variant allocates a new signature reference. The second references an existing
    /// signature which must be declared first.
    fn parse_function_decl(&mut self, ctx: &mut Context<'a>) -> (r: Result<
        (u32, ExtFuncData<'a>),
        Error,
    >)
        requires
            old(self)@.room(old(ctx)@),
        ensures
            match r {
                Ok((number, data)) => {
                    &&& old(self)@.function_decl(old(ctx)@) == (
                        Ok::<(u32, ExtFuncData<'a>, ContextModel<'a>), Failure>(
                            (number, data, final(ctx)@),
                        ),
                        final(self)@,
                    )
                    &&& final(ctx)@.function.has(AnyEntity::SigRef(data.signature))
                    &&& final(ctx)@.sound()
                    &&& final(ctx)@.function.size() <= old(ctx)@.function.size() + 1
                    &&& final(self)@.remaining() + 2 <= old(self)@.remaining()
                },
                Err(e) => old(self)@.function_decl(old(ctx)@) == (
                    Err::<(u32, ExtFuncData<'a>, ContextModel<'a>), Failure>(e@),
                    final(self)@,
                ),
            },
    {
        broadcast use lemma_function_spec;

        let number: u32 = self.match_fn("expected function number: fn«n»")?;
        self.match_token(Token::Equal, "expected '=' in function decl")?;
        if self.at_word("function") {
            let (loc, name, sig) = self.parse_function_spec()?;
            let ghost grown = ctx@.function.with_signature(sig@);
            let ghost before = ctx@;
            let signature = ctx.function.push_signature(sig);
            let entity = AnyEntity::SigRef(signature);
            proof {
                lemma_grown(before, grown);
                if before.map.def_entity(entity, loc) is Ok {
                    lemma_def_entity(ctx@, entity, loc);
                }
            }
            ctx.map.def_entity(entity, loc)?;
            proof {
                lemma_located(before, ctx@);
                lemma_faithful_entity(before.map, entity, loc);
            }
            return Ok((number, ExtFuncData { name, signature }));
        }
        if let Some(Token::SigRef(sig_src)) = self.lookahead.get() {
            let signature = ctx.get_sig(sig_src, self.loc)?;
            self.consume();
            let name = self.parse_function_name()?;
            assert(ctx@.map.signatures.contains_key(sig_src));
            Ok((number, ExtFuncData { name, signature }))
        } else {
            Err(self.error("expected 'function' or sig«n» in function decl"))
        }
    }

    /// Parse a jump table entry.
    ///
    /// jt-entry ::= Ebb(dest) | "0"
    fn parse_jump_table_entry(&mut self) -> (r: Result<Option<Ebb>, Error>)
        ensures
            (plain(r), final(self)@) == old(self)@.jump_table_entry(),
    {
        match self.token() {
            Some(Token::Integer(t)) => {
                if same_text(t.text, "0") {
                    self.consume();
                    Ok(None)
                } else {
                    let message = "invalid jump_table entry '".to_owned().concat(t.text).concat(
                        "'",
                    );
                    Err(self.error(message.as_str()))
                }
            },
            Some(Token::Ebb(dest)) => {
                self.consume();
                Ok(Some(dest))
            },
            _ => Err(self.error("expected jump_table entry")),
        }
    }

    /// Parse a jump table decl.
    ///
    /// jump-table-decl ::= JumpTable(jt) "=" "jump_table" jt-entry {"," jt-entry}
    fn parse_jump_table_decl(&mut self) -> (r: Result<(u32, JumpTableData), Error>)
        ensures
            match r {
                Ok((number, data)) => old(self)@.jump_table_decl() == (
                    Ok::<(u32, Seq<Ebb>), Failure>((number, data@)),
                    final(self)@,
                ),
                Err(e) => old(self)@.jump_table_decl() == (
                    Err::<(u32, Seq<Ebb>), Failure>(e@),
                    final(self)@,
                ),
            },
    {
        assert(self.items.len() == self@.items.len());
        let number: u32 = self.match_jt()?;
        self.match_token(Token::Equal, "expected '=' in jump_table decl")?;
        self.match_identifier("jump_table", "expected 'jump_table'")?;
        let mut data = JumpTableData::new();
        let mut index: usize = 0;
        let ghost goal = self@.jump_table_entries(0, data@);
        loop
            invariant
                self@.jump_table_entries(index as nat, data@) == goal,
                old(self)@.jump_table_decl() == (match goal {
                    (Ok(table), s) => (
                        Ok::<(u32, Seq<Ebb>), Failure>((number, table)),
                        s,
                    ),
                    (Err(e), s) => (Err::<(u32, Seq<Ebb>), Failure>(e), s),
                }),
                index + self@.remaining() < usize::MAX,
            decreases self@.remaining(),
        {
            broadcast use lemma_jump_table_entry;

            if let Some(dest) = self.parse_jump_table_entry()? {
                data.set_entry(index, dest);
            }
            if !self.optional(Token::Comma) {
                return Ok((number, data));
            }
            index += 1;
        }
    }

    /// Parse one declaration of the function preamble, if there is one. Says whether there was.
    fn parse_preamble_decl(&mut self, ctx: &mut Context<'a>) -> (r: Result<bool, Error>)
        requires
            old(self)@.room(old(ctx)@),
        ensures
            old(self)@.preamble_decl(old(ctx)@) == (
                match r {
                    Ok(true) => Some(Ok::<ContextModel<'a>, Failure>(final(ctx)@)),
                    Ok(false) => None,
                    Err(e) => Some(Err::<ContextModel<'a>, Failure>(e@)),
                },
                final(self)@,
            ),
            r matches Ok(true) ==> leaves_room(
                (old(self)@, old(ctx)@),
                (final(self)@, final(ctx)@),
            ),
            r matches Ok(false) ==> final(ctx)@ == old(ctx)@,
    {
        proof {
            lemma_preamble_decl(self@, ctx@);
        }
        match self.token() {
            Some(Token::StackSlot(_)) => {
                let next = StackSlot::new(ctx.function.stack_slots.len());
                self.gather_comments(AnyEntity::StackSlot(next));
                let (number, data) = self.parse_stack_slot_decl()?;
                ctx.add_ss(number, data, self.loc)?;
                Ok(true)
            },
            Some(Token::SigRef(_)) => {
                let next = SigRef::new(ctx.function.signatures.len());
                self.gather_comments(AnyEntity::SigRef(next));
                let (number, data) = self.parse_signature_decl()?;
                ctx.add_sig(number, data, self.loc)?;
                Ok(true)
            },
            Some(Token::FuncRef(_)) => {
                let next = FuncRef::new(ctx.function.ext_funcs.len());
                self.gather_comments(AnyEntity::FuncRef(next));
                let (number, data) = self.parse_function_decl(ctx)?;
                ctx.add_fn(number, data, self.loc)?;
                Ok(true)
            },
            Some(Token::JumpTable(_)) => {
                let next = JumpTable::new(ctx.function.jump_tables.len());
                self.gather_comments(AnyEntity::JumpTable(next));
                let (number, data) = self.parse_jump_table_decl()?;
                ctx.add_jt(number, data, self.loc)?;
                Ok(true)
            },
            _ => Ok(false),
        }
    }

    /// Parse the function preamble.
    ///
    /// preamble      ::= { preamble-decl }
    /// preamble-decl ::= stack-slot-decl
    ///                   function-decl
    ///                   signature-decl
    ///                   jump-table-decl
    ///
    /// The parsed decls are added to `ctx` rather than returned.
    pub(crate) fn parse_preamble(&mut self, ctx: &mut Context<'a>) -> (r: Result<(), Error>)
        requires
            old(self)@.room(old(ctx)@),
        ensures
            (updated(r, final(ctx)@), final(self)@) == old(self)@.preamble(old(ctx)@),
            r is Ok ==> leaves_room((old(self)@, old(ctx)@), (final(self)@, final(ctx)@)),
    {
        let ghost goal = self@.preamble(ctx@);
        loop
            invariant
                self@.preamble(ctx@) == goal,
                goal == old(self)@.preamble(old(ctx)@),
                leaves_room((old(self)@, old(ctx)@), (self@, ctx@)),
            decreases self@.remaining(),
        {
            proof {
                lemma_preamble_decl(self@, ctx@);
            }
            if !self.parse_preamble_decl(ctx)? {
                return Ok(());
            }
        }
    }
}

} // verus!
