//! Parsing of the operands of an instruction.

use crate::context::Context;
use crate::entities::Value;
use crate::error::{viewed, Error, Failure};
use crate::instructions::{InstructionFormat, Operands};
use crate::parser::Parser;
use crate::reading::{lemma_fill, ParserState};
use crate::sourcemap::updated;
use crate::token::Token;
use vstd::prelude::*;

verus! {

broadcast use lemma_fill;

/// Two operands.
fn pair(lhs: Value, rhs: Value) -> (args: [Value; 2])
    ensures
        args@ == seq![lhs].push(rhs),
{
    let args = [lhs, rhs];
    assert(args@ =~= seq![lhs].push(rhs));
    args
}

/// Three operands.
fn triple(first: Value, second: Value, third: Value) -> (args: [Value; 3])
    ensures
        args@ == seq![first].push(second).push(third),
{
    let args = [first, second, third];
    assert(args@ =~= seq![first].push(second).push(third));
    args
}

impl<'a, 's> Parser<'a, 's> {
    /// Parse comma-separated values after those in `list`.
    pub(crate) fn parse_more_values(
        &mut self,
        list: &mut Vec<Value>,
        err_msg: &str,
    ) -> (r: Result<(), Error>)
        ensures
            (updated(r, final(list)@), final(self)@) == old(self)@.more_values(
                old(list)@,
                err_msg@,
            ),
    {
        let ghost goal = self@.more_values(list@, err_msg@);
        while self.optional(Token::Comma)
            invariant_except_break
                self@.more_values(list@, err_msg@) == goal,
            invariant
                goal == old(self)@.more_values(old(list)@, err_msg@),
            ensures
                (Ok::<Seq<Value>, Failure>(list@), self@) == goal,
            decreases self@.remaining(),
        {
            let v = self.match_value(err_msg)?;
            list.push(v);
        }
        Ok(())
    }

    /// Parse a comma-separated value list.
    ///
    /// value_list ::= [ value { "," value } ]
    fn parse_value_list(&mut self) -> (r: Result<Vec<Value>, Error>)
        ensures
            (viewed(r), final(self)@) == old(self)@.value_list(),
    {
        let mut args: Vec<Value> = Vec::new();
        if let Some(Token::Value(v)) = self.token() {
            self.consume();
            args.push(v);
            assert(args@ =~= seq![v]);
            self.parse_more_values(&mut args, "expected value in argument list")?;
        }
        Ok(args)
    }

    /// Parse an optional value list enclosed in parantheses.
    fn parse_opt_value_list(&mut self) -> (r: Result<Vec<Value>, Error>)
        ensures
            (viewed(r), final(self)@) == old(self)@.opt_value_list(),
    {
        if !self.optional(Token::LPar) {
            return Ok(Vec::new());
        }
        let args = self.parse_value_list()?;
        self.match_token(Token::RPar, "expected ')' after arguments")?;
        Ok(args)
    }

    fn parse_binary_operands(&mut self, ctx: &Context<'a>) -> (r: Result<Operands, Error>)
        ensures
            (viewed(r), final(self)@) == old(self)@.inst_operands(
                ctx@,
                InstructionFormat::Binary,
            ),
    {
        proof {
            reveal_with_fuel(ParserState::steps, 4);
        }
        let lhs = self.match_value("expected SSA value first operand")?;
        self.match_token(Token::Comma, "expected ',' between operands")?;
        let rhs = self.match_value("expected SSA value second operand")?;
        Ok(Operands::Binary { args: pair(lhs, rhs) })
    }

    fn parse_binary_imm_operands(&mut self, ctx: &Context<'a>) -> (r: Result<Operands, Error>)
        ensures
            (viewed(r), final(self)@) == old(self)@.inst_operands(
                ctx@,
                InstructionFormat::BinaryImm,
            ),
    {
        proof {
            reveal_with_fuel(ParserState::steps, 4);
        }
        let arg = self.match_value("expected SSA value first operand")?;
        self.match_token(Token::Comma, "expected ',' between operands")?;
        let imm: i64 = self.match_imm64("expected immediate integer second operand")?;
        Ok(Operands::BinaryImm { arg, imm })
    }

    fn parse_binary_imm_rev_operands(&mut self, ctx: &Context<'a>) -> (r: Result<Operands, Error>)
        ensures
            (viewed(r), final(self)@) == old(self)@.inst_operands(
                ctx@,
                InstructionFormat::BinaryImmRev,
            ),
    {
        proof {
            reveal_with_fuel(ParserState::steps, 4);
        }
        let imm: i64 = self.match_imm64("expected immediate integer first operand")?;
        self.match_token(Token::Comma, "expected ',' between operands")?;
        let arg = self.match_value("expected SSA value second operand")?;
        Ok(Operands::BinaryImmRev { imm, arg })
    }

    fn parse_binary_overflow_operands(&mut self, ctx: &Context<'a>) -> (r: Result<Operands, Error>)
        ensures
            (viewed(r), final(self)@) == old(self)@.inst_operands(
                ctx@,
                InstructionFormat::BinaryOverflow,
            ),
    {
        proof {
            reveal_with_fuel(ParserState::steps, 4);
        }
        let lhs = self.match_value("expected SSA value first operand")?;
        self.match_token(Token::Comma, "expected ',' between operands")?;
        let rhs = self.match_value("expected SSA value second operand")?;
        Ok(Operands::BinaryOverflow { args: pair(lhs, rhs) })
    }

    fn parse_ternary_operands(&mut self, ctx: &Context<'a>) -> (r: Result<Operands, Error>)
        ensures
            (viewed(r), final(self)@) == old(self)@.inst_operands(
                ctx@,
                InstructionFormat::Ternary,
            ),
    {
        proof {
            reveal_with_fuel(ParserState::steps, 6);
        }
        // Names here refer to the `select` instruction.
        let ctrl_arg = self.match_value("expected SSA value control operand")?;
        self.match_token(Token::Comma, "expected ',' between operands")?;
        let true_arg = self.match_value("expected SSA value true operand")?;
        self.match_token(Token::Comma, "expected ',' between operands")?;
        let false_arg = self.match_value("expected SSA value false operand")?;
        Ok(Operands::Ternary { args: triple(ctrl_arg, true_arg, false_arg) })
    }

    fn parse_ternary_overflow_operands(&mut self, ctx: &Context<'a>) -> (r: Result<Operands, Error>)
        ensures
            (viewed(r), final(self)@) == old(self)@.inst_operands(
                ctx@,
                InstructionFormat::TernaryOverflow,
            ),
    {
        proof {
            reveal_with_fuel(ParserState::steps, 6);
        }
        // Names here refer to the `iadd_carry` instruction.
        let lhs = self.match_value("expected SSA value first operand")?;
        self.match_token(Token::Comma, "expected ',' between operands")?;
        let rhs = self.match_value("expected SSA value second operand")?;
        self.match_token(Token::Comma, "expected ',' between operands")?;
        let cin = self.match_value("expected SSA value third operand")?;
        Ok(Operands::TernaryOverflow { args: triple(lhs, rhs, cin) })
    }

    fn parse_jump_operands(&mut self, ctx: &Context<'a>) -> (r: Result<Operands, Error>)
        ensures
            (viewed(r), final(self)@) == old(self)@.inst_operands(
                ctx@,
                InstructionFormat::Jump,
            ),
    {
        proof {
            reveal_with_fuel(ParserState::steps, 3);
        }
        let destination = self.match_ebb("expected jump destination EBB")?;
        let varargs = self.parse_opt_value_list()?;
        Ok(Operands::Jump { destination, varargs })
    }

    fn parse_branch_operands(&mut self, ctx: &Context<'a>) -> (r: Result<Operands, Error>)
        ensures
            (viewed(r), final(self)@) == old(self)@.inst_operands(
                ctx@,
                InstructionFormat::Branch,
            ),
    {
        proof {
            reveal_with_fuel(ParserState::steps, 5);
        }
        let arg = self.match_value("expected SSA value control operand")?;
        self.match_token(Token::Comma, "expected ',' between operands")?;
        let destination = self.match_ebb("expected branch destination EBB")?;
        let varargs = self.parse_opt_value_list()?;
        Ok(Operands::Branch { arg, destination, varargs })
    }

    fn parse_insert_lane_operands(&mut self, ctx: &Context<'a>) -> (r: Result<Operands, Error>)
        ensures
            (viewed(r), final(self)@) == old(self)@.inst_operands(
                ctx@,
                InstructionFormat::InsertLane,
            ),
    {
        proof {
            reveal_with_fuel(ParserState::steps, 6);
        }
        let lhs = self.match_value("expected SSA value first operand")?;
        self.match_token(Token::Comma, "expected ',' between operands")?;
        let lane: u8 = self.match_uimm8("expected lane number")?;
        self.match_token(Token::Comma, "expected ',' between operands")?;
        let rhs = self.match_value("expected SSA value last operand")?;
        Ok(Operands::InsertLane { lane, args: pair(lhs, rhs) })
    }

    fn parse_extract_lane_operands(&mut self, ctx: &Context<'a>) -> (r: Result<Operands, Error>)
        ensures
            (viewed(r), final(self)@) == old(self)@.inst_operands(
                ctx@,
                InstructionFormat::ExtractLane,
            ),
    {
        proof {
            reveal_with_fuel(ParserState::steps, 4);
        }
        let arg = self.match_value("expected SSA value last operand")?;
        self.match_token(Token::Comma, "expected ',' between operands")?;
        let lane: u8 = self.match_uimm8("expected lane number")?;
        Ok(Operands::ExtractLane { lane, arg })
    }

    fn parse_int_compare_operands(&mut self, ctx: &Context<'a>) -> (r: Result<Operands, Error>)
        ensures
            (viewed(r), final(self)@) == old(self)@.inst_operands(
                ctx@,
                InstructionFormat::IntCompare,
            ),
    {
        proof {
            reveal_with_fuel(ParserState::steps, 6);
        }
        let names = &self.isa.int_conditions;
        let cond: usize = self.match_enum(names, "expected intcc condition code")?;
        self.match_token(Token::Comma, "expected ',' between operands")?;
        let lhs = self.match_value("expected SSA value first operand")?;
        self.match_token(Token::Comma, "expected ',' between operands")?;
        let rhs = self.match_value("expected SSA value second operand")?;
        Ok(Operands::IntCompare { cond, args: pair(lhs, rhs) })
    }

    fn parse_float_compare_operands(&mut self, ctx: &Context<'a>) -> (r: Result<Operands, Error>)
        ensures
            (viewed(r), final(self)@) == old(self)@.inst_operands(
                ctx@,
                InstructionFormat::FloatCompare,
            ),
    {
        proof {
            reveal_with_fuel(ParserState::steps, 6);
        }
        let names = &self.isa.float_conditions;
        let cond: usize = self.match_enum(names, "expected floatcc condition code")?;
        self.match_token(Token::Comma, "expected ',' between operands")?;
        let lhs = self.match_value("expected SSA value first operand")?;
        self.match_token(Token::Comma, "expected ',' between operands")?;
        let rhs = self.match_value("expected SSA value second operand")?;
        Ok(Operands::FloatCompare { cond, args: pair(lhs, rhs) })
    }

    fn parse_call_operands(&mut self, ctx: &Context<'a>) -> (r: Result<Operands, Error>)
        ensures
            (viewed(r), final(self)@) == old(self)@.inst_operands(
                ctx@,
                InstructionFormat::Call,
            ),
    {
        proof {
            reveal_with_fuel(ParserState::steps, 5);
        }
        let num: u32 = self.match_fn("expected function reference")?;
        let func_ref = ctx.get_fn(num, self.loc)?;
        self.match_token(Token::LPar, "expected '(' before arguments")?;
        let varargs = self.parse_value_list()?;
        self.match_token(Token::RPar, "expected ')' after arguments")?;
        Ok(Operands::Call { func_ref, varargs })
    }

    fn parse_indirect_call_operands(&mut self, ctx: &Context<'a>) -> (r: Result<Operands, Error>)
        ensures
            (viewed(r), final(self)@) == old(self)@.inst_operands(
                ctx@,
                InstructionFormat::IndirectCall,
            ),
    {
        proof {
            reveal_with_fuel(ParserState::steps, 7);
        }
        let num: u32 = self.match_sig("expected signature reference")?;
        let sig_ref = ctx.get_sig(num, self.loc)?;
        self.match_token(Token::Comma, "expected ',' between operands")?;
        let arg = self.match_value("expected SSA value callee operand")?;
        self.match_token(Token::LPar, "expected '(' before arguments")?;
        let varargs = self.parse_value_list()?;
        self.match_token(Token::RPar, "expected ')' after arguments")?;
        Ok(Operands::IndirectCall { sig_ref, arg, varargs })
    }

    fn parse_branch_table_operands(&mut self, ctx: &Context<'a>) -> (r: Result<Operands, Error>)
        ensures
            (viewed(r), final(self)@) == old(self)@.inst_operands(
                ctx@,
                InstructionFormat::BranchTable,
            ),
    {
        proof {
            reveal_with_fuel(ParserState::steps, 4);
        }
        let arg = self.match_value("expected SSA value operand")?;
        self.match_token(Token::Comma, "expected ',' between operands")?;
        let num: u32 = self.match_jt()?;
        let table = ctx.get_jt(num, self.loc)?;
        Ok(Operands::BranchTable { arg, table })
    }

    /// Parse the operands following the instruction opcode. This depends on the format of the
    /// opcode. Vector immediates are not implemented.
    pub(crate) fn parse_inst_operands(
        &mut self,
        ctx: &Context<'a>,
        format: InstructionFormat,
    ) -> (r: Result<Operands, Error>)
        requires
            format != InstructionFormat::UnaryImmVector,
        ensures
            (viewed(r), final(self)@) == old(self)@.inst_operands(ctx@, format),
    {
        proof {
            reveal_with_fuel(ParserState::steps, 2);
        }
        match format {
            InstructionFormat::Nullary => Ok(Operands::Nullary),
            InstructionFormat::UnaryImmVector => vstd::pervasive::unreached(),
            InstructionFormat::Unary => {
                let arg = self.match_value("expected SSA value operand")?;
                Ok(Operands::Unary { arg })
            },
            InstructionFormat::UnaryImm => {
                let imm: i64 = self.match_imm64("expected immediate integer operand")?;
                Ok(Operands::UnaryImm { imm })
            },
            InstructionFormat::UnaryIeee32 => {
                let imm: u32 = self.match_ieee32("expected immediate 32-bit float operand")?;
                Ok(Operands::UnaryIeee32 { imm })
            },
            InstructionFormat::UnaryIeee64 => {
                let imm: u64 = self.match_ieee64("expected immediate 64-bit float operand")?;
                Ok(Operands::UnaryIeee64 { imm })
            },
            InstructionFormat::UnarySplit => {
                let arg = self.match_value("expected SSA value operand")?;
                Ok(Operands::UnarySplit { arg })
            },
            InstructionFormat::Binary => self.parse_binary_operands(ctx),
            InstructionFormat::BinaryImm => self.parse_binary_imm_operands(ctx),
            InstructionFormat::BinaryImmRev => self.parse_binary_imm_rev_operands(ctx),
            InstructionFormat::BinaryOverflow => self.parse_binary_overflow_operands(ctx),
            InstructionFormat::Ternary => self.parse_ternary_operands(ctx),
            InstructionFormat::TernaryOverflow => self.parse_ternary_overflow_operands(ctx),
            InstructionFormat::Jump => self.parse_jump_operands(ctx),
            InstructionFormat::Branch => self.parse_branch_operands(ctx),
            InstructionFormat::InsertLane => self.parse_insert_lane_operands(ctx),
            InstructionFormat::ExtractLane => self.parse_extract_lane_operands(ctx),
            InstructionFormat::IntCompare => self.parse_int_compare_operands(ctx),
            InstructionFormat::FloatCompare => self.parse_float_compare_operands(ctx),
            InstructionFormat::Call => self.parse_call_operands(ctx),
            InstructionFormat::IndirectCall => self.parse_indirect_call_operands(ctx),
            InstructionFormat::Return => {
                let varargs = self.parse_value_list()?;
                Ok(Operands::Return { varargs })
            },
            InstructionFormat::BranchTable => self.parse_branch_table_operands(ctx),
        }
    }
}

} // verus!
