//! Laws of errors: where they stand, and what is consumed.

use crate::body::{controlling_type, result_types};
use crate::context::ContextModel;
use crate::entities::{AnyEntity, Ebb, Inst, Value};
use crate::error::{Failure, Location};
use crate::function::{with_entry, ArgumentType};
use crate::instructions::{InstructionFormat, OperandsModel};
use crate::reading::{lemma_argument_type, lemma_fill, lemma_jump_table_entry, ParserState, Reading};
use crate::sourcemap::SourceMapModel;
use crate::syntax::Step;
use crate::token::Token;
use vstd::prelude::*;

verus! {

/// Does an error stand where the parser looked last?
pub open spec fn errs_here<T>(reading: Reading<T>) -> bool {
    reading.0 matches Err(e) ==> e.location == reading.1.loc
}

/// A token with a payload is consumed for its payload if it is the next one. Otherwise it is an error
/// with the given message, where the parser looked, and nothing is consumed.
pub proof fn law_payload_tokens<'a>(st: ParserState<'a>, message: Seq<char>)
    ensures
        ({
            let s = st.fill();
            let e = Failure { location: s.loc, message };
            &&& st.match_type(message) == (match st.peek() {
                Some(Token::Type(x)) => (Ok::<_, Failure>(x), st.eat()),
                _ => (Err(e), s),
            })
            &&& st.match_ss(message) == (match st.peek() {
                Some(Token::StackSlot(x)) => (Ok::<_, Failure>(x), st.eat()),
                _ => (Err(e), s),
            })
            &&& st.match_fn(message) == (match st.peek() {
                Some(Token::FuncRef(x)) => (Ok::<_, Failure>(x), st.eat()),
                _ => (Err(e), s),
            })
            &&& st.match_sig(message) == (match st.peek() {
                Some(Token::SigRef(x)) => (Ok::<_, Failure>(x), st.eat()),
                _ => (Err(e), s),
            })
            &&& st.match_ebb(message) == (match st.peek() {
                Some(Token::Ebb(x)) => (Ok::<_, Failure>(x), st.eat()),
                _ => (Err(e), s),
            })
            &&& st.match_value(message) == (match st.peek() {
                Some(Token::Value(x)) => (Ok::<_, Failure>(x), st.eat()),
                _ => (Err(e), s),
            })
        }),
{
}

/// A number is consumed if it is the next token, and read as its text denotes it. If its text denotes
/// no number of the right kind, the error says why, at the number. Any other token is an error with
/// the given message, and is not consumed.
pub proof fn law_number_tokens<'a>(st: ParserState<'a>, message: Seq<char>)
    ensures
        ({
            let s = st.fill();
            let e = Failure { location: s.loc, message };
            &&& match st.peek() {
                Some(Token::Integer(t)) => st.match_imm64(message).1 == st.eat() && match t.imm64 {
                    Ok(n) => st.match_imm64(message).0 == Ok::<i64, Failure>(n),
                    Err(why) => st.match_imm64(message).0 == Err::<i64, Failure>(
                        Failure { location: s.loc, message: why@ },
                    ),
                },
                _ => st.match_imm64(message) == (Err::<i64, Failure>(e), s),
            }
            &&& match st.peek() {
                Some(Token::Float(t)) => st.match_ieee32(message).1 == st.eat() && match t.ieee32 {
                    Ok(bits) => st.match_ieee32(message).0 == Ok::<u32, Failure>(bits),
                    Err(why) => st.match_ieee32(message).0 == Err::<u32, Failure>(
                        Failure { location: s.loc, message: why@ },
                    ),
                },
                _ => st.match_ieee32(message) == (Err::<u32, Failure>(e), s),
            }
            &&& match st.peek() {
                Some(Token::Float(t)) => st.match_ieee64(message).1 == st.eat() && match t.ieee64 {
                    Ok(bits) => st.match_ieee64(message).0 == Ok::<u64, Failure>(bits),
                    Err(why) => st.match_ieee64(message).0 == Err::<u64, Failure>(
                        Failure { location: s.loc, message: why@ },
                    ),
                },
                _ => st.match_ieee64(message) == (Err::<u64, Failure>(e), s),
            }
        }),
{
}

proof fn lemma_more_arguments_err(st: ParserState, list: Seq<ArgumentType>)
    ensures
        errs_here(st.more_arguments(list)),
    decreases st.remaining(),
{
    broadcast use {lemma_fill, lemma_argument_type};

    let (more, s) = st.optional(Token::Comma);
    if more {
        if let (Ok(arg), s2) = s.argument_type() {
            lemma_more_arguments_err(s2, list.push(arg));
        }
    }
}

/// An error in a signature stands where the parser looked last.
pub proof fn law_signature_error(st: ParserState)
    ensures
        errs_here(st.argument_type()),
        errs_here(st.argument_list()),
        errs_here(st.signature()),
        errs_here(st.function_spec()),
{
    lemma_signature_err(st);
    let s = st.expect_word("function"@, "expected 'function'"@).1;
    lemma_signature_err(s.function_name().1);
    if let (Ok(arg), s) = st.argument_type() {
        lemma_more_arguments_err(s, seq![arg]);
    }
}

proof fn lemma_signature_err(st: ParserState)
    ensures
        errs_here(st.signature()),
{
    let s1 = st.expect(Token::LPar, "expected function signature: ( args... )"@).1;
    let s = s1.fill();
    if let (Ok(arg), t) = s.argument_type() {
        lemma_more_arguments_err(t, seq![arg]);
    }
    let s2 = s1.opt_argument_list().1;
    let s3 = s2.expect(Token::RPar, "expected ')' after function arguments"@).1;
    let s4 = s3.optional(Token::Arrow).1;
    if let (Ok(arg), t) = s4.argument_type() {
        lemma_more_arguments_err(t, seq![arg]);
    }
}

proof fn lemma_entries_err(st: ParserState, index: nat, table: Seq<Ebb>)
    ensures
        errs_here(st.jump_table_entries(index, table)),
    decreases st.remaining(),
{
    broadcast use {lemma_fill, lemma_jump_table_entry};

    if let (Ok(entry), s) = st.jump_table_entry() {
        let table = match entry {
            Some(dest) => with_entry(table, index, dest),
            None => table,
        };
        let (more, s) = s.optional(Token::Comma);
        if more {
            lemma_entries_err(s, index + 1, table);
        }
    }
}

/// An error in a declaration stands where the parser looked last.
pub proof fn law_declaration_error(st: ParserState)
    ensures
        errs_here(st.stack_slot_decl()),
        errs_here(st.signature_decl()),
        errs_here(st.jump_table_decl()),
{
    let s1 = st.match_sig("expected signature number: sig«n»"@).1;
    let s2 = s1.expect(Token::Equal, "expected '=' in signature decl"@).1;
    let s3 = s2.expect_word("signature"@, "expected 'signature'"@).1;
    lemma_signature_err(s3);
    let t1 = st.match_jt().1;
    let t2 = t1.expect(Token::Equal, "expected '=' in jump_table decl"@).1;
    let t3 = t2.expect_word("jump_table"@, "expected 'jump_table'"@).1;
    lemma_entries_err(t3, 0, seq![]);
}

proof fn lemma_more_values_err(st: ParserState, list: Seq<Value>, message: Seq<char>)
    ensures
        errs_here(st.more_values(list, message)),
    decreases st.remaining(),
{
    broadcast use lemma_fill;

    let (more, s) = st.optional(Token::Comma);
    if more {
        if let (Ok(v), s2) = s.match_value(message) {
            lemma_more_values_err(s2, list.push(v), message);
        }
    }
}

proof fn lemma_value_list_err(st: ParserState)
    ensures
        errs_here(st.value_list()),
{
    if let Some(Token::Value(v)) = st.peek() {
        lemma_more_values_err(st.eat(), seq![v], "expected value in argument list"@);
    }
}

proof fn lemma_step_err<'a>(
    st: ParserState<'a>,
    ctx: ContextModel<'a>,
    step: Step,
    o: OperandsModel,
)
    ensures
        errs_here(st.step(ctx, step, o)),
{
    lemma_value_list_err(st);
    lemma_value_list_err(st.eat());
}

proof fn lemma_steps_err<'a>(
    st: ParserState<'a>,
    ctx: ContextModel<'a>,
    list: Seq<Step>,
    k: int,
    o: OperandsModel,
)
    ensures
        errs_here(st.steps(ctx, list, k, o)),
    decreases list.len() - k,
{
    if 0 <= k < list.len() {
        lemma_step_err(st, ctx, list[k], o);
        if let (Ok(p), s) = st.step(ctx, list[k], o) {
            lemma_steps_err(s, ctx, list, k + 1, p);
        }
    }
}

/// An error in the text of an instruction stands where the parser looked last.
pub proof fn law_instruction_text_error<'a>(st: ParserState<'a>, ctx: ContextModel<'a>)
    ensures
        errs_here(st.instruction_text(ctx)),
        forall|format: InstructionFormat| errs_here(#[trigger] st.inst_operands(ctx, format)),
{
    assert forall|format: InstructionFormat| errs_here(
        #[trigger] st.inst_operands(ctx, format),
    ) by {
        lemma_steps_err(
            st,
            ctx,
            crate::syntax::syntax(format),
            0,
            crate::instructions::operands_model(
                format,
                seq![],
                crate::instructions::Constant::Nothing,
            ),
        );
    }
    if let Some(Token::Value(v)) = st.peek() {
        lemma_more_values_err(st.eat(), seq![v], "expected result value"@);
    }
    let s1 = st.inst_results().1;
    let (r, s2) = s1.opcode();
    let s3 = s2.explicit_type().1;
    if let Ok(opcode) = r {
        let format = s3.isa.info(opcode).format;
        lemma_steps_err(
            s3,
            ctx,
            crate::syntax::syntax(format),
            0,
            crate::instructions::operands_model(
                format,
                seq![],
                crate::instructions::Constant::Nothing,
            ),
        );
    }
}

proof fn lemma_def_values_err(
    map: SourceMapModel,
    srcs: Seq<Value>,
    vals: Seq<Value>,
    k: int,
    loc: Location,
)
    ensures
        crate::body::def_values(map, srcs, vals, k, loc) matches Err(e) ==> e.location == loc,
    decreases srcs.len() - k,
{
    if 0 <= k && k < srcs.len() && k < vals.len() {
        if let Ok(next) = map.def_value(srcs[k], vals[k], loc) {
            lemma_def_values_err(next, srcs, vals, k + 1, loc);
        }
    }
}

/// An error in an instruction, in its text or in its types, stands where the parser looked last.
pub proof fn law_instruction_error<'a>(st: ParserState<'a>, ctx: ContextModel<'a>, ebb: Ebb)
    requires
        ctx.sound(),
        ctx.function.insts.len() < u32::MAX,
    ensures
        errs_here(st.instruction(ctx, ebb)),
{
    let start = st.gather(AnyEntity::Inst(Inst::of(u32::MAX)));
    law_instruction_text_error(start, ctx);
    if let (Ok(text), s) = start.instruction_text(ctx) {
        let f = ctx.function;
        let inst = AnyEntity::Inst(Inst::of(f.insts.len() as u32));
        assert(!f.has(inst));
        assert(ctx.map.location(inst) is None);
        let map = ctx.map.def_entity(inst, text.location)->Ok_0;
        let info = s.isa.info(text.opcode);
        if let Ok(ty) = controlling_type(ctx, info, text.explicit, text.operands, s.loc) {
            let types = result_types(f, info, ty, text.operands);
            lemma_def_values_err(map, text.results, f.next_results(types.len()), 0, s.loc);
        }
    }
}

} // verus!
