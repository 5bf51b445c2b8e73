//! Laws of acceptance: what is written in its notation is read.

use crate::body::{lemma_ebb_arg, InstructionText};
use crate::building_laws::{lemma_body_grew, lemma_preamble_grew};
use crate::context::{lemma_def_value, lemma_with_ebb_arg, ContextModel};
use crate::entities::{AnyEntity, Ebb, EntityRef, SigRef, Value};
use crate::error::Failure;
use crate::function::SignatureModel;
use crate::instructions::{find_name, InstructionFormat, InstructionSet, Opcode, OperandsModel};
use crate::notation_laws::{
    are_block_args, comma_values, instruction_written, is_int, is_opcode, is_position,
    law_opcode_names, operands_written, result_tokens, type_tokens, value_tokens,
};
use crate::reading::{lemma_fill, ParserState};
use crate::reference_laws::law_each_reference;
use crate::signature_laws::is_word;
use crate::source_laws::{block_arg_tokens, block_args_tokens, comma_args};
use crate::sourcemap::SourceMapModel;
use crate::token::Token;
use crate::token_laws::{
    clean, clear_end, ends, law_signature_round_trip, law_tokens_in_order, leaves, signature_tokens,
    upcoming,
};
use crate::types::Type;
use vstd::prelude::*;

verus! {

/// The states of a parser that consumes one token after the other.
proof fn lemma_five_tokens(st: ParserState)
    ensures
        ({
            let s1 = st.eat();
            let s2 = s1.eat();
            let s3 = s2.eat();
            let s4 = s3.eat();
            let s5 = s4.eat();
            let t = upcoming(st);
            &&& t.len() > 0 ==> st.peek() == Some(t[0]) && upcoming(s1) == t.skip(1)
            &&& t.len() > 1 ==> s1.peek() == Some(t[1]) && upcoming(s2) == t.skip(2)
            &&& t.len() > 2 ==> s2.peek() == Some(t[2]) && upcoming(s3) == t.skip(3)
            &&& t.len() > 3 ==> s3.peek() == Some(t[3]) && upcoming(s4) == t.skip(4)
            &&& t.len() > 4 ==> s4.peek() == Some(t[4]) && upcoming(s5) == t.skip(5)
            &&& clean(st.items) ==> clean(s1.items) && clean(s2.items) && clean(s3.items)
                && clean(s4.items) && clean(s5.items)
        }),
{
    let t = upcoming(st);
    let s1 = st.eat();
    let s2 = s1.eat();
    let s3 = s2.eat();
    let s4 = s3.eat();
    law_tokens_in_order(st);
    law_tokens_in_order(s1);
    law_tokens_in_order(s2);
    law_tokens_in_order(s3);
    law_tokens_in_order(s4);
    if t.len() > 0 {
        assert(t.skip(1) =~= t.drop_first());
    }
    if t.len() > 1 {
        assert(t.skip(2) =~= t.skip(1).drop_first());
    }
    if t.len() > 2 {
        assert(t.skip(3) =~= t.skip(2).drop_first());
    }
    if t.len() > 3 {
        assert(t.skip(4) =~= t.skip(3).drop_first());
    }
    if t.len() > 4 {
        assert(t.skip(5) =~= t.skip(4).drop_first());
    }
}

/// A stack slot declaration is read as it is written, if its size fits into 32 bits. Any other size is
/// an error.
pub proof fn law_stack_slot_accepted<'a>(
    st: ParserState<'a>,
    n: u32,
    tokens: Seq<Token<'a>>,
    bytes: i64,
    rest: Seq<Token<'a>>,
)
    requires
        upcoming(st) == tokens + rest,
        tokens.len() == 4,
        tokens[0] == Token::<'a>::StackSlot(n),
        tokens[1] == Token::<'a>::Equal,
        is_word(tokens[2], "stack_slot"@),
        is_int(tokens[3], bytes),
    ensures
        st.stack_slot_decl().0 is Ok <==> 0 <= bytes <= u32::MAX,
        st.stack_slot_decl().0 matches Ok((number, data)) ==> number == n && data.size == bytes
            && leaves(st, st.stack_slot_decl().1, rest),
{
    lemma_five_tokens(st);
    assert(upcoming(st).skip(4) =~= rest);
}

proof fn lemma_more_values_accepted<'a>(
    st: ParserState<'a>,
    list: Seq<Value>,
    message: Seq<char>,
    vals: Seq<Value>,
    rest: Seq<Token<'a>>,
)
    requires
        upcoming(st) == comma_values(vals) + rest,
        clear_end(st, rest),
        rest.len() > 0 ==> rest[0] != Token::<'a>::Comma,
    ensures
        st.more_values(list, message).0 == Ok::<Seq<Value>, Failure>(list + vals),
        leaves(st, st.more_values(list, message).1, rest),
    decreases vals.len(),
{
    law_tokens_in_order(st);
    lemma_fill(st);
    if vals.len() == 0 {
        assert(upcoming(st) =~= rest);
        assert(list + vals =~= list);
    } else {
        let tail = vals.drop_first();
        let after = comma_values::<'a>(tail) + rest;
        assert(upcoming(st)[0] == Token::<'a>::Comma);
        assert(upcoming(st).drop_first() =~= seq![Token::Value(vals[0])] + after);
        let s = st.eat();
        lemma_fill(s);
        law_tokens_in_order(s);
        assert(upcoming(s).drop_first() =~= after);
        let s2 = s.eat();
        assert(list.push(vals[0]) + tail =~= list + vals);
        lemma_more_values_accepted(s2, list.push(vals[0]), message, tail, rest);
    }
}

/// Do the tokens not go on with a list of values?
pub open spec fn ends_values(vals: Seq<Value>, rest: Seq<Token>) -> bool {
    rest.len() > 0 ==> if vals.len() == 0 {
        !(rest[0] is Value)
    } else {
        rest[0] != Token::Comma
    }
}

proof fn lemma_value_list_accepted<'a>(
    st: ParserState<'a>,
    vals: Seq<Value>,
    rest: Seq<Token<'a>>,
)
    requires
        upcoming(st) == value_tokens(vals) + rest,
        clear_end(st, rest),
        ends_values(vals, rest),
    ensures
        st.value_list().0 == Ok::<Seq<Value>, Failure>(vals),
        leaves(st, st.value_list().1, rest),
{
    law_tokens_in_order(st);
    if vals.len() == 0 {
        assert(upcoming(st) =~= rest);
        assert(vals =~= seq![]);
    } else {
        let tail = vals.drop_first();
        assert(upcoming(st)[0] == Token::<'a>::Value(vals[0]));
        assert(upcoming(st).drop_first() =~= comma_values::<'a>(tail) + rest);
        lemma_more_values_accepted(
            st.eat(),
            seq![vals[0]],
            "expected value in argument list"@,
            tail,
            rest,
        );
        assert(seq![vals[0]] + tail =~= vals);
    }
}

/// Do the tokens not go on with the arguments of a block?
pub open spec fn ends_block_args(tokens: Seq<Token>, rest: Seq<Token>) -> bool {
    tokens.len() == 0 && rest.len() > 0 ==> rest[0] != Token::LPar
}

proof fn lemma_block_args_accepted<'a>(
    st: ParserState<'a>,
    tokens: Seq<Token<'a>>,
    vals: Seq<Value>,
    rest: Seq<Token<'a>>,
)
    requires
        upcoming(st) == tokens + rest,
        are_block_args(tokens, vals),
        clear_end(st, rest),
        ends_block_args(tokens, rest),
    ensures
        st.opt_value_list().0 == Ok::<Seq<Value>, Failure>(vals),
        leaves(st, st.opt_value_list().1, rest),
{
    law_tokens_in_order(st);
    if tokens.len() == 0 {
        assert(upcoming(st) =~= rest);
        assert(vals =~= seq![]);
    } else {
        let after = seq![Token::<'a>::RPar] + rest;
        assert(upcoming(st)[0] == Token::<'a>::LPar);
        assert(upcoming(st).drop_first() =~= value_tokens::<'a>(vals) + after);
        let s = st.eat();
        lemma_value_list_accepted(s, vals, after);
        let s2 = s.value_list().1;
        law_tokens_in_order(s2);
        assert(upcoming(s2).drop_first() =~= rest);
    }
}

/// A list of values in parentheses.
proof fn lemma_arguments_accepted<'a>(
    st: ParserState<'a>,
    vals: Seq<Value>,
    rest: Seq<Token<'a>>,
)
    requires
        upcoming(st) == seq![Token::LPar] + value_tokens(vals) + seq![Token::RPar] + rest,
    ensures
        ({
            let (r1, s1) = st.expect(Token::LPar, "expected '(' before arguments"@);
            let (r2, s2) = s1.value_list();
            let (r3, s3) = s2.expect(Token::RPar, "expected ')' after arguments"@);
            &&& r1 is Ok
            &&& r2 == Ok::<Seq<Value>, Failure>(vals)
            &&& r3 is Ok
            &&& leaves(st, s3, rest)
        }),
{
    law_tokens_in_order(st);
    let after = seq![Token::<'a>::RPar] + rest;
    assert(upcoming(st)[0] == Token::<'a>::LPar);
    assert(upcoming(st).drop_first() =~= value_tokens::<'a>(vals) + after);
    let s = st.eat();
    lemma_value_list_accepted(s, vals, after);
    let s2 = s.value_list().1;
    law_tokens_in_order(s2);
    assert(upcoming(s2).drop_first() =~= rest);
}

/// A name is found at its position.
proof fn lemma_name_found(names: Seq<&str>, name: Seq<char>, i: int, from: int)
    requires
        is_position(names, name, i),
        0 <= from <= i,
    ensures
        find_name(names, name, from) == Some(i),
    decreases i - from,
{
    if from < i {
        lemma_name_found(names, name, i, from + 1);
    }
}

/// Do the tokens not go on with the operands?
pub open spec fn ends_operands(tokens: Seq<Token>, o: OperandsModel, rest: Seq<Token>) -> bool {
    match o.format {
        InstructionFormat::Jump => ends_block_args(tokens.skip(1), rest),
        InstructionFormat::Branch => ends_block_args(tokens.skip(3), rest),
        InstructionFormat::Return => ends_values(o.varargs, rest),
        _ => true,
    }
}

/// Operands that are written in the notation of their format are read as they are written, if what
/// follows them cannot be taken for more of them.
pub proof fn law_operands_accepted<'a>(
    st: ParserState<'a>,
    ctx: ContextModel<'a>,
    tokens: Seq<Token<'a>>,
    o: OperandsModel,
    rest: Seq<Token<'a>>,
)
    requires
        upcoming(st) == tokens + rest,
        operands_written(tokens, o, *st.isa, ctx.map),
        ends_operands(tokens, o, rest),
        clear_end(st, rest),
    ensures
        st.inst_operands(ctx, o.format).0 == Ok::<OperandsModel, Failure>(o),
        leaves(st, st.inst_operands(ctx, o.format).1, rest),
{
    match o.format {
        InstructionFormat::Jump => {
            lemma_jump_accepted(st, ctx, tokens, o, rest);
        },
        InstructionFormat::Branch => {
            lemma_branch_accepted(st, ctx, tokens, o, rest);
        },
        InstructionFormat::Call => {
            lemma_call_accepted(st, ctx, tokens, o, rest);
        },
        InstructionFormat::IndirectCall => {
            lemma_indirect_call_accepted(st, ctx, tokens, o, rest);
        },
        InstructionFormat::Return => {
            lemma_return_accepted(st, ctx, tokens, o, rest);
        },
        InstructionFormat::IntCompare | InstructionFormat::FloatCompare => {
            lemma_compare_accepted(st, ctx, tokens, o, rest);
        },
        InstructionFormat::Nullary => {
            assert(upcoming(st) =~= rest);
        },
        InstructionFormat::Binary
        | InstructionFormat::BinaryOverflow
        | InstructionFormat::BinaryImm
        | InstructionFormat::BinaryImmRev => {
            lemma_binary_accepted(st, ctx, tokens, o, rest);
        },
        InstructionFormat::ExtractLane | InstructionFormat::BranchTable => {
            lemma_lane_or_table_accepted(st, ctx, tokens, o, rest);
        },
        InstructionFormat::Ternary
        | InstructionFormat::TernaryOverflow
        | InstructionFormat::InsertLane => {
            lemma_ternary_accepted(st, ctx, tokens, o, rest);
        },
        _ => {
            lemma_unary_accepted(st, ctx, tokens, o, rest);
        },
    }
}

proof fn lemma_unary_accepted<'a>(
    st: ParserState<'a>,
    ctx: ContextModel<'a>,
    tokens: Seq<Token<'a>>,
    o: OperandsModel,
    rest: Seq<Token<'a>>,
)
    requires
        upcoming(st) == tokens + rest,
        operands_written(tokens, o, *st.isa, ctx.map),
        o.format is Unary || o.format is UnarySplit || o.format is UnaryImm || o.format
            is UnaryIeee32 || o.format is UnaryIeee64,
    ensures
        st.inst_operands(ctx, o.format).0 == Ok::<OperandsModel, Failure>(o),
        leaves(st, st.inst_operands(ctx, o.format).1, rest),
{
    reveal_with_fuel(ParserState::steps, 2);
    lemma_five_tokens(st);
    assert(upcoming(st).skip(1) =~= rest);
    let (r, s) = st.inst_operands(ctx, o.format);
    assert(r is Ok);
    assert(r->Ok_0.args =~= o.args);
}

proof fn lemma_binary_accepted<'a>(
    st: ParserState<'a>,
    ctx: ContextModel<'a>,
    tokens: Seq<Token<'a>>,
    o: OperandsModel,
    rest: Seq<Token<'a>>,
)
    requires
        upcoming(st) == tokens + rest,
        operands_written(tokens, o, *st.isa, ctx.map),
        o.format is Binary || o.format is BinaryOverflow || o.format is BinaryImm || o.format
            is BinaryImmRev,
    ensures
        st.inst_operands(ctx, o.format).0 == Ok::<OperandsModel, Failure>(o),
        leaves(st, st.inst_operands(ctx, o.format).1, rest),
{
    reveal_with_fuel(ParserState::steps, 4);
    lemma_five_tokens(st);
    assert(upcoming(st).skip(3) =~= rest);
    let (r, s) = st.inst_operands(ctx, o.format);
    assert(r is Ok);
    assert(r->Ok_0.args =~= o.args);
}

proof fn lemma_lane_or_table_accepted<'a>(
    st: ParserState<'a>,
    ctx: ContextModel<'a>,
    tokens: Seq<Token<'a>>,
    o: OperandsModel,
    rest: Seq<Token<'a>>,
)
    requires
        upcoming(st) == tokens + rest,
        operands_written(tokens, o, *st.isa, ctx.map),
        o.format is ExtractLane || o.format is BranchTable,
    ensures
        st.inst_operands(ctx, o.format).0 == Ok::<OperandsModel, Failure>(o),
        leaves(st, st.inst_operands(ctx, o.format).1, rest),
{
    reveal_with_fuel(ParserState::steps, 4);
    lemma_five_tokens(st);
    assert(upcoming(st).skip(3) =~= rest);
    let (r, s) = st.inst_operands(ctx, o.format);
    assert(r is Ok);
    assert(r->Ok_0.args =~= o.args);
}

proof fn lemma_ternary_accepted<'a>(
    st: ParserState<'a>,
    ctx: ContextModel<'a>,
    tokens: Seq<Token<'a>>,
    o: OperandsModel,
    rest: Seq<Token<'a>>,
)
    requires
        upcoming(st) == tokens + rest,
        operands_written(tokens, o, *st.isa, ctx.map),
        o.format is Ternary || o.format is TernaryOverflow || o.format is InsertLane,
    ensures
        st.inst_operands(ctx, o.format).0 == Ok::<OperandsModel, Failure>(o),
        leaves(st, st.inst_operands(ctx, o.format).1, rest),
{
    reveal_with_fuel(ParserState::steps, 6);
    lemma_five_tokens(st);
    assert(upcoming(st).skip(5) =~= rest);
    let (r, s) = st.inst_operands(ctx, o.format);
    assert(r is Ok);
    assert(r->Ok_0.args =~= o.args);
}

proof fn lemma_compare_accepted<'a>(
    st: ParserState<'a>,
    ctx: ContextModel<'a>,
    tokens: Seq<Token<'a>>,
    o: OperandsModel,
    rest: Seq<Token<'a>>,
)
    requires
        upcoming(st) == tokens + rest,
        operands_written(tokens, o, *st.isa, ctx.map),
        o.format is IntCompare || o.format is FloatCompare,
    ensures
        st.inst_operands(ctx, o.format).0 == Ok::<OperandsModel, Failure>(o),
        leaves(st, st.inst_operands(ctx, o.format).1, rest),
{
    reveal_with_fuel(ParserState::steps, 7);
    lemma_five_tokens(st);
    assert(upcoming(st).skip(5) =~= rest);
    let cond = o.constant->Condition_0;
    let word = tokens[0]->Identifier_0;
    let names = if o.format is IntCompare {
        st.isa.int_conditions@
    } else {
        st.isa.float_conditions@
    };
    lemma_name_found(names, word@, cond as int, 0);
    let (r, s) = st.inst_operands(ctx, o.format);
    assert(r is Ok);
    assert(r->Ok_0.args =~= o.args);
}

proof fn lemma_jump_accepted<'a>(
    st: ParserState<'a>,
    ctx: ContextModel<'a>,
    tokens: Seq<Token<'a>>,
    o: OperandsModel,
    rest: Seq<Token<'a>>,
)
    requires
        upcoming(st) == tokens + rest,
        operands_written(tokens, o, *st.isa, ctx.map),
        ends_operands(tokens, o, rest),
        clear_end(st, rest),
        o.format is Jump,
    ensures
        st.inst_operands(ctx, o.format).0 == Ok::<OperandsModel, Failure>(o),
        leaves(st, st.inst_operands(ctx, o.format).1, rest),
{
    reveal_with_fuel(ParserState::steps, 3);
    lemma_five_tokens(st);
    assert(upcoming(st).skip(1) =~= tokens.skip(1) + rest);
    let s = st.eat();
    lemma_block_args_accepted(s, tokens.skip(1), o.varargs, rest);
    let (r, s) = st.inst_operands(ctx, o.format);
    assert(r is Ok);
    assert(r->Ok_0.args =~= o.args);
}

proof fn lemma_branch_accepted<'a>(
    st: ParserState<'a>,
    ctx: ContextModel<'a>,
    tokens: Seq<Token<'a>>,
    o: OperandsModel,
    rest: Seq<Token<'a>>,
)
    requires
        upcoming(st) == tokens + rest,
        operands_written(tokens, o, *st.isa, ctx.map),
        ends_operands(tokens, o, rest),
        clear_end(st, rest),
        o.format is Branch,
    ensures
        st.inst_operands(ctx, o.format).0 == Ok::<OperandsModel, Failure>(o),
        leaves(st, st.inst_operands(ctx, o.format).1, rest),
{
    reveal_with_fuel(ParserState::steps, 5);
    lemma_five_tokens(st);
    assert(upcoming(st).skip(3) =~= tokens.skip(3) + rest);
    let s = st.eat().eat().eat();
    lemma_block_args_accepted(s, tokens.skip(3), o.varargs, rest);
    let (r, s) = st.inst_operands(ctx, o.format);
    assert(r is Ok);
    assert(r->Ok_0.args =~= o.args);
}

proof fn lemma_call_accepted<'a>(
    st: ParserState<'a>,
    ctx: ContextModel<'a>,
    tokens: Seq<Token<'a>>,
    o: OperandsModel,
    rest: Seq<Token<'a>>,
)
    requires
        upcoming(st) == tokens + rest,
        operands_written(tokens, o, *st.isa, ctx.map),
        ends_operands(tokens, o, rest),
        clear_end(st, rest),
        o.format is Call,
    ensures
        st.inst_operands(ctx, o.format).0 == Ok::<OperandsModel, Failure>(o),
        leaves(st, st.inst_operands(ctx, o.format).1, rest),
{
    reveal_with_fuel(ParserState::steps, 5);
    lemma_five_tokens(st);
    assert(upcoming(st).skip(1) =~= tokens.skip(1) + rest);
    let s = st.eat();
    lemma_arguments_accepted(s, o.varargs, rest);
    let (r, s) = st.inst_operands(ctx, o.format);
    assert(r is Ok);
    assert(r->Ok_0.args =~= o.args);
}

proof fn lemma_indirect_call_accepted<'a>(
    st: ParserState<'a>,
    ctx: ContextModel<'a>,
    tokens: Seq<Token<'a>>,
    o: OperandsModel,
    rest: Seq<Token<'a>>,
)
    requires
        upcoming(st) == tokens + rest,
        operands_written(tokens, o, *st.isa, ctx.map),
        ends_operands(tokens, o, rest),
        clear_end(st, rest),
        o.format is IndirectCall,
    ensures
        st.inst_operands(ctx, o.format).0 == Ok::<OperandsModel, Failure>(o),
        leaves(st, st.inst_operands(ctx, o.format).1, rest),
{
    reveal_with_fuel(ParserState::steps, 7);
    lemma_five_tokens(st);
    assert(upcoming(st).skip(3) =~= tokens.skip(3) + rest);
    let s = st.eat().eat().eat();
    lemma_arguments_accepted(s, o.varargs, rest);
    let (r, s) = st.inst_operands(ctx, o.format);
    assert(r is Ok);
    assert(r->Ok_0.args =~= o.args);
}

proof fn lemma_return_accepted<'a>(
    st: ParserState<'a>,
    ctx: ContextModel<'a>,
    tokens: Seq<Token<'a>>,
    o: OperandsModel,
    rest: Seq<Token<'a>>,
)
    requires
        upcoming(st) == tokens + rest,
        operands_written(tokens, o, *st.isa, ctx.map),
        ends_operands(tokens, o, rest),
        clear_end(st, rest),
        o.format is Return,
    ensures
        st.inst_operands(ctx, o.format).0 == Ok::<OperandsModel, Failure>(o),
        leaves(st, st.inst_operands(ctx, o.format).1, rest),
{
    reveal_with_fuel(ParserState::steps, 2);
    lemma_value_list_accepted(st, o.varargs, rest);
    let (r, s) = st.inst_operands(ctx, o.format);
    assert(r is Ok);
    assert(r->Ok_0.args =~= o.args);
}

/// An opcode is found by its name.
proof fn lemma_opcode_found(isa: InstructionSet, name: Seq<char>, opcode: Opcode)
    requires
        is_opcode(isa.opcodes@, name, opcode),
    ensures
        isa.named(name) == Some(opcode),
{
    law_opcode_names(isa, name);
    if let Some(other) = isa.named(name) {
        if other.0 < opcode.0 {
            assert(isa.opcodes@[other.0 as int].name@ != name);
        } else if opcode.0 < other.0 {
            assert(isa.opcodes@[opcode.0 as int].name@ != name);
        }
    } else {
        assert(isa.opcodes@[opcode.0 as int].name@ != name);
    }
}

proof fn lemma_inst_results_accepted<'a>(
    st: ParserState<'a>,
    results: Seq<Value>,
    rest: Seq<Token<'a>>,
)
    requires
        upcoming(st) == result_tokens(results) + rest,
        rest.len() > 0,
        rest[0] is Identifier,
    ensures
        st.inst_results().0 == Ok::<Seq<Value>, Failure>(results),
        leaves(st, st.inst_results().1, rest),
{
    law_tokens_in_order(st);
    if results.len() == 0 {
        assert(upcoming(st) =~= rest);
        assert(results =~= seq![]);
    } else {
        let tail = results.drop_first();
        let after = seq![Token::<'a>::Equal] + rest;
        assert(upcoming(st)[0] == Token::<'a>::Value(results[0]));
        assert(upcoming(st).drop_first() =~= comma_values::<'a>(tail) + after);
        let message = "expected result value"@;
        lemma_more_values_accepted(st.eat(), seq![results[0]], message, tail, after);
        assert(seq![results[0]] + tail =~= results);
        let s = st.eat().more_values(seq![results[0]], message).1;
        law_tokens_in_order(s);
        assert(upcoming(s).drop_first() =~= rest);
    }
}

/// The operands of an instruction do not start with a dot.
proof fn lemma_no_dot<'a>(
    tokens: Seq<Token<'a>>,
    o: OperandsModel,
    isa: InstructionSet,
    map: SourceMapModel,
)
    requires
        operands_written(tokens, o, isa, map),
        tokens.len() > 0,
    ensures
        tokens[0] != Token::<'a>::Dot,
{
}

/// An instruction that is written in its notation is read as it is written, if what follows it cannot
/// be taken for more of it.
pub proof fn law_instruction_text_accepted<'a>(
    st: ParserState<'a>,
    ctx: ContextModel<'a>,
    tokens: Seq<Token<'a>>,
    text: InstructionText,
    rest: Seq<Token<'a>>,
)
    requires
        upcoming(st) == tokens + rest,
        instruction_written(tokens, text, *st.isa, ctx.map),
        ends_operands(
            tokens.skip(
                result_tokens(text.results).len() + 1 + type_tokens(text.explicit).len() as int,
            ),
            text.operands,
            rest,
        ),
        rest.len() > 0 ==> rest[0] != Token::<'a>::Dot,
        clear_end(st, rest),
    ensures
        ({
            let (r, s) = st.instruction_text(ctx);
            &&& r matches Ok(t) && {
                &&& t.results == text.results
                &&& t.opcode == text.opcode
                &&& t.explicit == text.explicit
                &&& t.operands == text.operands
            }
            &&& leaves(st, s, rest)
        }),
{
    broadcast use {lemma_fill, crate::syntax::lemma_more_values};

    let n = result_tokens::<'a>(text.results).len() as int;
    let m = n + 1 + type_tokens::<'a>(text.explicit).len();
    let word = tokens[n];
    let operands = tokens.skip(m);
    let explicit = type_tokens::<'a>(text.explicit);
    let t1 = seq![word] + explicit + operands + rest;
    assert(tokens =~= tokens.take(n) + seq![word] + tokens.subrange(n + 1, m) + operands);
    assert(upcoming(st) =~= result_tokens(text.results) + t1);
    lemma_inst_results_accepted(st, text.results, t1);
    let s1 = st.inst_results().1;
    assert(s1.isa == st.isa);
    law_tokens_in_order(s1);
    lemma_opcode_found(*st.isa, word->Identifier_0@, text.opcode);
    let s2 = s1.eat();
    assert(s1.opcode() == (Ok::<Opcode, Failure>(text.opcode), s2));
    assert(upcoming(s2) =~= explicit + (operands + rest));
    if operands.len() > 0 {
        lemma_no_dot(operands, text.operands, *st.isa, ctx.map);
    }
    assert(clear_end(s2, operands + rest));
    lemma_explicit_accepted(s2, text.explicit, operands + rest);
    let s3 = s2.explicit_type().1;
    assert(s3.isa == st.isa);
    law_operands_accepted(s3, ctx, operands, text.operands, rest);
}

proof fn lemma_explicit_accepted<'a>(
    st: ParserState<'a>,
    explicit: Option<Type>,
    rest: Seq<Token<'a>>,
)
    requires
        upcoming(st) == type_tokens(explicit) + rest,
        rest.len() > 0 ==> rest[0] != Token::<'a>::Dot,
        clear_end(st, rest),
    ensures
        st.explicit_type().0 == Ok::<Option<Type>, Failure>(explicit),
        leaves(st, st.explicit_type().1, rest),
{
    lemma_five_tokens(st);
    law_tokens_in_order(st);
    match explicit {
        Some(_) => {
            assert(upcoming(st).skip(2) =~= rest);
        },
        None => {
            assert(upcoming(st) =~= rest);
        },
    }
}

/// Are the arguments of a block new source values, and is none of them there twice?
pub open(crate) spec fn args_are_new(map: SourceMapModel, args: Seq<(Value, Type)>) -> bool {
    &&& forall|i: int| 0 <= i < args.len() ==> !map.values.contains_key((#[trigger] args[i]).0.0)
    &&& forall|i: int, j: int|
        0 <= i < j < args.len() ==> (#[trigger] args[i]).0 != (#[trigger] args[j]).0
}

/// An argument of a block that is a new source value is accepted.
proof fn lemma_ebb_arg_accepted<'a>(
    st: ParserState<'a>,
    ctx: ContextModel<'a>,
    ebb: Ebb,
    args: Seq<(Value, Type)>,
    rest: Seq<Token<'a>>,
)
    requires
        args.len() > 0,
        upcoming(st) == block_arg_tokens(args[0]) + rest,
        ctx.linked(),
        ebb.number() < ctx.function.ebbs.len(),
        ctx.function.size() + args.len() < u32::MAX / 2,
        args_are_new(ctx.map, args),
    ensures
        ({
            let (r, s) = st.ebb_arg(ctx, ebb);
            &&& r matches Ok(after) && {
                &&& after.linked()
                &&& after.function.ebbs.len() == ctx.function.ebbs.len()
                &&& after.function.size() == ctx.function.size() + 1
                &&& args_are_new(after.map, args.drop_first())
            }
            &&& leaves(st, s, rest)
        }),
{
    lemma_five_tokens(st);
    assert(upcoming(st).skip(3) =~= rest);
    let arg = args[0];
    let f = ctx.function;
    let v = Value::table(f.table_values.len());
    let loc = st.eat().loc;
    assert(!f.has_value(v));
    assert(!f.has(AnyEntity::Value(v)));
    assert(ctx.map.location(AnyEntity::Value(v)) is None);
    assert(ctx.map.def_value(arg.0, v, loc) is Ok);
    let after = st.ebb_arg(ctx, ebb).0->Ok_0;
    lemma_with_ebb_arg(ctx, ebb, arg.1);
    let grown = ContextModel { function: f.with_ebb_arg(ebb, arg.1), map: ctx.map };
    assert(grown.function.has_value(v));
    lemma_def_value(grown, arg.0, v, loc);
    let tail = args.drop_first();
    assert forall|i: int| 0 <= i < tail.len() implies !after.map.values.contains_key(
        (#[trigger] tail[i]).0.0,
    ) by {
        assert(tail[i] == args[i + 1]);
        assert(args[0].0 != args[i + 1].0);
    }
    assert forall|i: int, j: int| 0 <= i < j < tail.len() implies (#[trigger] tail[i]).0 != (
    #[trigger] tail[j]).0 by {
        assert(tail[i] == args[i + 1]);
        assert(tail[j] == args[j + 1]);
    }
}

proof fn lemma_more_ebb_args_accepted<'a>(
    st: ParserState<'a>,
    ctx: ContextModel<'a>,
    ebb: Ebb,
    args: Seq<(Value, Type)>,
    rest: Seq<Token<'a>>,
)
    requires
        upcoming(st) == comma_args(args) + seq![Token::RPar] + rest,
        ctx.linked(),
        ebb.number() < ctx.function.ebbs.len(),
        ctx.function.size() + args.len() < u32::MAX / 2,
        args_are_new(ctx.map, args),
    ensures
        st.more_ebb_args(ctx, ebb).0 is Ok,
        leaves(st, st.more_ebb_args(ctx, ebb).1, rest),
    decreases args.len(),
{
    law_tokens_in_order(st);
    lemma_fill(st);
    if args.len() == 0 {
        assert(upcoming(st) =~= seq![Token::RPar] + rest);
        law_tokens_in_order(st.fill());
        assert(upcoming(st).drop_first() =~= rest);
        lemma_fill(st.fill());
    } else {
        let tail = args.drop_first();
        let after = comma_args::<'a>(tail) + seq![Token::RPar] + rest;
        assert(upcoming(st)[0] == Token::<'a>::Comma);
        assert(upcoming(st).drop_first() =~= block_arg_tokens(args[0]) + after);
        let s = st.eat();
        lemma_ebb_arg_accepted(s, ctx, ebb, args, after);
        let (r, s2) = s.ebb_arg(ctx, ebb);
        lemma_ebb_arg(s, ctx, ebb);
        lemma_more_ebb_args_accepted(s2, r->Ok_0, ebb, tail, rest);
    }
}

/// The header of a block whose arguments are new source values is accepted.
pub proof fn law_block_header_accepted<'a>(
    st: ParserState<'a>,
    ctx: ContextModel<'a>,
    ebb: Ebb,
    args: Seq<(Value, Type)>,
    rest: Seq<Token<'a>>,
)
    requires
        upcoming(st) == block_args_tokens(args) + seq![Token::Colon] + rest,
        ctx.linked(),
        ebb.number() < ctx.function.ebbs.len(),
        ctx.function.size() + args.len() < u32::MAX / 2,
        args_are_new(ctx.map, args),
    ensures
        st.ebb_header_end(ctx, ebb).0 is Ok,
        leaves(st, st.ebb_header_end(ctx, ebb).1, rest),
{
    law_tokens_in_order(st);
    lemma_fill(st);
    if args.len() == 0 {
        assert(upcoming(st) =~= seq![Token::Colon] + rest);
        assert(upcoming(st).drop_first() =~= rest);
    } else {
        let tail = args.drop_first();
        let last = seq![Token::<'a>::Colon] + rest;
        let after = comma_args::<'a>(tail) + seq![Token::RPar] + last;
        assert(upcoming(st)[0] == Token::<'a>::LPar);
        assert(upcoming(st).drop_first() =~= block_arg_tokens(args[0]) + after);
        lemma_fill(st.fill());
        let s = st.eat();
        lemma_ebb_arg_accepted(s, ctx, ebb, args, after);
        let (r, s2) = s.ebb_arg(ctx, ebb);
        lemma_more_ebb_args_accepted(s2, r->Ok_0, ebb, tail, last);
        let s3 = s2.more_ebb_args(r->Ok_0, ebb).1;
        law_tokens_in_order(s3);
        assert(upcoming(s3).drop_first() =~= rest);
    }
}

/// A signature declaration is read as it is written, if what follows it cannot be taken for more of
/// it.
pub proof fn law_signature_decl_accepted<'a>(
    st: ParserState<'a>,
    n: u32,
    word: &'a str,
    sig: SignatureModel,
    rest: Seq<Token<'a>>,
)
    requires
        upcoming(st) == seq![Token::SigRef(n), Token::Equal, Token::Identifier(word)]
            + signature_tokens(sig) + rest,
        word@ == "signature"@,
        clear_end(st, rest),
        ends(rest),
    ensures
        st.signature_decl().0 == Ok::<(u32, SignatureModel), Failure>((n, sig)),
        leaves(st, st.signature_decl().1, rest),
{
    lemma_five_tokens(st);
    assert(upcoming(st).skip(3) =~= signature_tokens(sig) + rest);
    law_signature_round_trip(st.eat().eat().eat(), sig, rest);
}

/// The name and the signature of a function are read as they are written, if what follows them cannot
/// be taken for more of them.
pub proof fn law_function_head_accepted<'a>(
    st: ParserState<'a>,
    word: &'a str,
    name: &'a str,
    sig: SignatureModel,
    rest: Seq<Token<'a>>,
)
    requires
        upcoming(st) == seq![Token::Identifier(word), Token::Identifier(name)] + signature_tokens(
            sig,
        ) + rest,
        word@ == "function"@,
        clear_end(st, rest),
        ends(rest),
    ensures
        st.function_spec().0 matches Ok((location, n, s)) && location == st.fill().loc && n == name
            && s == sig,
        leaves(st, st.function_spec().1, rest),
        st.function().0 matches Ok((f, _)) ==> rest.len() > 0 ==> f.name == name && f.signature
            == sig,
{
    lemma_five_tokens(st);
    assert(upcoming(st).skip(2) =~= signature_tokens(sig) + rest);
    law_signature_round_trip(st.eat().eat(), sig, rest);
    if rest.len() > 0 && st.function().0 is Ok {
        let begin = st.begin_function();
        law_tokens_in_order(st);
        assert(upcoming(begin) == upcoming(st));
        lemma_five_tokens(begin);
        law_signature_round_trip(begin.eat().eat(), sig, rest);
        let s = begin.function_spec().1;
        let ctx0 = ContextModel::empty(name, sig);
        if let (Ok(_), s) = s.expect(Token::LBrace, "expected '{' before function body"@) {
            lemma_preamble_grew(s, ctx0);
            if let (Ok(ctx1), s) = s.preamble(ctx0) {
                lemma_body_grew(s, ctx1);
                if let Ok(ctx) = s.function_body(ctx1).0 {
                    law_each_reference(ctx);
                }
            }
        }
    }
}

/// A declaration of an external function that comes with its signature is read as it is written, if
/// what follows it cannot be taken for more of it. The signature is added to the function.
pub proof fn law_function_decl_accepted<'a>(
    st: ParserState<'a>,
    ctx: ContextModel<'a>,
    n: u32,
    word: &'a str,
    name: &'a str,
    sig: SignatureModel,
    rest: Seq<Token<'a>>,
)
    requires
        upcoming(st) == seq![
            Token::FuncRef(n),
            Token::Equal,
            Token::Identifier(word),
            Token::Identifier(name),
        ] + signature_tokens(sig) + rest,
        word@ == "function"@,
        clear_end(st, rest),
        ends(rest),
        ctx.linked(),
        ctx.function.size() < u32::MAX,
    ensures
        ({
            let (r, s) = st.function_decl(ctx);
            &&& r matches Ok((number, data, after)) && {
                &&& number == n
                &&& data.name == name
                &&& data.signature.number() == ctx.function.signatures.len()
                &&& after.function.signatures == ctx.function.signatures.push(sig)
            }
            &&& leaves(st, s, rest)
        }),
{
    lemma_five_tokens(st);
    let s = st.eat().eat();
    law_tokens_in_order(s);
    assert(upcoming(s.fill()) =~= seq![Token::Identifier(word), Token::Identifier(name)]
        + signature_tokens(sig) + rest);
    law_function_head_accepted(s.fill(), word, name, sig, rest);
    let entity = AnyEntity::SigRef(SigRef::of(ctx.function.signatures.len() as u32));
    assert(!ctx.function.has(entity));
    assert(ctx.map.location(entity) is None);
}

/// A declaration of an external function with a declared signature is read as it is written.
pub proof fn law_import_accepted<'a>(
    st: ParserState<'a>,
    ctx: ContextModel<'a>,
    n: u32,
    src: u32,
    name: &'a str,
    rest: Seq<Token<'a>>,
)
    requires
        upcoming(st) == seq![
            Token::FuncRef(n),
            Token::Equal,
            Token::SigRef(src),
            Token::Identifier(name),
        ] + rest,
    ensures
        ({
            let (r, s) = st.function_decl(ctx);
            &&& r is Ok <==> ctx.map.signatures.contains_key(src)
            &&& r matches Ok((number, data, after)) ==> {
                &&& number == n
                &&& data.name == name
                &&& data.signature == ctx.map.signatures[src]
                &&& after == ctx
                &&& leaves(st, s, rest)
            }
        }),
{
    lemma_five_tokens(st);
    assert(upcoming(st).skip(4) =~= rest);
}

} // verus!
