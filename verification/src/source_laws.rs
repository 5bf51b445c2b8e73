//! Laws of whole functions: what the text of a function says, and the function that is built from it.

use crate::body::{lemma_ebb_arg, lemma_extended_basic_block, lemma_instruction, InstructionText};
use crate::building_laws::{
    callee_known, fits, grew, inst_built, known, law_placed_instruction, lemma_body_grew,
    lemma_ebb_arg_grew, lemma_grew, lemma_grew_size, lemma_header_end_grew, lemma_inst_stays,
    lemma_instruction_grew, lemma_instructions_grew, lemma_more_ebb_args_grew, lemma_types_stay,
    results_define, same_declarations, starts,
};
use crate::context::ContextModel;
use crate::declaration_laws::{declarations_written, law_preamble_notation, lemma_preamble_known};
use crate::entities::{AnyEntity, Ebb, EntityRef, Inst, Value};
use crate::file_laws::law_whole_file;
use crate::function::FunctionModel;
use crate::instructions::{Constant, InstructionSet, OperandsModel};
use crate::notation_laws::{
    flat, instruction_written, is_declared, law_instruction_notation, lemma_one_token, lemma_reads,
    operands_written, reads,
};
use crate::preamble_laws::{has_its_signature, holds, law_preamble, Declaration};
use crate::reading::{lemma_fill, lemma_preamble_decl, value_in, word_in, ParserState};
use crate::reference_laws::{function_rewritten, law_each_reference};
use crate::signature_laws::{
    is_word, law_signature_notation, signature_is, source_signature_tokens, SourceSignature,
};
use crate::testfile::DetailsModel;
use crate::token::Token;
use crate::token_laws::{clean, upcoming};
use crate::types::Type;
use vstd::prelude::*;

verus! {

/// An instruction in the text of a function, with its tokens.
pub struct SourceInst<'a> {
    pub text: InstructionText,
    pub tokens: Seq<Token<'a>>,
}

/// A block in the text of a function: its source number, its arguments with their types, and its
/// instructions.
pub struct SourceBlock<'a> {
    pub number: Ebb,
    pub args: Seq<(Value, Type)>,
    pub insts: Seq<SourceInst<'a>>,
}

/// The tokens of an argument of a block.
pub open spec fn block_arg_tokens<'a>(arg: (Value, Type)) -> Seq<Token<'a>> {
    seq![Token::Value(arg.0), Token::Colon, Token::Type(arg.1)]
}

/// The tokens of some arguments of a block, with a comma before each.
pub open spec fn comma_args<'a>(args: Seq<(Value, Type)>) -> Seq<Token<'a>>
    decreases args.len(),
{
    if args.len() == 0 {
        seq![]
    } else {
        seq![Token::Comma] + block_arg_tokens(args[0]) + comma_args(args.drop_first())
    }
}

/// The tokens of the arguments of a block: a list in parentheses, or nothing if there are none.
pub open spec fn block_args_tokens<'a>(args: Seq<(Value, Type)>) -> Seq<Token<'a>> {
    if args.len() == 0 {
        seq![]
    } else {
        seq![Token::LPar] + block_arg_tokens(args[0]) + comma_args(args.drop_first())
            + seq![Token::RPar]
    }
}

/// The tokens of some instructions, one after the other.
pub open spec fn insts_tokens<'a>(insts: Seq<SourceInst<'a>>) -> Seq<Token<'a>>
    decreases insts.len(),
{
    if insts.len() == 0 {
        seq![]
    } else {
        insts[0].tokens + insts_tokens(insts.drop_first())
    }
}

/// The tokens of a block.
pub open spec fn block_tokens<'a>(block: SourceBlock<'a>) -> Seq<Token<'a>> {
    seq![Token::Ebb(block.number)] + block_args_tokens(block.args) + seq![Token::Colon]
        + insts_tokens(block.insts)
}

/// The tokens of some blocks, one after the other.
pub open spec fn blocks_tokens<'a>(blocks: Seq<SourceBlock<'a>>) -> Seq<Token<'a>>
    decreases blocks.len(),
{
    if blocks.len() == 0 {
        seq![]
    } else {
        block_tokens(blocks[0]) + blocks_tokens(blocks.drop_first())
    }
}

/// Is the value the argument that a block header declares? The source value stands for it, and it has
/// the declared type.
pub open(crate) spec fn arg_built(ctx: ContextModel, v: Value, arg: (Value, Type)) -> bool {
    &&& ctx.map.values.contains_key(arg.0.0)
    &&& ctx.map.values[arg.0.0] == v
    &&& ctx.function.has_value(v)
    &&& ctx.function.type_of(v) == arg.1
}

/// Do the arguments of a block define this source value?
pub open(crate) spec fn args_define(args: Seq<(Value, Type)>, n: u32) -> bool {
    exists|k: int| 0 <= k < args.len() && (#[trigger] args[k]).0.0 == n
}

/// Did a block get just these arguments, in this order, after those that it had?
pub open(crate) spec fn args_added(
    a: ContextModel,
    b: ContextModel,
    e: int,
    args: Seq<(Value, Type)>,
) -> bool {
    let old_args = a.function.ebbs[e].args;
    let new_args = b.function.ebbs[e].args;
    &&& b.function.insts == a.function.insts
    &&& b.function.ebbs.len() == a.function.ebbs.len()
    &&& b.function.ebbs[e].insts == a.function.ebbs[e].insts
    &&& forall|d: int|
        0 <= d < a.function.ebbs.len() && d != e ==> #[trigger] b.function.ebbs[d]
            == a.function.ebbs[d]
    &&& new_args.len() == old_args.len() + args.len()
    &&& forall|k: int|
        0 <= k < args.len() ==> arg_built(b, new_args[old_args.len() + k], #[trigger] args[k])
    &&& forall|n: u32| #[trigger]
        b.map.values.contains_key(n) ==> a.map.values.contains_key(n) || args_define(args, n)
}

proof fn lemma_arg_stays<'a>(
    a: ContextModel<'a>,
    b: ContextModel<'a>,
    v: Value,
    arg: (Value, Type),
)
    requires
        arg_built(a, v, arg),
        grew(a, b),
    ensures
        arg_built(b, v, arg),
{
    lemma_types_stay(a, b, v);
}

/// One argument of a block.
proof fn lemma_ebb_arg_built<'a>(
    st: ParserState<'a>,
    ctx: ContextModel<'a>,
    ebb: Ebb,
) -> (arg: (Value, Type))
    requires
        clean(st.items),
        known(ctx),
        ebb.number() < ctx.function.ebbs.len(),
        st.ebb_arg(ctx, ebb).0 is Ok,
        fits(st.ebb_arg(ctx, ebb).0->Ok_0.function),
    ensures
        reads(st, block_arg_tokens(arg), st.ebb_arg(ctx, ebb).1),
        known(st.ebb_arg(ctx, ebb).0->Ok_0),
        args_added(ctx, st.ebb_arg(ctx, ebb).0->Ok_0, ebb.number() as int, seq![arg]),
{
    broadcast use lemma_one_token;

    let after = st.ebb_arg(ctx, ebb).0->Ok_0;
    let (r1, s1) = st.match_value("EBB argument must be a value"@);
    let (r2, s2) = s1.expect(Token::Colon, "expected ':' after EBB argument"@);
    let (r3, s3) = s2.match_type("expected EBB argument type"@);
    let arg = (r1->Ok_0, r3->Ok_0);
    lemma_reads(st, seq![Token::Value(arg.0)], s1, seq![Token::Colon], s2);
    lemma_reads(
        st,
        seq![Token::Value(arg.0)] + seq![Token::Colon],
        s2,
        seq![Token::Type(arg.1)],
        s3,
    );
    assert(seq![Token::Value(arg.0)] + seq![Token::Colon] + seq![Token::Type(arg.1)]
        =~= block_arg_tokens::<'a>(arg));
    let e = ebb.number() as int;
    let f = ctx.function;
    let g = after.function;
    let v = Value::table(f.table_values.len());
    assert(g.ebbs[e].args == f.ebbs[e].args.push(v));
    lemma_ebb_arg_grew(st, ctx, ebb);
    assert(g.has_value(v));
    assert forall|n: u32| #[trigger] after.map.values.contains_key(n) implies g.has_value(
        after.map.values[n],
    ) by {
        if n != arg.0.0 {
            assert(ctx.map.values.contains_key(n));
            lemma_types_stay(ctx, after, ctx.map.values[n]);
        }
    }
    assert(g.type_of(v) == arg.1);
    assert(arg_built(after, v, arg));
    assert(seq![arg][0] == arg);
    assert(args_define(seq![arg], arg.0.0));
    arg
}

/// Arguments that were added in two steps.
proof fn lemma_args_added<'a>(
    a: ContextModel<'a>,
    b: ContextModel<'a>,
    c: ContextModel<'a>,
    e: int,
    first: Seq<(Value, Type)>,
    second: Seq<(Value, Type)>,
)
    requires
        0 <= e < a.function.ebbs.len(),
        args_added(a, b, e, first),
        args_added(b, c, e, second),
        grew(b, c),
    ensures
        args_added(a, c, e, first + second),
{
    let old_args = a.function.ebbs[e].args;
    let mid_args = b.function.ebbs[e].args;
    let new_args = c.function.ebbs[e].args;
    let args = first + second;
    assert forall|n: u32| #[trigger] c.map.values.contains_key(n) implies a.map.values.contains_key(n)
        || args_define(args, n) by {
        if args_define(second, n) {
            let k = choose|k: int| 0 <= k < second.len() && (#[trigger] second[k]).0.0 == n;
            assert(args[first.len() + k] == second[k]);
        } else if args_define(first, n) {
            let k = choose|k: int| 0 <= k < first.len() && (#[trigger] first[k]).0.0 == n;
            assert(args[k] == first[k]);
        } else {
            assert(b.map.values.contains_key(n));
        }
    }
    assert forall|k: int| 0 <= k < args.len() implies arg_built(
        c,
        new_args[old_args.len() + k],
        #[trigger] args[k],
    ) by {
        if k < first.len() {
            assert(args[k] == first[k]);
            assert(starts(mid_args, new_args));
            assert(new_args[old_args.len() + k] == mid_args[old_args.len() + k]);
            lemma_arg_stays(b, c, mid_args[old_args.len() + k], first[k]);
        } else {
            let j = k - first.len();
            assert(args[k] == second[j]);
            assert(arg_built(c, new_args[mid_args.len() + j], second[j]));
        }
    }
    assert forall|d: int|
        0 <= d < a.function.ebbs.len() && d != e implies #[trigger] c.function.ebbs[d]
        == a.function.ebbs[d] by {
        assert(b.function.ebbs[d] == a.function.ebbs[d]);
    }
}

/// The arguments of a block after the first.
proof fn lemma_more_ebb_args_built<'a>(
    st: ParserState<'a>,
    ctx: ContextModel<'a>,
    ebb: Ebb,
) -> (args: Seq<(Value, Type)>)
    requires
        clean(st.items),
        known(ctx),
        ebb.number() < ctx.function.ebbs.len(),
        st.more_ebb_args(ctx, ebb).0 is Ok,
        fits(st.more_ebb_args(ctx, ebb).0->Ok_0.function),
    ensures
        reads(st, comma_args(args) + seq![Token::RPar], st.more_ebb_args(ctx, ebb).1),
        known(st.more_ebb_args(ctx, ebb).0->Ok_0),
        args_added(ctx, st.more_ebb_args(ctx, ebb).0->Ok_0, ebb.number() as int, args),
    decreases st.remaining(),
{
    broadcast use {lemma_fill, lemma_one_token};

    let after = st.more_ebb_args(ctx, ebb).0->Ok_0;
    let end = st.more_ebb_args(ctx, ebb).1;
    let (more, s) = st.optional(Token::Comma);
    if more {
        let (r, s2) = s.ebb_arg(ctx, ebb);
        let next = r->Ok_0;
        lemma_ebb_arg(s, ctx, ebb);
        lemma_more_ebb_args_grew(s2, next, ebb);
        lemma_grew_size(next, after);
        let arg = lemma_ebb_arg_built(s, ctx, ebb);
        let tail = lemma_more_ebb_args_built(s2, next, ebb);
        let args = seq![arg] + tail;
        assert(args.drop_first() =~= tail);
        let x = seq![Token::<'a>::Comma];
        let y = block_arg_tokens::<'a>(arg);
        let z = comma_args::<'a>(tail) + seq![Token::RPar];
        lemma_reads(st, x, s, y, s2);
        lemma_reads(st, x + y, s2, z, end);
        assert((x + y) + z =~= comma_args::<'a>(args) + seq![Token::RPar]);
        lemma_args_added(ctx, next, after, ebb.number() as int, seq![arg], tail);
        args
    } else {
        let none: Seq<(Value, Type)> = seq![];
        assert(comma_args::<'a>(none) + seq![Token::RPar] =~= seq![Token::RPar]);
        lemma_reads(st, seq![], s, seq![Token::RPar], end);
        assert(seq![] + seq![Token::RPar] =~= seq![Token::<'a>::RPar]);
        none
    }
}

/// A block gets the arguments that its header declares, in their order: argument `k` has the type
/// that is declared at position `k`, and the source value at position `k` stands for it.
pub proof fn law_block_header<'a>(
    st: ParserState<'a>,
    ctx: ContextModel<'a>,
    ebb: Ebb,
) -> (args: Seq<(Value, Type)>)
    requires
        clean(st.items),
        known(ctx),
        ebb.number() < ctx.function.ebbs.len(),
        st.ebb_header_end(ctx, ebb).0 is Ok,
        fits(st.ebb_header_end(ctx, ebb).0->Ok_0.function),
    ensures
        reads(st, block_args_tokens(args) + seq![Token::Colon], st.ebb_header_end(ctx, ebb).1),
        known(st.ebb_header_end(ctx, ebb).0->Ok_0),
        args_added(ctx, st.ebb_header_end(ctx, ebb).0->Ok_0, ebb.number() as int, args),
{
    broadcast use {lemma_fill, lemma_one_token};

    let after = st.ebb_header_end(ctx, ebb).0->Ok_0;
    let end = st.ebb_header_end(ctx, ebb).1;
    let (colon, s) = st.optional(Token::Colon);
    if colon {
        let none: Seq<(Value, Type)> = seq![];
        assert(block_args_tokens::<'a>(none) + seq![Token::Colon] =~= seq![Token::Colon]);
        none
    } else {
        let s1 = s.expect(Token::LPar, "expected '(' before EBB arguments"@).1;
        let (r, s2) = s1.ebb_arg(ctx, ebb);
        let next = r->Ok_0;
        let s3 = s2.more_ebb_args(next, ebb).1;
        lemma_more_ebb_args_grew(s2, next, ebb);
        lemma_grew_size(next, after);
        let arg = lemma_ebb_arg_built(s1, ctx, ebb);
        let tail = lemma_more_ebb_args_built(s2, next, ebb);
        let args = seq![arg] + tail;
        assert(args.drop_first() =~= tail);
        let w = seq![Token::<'a>::LPar];
        let x = block_arg_tokens::<'a>(arg);
        let y = comma_args::<'a>(tail) + seq![Token::RPar];
        let z = seq![Token::<'a>::Colon];
        lemma_reads(st, seq![], s, w, s1);
        lemma_reads(st, seq![] + w, s1, x, s2);
        lemma_reads(st, seq![] + w + x, s2, y, s3);
        lemma_reads(st, seq![] + w + x + y, s3, z, end);
        assert(seq![] + w + x + y + z =~= block_args_tokens::<'a>(args) + seq![Token::Colon]);
        lemma_args_added(ctx, next, after, ebb.number() as int, seq![arg], tail);
        args
    }
}

/// Is instruction `i` of the function what the text says, and are the tokens its notation?
pub open(crate) spec fn inst_is<'a>(
    ctx: ContextModel<'a>,
    isa: InstructionSet,
    i: int,
    inst: SourceInst<'a>,
) -> bool {
    &&& inst_built(ctx, isa, i, inst.text)
    &&& instruction_written(inst.tokens, inst.text, isa, ctx.map)
}

proof fn lemma_inst_is_stays<'a>(
    a: ContextModel<'a>,
    b: ContextModel<'a>,
    isa: InstructionSet,
    i: int,
    inst: SourceInst<'a>,
)
    requires
        inst_is(a, isa, i, inst),
        grew(a, b),
    ensures
        inst_is(b, isa, i, inst),
{
    lemma_inst_stays(a, b, isa, i, inst.text);
}

/// Does the instruction stand at this position of the block, with this number?
pub open(crate) spec fn inst_stands<'a>(
    ctx: ContextModel<'a>,
    isa: InstructionSet,
    e: int,
    position: int,
    i: int,
    inst: SourceInst<'a>,
) -> bool {
    &&& ctx.function.ebbs[e].insts[position] == Inst::of(i as u32)
    &&& inst_is(ctx, isa, i, inst)
}

/// Do the results of the instructions define this source value?
pub open(crate) spec fn insts_define(insts: Seq<SourceInst>, n: u32) -> bool {
    exists|k: int| 0 <= k < insts.len() && results_define((#[trigger] insts[k]).text.results, n)
}

/// Did a block get just these instructions, in this order, after those that it had? They have the
/// next instruction numbers.
pub open(crate) spec fn insts_added<'a>(
    a: ContextModel<'a>,
    b: ContextModel<'a>,
    isa: InstructionSet,
    e: int,
    insts: Seq<SourceInst<'a>>,
) -> bool {
    let n = a.function.ebbs[e].insts.len() as int;
    let base = a.function.insts.len() as int;
    &&& b.function.ebbs.len() == a.function.ebbs.len()
    &&& b.function.ebbs[e].args == a.function.ebbs[e].args
    &&& forall|d: int|
        0 <= d < a.function.ebbs.len() && d != e ==> #[trigger] b.function.ebbs[d]
            == a.function.ebbs[d]
    &&& b.function.insts.len() == base + insts.len()
    &&& b.function.ebbs[e].insts.len() == n + insts.len()
    &&& forall|k: int|
        0 <= k < insts.len() ==> inst_stands(b, isa, e, n + k, base + k, #[trigger] insts[k])
    &&& forall|v: u32| #[trigger]
        b.map.values.contains_key(v) ==> a.map.values.contains_key(v) || insts_define(insts, v)
}

/// Instructions that were added in two steps.
proof fn lemma_insts_added<'a>(
    a: ContextModel<'a>,
    b: ContextModel<'a>,
    c: ContextModel<'a>,
    isa: InstructionSet,
    e: int,
    first: Seq<SourceInst<'a>>,
    second: Seq<SourceInst<'a>>,
)
    requires
        0 <= e < a.function.ebbs.len(),
        insts_added(a, b, isa, e, first),
        insts_added(b, c, isa, e, second),
        grew(b, c),
    ensures
        insts_added(a, c, isa, e, first + second),
{
    let insts = first + second;
    assert forall|v: u32| #[trigger] c.map.values.contains_key(v) implies a.map.values.contains_key(v)
        || insts_define(insts, v) by {
        if insts_define(second, v) {
            let k = choose|k: int|
                0 <= k < second.len() && results_define((#[trigger] second[k]).text.results, v);
            assert(insts[first.len() + k] == second[k]);
        } else if insts_define(first, v) {
            let k = choose|k: int|
                0 <= k < first.len() && results_define((#[trigger] first[k]).text.results, v);
            assert(insts[k] == first[k]);
        } else {
            assert(b.map.values.contains_key(v));
        }
    }
    let n = a.function.ebbs[e].insts.len() as int;
    let base = a.function.insts.len() as int;
    assert forall|k: int| 0 <= k < insts.len() implies inst_stands(
        c,
        isa,
        e,
        n + k,
        base + k,
        #[trigger] insts[k],
    ) by {
        if k < first.len() {
            assert(insts[k] == first[k]);
            assert(inst_stands(b, isa, e, n + k, base + k, first[k]));
            assert(starts(b.function.ebbs[e].insts, c.function.ebbs[e].insts));
            assert(c.function.ebbs[e].insts[n + k] == b.function.ebbs[e].insts[n + k]);
            lemma_inst_is_stays(b, c, isa, base + k, first[k]);
        } else {
            let j = k - first.len();
            assert(insts[k] == second[j]);
            let m = b.function.ebbs[e].insts.len() as int;
            assert(inst_stands(c, isa, e, m + j, b.function.insts.len() + j, second[j]));
        }
    }
    assert forall|d: int|
        0 <= d < a.function.ebbs.len() && d != e implies #[trigger] c.function.ebbs[d]
        == a.function.ebbs[d] by {
        assert(b.function.ebbs[d] == a.function.ebbs[d]);
    }
}

/// What an instruction calls is declared.
proof fn lemma_callee_known(
    ctx: ContextModel,
    tokens: Seq<Token>,
    o: OperandsModel,
    isa: InstructionSet,
)
    requires
        known(ctx),
        operands_written(tokens, o, isa, ctx.map),
    ensures
        callee_known(ctx.function, o),
{
    match o.constant {
        Constant::Func(_) => {
            assert(is_declared(tokens[0], ctx.map, o.constant));
        },
        Constant::Sig(_) => {
            assert(is_declared(tokens[0], ctx.map, o.constant));
        },
        _ => {},
    }
}

/// One instruction of a block.
proof fn lemma_instruction_source<'a>(
    st: ParserState<'a>,
    ctx: ContextModel<'a>,
    ebb: Ebb,
) -> (inst: SourceInst<'a>)
    requires
        clean(st.items),
        known(ctx),
        ebb.number() < ctx.function.ebbs.len(),
        st.isa.is_complete(),
        st.instruction(ctx, ebb).0 is Ok,
        fits(st.instruction(ctx, ebb).0->Ok_0.function),
    ensures
        reads(st, inst.tokens, st.instruction(ctx, ebb).1),
        known(st.instruction(ctx, ebb).0->Ok_0),
        insts_added(
            ctx,
            st.instruction(ctx, ebb).0->Ok_0,
            *st.isa,
            ebb.number() as int,
            seq![inst],
        ),
{
    let after = st.instruction(ctx, ebb).0->Ok_0;
    let start = st.gather(AnyEntity::Inst(Inst::of(u32::MAX)));
    let (r, s) = start.instruction_text(ctx);
    let text = r->Ok_0;
    let tokens = law_instruction_notation(start, ctx);
    let inst = SourceInst { text, tokens };
    crate::body::lemma_instruction_text(start, ctx);
    let m = crate::notation_laws::result_tokens::<'a>(text.results).len() + 1
        + crate::notation_laws::type_tokens::<'a>(text.explicit).len();
    lemma_callee_known(ctx, tokens.skip(m as int), text.operands, *st.isa);
    assert(st.isa.info(text.opcode).is_complete());
    law_placed_instruction(s, ctx, ebb, text);
    assert(inst_is(after, *st.isa, ctx.function.insts.len() as int, inst));
    assert(seq![inst][0] == inst);
    inst
}

/// The instructions of a block.
proof fn lemma_instructions_source<'a>(
    st: ParserState<'a>,
    ctx: ContextModel<'a>,
    ebb: Ebb,
) -> (insts: Seq<SourceInst<'a>>)
    requires
        clean(st.items),
        known(ctx),
        ebb.number() < ctx.function.ebbs.len(),
        st.isa.is_complete(),
        st.instructions(ctx, ebb).0 is Ok,
        fits(st.instructions(ctx, ebb).0->Ok_0.function),
    ensures
        reads(st, insts_tokens(insts), st.instructions(ctx, ebb).1),
        known(st.instructions(ctx, ebb).0->Ok_0),
        insts_added(
            ctx,
            st.instructions(ctx, ebb).0->Ok_0,
            *st.isa,
            ebb.number() as int,
            insts,
        ),
    decreases st.remaining(),
{
    broadcast use {lemma_fill, lemma_one_token};

    let after = st.instructions(ctx, ebb).0->Ok_0;
    let end = st.instructions(ctx, ebb).1;
    let s = st.fill();
    if value_in(st.peek()) is Some || word_in(st.peek()) is Some {
        let (r, s2) = s.instruction(ctx, ebb);
        let next = r->Ok_0;
        lemma_instruction(s, ctx, ebb);
        lemma_instruction_grew(s, ctx, ebb);
        lemma_instructions_grew(s2, next, ebb);
        lemma_grew_size(next, after);
        let inst = lemma_instruction_source(s, ctx, ebb);
        let tail = lemma_instructions_source(s2, next, ebb);
        let insts = seq![inst] + tail;
        assert(insts.drop_first() =~= tail);
        lemma_reads(st, seq![], s, inst.tokens, s2);
        lemma_reads(st, seq![] + inst.tokens, s2, insts_tokens(tail), end);
        assert(seq![] + inst.tokens + insts_tokens(tail) =~= insts_tokens(insts));
        lemma_insts_added(ctx, next, after, *st.isa, ebb.number() as int, seq![inst], tail);
        insts
    } else {
        seq![]
    }
}

/// Is block `e` of the function what the text says? The source number of the block stands for it. It
/// has just the arguments that its header declares, in their order, and just the instructions of the
/// text, in their order, which are numbered from `base` on.
pub open(crate) spec fn block_is<'a>(
    ctx: ContextModel<'a>,
    isa: InstructionSet,
    e: int,
    base: int,
    block: SourceBlock<'a>,
) -> bool {
    let data = ctx.function.ebbs[e];
    &&& 0 <= e < ctx.function.ebbs.len()
    &&& ctx.map.ebbs.contains_key(block.number.0)
    &&& ctx.map.ebbs[block.number.0] == Ebb::of(e as u32)
    &&& data.args.len() == block.args.len()
    &&& forall|k: int|
        0 <= k < block.args.len() ==> arg_built(ctx, data.args[k], #[trigger] block.args[k])
    &&& data.insts.len() == block.insts.len()
    &&& forall|k: int|
        0 <= k < block.insts.len() ==> inst_stands(
            ctx,
            isa,
            e,
            k,
            base + k,
            #[trigger] block.insts[k],
        )
}

proof fn lemma_block_stays<'a>(
    a: ContextModel<'a>,
    b: ContextModel<'a>,
    isa: InstructionSet,
    e: int,
    base: int,
    block: SourceBlock<'a>,
)
    requires
        block_is(a, isa, e, base, block),
        grew(a, b),
        b.function.ebbs[e] == a.function.ebbs[e],
    ensures
        block_is(b, isa, e, base, block),
{
    let data = a.function.ebbs[e];
    assert forall|k: int| 0 <= k < block.args.len() implies arg_built(
        b,
        data.args[k],
        #[trigger] block.args[k],
    ) by {
        lemma_arg_stays(a, b, data.args[k], block.args[k]);
    }
    assert forall|k: int| 0 <= k < block.insts.len() implies inst_stands(
        b,
        isa,
        e,
        k,
        base + k,
        #[trigger] block.insts[k],
    ) by {
        assert(inst_stands(a, isa, e, k, base + k, block.insts[k]));
        lemma_inst_is_stays(a, b, isa, base + k, block.insts[k]);
    }
}

/// Does the block define this source value, as an argument or as a result?
pub open(crate) spec fn block_defines(block: SourceBlock, n: u32) -> bool {
    args_define(block.args, n) || insts_define(block.insts, n)
}

/// Does the source number of a new block stand for the next block, and all others for what they stood
/// for?
pub open(crate) spec fn block_numbered(
    a: ContextModel,
    b: ContextModel,
    block: SourceBlock,
) -> bool {
    &&& !a.map.ebbs.contains_key(block.number.0)
    &&& b.map.ebbs == a.map.ebbs.insert(
        block.number.0,
        Ebb::of(a.function.ebbs.len() as u32),
    )
}

/// Are the first blocks of the function as they were?
pub open(crate) spec fn blocks_kept(a: ContextModel, b: ContextModel) -> bool {
    starts(a.function.ebbs, b.function.ebbs)
}

/// A block that was read is what its text says, and stands after all other blocks.
pub proof fn law_block_source<'a>(
    st: ParserState<'a>,
    ctx: ContextModel<'a>,
) -> (block: SourceBlock<'a>)
    requires
        clean(st.items),
        known(ctx),
        st.isa.is_complete(),
        st.extended_basic_block(ctx).0 is Ok,
        fits(st.extended_basic_block(ctx).0->Ok_0.function),
    ensures
        reads(st, block_tokens(block), st.extended_basic_block(ctx).1),
        known(st.extended_basic_block(ctx).0->Ok_0),
        blocks_kept(ctx, st.extended_basic_block(ctx).0->Ok_0),
        st.extended_basic_block(ctx).0->Ok_0.function.ebbs.len() == ctx.function.ebbs.len() + 1,
        block_numbered(ctx, st.extended_basic_block(ctx).0->Ok_0, block),
        forall|n: u32| #[trigger]
            st.extended_basic_block(ctx).0->Ok_0.map.values.contains_key(n)
                ==> ctx.map.values.contains_key(n) || block_defines(block, n),
        st.extended_basic_block(ctx).0->Ok_0.function.insts.len() == ctx.function.insts.len()
            + block.insts.len(),
        block_is(
            st.extended_basic_block(ctx).0->Ok_0,
            *st.isa,
            ctx.function.ebbs.len() as int,
            ctx.function.insts.len() as int,
            block,
        ),
{
    broadcast use {lemma_fill, lemma_one_token};

    let after = st.extended_basic_block(ctx).0->Ok_0;
    let end = st.extended_basic_block(ctx).1;
    let (r, s) = st.match_ebb("expected EBB header"@);
    let number = r->Ok_0;
    let ebb = Ebb::of(ctx.function.ebbs.len() as u32);
    let with_ebb = ctx.add_ebb(number, s.loc)->Ok_0;
    let s1 = s.gather(AnyEntity::Ebb(ebb));
    let (r2, s2) = s1.ebb_header_end(with_ebb, ebb);
    let next = r2->Ok_0;
    assert(grew(ctx, with_ebb));
    lemma_header_end_grew(s1, with_ebb, ebb);
    lemma_grew(ctx, with_ebb, next);
    lemma_instructions_grew(s2, next, ebb);
    lemma_grew_size(next, after);
    lemma_grew_size(with_ebb, next);
    let e = ctx.function.ebbs.len() as int;
    assert(known(with_ebb)) by {
        assert forall|n: u32| #[trigger]
            with_ebb.map.values.contains_key(n) implies with_ebb.function.has_value(
            with_ebb.map.values[n],
        ) by {
            lemma_types_stay(ctx, with_ebb, ctx.map.values[n]);
        }
    }
    let args = law_block_header(s1, with_ebb, ebb);
    crate::body::lemma_ebb_arg(s1, with_ebb, ebb);
    lemma_header_isa(s1, with_ebb, ebb);
    let insts = lemma_instructions_source(s2, next, ebb);
    let block = SourceBlock { number, args, insts };
    let x = seq![Token::<'a>::Ebb(number)];
    let y = block_args_tokens::<'a>(args) + seq![Token::Colon];
    lemma_reads(st, x, s1, y, s2);
    lemma_reads(st, x + y, s2, insts_tokens(insts), end);
    assert((x + y) + insts_tokens(insts) =~= block_tokens(block));
    assert forall|k: int| 0 <= k < args.len() implies arg_built(
        after,
        after.function.ebbs[e].args[k],
        #[trigger] args[k],
    ) by {
        assert(arg_built(next, next.function.ebbs[e].args[0 + k], args[k]));
        lemma_arg_stays(next, after, next.function.ebbs[e].args[k], args[k]);
    }
    assert forall|k: int| 0 <= k < insts.len() implies inst_stands(
        after,
        *st.isa,
        e,
        k,
        ctx.function.insts.len() + k,
        #[trigger] insts[k],
    ) by {
        let n = next.function.ebbs[e].insts.len() as int;
        assert(inst_stands(after, *st.isa, e, n + k, next.function.insts.len() + k, insts[k]));
    }
    assert(with_ebb.map.ebbs.contains_key(number.0));
    assert(next.map.ebbs.contains_key(number.0));
    assert forall|n: u32| #[trigger] after.map.values.contains_key(n) implies
        ctx.map.values.contains_key(n) || block_defines(block, n) by {
        if next.map.values.contains_key(n) {
            assert(with_ebb.map.values.contains_key(n) || args_define(args, n));
        }
    }
    assert forall|d: int| 0 <= d < e implies #[trigger] after.function.ebbs[d]
        == ctx.function.ebbs[d] by {
        assert(next.function.ebbs[d] == with_ebb.function.ebbs[d]);
    }
    block
}

/// The instruction set stays the same.
proof fn lemma_header_isa<'a>(st: ParserState<'a>, ctx: ContextModel<'a>, ebb: Ebb)
    ensures
        st.ebb_header_end(ctx, ebb).1.isa == st.isa,
{
    broadcast use {lemma_fill, lemma_ebb_arg, crate::body::lemma_more_ebb_args};

}

/// The number of instructions in the first `k` blocks.
pub open spec fn inst_count(blocks: Seq<SourceBlock>, k: int) -> nat
    decreases k,
{
    if k <= 0 {
        0
    } else {
        inst_count(blocks, k - 1) + blocks[k - 1].insts.len()
    }
}

proof fn lemma_inst_count<'a>(block: SourceBlock<'a>, tail: Seq<SourceBlock<'a>>, k: int)
    requires
        0 <= k <= tail.len(),
    ensures
        inst_count(seq![block] + tail, k + 1) == block.insts.len() + inst_count(tail, k),
    decreases k,
{
    let blocks = seq![block] + tail;
    if k > 0 {
        lemma_inst_count(block, tail, k - 1);
        assert(blocks[k] == tail[k - 1]);
    } else {
        reveal_with_fuel(inst_count, 2);
        assert(blocks[0] == block);
    }
}

/// Does one of the blocks define this source value?
pub open(crate) spec fn blocks_define(blocks: Seq<SourceBlock>, n: u32) -> bool {
    exists|k: int| 0 <= k < blocks.len() && block_defines(#[trigger] blocks[k], n)
}

/// Does one of the blocks have this source number?
pub open(crate) spec fn blocks_number(blocks: Seq<SourceBlock>, n: u32) -> bool {
    exists|k: int| 0 <= k < blocks.len() && (#[trigger] blocks[k]).number.0 == n
}

/// Did the function get just these blocks, in this order, after those that it had?
pub open(crate) spec fn blocks_added<'a>(
    a: ContextModel<'a>,
    b: ContextModel<'a>,
    isa: InstructionSet,
    blocks: Seq<SourceBlock<'a>>,
) -> bool {
    let n = a.function.ebbs.len() as int;
    let base = a.function.insts.len() as int;
    &&& blocks_kept(a, b)
    &&& b.function.ebbs.len() == n + blocks.len()
    &&& b.function.insts.len() == base + inst_count(blocks, blocks.len() as int)
    &&& forall|k: int|
        0 <= k < blocks.len() ==> block_is(
            b,
            isa,
            n + k,
            base + inst_count(blocks, k),
            #[trigger] blocks[k],
        )
    &&& forall|v: u32| #[trigger]
        b.map.values.contains_key(v) ==> a.map.values.contains_key(v) || blocks_define(blocks, v)
    &&& forall|v: u32| #[trigger]
        b.map.ebbs.contains_key(v) ==> a.map.ebbs.contains_key(v) || blocks_number(blocks, v)
}

/// One block, and more blocks after it.
proof fn lemma_blocks_added<'a>(
    a: ContextModel<'a>,
    b: ContextModel<'a>,
    c: ContextModel<'a>,
    isa: InstructionSet,
    block: SourceBlock<'a>,
    tail: Seq<SourceBlock<'a>>,
)
    requires
        blocks_kept(a, b),
        b.function.ebbs.len() == a.function.ebbs.len() + 1,
        b.function.insts.len() == a.function.insts.len() + block.insts.len(),
        block_is(
            b,
            isa,
            a.function.ebbs.len() as int,
            a.function.insts.len() as int,
            block,
        ),
        grew(b, c),
        blocks_added(b, c, isa, tail),
        block_numbered(a, b, block),
        forall|n: u32| #[trigger]
            b.map.values.contains_key(n) ==> a.map.values.contains_key(n) || block_defines(
                block,
                n,
            ),
    ensures
        blocks_added(a, c, isa, seq![block] + tail),
{
    let blocks = seq![block] + tail;
    assert(blocks[0] == block);
    assert forall|v: u32| #[trigger] c.map.values.contains_key(v) implies a.map.values.contains_key(v)
        || blocks_define(blocks, v) by {
        if blocks_define(tail, v) {
            let k = choose|k: int| 0 <= k < tail.len() && block_defines(#[trigger] tail[k], v);
            assert(blocks[k + 1] == tail[k]);
        } else {
            assert(b.map.values.contains_key(v));
            if block_defines(block, v) {
                assert(block_defines(blocks[0], v));
            }
        }
    }
    assert forall|v: u32| #[trigger] c.map.ebbs.contains_key(v) implies a.map.ebbs.contains_key(v)
        || blocks_number(blocks, v) by {
        if blocks_number(tail, v) {
            let k = choose|k: int| 0 <= k < tail.len() && (#[trigger] tail[k]).number.0 == v;
            assert(blocks[k + 1] == tail[k]);
        } else {
            assert(b.map.ebbs.contains_key(v));
            if v == block.number.0 {
                assert(blocks[0].number.0 == v);
            }
        }
    }
    let n = a.function.ebbs.len() as int;
    let base = a.function.insts.len() as int;
    lemma_inst_count(block, tail, tail.len() as int);
    assert forall|k: int| 0 <= k < blocks.len() implies block_is(
        c,
        isa,
        n + k,
        base + inst_count(blocks, k),
        #[trigger] blocks[k],
    ) by {
        if k == 0 {
            assert(c.function.ebbs[n] == b.function.ebbs[n]);
            lemma_block_stays(b, c, isa, n, base, block);
        } else {
            lemma_inst_count(block, tail, k - 1);
            assert(blocks[k] == tail[k - 1]);
            assert(block_is(
                c,
                isa,
                b.function.ebbs.len() + (k - 1),
                b.function.insts.len() as int + inst_count(tail, k - 1),
                tail[k - 1],
            ));
        }
    }
}

/// The blocks of a function.
proof fn lemma_body_source<'a>(
    st: ParserState<'a>,
    ctx: ContextModel<'a>,
) -> (blocks: Seq<SourceBlock<'a>>)
    requires
        clean(st.items),
        known(ctx),
        st.isa.is_complete(),
        st.function_body(ctx).0 is Ok,
        fits(st.function_body(ctx).0->Ok_0.function),
    ensures
        reads(st, blocks_tokens(blocks), st.function_body(ctx).1),
        known(st.function_body(ctx).0->Ok_0),
        blocks_added(ctx, st.function_body(ctx).0->Ok_0, *st.isa, blocks),
    decreases st.remaining(),
{
    broadcast use {lemma_fill, lemma_one_token};

    let after = st.function_body(ctx).0->Ok_0;
    let end = st.function_body(ctx).1;
    let s = st.fill();
    if st.peek() == Some(Token::RBrace) {
        seq![]
    } else {
        let (r, s2) = s.extended_basic_block(ctx);
        let next = r->Ok_0;
        lemma_extended_basic_block(s, ctx);
        lemma_body_grew(s2, next);
        lemma_grew_size(next, after);
        let block = law_block_source(s, ctx);
        let tail = lemma_body_source(s2, next);
        let blocks = seq![block] + tail;
        assert(blocks.drop_first() =~= tail);
        lemma_reads(st, seq![], s, block_tokens(block), s2);
        lemma_reads(st, seq![] + block_tokens(block), s2, blocks_tokens(tail), end);
        assert(seq![] + block_tokens(block) + blocks_tokens(tail) =~= blocks_tokens(blocks));
        lemma_blocks_added(ctx, next, after, *st.isa, block, tail);
        blocks
    }
}

/// The text of a function: its name, its signature, the declarations of its preamble with their
/// tokens, and its blocks.
pub struct SourceFunction<'a> {
    pub name: &'a str,
    pub signature: SourceSignature<'a>,
    pub decls: Seq<Declaration<'a>>,
    pub decl_tokens: Seq<Seq<Token<'a>>>,
    pub blocks: Seq<SourceBlock<'a>>,
}

/// Are the tokens the notation of this function?
pub open(crate) spec fn function_written<'a>(
    tokens: Seq<Token<'a>>,
    source: SourceFunction<'a>,
) -> bool {
    &&& declarations_written(source.decl_tokens, source.decls)
    &&& tokens.len() > 2
    &&& is_word(tokens[0], "function"@)
    &&& tokens[1] == Token::Identifier(source.name)
    &&& tokens.skip(2) == source_signature_tokens(source.signature) + seq![Token::LBrace] + flat(
        source.decl_tokens,
    ) + blocks_tokens(source.blocks) + seq![Token::RBrace]
}

/// Is the function, while its references are source references, what the text says? It has the name
/// and the signature of the text, just the declarations of the preamble, and just the blocks of the
/// text, in their order. Nothing but the declarations and the blocks defines source numbers.
pub open(crate) spec fn function_is<'a>(
    ctx: ContextModel<'a>,
    isa: InstructionSet,
    source: SourceFunction<'a>,
) -> bool {
    let f = ctx.function;
    let blocks = source.blocks;
    &&& f.name == source.name
    &&& signature_is(source.signature, f.signature)
    &&& holds(source.decls, ctx)
    &&& f.ebbs.len() == blocks.len()
    &&& f.insts.len() == inst_count(blocks, blocks.len() as int)
    &&& forall|e: int|
        0 <= e < blocks.len() ==> block_is(
            ctx,
            isa,
            e,
            inst_count(blocks, e) as int,
            #[trigger] blocks[e],
        )
    &&& forall|n: u32| #[trigger] ctx.map.values.contains_key(n) ==> blocks_define(blocks, n)
    &&& forall|n: u32| #[trigger] ctx.map.ebbs.contains_key(n) ==> blocks_number(blocks, n)
}

proof fn lemma_holds_stays<'a>(
    decls: Seq<Declaration<'a>>,
    a: ContextModel<'a>,
    b: ContextModel<'a>,
)
    requires
        holds(decls, a),
        same_declarations(a, b),
    ensures
        holds(decls, b),
{
    assert forall|i: int| 0 <= i < decls.len() implies #[trigger] has_its_signature(
        decls,
        b,
        i,
    ) by {
        assert(has_its_signature(decls, a, i));
    }
}

/// What stands between the braces of a function.
proof fn lemma_braced_source<'a>(
    st: ParserState<'a>,
    name: &'a str,
    sig: crate::function::SignatureModel,
) -> (r: (Seq<Seq<Token<'a>>>, Seq<SourceBlock<'a>>))
    requires
        clean(st.items),
        st.isa.is_complete(),
        st.braced_body(ContextModel::empty(name, sig)).0 is Ok,
        fits(st.braced_body(ContextModel::empty(name, sig)).0->Ok_0.function),
    ensures
        ({
            let ctx0 = ContextModel::empty(name, sig);
            let (ok, end) = st.braced_body(ctx0);
            let ctx = ok->Ok_0;
            let s1 = st.expect(Token::LBrace, "expected '{' before function body"@).1;
            let decls = s1.declarations(ctx0);
            &&& declarations_written(r.0, decls)
            &&& reads(
                st,
                seq![Token::LBrace] + flat(r.0) + blocks_tokens(r.1) + seq![Token::RBrace],
                end,
            )
            &&& holds(decls, ctx)
            &&& ctx.function.name == name
            &&& ctx.function.signature == sig
            &&& blocks_added(ctx0, ctx, *st.isa, r.1)
        }),
{
    broadcast use {lemma_fill, lemma_one_token};

    let ctx0 = ContextModel::empty(name, sig);
    let (ok, end) = st.braced_body(ctx0);
    let ctx = ok->Ok_0;
    let s1 = st.expect(Token::LBrace, "expected '{' before function body"@).1;
    let (r2, s2) = s1.preamble(ctx0);
    let ctx1 = r2->Ok_0;
    let s3 = s2.function_body(ctx1).1;
    crate::reading::lemma_preamble(s1, ctx0);
    crate::building_laws::lemma_preamble_grew(s1, ctx0);
    lemma_body_grew(s2, ctx1);
    lemma_grew_size(ctx1, ctx);
    assert(known(ctx0));
    lemma_preamble_known(s1, ctx0);
    let decls = s1.declarations(ctx0);
    let decl_tokens = law_preamble_notation(s1, ctx0);
    let blocks = lemma_body_source(s2, ctx1);
    law_preamble(s1, name, sig);
    lemma_holds_stays(decls, ctx1, ctx);
    lemma_no_values_declared(s1, ctx0);
    let w = seq![Token::<'a>::LBrace];
    lemma_reads(st, w, s1, flat(decl_tokens), s2);
    lemma_reads(st, w + flat(decl_tokens), s2, blocks_tokens(blocks), s3);
    lemma_reads(
        st,
        w + flat(decl_tokens) + blocks_tokens(blocks),
        s3,
        seq![Token::RBrace],
        end,
    );
    (decl_tokens, blocks)
}

/// A preamble defines no source values and no blocks.
proof fn lemma_no_values_declared<'a>(st: ParserState<'a>, ctx: ContextModel<'a>)
    ensures
        st.preamble(ctx).0 matches Ok(after) ==> after.map.values == ctx.map.values
            && after.map.ebbs == ctx.map.ebbs,
    decreases st.remaining(),
{
    broadcast use lemma_preamble_decl;

    if let (Some(Ok(next)), s) = st.preamble_decl(ctx) {
        lemma_no_values_declared(s, next);
    }
}

/// The tokens of the name and the signature of a function.
pub open spec fn is_head<'a>(
    tokens: Seq<Token<'a>>,
    name: &'a str,
    signature: SourceSignature<'a>,
) -> bool {
    &&& tokens.len() > 2
    &&& is_word(tokens[0], "function"@)
    &&& tokens[1] == Token::Identifier(name)
    &&& tokens.skip(2) == source_signature_tokens(signature)
}

/// The tokens that were read for the name and the signature of a function are their notation.
pub proof fn law_function_head<'a>(
    st: ParserState<'a>,
) -> (r: (Seq<Token<'a>>, SourceSignature<'a>))
    requires
        clean(st.items),
    ensures
        st.function_spec().0 matches Ok((_, name, sig)) ==> {
            &&& is_head(r.0, name, r.1)
            &&& signature_is(r.1, sig)
            &&& reads(st, r.0, st.function_spec().1)
        },
{
    broadcast use lemma_one_token;

    if let (Ok((_, name, sig)), s) = st.function_spec() {
        let s3 = st.expect_word("function"@, "expected 'function'"@).1;
        let word = st.peek()->0;
        let s4 = s3.eat();
        let signature = law_signature_notation(s4);
        let x = source_signature_tokens(signature);
        lemma_reads(st, seq![word], s3, seq![Token::Identifier(name)], s4);
        let h = seq![word] + seq![Token::Identifier(name)];
        lemma_reads(st, h, s4, x, s);
        let tokens = h + x;
        assert(tokens.skip(2) =~= x);
        (tokens, signature)
    } else {
        (seq![], SourceSignature { args: seq![], outputs: seq![] })
    }
}

/// The beginning and the end of a function take no tokens.
proof fn lemma_function_ends<'a>(st: ParserState<'a>)
    requires
        clean(st.items),
    ensures
        reads(st, seq![], st.begin_function()),
        reads(st, seq![], st.end_function()),
{
    lemma_one_token(st);
    lemma_one_token(st.gather(AnyEntity::Function));
}

/// The blocks of a function that had none.
proof fn lemma_all_blocks<'a>(
    ctx0: ContextModel<'a>,
    ctx: ContextModel<'a>,
    isa: InstructionSet,
    source: SourceFunction<'a>,
)
    requires
        blocks_added(ctx0, ctx, isa, source.blocks),
        ctx0.function.ebbs.len() == 0,
        ctx0.function.insts.len() == 0,
        ctx0.map.values == Map::<u32, Value>::empty(),
        ctx0.map.ebbs == Map::<u32, Ebb>::empty(),
        ctx.function.name == source.name,
        signature_is(source.signature, ctx.function.signature),
        holds(source.decls, ctx),
    ensures
        function_is(ctx, isa, source),
{
    let blocks = source.blocks;
    assert forall|e: int| 0 <= e < blocks.len() implies block_is(
        ctx,
        isa,
        e,
        inst_count(blocks, e) as int,
        #[trigger] blocks[e],
    ) by {
        assert(block_is(ctx, isa, 0 + e, 0int + inst_count(blocks, e), blocks[e]));
    }
}

/// A function that was read is what its text says. The tokens that were read are the notation of a
/// function, and what was built is that function: it has its name and its signature, its
/// declarations, its blocks with their arguments, and their instructions, with each source reference
/// replaced by what it stands for.
pub proof fn law_function_source<'a>(
    st: ParserState<'a>,
) -> (r: (Seq<Token<'a>>, SourceFunction<'a>, ContextModel<'a>))
    requires
        clean(st.items),
        st.isa.is_complete(),
        st.function().0 is Ok,
        fits(st.function().0->Ok_0.0),
    ensures
        ({
            let (f, details) = st.function().0->Ok_0;
            let (tokens, source, ctx) = r;
            &&& reads(st, tokens, st.function().1)
            &&& function_written(tokens, source)
            &&& function_is(ctx, *st.isa, source)
            &&& details.map == ctx.map
            &&& function_rewritten(ctx.map, ctx.function, f)
        }),
{
    let begin = st.begin_function();
    lemma_fill(st);
    lemma_function_ends(st);
    let (head, s) = begin.function_spec();
    let (_, name, sig) = head->Ok_0;
    let ctx0 = ContextModel::empty(name, sig);
    let (r, s2) = s.braced_body(ctx0);
    let ctx = r->Ok_0;
    law_each_reference(ctx);
    crate::reading::lemma_function_spec(begin);
    let (h, signature) = law_function_head(begin);
    let (decl_tokens, blocks) = lemma_braced_source(s, name, sig);
    let decls = s.expect(
        Token::LBrace,
        "expected '{' before function body"@,
    ).1.declarations(ctx0);
    let source = SourceFunction { name, signature, decls, decl_tokens, blocks };
    let y = seq![Token::LBrace] + flat(decl_tokens) + blocks_tokens(blocks) + seq![Token::RBrace];
    lemma_function_ends(s2);
    lemma_reads(st, seq![], begin, h, s);
    lemma_reads(st, seq![] + h, s, y, s2);
    lemma_reads(st, seq![] + h + y, s2, seq![], s2.end_function());
    let tokens = h + y;
    assert(seq![] + h + y + seq![] =~= tokens);
    assert(tokens.skip(2) =~= source_signature_tokens(signature) + seq![Token::LBrace] + flat(
        decl_tokens,
    ) + blocks_tokens(blocks) + seq![Token::RBrace]);
    lemma_all_blocks(ctx0, ctx, *st.isa, source);
    (tokens, source, ctx)
}

/// Is the function, with its details, what these tokens say?
#[verifier::opaque]
pub open(crate) spec fn function_read<'a>(
    tokens: Seq<Token<'a>>,
    isa: InstructionSet,
    item: (FunctionModel<'a>, DetailsModel<'a>),
) -> bool {
    exists|source: SourceFunction<'a>, ctx: ContextModel<'a>|
        {
            &&& function_written(tokens, source)
            &&& #[trigger] function_is(ctx, isa, source)
            &&& item.1.map == ctx.map
            &&& function_rewritten(ctx.map, ctx.function, item.0)
        }
}

/// Are the functions what the pieces of the file say, in their order?
pub open(crate) spec fn functions_read<'a>(
    tokens: Seq<Seq<Token<'a>>>,
    isa: InstructionSet,
    list: Seq<(FunctionModel<'a>, DetailsModel<'a>)>,
) -> bool {
    &&& tokens.len() == list.len()
    &&& forall|k: int| 0 <= k < list.len() ==> function_read(tokens[k], isa, #[trigger] list[k])
}

proof fn lemma_function_read<'a>(st: ParserState<'a>) -> (tokens: Seq<Token<'a>>)
    requires
        clean(st.items),
        st.isa.is_complete(),
        st.function().0 is Ok,
        fits(st.function().0->Ok_0.0),
    ensures
        reads(st, tokens, st.function().1),
        function_read(tokens, *st.isa, st.function().0->Ok_0),
{
    let (tokens, source, ctx) = law_function_source(st);
    assert(function_is(ctx, *st.isa, source));
    reveal(function_read);
    tokens
}

/// One function, and more functions after it.
proof fn lemma_functions_read<'a>(
    first: Seq<Token<'a>>,
    rest: Seq<Seq<Token<'a>>>,
    isa: InstructionSet,
    list: Seq<(FunctionModel<'a>, DetailsModel<'a>)>,
    all: Seq<(FunctionModel<'a>, DetailsModel<'a>)>,
    f: (FunctionModel<'a>, DetailsModel<'a>),
)
    requires
        list.len() < all.len(),
        all.take(list.len() as int + 1) == list.push(f),
        function_read(first, isa, f),
        functions_read(rest, isa, all.skip(list.len() as int + 1)),
    ensures
        all.take(list.len() as int) == list,
        functions_read(seq![first] + rest, isa, all.skip(list.len() as int)),
{
    let n = list.len() as int;
    assert(all.take(n + 1)[n] == f);
    assert(all.take(n) =~= all.take(n + 1).take(n));
    assert(list.push(f).take(n) =~= list);
    let tokens = seq![first] + rest;
    let tail = all.skip(n);
    assert forall|k: int| 0 <= k < tail.len() implies function_read(
        tokens[k],
        isa,
        #[trigger] tail[k],
    ) by {
        if k > 0 {
            assert(tail[k] == all.skip(n + 1)[k - 1]);
            assert(tokens[k] == rest[k - 1]);
        }
    }
}

proof fn lemma_list_source<'a>(
    st: ParserState<'a>,
    list: Seq<(FunctionModel<'a>, DetailsModel<'a>)>,
) -> (tokens: Seq<Seq<Token<'a>>>)
    requires
        clean(st.items),
        st.isa.is_complete(),
        st.function_list(list).0 is Ok,
        forall|k: int|
            0 <= k < st.function_list(list).0->Ok_0.len() ==> fits(
                (#[trigger] st.function_list(list).0->Ok_0[k]).0,
            ),
    ensures
        ({
            let all = st.function_list(list).0->Ok_0;
            let n = list.len() as int;
            &&& n <= all.len()
            &&& all.take(n) == list
            &&& functions_read(tokens, *st.isa, all.skip(n))
            &&& reads(st, flat(tokens), st.function_list(list).1)
        }),
    decreases st.remaining(),
{
    lemma_fill(st);
    lemma_one_token(st);
    let s = st.fill();
    let all = st.function_list(list).0->Ok_0;
    let end = st.function_list(list).1;
    let n = list.len() as int;
    if st.peek() is Some {
        crate::body::lemma_function(s);
        let (r, s2) = s.function();
        let f = r->Ok_0;
        law_whole_file(s2, list.push(f));
        let rest = lemma_list_source(s2, list.push(f));
        assert(all.take(n + 1)[n] == f);
        assert(all[n] == f);
        let first = lemma_function_read(s);
        let tokens = seq![first] + rest;
        assert(tokens.drop_first() =~= rest);
        lemma_reads(st, seq![], s, first, s2);
        assert(seq![] + first =~= first);
        lemma_reads(st, first, s2, flat(rest), end);
        lemma_functions_read(first, rest, *st.isa, list, all, f);
        tokens
    } else {
        assert(all.take(n) =~= list);
        seq![]
    }
}

/// The functions of a file are what the file says, in the order in which they stand there: all the
/// tokens of the file are the notations of functions, one after the other, and function `k` of the
/// result is what notation number `k` says.
pub proof fn law_file_source<'a>(st: ParserState<'a>) -> (tokens: Seq<Seq<Token<'a>>>)
    requires
        st.isa.is_complete(),
        st.function_list(seq![]).0 is Ok,
        forall|k: int|
            0 <= k < st.function_list(seq![]).0->Ok_0.len() ==> fits(
                (#[trigger] st.function_list(seq![]).0->Ok_0[k]).0,
            ),
    ensures
        functions_read(tokens, *st.isa, st.function_list(seq![]).0->Ok_0),
        upcoming(st) == flat(tokens),
{
    law_whole_file(st, seq![]);
    let tokens = lemma_list_source(st, seq![]);
    let all = st.function_list(seq![]).0->Ok_0;
    assert(all.skip(0) =~= all);
    let end = st.function_list(seq![]).1;
    assert(upcoming(end) =~= seq![]);
    assert(flat(tokens) + seq![] =~= flat(tokens));
    tokens
}

} // verus!
