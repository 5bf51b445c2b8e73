//! Laws of the entities that comments belong to.

use crate::body::{
    lemma_ebb_arg, lemma_extended_basic_block, lemma_instruction, lemma_instruction_text,
};
use crate::comment_laws::{
    lemma_function_decl, lemma_jump_table_decl, lemma_quiet_fill, lemma_quiet_function_spec,
    lemma_quiet_instruction_text, lemma_signature_decl, lemma_stack_slot_decl, quiet, within,
};
use crate::context::ContextModel;
use crate::entities::{AnyEntity, Ebb, EntityRef, FuncRef, Inst, JumpTable, SigRef, StackSlot};
use crate::error::Failure;
use crate::function::FunctionModel;
use crate::reading::{
    lemma_fill, lemma_function_spec, lemma_preamble_decl, value_in, word_in, ParserState,
};
use crate::testfile::DetailsModel;
use crate::token::Token;
use vstd::prelude::*;

verus! {

/// Are the comments gathered for entities of the function?
pub open(crate) spec fn tended(st: ParserState, f: FunctionModel) -> bool {
    &&& st.comment_entity matches Some(e) && f.has(e)
    &&& forall|i: int| 0 <= i < st.comments.len() ==> f.has((#[trigger] st.comments[i]).entity)
}

/// The comments are gathered for entities of the function, and its entities can be numbered.
pub open(crate) spec fn tidy<'a>(st: ParserState<'a>, ctx: ContextModel<'a>) -> bool {
    tended(st, ctx.function) && st.remaining() + ctx.function.size() < u32::MAX / 2
}

/// What reading a part of a function does: comments are gathered for entities of the function, and
/// the function grows by no more entities than tokens are taken.
pub open(crate) spec fn tends<'a>(
    st: ParserState<'a>,
    ctx: ContextModel<'a>,
    s: ParserState<'a>,
    after: ContextModel<'a>,
) -> bool {
    &&& tended(s, after.function)
    &&& within(ctx.function, after.function)
    &&& s.remaining() + after.function.size() <= st.remaining() + ctx.function.size()
}

proof fn lemma_preamble_decl_tends<'a>(st: ParserState<'a>, ctx: ContextModel<'a>)
    requires
        tidy(st, ctx),
    ensures
        match st.preamble_decl(ctx) {
            (Some(Ok(after)), s) => tends(st, ctx, s, after),
            (Some(Err(_)), _) => true,
            (None, s) => tends(st, ctx, s, ctx),
        },
{
    lemma_fill(st);
    lemma_quiet_fill(st);
    let f = ctx.function;
    let filled = st.fill();
    assert(tended(filled, f));
    match st.peek() {
        Some(Token::StackSlot(_)) => {
            let entity = AnyEntity::StackSlot(StackSlot::of(f.stack_slots.len() as u32));
            lemma_stack_slot_decl(filled.gather(entity));
        },
        Some(Token::SigRef(_)) => {
            let entity = AnyEntity::SigRef(SigRef::of(f.signatures.len() as u32));
            lemma_signature_decl(filled.gather(entity));
        },
        Some(Token::FuncRef(_)) => {
            let entity = AnyEntity::FuncRef(FuncRef::of(f.ext_funcs.len() as u32));
            lemma_function_decl(filled.gather(entity), ctx);
        },
        Some(Token::JumpTable(_)) => {
            let entity = AnyEntity::JumpTable(JumpTable::of(f.jump_tables.len() as u32));
            lemma_jump_table_decl(filled.gather(entity));
        },
        _ => {},
    }
}

proof fn lemma_preamble_tends<'a>(st: ParserState<'a>, ctx: ContextModel<'a>)
    requires
        tidy(st, ctx),
    ensures
        st.preamble(ctx) matches (Ok(after), s) ==> tends(st, ctx, s, after),
    decreases st.remaining(),
{
    lemma_preamble_decl_tends(st, ctx);
    lemma_preamble_decl(st, ctx);
    if let (Some(Ok(after)), s) = st.preamble_decl(ctx) {
        lemma_preamble_tends(s, after);
    }
}

proof fn lemma_ebb_arg_tends<'a>(st: ParserState<'a>, ctx: ContextModel<'a>, ebb: Ebb)
    requires
        tidy(st, ctx),
        ebb.number() < ctx.function.ebbs.len(),
    ensures
        st.ebb_arg(ctx, ebb) matches (Ok(after), s) ==> tends(st, ctx, s, after),
{
    broadcast use {lemma_fill, lemma_quiet_fill};

    assert(quiet(st, st.ebb_arg(ctx, ebb).1));
}

proof fn lemma_more_ebb_args_tends<'a>(st: ParserState<'a>, ctx: ContextModel<'a>, ebb: Ebb)
    requires
        tidy(st, ctx),
        ebb.number() < ctx.function.ebbs.len(),
    ensures
        st.more_ebb_args(ctx, ebb) matches (Ok(after), s) ==> tends(st, ctx, s, after),
    decreases st.remaining(),
{
    broadcast use {lemma_fill, lemma_quiet_fill};

    let (more, s) = st.optional(Token::Comma);
    assert(quiet(st, s));
    if more {
        lemma_ebb_arg_tends(s, ctx, ebb);
        lemma_ebb_arg(s, ctx, ebb);
        if let (Ok(after), s) = s.ebb_arg(ctx, ebb) {
            lemma_more_ebb_args_tends(s, after, ebb);
        }
    } else {
        assert(quiet(s, s.expect(Token::RPar, "expected ')' after EBB arguments"@).1));
    }
}

proof fn lemma_ebb_header_end_tends<'a>(st: ParserState<'a>, ctx: ContextModel<'a>, ebb: Ebb)
    requires
        tidy(st, ctx),
        ebb.number() < ctx.function.ebbs.len(),
    ensures
        st.ebb_header_end(ctx, ebb) matches (Ok(after), s) ==> tends(st, ctx, s, after),
{
    broadcast use {lemma_fill, lemma_quiet_fill};

    let (colon, s) = st.optional(Token::Colon);
    assert(quiet(st, s));
    if !colon {
        if let (Ok(_), s) = s.expect(Token::LPar, "expected '(' before EBB arguments"@) {
            lemma_ebb_arg_tends(s, ctx, ebb);
            if let (Ok(after), s) = s.ebb_arg(ctx, ebb) {
                lemma_more_ebb_args_tends(s, after, ebb);
                if let (Ok(last), s) = s.more_ebb_args(after, ebb) {
                    assert(quiet(
                        s,
                        s.expect(Token::Colon, "expected ':' after EBB arguments"@).1,
                    ));
                }
            }
        }
    }
}

proof fn lemma_instruction_tends<'a>(st: ParserState<'a>, ctx: ContextModel<'a>, ebb: Ebb)
    requires
        tidy(st, ctx),
        ebb.number() < ctx.function.ebbs.len(),
    ensures
        st.instruction(ctx, ebb) matches (Ok(after), s) ==> tends(st, ctx, s, after),
{
    let none = AnyEntity::Inst(Inst::of(u32::MAX));
    let start = st.gather(none);
    lemma_instruction_text(start, ctx);
    lemma_quiet_instruction_text(start, ctx);
    if let (Ok(after), s) = st.instruction(ctx, ebb) {
        let (text, mid) = start.instruction_text(ctx);
        let inst = AnyEntity::Inst(Inst::of(ctx.function.insts.len() as u32));
        assert(s == mid.retarget(none, inst));
        let n = st.comments.len();
        assert forall|i: int| 0 <= i < s.comments.len() implies after.function.has(
            (#[trigger] s.comments[i]).entity,
        ) by {
            if i < n {
                assert(mid.comments[i] == st.comments[i]);
                assert(ctx.function.has(st.comments[i].entity));
                assert(mid.comments[i].entity != none);
            } else {
                assert forall|k: int| i <= k < mid.comments.len() implies (
                #[trigger] mid.comments[k]).entity == none by {}
                assert(s.comments[i].entity == inst);
            }
        }
    }
}

proof fn lemma_instructions_tends<'a>(st: ParserState<'a>, ctx: ContextModel<'a>, ebb: Ebb)
    requires
        tidy(st, ctx),
        ebb.number() < ctx.function.ebbs.len(),
    ensures
        st.instructions(ctx, ebb) matches (Ok(after), s) ==> tends(st, ctx, s, after),
    decreases st.remaining(),
{
    broadcast use {lemma_fill, lemma_quiet_fill};

    assert(tended(st.fill(), ctx.function));
    if value_in(st.peek()) is Some || word_in(st.peek()) is Some {
        lemma_instruction_tends(st.fill(), ctx, ebb);
        lemma_instruction(st.fill(), ctx, ebb);
        if let (Ok(after), s) = st.fill().instruction(ctx, ebb) {
            lemma_instructions_tends(s, after, ebb);
        }
    }
}

proof fn lemma_extended_basic_block_tends<'a>(st: ParserState<'a>, ctx: ContextModel<'a>)
    requires
        tidy(st, ctx),
    ensures
        st.extended_basic_block(ctx) matches (Ok(after), s) ==> tends(st, ctx, s, after),
{
    broadcast use {lemma_fill, lemma_quiet_fill};

    if let (Ok(number), s) = st.match_ebb("expected EBB header"@) {
        assert(quiet(st, s));
        if let Ok(with_ebb) = ctx.add_ebb(number, s.loc) {
            let ebb = Ebb::of(ctx.function.ebbs.len() as u32);
            let s = s.gather(AnyEntity::Ebb(ebb));
            lemma_ebb_header_end_tends(s, with_ebb, ebb);
            if let (Ok(after), s) = s.ebb_header_end(with_ebb, ebb) {
                lemma_instructions_tends(s, after, ebb);
            }
        }
    }
}

proof fn lemma_function_body_tends<'a>(st: ParserState<'a>, ctx: ContextModel<'a>)
    requires
        tidy(st, ctx),
    ensures
        st.function_body(ctx) matches (Ok(after), s) ==> tends(st, ctx, s, after),
    decreases st.remaining(),
{
    broadcast use {lemma_fill, lemma_quiet_fill};

    assert(tended(st.fill(), ctx.function));
    if st.peek() != Some(Token::RBrace) {
        lemma_extended_basic_block_tends(st.fill(), ctx);
        lemma_extended_basic_block(st.fill(), ctx);
        if let (Ok(after), s) = st.fill().extended_basic_block(ctx) {
            lemma_function_body_tends(s, after);
        }
    }
}

/// Every comment of a function belongs to an entity of the function.
pub proof fn law_comment_entities<'a>(
    st: ParserState<'a>,
    f: FunctionModel<'a>,
    details: DetailsModel<'a>,
    s: ParserState<'a>,
)
    requires
        st.remaining() < u32::MAX / 2,
        st.function() == (Ok::<_, Failure>((f, details)), s),
    ensures
        forall|i: int|
            0 <= i < details.comments.len() ==> f.has((#[trigger] details.comments[i]).entity),
{
    broadcast use {lemma_fill, lemma_quiet_fill};

    let begin = st.begin_function();
    lemma_function_spec(begin);
    lemma_quiet_function_spec(begin);
    let (spec, s1) = begin.function_spec();
    let (location, name, sig) = spec->Ok_0;
    let ctx0 = ContextModel::empty(name, sig);
    assert(tended(s1, ctx0.function));
    let (brace, s2) = s1.expect(Token::LBrace, "expected '{' before function body"@);
    assert(quiet(s1, s2));
    lemma_preamble_tends(s2, ctx0);
    let (r3, s3) = s2.preamble(ctx0);
    let ctx3 = r3->Ok_0;
    lemma_function_body_tends(s3, ctx3);
    let (r4, s4) = s3.function_body(ctx3);
    let ctx4 = r4->Ok_0;
    let (close, s5) = s4.expect(Token::RBrace, "expected '}' after function body"@);
    assert(quiet(s4, s5));
    let s6 = s5.end_function();
    assert(quiet(s5.gather(AnyEntity::Function), s5.gather(AnyEntity::Function).fill()));
    assert(details.comments == s6.comments);
    assert forall|i: int| 0 <= i < details.comments.len() implies f.has(
        (#[trigger] details.comments[i]).entity,
    ) by {
        assert(ctx4.function.has(s6.comments[i].entity));
    }
}

} // verus!
