//! Laws of locations: where what was read stands, and which entity the comments there belong to.

use crate::body::{
    controlling_type, def_values, lemma_ebb_arg, lemma_instruction, lemma_more_ebb_args, result_types,
    InstructionText,
};
use crate::comment_laws::{
    lemma_function_decl, lemma_jump_table_decl, lemma_quiet_ebb_header_end, lemma_quiet_fill,
    lemma_quiet_instruction_text, lemma_signature_decl, lemma_stack_slot_decl,
};
use crate::context::ContextModel;
use crate::entities::{
    AnyEntity, Ebb, EntityRef, FuncRef, Inst, JumpTable, SigRef, StackSlot, Value,
};
use crate::error::Location;
use crate::reading::{lemma_fill, value_in, word_in, ParserState};
use crate::sourcemap::{entity_key, SourceMapModel};
use crate::testfile::Comment;
use crate::token::{LexItem, LocatedError, Token};
use vstd::prelude::*;

verus! {

/// The number of comments that some items start with.
pub open spec fn comment_count(items: Seq<LexItem>) -> nat
    decreases items.len(),
{
    if items.len() > 0 && items[0].content matches Ok(Token::Comment(_)) {
        1 + comment_count(items.drop_first())
    } else {
        0
    }
}

/// A parser that looks for a token is at the first item that is no comment: it has the token, the
/// location and the tail of that item, and goes on after it. If that item is a lexer error, there is
/// no token, and the error is kept with its location. A token that was looked at stays, with its
/// location and its tail.
pub proof fn law_token_place(st: ParserState)
    ensures
        st.lookahead is Some ==> st.fill() == st,
        st.lookahead is None ==> {
            let n = comment_count(st.items) as int;
            let s = st.fill();
            &&& n <= st.items.len()
            &&& n < st.items.len() ==> {
                &&& s.loc == st.items[n].location
                &&& s.items == st.items.skip(n + 1)
                &&& match st.items[n].content {
                    Ok(token) => s.lookahead == Some(token) && s.tail == st.items[n].tail
                        && s.lex_error == st.lex_error,
                    Err(error) => s.lookahead is None && s.lex_error == Some(
                        LocatedError { error, location: st.items[n].location },
                    ),
                }
            }
            &&& n == st.items.len() ==> {
                &&& s.lookahead is None
                &&& s.items.len() == 0
                &&& s.lex_error == st.lex_error
                &&& n > 0 ==> s.loc == st.items[n - 1].location
                &&& n == 0 ==> s.loc == st.loc
            }
        },
    decreases st.items.len(),
{
    if st.lookahead is None && st.items.len() > 0 {
        let item = st.items[0];
        let next = ParserState { items: st.items.drop_first(), loc: item.location, ..st };
        let n = comment_count(st.items) as int;
        if let Ok(Token::Comment(text)) = item.content {
            let later = match st.comment_entity {
                Some(entity) => ParserState {
                    comments: st.comments.push(Comment { entity, text }),
                    ..next
                },
                None => next,
            };
            law_token_place(later);
            assert(st.fill() == later.fill());
            if n < st.items.len() {
                assert(later.items[n - 1] == st.items[n]);
                assert(later.items.skip(n) =~= st.items.skip(n + 1));
            } else if n > 1 {
                assert(later.items[n - 2] == st.items[n - 1]);
            }
        } else {
            assert(st.items.skip(1) =~= st.items.drop_first());
        }
    }
}

/// The location of a function is that of the word "function", which is the first token that is read.
pub proof fn law_function_location(st: ParserState)
    ensures
        st.peek() is Some ==> (st.function().0 matches Ok((_, details)) ==> details.location
            == st.fill().loc),
{
    lemma_fill(st.begin_function());
}

/// Is the entity defined at this location?
pub open(crate) spec fn defined_at(ctx: ContextModel, entity: AnyEntity, loc: Location) -> bool {
    &&& ctx.map.locations.contains_key(entity_key(entity))
    &&& ctx.map.locations[entity_key(entity)] == loc
}

/// The entity that the last declaration has added, by the token that the declaration starts with.
pub open(crate) spec fn declared_entity(token: Token, after: ContextModel) -> AnyEntity {
    let f = after.function;
    match token {
        Token::StackSlot(_) => AnyEntity::StackSlot(
            StackSlot::of((f.stack_slots.len() - 1) as u32),
        ),
        Token::SigRef(_) => AnyEntity::SigRef(SigRef::of((f.signatures.len() - 1) as u32)),
        Token::FuncRef(_) => AnyEntity::FuncRef(FuncRef::of((f.ext_funcs.len() - 1) as u32)),
        _ => AnyEntity::JumpTable(JumpTable::of((f.jump_tables.len() - 1) as u32)),
    }
}

/// Were comments added for this entity alone?
pub open spec fn comments_for<'a>(
    before: Seq<Comment<'a>>,
    after: Seq<Comment<'a>>,
    entity: AnyEntity,
) -> bool {
    &&& before.len() <= after.len()
    &&& forall|i: int| 0 <= i < before.len() ==> #[trigger] after[i] == before[i]
    &&& forall|i: int|
        before.len() <= i < after.len() ==> (#[trigger] after[i]).entity == entity
}

/// An entity that was declared in a preamble is defined where the declaration ends, at the last item
/// that was looked at. The comments in the declaration belong to it.
pub proof fn law_declaration_place<'a>(st: ParserState<'a>, ctx: ContextModel<'a>)
    ensures
        st.preamble_decl(ctx).0 matches Some(Ok(after)) ==> {
            let s = st.preamble_decl(ctx).1;
            let entity = declared_entity(st.peek()->0, after);
            &&& defined_at(after, entity, s.loc)
            &&& comments_for(st.fill().comments, s.comments, entity)
        },
{
    if let (Some(Ok(after)), _) = st.preamble_decl(ctx) {
        let f = ctx.function;
        let filled = st.fill();
        match st.peek() {
            Some(Token::StackSlot(_)) => {
                let entity = AnyEntity::StackSlot(StackSlot::of(f.stack_slots.len() as u32));
                lemma_stack_slot_decl(filled.gather(entity));
            },
            Some(Token::SigRef(_)) => {
                let entity = AnyEntity::SigRef(SigRef::of(f.signatures.len() as u32));
                lemma_signature_decl(filled.gather(entity));
            },
            Some(Token::FuncRef(_)) => {
                let entity = AnyEntity::FuncRef(FuncRef::of(f.ext_funcs.len() as u32));
                lemma_function_decl(filled.gather(entity), ctx);
            },
            _ => {
                let entity = AnyEntity::JumpTable(JumpTable::of(f.jump_tables.len() as u32));
                lemma_jump_table_decl(filled.gather(entity));
            },
        }
    }
}

/// A block is defined at the first token of its header.
pub proof fn law_block_place<'a>(st: ParserState<'a>, ctx: ContextModel<'a>)
    ensures
        st.extended_basic_block(ctx).0 matches Ok(after) ==> defined_at(
            after,
            AnyEntity::Ebb(Ebb::of(ctx.function.ebbs.len() as u32)),
            st.fill().loc,
        ),
{
    if let (Ok(number), s) = st.match_ebb("expected EBB header"@) {
        let ebb = Ebb::of(ctx.function.ebbs.len() as u32);
        if let Ok(with_ebb) = ctx.add_ebb(number, s.loc) {
            let key = entity_key(AnyEntity::Ebb(ebb));
            assert(with_ebb.map.locations.contains_key(key));
            let s = s.gather(AnyEntity::Ebb(ebb));
            crate::building_laws::lemma_header_end_grew(s, with_ebb, ebb);
            if let (Ok(next), s) = s.ebb_header_end(with_ebb, ebb) {
                assert(next.map.locations.contains_key(key));
                crate::building_laws::lemma_instructions_grew(s, next, ebb);
            }
        }
    }
}

/// An argument of a block is defined at its source value in the header.
pub proof fn law_block_argument_place<'a>(st: ParserState<'a>, ctx: ContextModel<'a>, ebb: Ebb)
    ensures
        st.ebb_arg(ctx, ebb).0 matches Ok(after) ==> defined_at(
            after,
            AnyEntity::Value(Value::table(ctx.function.table_values.len())),
            st.fill().loc,
        ),
{
}

/// Where the values of a list of definitions are defined.
proof fn lemma_def_values_place(
    map: SourceMapModel,
    srcs: Seq<Value>,
    vals: Seq<Value>,
    k: int,
    loc: Location,
)
    requires
        0 <= k,
    ensures
        def_values(map, srcs, vals, k, loc) matches Ok(after) ==> {
            &&& forall|key: u64| #[trigger]
                map.locations.contains_key(key) ==> after.locations.contains_key(key)
                    && after.locations[key] == map.locations[key]
            &&& forall|i: int|
                k <= i < srcs.len() && i < vals.len() ==> after.locations.contains_key(
                    entity_key(AnyEntity::Value(#[trigger] vals[i])),
                ) && after.locations[entity_key(AnyEntity::Value(vals[i]))] == loc
        },
    decreases srcs.len() - k,
{
    if k < srcs.len() && k < vals.len() {
        if let Ok(next) = map.def_value(srcs[k], vals[k], loc) {
            lemma_def_values_place(next, srcs, vals, k + 1, loc);
            let key = entity_key(AnyEntity::Value(vals[k]));
            assert(next.locations.contains_key(key));
            assert forall|key: u64| #[trigger] map.locations.contains_key(key) implies
                next.locations.contains_key(key) && next.locations[key] == map.locations[key] by {}
        }
    }
}

/// An instruction is defined at the place of its text, and its results where its text ends.
pub proof fn law_instruction_place<'a>(
    st: ParserState<'a>,
    ctx: ContextModel<'a>,
    ebb: Ebb,
    text: InstructionText,
)
    requires
        ctx.function.insts.len() < u32::MAX,
    ensures
        st.place_instruction(ctx, ebb, text).0 matches Ok(after) ==> {
            let inst = after.function.insts.last();
            &&& defined_at(
                after,
                AnyEntity::Inst(Inst::of(ctx.function.insts.len() as u32)),
                text.location,
            )
            &&& forall|k: int|
                0 <= k < inst.results.len() ==> defined_at(
                    after,
                    AnyEntity::Value(#[trigger] inst.results[k]),
                    st.loc,
                )
        },
{
    if let Ok(after) = st.place_instruction(ctx, ebb, text).0 {
        let f = ctx.function;
        let info = st.isa.info(text.opcode);
        let ctrl = controlling_type(ctx, info, text.explicit, text.operands, st.loc)->Ok_0;
        let types = result_types(f, info, ctrl, text.operands);
        let inst = AnyEntity::Inst(Inst::of(f.insts.len() as u32));
        let map = ctx.map.def_entity(inst, text.location)->Ok_0;
        let vals = f.next_results(types.len());
        lemma_def_values_place(map, text.results, vals, 0, st.loc);
        assert(map.locations.contains_key(entity_key(inst)));
        assert(after.function.insts.last().results == vals);
    }
}

/// The place of an instruction is that of its opcode.
pub proof fn law_opcode_place<'a>(st: ParserState<'a>, ctx: ContextModel<'a>)
    ensures
        st.instruction_text(ctx).0 matches Ok(text) ==> text.location
            == st.inst_results().1.fill().loc,
{
}

/// The comments in an instruction belong to it, and those before it stay as they are.
pub proof fn law_instruction_comments<'a>(st: ParserState<'a>, ctx: ContextModel<'a>, ebb: Ebb)
    requires
        ctx.function.insts.len() < u32::MAX,
        forall|i: int|
            0 <= i < st.comments.len() ==> (#[trigger] st.comments[i]).entity != AnyEntity::Inst(
                Inst::of(u32::MAX),
            ),
    ensures
        st.instruction(ctx, ebb).0 matches Ok(after) ==> {
            let s = st.instruction(ctx, ebb).1;
            let inst = AnyEntity::Inst(Inst::of(ctx.function.insts.len() as u32));
            &&& comments_for(st.comments, s.comments, inst)
            &&& s.comment_entity == Some(inst)
        },
{
    let start = st.gather(AnyEntity::Inst(Inst::of(u32::MAX)));
    lemma_quiet_instruction_text(start, ctx);
    if let (Ok(text), s) = start.instruction_text(ctx) {
        if let (Ok(after), end) = s.place_instruction(ctx, ebb, text) {
            let n = st.comments.len() as int;
            assert forall|i: int| 0 <= i < n implies #[trigger] end.comments[i]
                == st.comments[i] by {
                assert(s.comments[n - 1] == st.comments[n - 1]);
            }
            assert forall|i: int| n <= i < end.comments.len() implies (
            #[trigger] end.comments[i]).entity == AnyEntity::Inst(
                Inst::of(ctx.function.insts.len() as u32),
            ) by {
                assert forall|k: int| i <= k < s.comments.len() implies (
                #[trigger] s.comments[k]).entity == AnyEntity::Inst(Inst::of(u32::MAX)) by {}
            }
        }
    }
}

/// Is a comment one of an entity, or of an instruction with a number in a range?
pub open spec fn belongs(comment: Comment, entity: AnyEntity, first: nat, end: nat) -> bool {
    comment.entity == entity || (comment.entity matches AnyEntity::Inst(inst) && first
        <= inst.number() < end)
}

/// Are the comments that were added those of an entity, followed by those of the instructions with
/// the numbers in a range?
pub open spec fn comments_in_block<'a>(
    before: Seq<Comment<'a>>,
    after: Seq<Comment<'a>>,
    entity: AnyEntity,
    first: nat,
    end: nat,
) -> bool {
    &&& before.len() <= after.len()
    &&& forall|i: int| 0 <= i < before.len() ==> #[trigger] after[i] == before[i]
    &&& forall|i: int|
        before.len() <= i < after.len() ==> belongs(#[trigger] after[i], entity, first, end)
    &&& forall|i: int, j: int|
        before.len() <= i <= j < after.len() && (#[trigger] after[j]).entity == entity ==> (
        #[trigger] after[i]).entity == entity
}

/// Is no comment one of the invalid instruction?
pub open spec fn all_valid(comments: Seq<Comment>) -> bool {
    forall|i: int|
        0 <= i < comments.len() ==> (#[trigger] comments[i]).entity != AnyEntity::Inst(
            Inst::of(u32::MAX),
        )
}

proof fn lemma_instructions_comments<'a>(
    st: ParserState<'a>,
    ctx: ContextModel<'a>,
    ebb: Ebb,
    entity: AnyEntity,
)
    requires
        st.remaining() + ctx.function.insts.len() < u32::MAX,
        st.comment_entity == Some(entity),
        all_valid(st.comments),
        entity matches AnyEntity::Inst(inst) ==> inst.number() < ctx.function.insts.len(),
    ensures
        st.instructions(ctx, ebb) matches (Ok(after), s) ==> {
            &&& ctx.function.insts.len() <= after.function.insts.len()
            &&& comments_in_block(
                st.comments,
                s.comments,
                entity,
                ctx.function.insts.len(),
                after.function.insts.len(),
            )
        },
    decreases st.remaining(),
{
    lemma_fill(st);
    lemma_quiet_fill(st);
    let n = ctx.function.insts.len();
    let filled = st.fill();
    assert(all_valid(filled.comments));
    if value_in(st.peek()) is Some || word_in(st.peek()) is Some {
        law_instruction_comments(filled, ctx, ebb);
        lemma_instruction(filled, ctx, ebb);
        if let (Ok(next), mid) = filled.instruction(ctx, ebb) {
            let inst = AnyEntity::Inst(Inst::of(n as u32));
            assert(next.function.insts.len() == n + 1);
            assert(all_valid(mid.comments));
            lemma_instructions_comments(mid, next, ebb, inst);
            if let (Ok(after), s) = mid.instructions(next, ebb) {
                let end = after.function.insts.len();
                assert forall|i: int| st.comments.len() <= i < s.comments.len() implies belongs(
                    #[trigger] s.comments[i],
                    entity,
                    n,
                    end,
                ) by {
                    if i < mid.comments.len() {
                        assert(s.comments[i] == mid.comments[i]);
                        if i < filled.comments.len() {
                            assert(mid.comments[i] == filled.comments[i]);
                        }
                    } else {
                        assert(belongs(s.comments[i], inst, n + 1, end));
                    }
                }
                assert forall|i: int, j: int|
                    st.comments.len() <= i <= j < s.comments.len() && (
                    #[trigger] s.comments[j]).entity == entity implies (
                #[trigger] s.comments[i]).entity == entity by {
                    if j < filled.comments.len() {
                        assert(mid.comments[i] == filled.comments[i]);
                        assert(s.comments[i] == mid.comments[i]);
                    } else if j < mid.comments.len() {
                        assert(s.comments[j] == mid.comments[j]);
                    } else {
                        assert(belongs(s.comments[j], inst, n + 1, end));
                    }
                }
                assert forall|i: int| 0 <= i < st.comments.len() implies #[trigger] s.comments[i]
                    == st.comments[i] by {
                    assert(s.comments[i] == mid.comments[i]);
                    assert(mid.comments[i] == filled.comments[i]);
                }
            }
        }
    }
}

proof fn lemma_more_ebb_args_insts<'a>(st: ParserState<'a>, ctx: ContextModel<'a>, ebb: Ebb)
    ensures
        st.more_ebb_args(ctx, ebb).0 matches Ok(after) ==> after.function.insts
            == ctx.function.insts,
    decreases st.remaining(),
{
    broadcast use {lemma_fill, lemma_ebb_arg};

    let (more, s) = st.optional(Token::Comma);
    if more {
        if let (Ok(next), s) = s.ebb_arg(ctx, ebb) {
            lemma_more_ebb_args_insts(s, next, ebb);
        }
    }
}

proof fn lemma_header_insts<'a>(st: ParserState<'a>, ctx: ContextModel<'a>, ebb: Ebb)
    ensures
        st.ebb_header_end(ctx, ebb).0 matches Ok(after) ==> {
            &&& after.function.insts == ctx.function.insts
            &&& st.ebb_header_end(ctx, ebb).1.remaining() <= st.remaining()
        },
{
    broadcast use {lemma_fill, lemma_ebb_arg, lemma_more_ebb_args};

    let (colon, s) = st.optional(Token::Colon);
    if !colon {
        if let (Ok(_), s) = s.expect(Token::LPar, "expected '(' before EBB arguments"@) {
            if let (Ok(next), s) = s.ebb_arg(ctx, ebb) {
                lemma_more_ebb_args_insts(s, next, ebb);
            }
        }
    }
}

/// The comments from the number of a block to the end of the block belong to the block, as long as no
/// instruction was read, and then to the instructions of the block. In a block without instructions
/// all of them belong to the block.
pub proof fn law_block_comments<'a>(st: ParserState<'a>, ctx: ContextModel<'a>)
    requires
        st.remaining() + ctx.function.insts.len() < u32::MAX,
        all_valid(st.fill().comments),
    ensures
        st.extended_basic_block(ctx) matches (Ok(after), s) ==> comments_in_block(
            st.fill().comments,
            s.comments,
            AnyEntity::Ebb(Ebb::of(ctx.function.ebbs.len() as u32)),
            ctx.function.insts.len(),
            after.function.insts.len(),
        ),
{
    lemma_fill(st);
    if let (Ok(number), s) = st.match_ebb("expected EBB header"@) {
        let ebb = Ebb::of(ctx.function.ebbs.len() as u32);
        if let Ok(with_ebb) = ctx.add_ebb(number, s.loc) {
            let start = s.gather(AnyEntity::Ebb(ebb));
            lemma_quiet_ebb_header_end(start, with_ebb, ebb);
            lemma_header_insts(start, with_ebb, ebb);
            if let (Ok(next), mid) = start.ebb_header_end(with_ebb, ebb) {
                assert(all_valid(mid.comments));
                lemma_instructions_comments(mid, next, ebb, AnyEntity::Ebb(ebb));
                if let (Ok(after), end) = mid.instructions(next, ebb) {
                    let entity = AnyEntity::Ebb(ebb);
                    assert forall|i: int, j: int|
                        st.fill().comments.len() <= i <= j < end.comments.len() && (
                        #[trigger] end.comments[j]).entity == entity implies (
                    #[trigger] end.comments[i]).entity == entity by {
                        if i < mid.comments.len() {
                            assert(end.comments[i] == mid.comments[i]);
                        }
                    }
                    assert forall|i: int|
                        st.fill().comments.len() <= i < end.comments.len() implies belongs(
                        #[trigger] end.comments[i],
                        entity,
                        ctx.function.insts.len(),
                        after.function.insts.len(),
                    ) by {
                        if i < mid.comments.len() {
                            assert(end.comments[i] == mid.comments[i]);
                        }
                    }
                    assert forall|i: int|
                        0 <= i < st.fill().comments.len() implies #[trigger] end.comments[i]
                        == st.fill().comments[i] by {
                        assert(end.comments[i] == mid.comments[i]);
                    }
                }
            }
        }
    }
}

} // verus!
