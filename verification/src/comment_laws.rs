//! Laws of the comments: none of them is lost, they keep their order, and each belongs to an entity
//! of its function.

use crate::body::{lemma_ebb_arg, lemma_extended_basic_block, lemma_instruction};
use crate::context::ContextModel;
use crate::entities::{
    AnyEntity, Ebb, EntityRef, FuncRef, Inst, JumpTable, SigRef, StackSlot, Value,
};
use crate::error::Failure;
use crate::function::{with_entry, ArgumentExtension, ArgumentType, FunctionModel};
use crate::instructions::OperandsModel;
use crate::reading::{
    lemma_argument_type, lemma_callee, lemma_fill, lemma_jump_table_entries, lemma_jump_table_entry,
    lemma_preamble_decl, lemma_signature, value_in, word_in, ParserState,
};
use crate::syntax::Step;
use crate::testfile::{Comment, DetailsModel};
use crate::token::{LexItem, Token};
use crate::token_laws::clean;
use vstd::prelude::*;

verus! {

/// The texts of the comments among some items.
pub open spec fn comment_texts<'a>(items: Seq<LexItem<'a>>) -> Seq<&'a str>
    decreases items.len(),
{
    if items.len() == 0 {
        seq![]
    } else {
        match items[0].content {
            Ok(Token::Comment(text)) => seq![text] + comment_texts(items.drop_first()),
            _ => comment_texts(items.drop_first()),
        }
    }
}

/// The texts of some gathered comments.
pub open spec fn gathered_texts<'a>(comments: Seq<Comment<'a>>) -> Seq<&'a str> {
    Seq::new(comments.len(), |i: int| comments[i].text)
}

/// The texts of all comments: of those that were gathered, then of those that are still to come.
pub open spec fn all_comments<'a>(st: ParserState<'a>) -> Seq<&'a str> {
    gathered_texts(st.comments) + comment_texts(st.items)
}

/// Is the token that was looked at no comment?
pub open spec fn neat(st: ParserState) -> bool {
    !(st.lookahead matches Some(Token::Comment(_)))
}

/// What holds of the lexer errors between two states: none is forgotten.
pub open spec fn errors_kept(st: ParserState, s: ParserState) -> bool {
    s.lex_error is None ==> st.lex_error is None && (clean(s.items) ==> clean(st.items))
}

/// What reading does to the comments as long as they are gathered for the same entity: new ones
/// are added to those that were there, and none is lost. Comments are not looked at as tokens, and
/// lexer errors are not forgotten.
pub open spec fn quiet<'a>(st: ParserState<'a>, s: ParserState<'a>) -> bool {
    &&& s.comment_entity == st.comment_entity
    &&& st.comments.len() <= s.comments.len()
    &&& forall|i: int|
        0 <= i < st.comments.len() ==> (#[trigger] s.comments[i]) == st.comments[i]
    &&& forall|i: int|
        st.comments.len() <= i < s.comments.len() ==> Some((#[trigger] s.comments[i]).entity)
            == st.comment_entity
    &&& st.comment_entity is Some ==> all_comments(s) == all_comments(st)
    &&& errors_kept(st, s)
    &&& neat(st) ==> neat(s)
}

pub broadcast proof fn lemma_quiet_fill(st: ParserState)
    ensures
        quiet(st, #[trigger] st.fill()),
        quiet(st, st.eat()),
    decreases st.items.len(),
{
    if st.lookahead is None && st.items.len() > 0 {
        let item = st.items[0];
        let next = ParserState { items: st.items.drop_first(), loc: item.location, ..st };
        assert(item.content is Ok && clean(next.items) ==> clean(st.items)) by {
            assert(forall|i: int| 0 < i < st.items.len() ==> st.items[i] == next.items[i - 1]);
        }
        if let Ok(Token::Comment(text)) = item.content {
            if let Some(entity) = st.comment_entity {
                let more = ParserState {
                    comments: st.comments.push(Comment { entity, text }),
                    ..next
                };
                assert(gathered_texts(more.comments) =~= gathered_texts(st.comments).push(text));
                assert(all_comments(more) =~= all_comments(st));
                lemma_quiet_fill(more);
            } else {
                lemma_quiet_fill(next);
            }
        }
    }
}

pub broadcast proof fn lemma_quiet_flags(st: ParserState, arg: ArgumentType)
    ensures
        quiet(st, (#[trigger] st.flags(arg)).1),
    decreases st.remaining(),
{
    broadcast use {lemma_quiet_fill, lemma_fill};

    if st.at_word("uext"@) {
        lemma_quiet_flags(st.eat(), ArgumentType { extension: ArgumentExtension::Uext, ..arg });
    } else if st.at_word("sext"@) {
        lemma_quiet_flags(st.eat(), ArgumentType { extension: ArgumentExtension::Sext, ..arg });
    } else if st.at_word("inreg"@) {
        lemma_quiet_flags(st.eat(), ArgumentType { inreg: true, ..arg });
    }
}

pub broadcast proof fn lemma_quiet_argument_type(st: ParserState)
    ensures
        quiet(st, (#[trigger] st.argument_type()).1),
{
    broadcast use {lemma_quiet_fill, lemma_quiet_flags};

}

pub broadcast proof fn lemma_quiet_more_arguments(st: ParserState, list: Seq<ArgumentType>)
    ensures
        quiet(st, (#[trigger] st.more_arguments(list)).1),
    decreases st.remaining(),
{
    broadcast use {lemma_quiet_fill, lemma_fill, lemma_argument_type, lemma_quiet_argument_type};

    let (more, s) = st.optional(Token::Comma);
    if more {
        if let (Ok(arg), s) = s.argument_type() {
            lemma_quiet_more_arguments(s, list.push(arg));
        }
    }
}

pub broadcast proof fn lemma_quiet_signature(st: ParserState)
    ensures
        quiet(st, (#[trigger] st.signature()).1),
{
    broadcast use {lemma_quiet_fill, lemma_quiet_argument_type, lemma_quiet_more_arguments};

}

pub broadcast proof fn lemma_quiet_function_spec(st: ParserState)
    ensures
        quiet(st, (#[trigger] st.function_spec()).1),
{
    broadcast use {lemma_quiet_fill, lemma_quiet_signature};

}

pub broadcast proof fn lemma_quiet_callee<'a>(st: ParserState<'a>, ctx: ContextModel<'a>)
    ensures
        quiet(st, (#[trigger] st.callee(ctx)).1),
{
    broadcast use {lemma_quiet_fill, lemma_quiet_function_spec};

}

pub broadcast proof fn lemma_quiet_jump_table_entries(
    st: ParserState,
    index: nat,
    table: Seq<Ebb>,
)
    ensures
        quiet(st, (#[trigger] st.jump_table_entries(index, table)).1),
    decreases st.remaining(),
{
    broadcast use {lemma_quiet_fill, lemma_fill, lemma_jump_table_entry};

    if let (Ok(entry), s) = st.jump_table_entry() {
        let table = match entry {
            Some(dest) => with_entry(table, index, dest),
            None => table,
        };
        let (more, s) = s.optional(Token::Comma);
        if more {
            lemma_quiet_jump_table_entries(s, index + 1, table);
        }
    }
}

pub broadcast proof fn lemma_quiet_more_values(
    st: ParserState,
    list: Seq<Value>,
    message: Seq<char>,
)
    ensures
        quiet(st, (#[trigger] st.more_values(list, message)).1),
    decreases st.remaining(),
{
    broadcast use {lemma_quiet_fill, lemma_fill};

    let (more, s) = st.optional(Token::Comma);
    if more {
        if let (Ok(v), s) = s.match_value(message) {
            lemma_quiet_more_values(s, list.push(v), message);
        }
    }
}

pub broadcast proof fn lemma_quiet_step<'a>(
    st: ParserState<'a>,
    ctx: ContextModel<'a>,
    step: Step,
    operands: OperandsModel,
)
    ensures
        quiet(st, (#[trigger] st.step(ctx, step, operands)).1),
{
    broadcast use {lemma_quiet_fill, lemma_quiet_more_values};

}

pub broadcast proof fn lemma_quiet_steps<'a>(
    st: ParserState<'a>,
    ctx: ContextModel<'a>,
    list: Seq<Step>,
    k: int,
    operands: OperandsModel,
)
    ensures
        quiet(st, (#[trigger] st.steps(ctx, list, k, operands)).1),
    decreases list.len() - k,
{
    broadcast use {lemma_quiet_fill, lemma_quiet_step};

    if 0 <= k < list.len() {
        if let (Ok(operands), s) = st.step(ctx, list[k], operands) {
            lemma_quiet_steps(s, ctx, list, k + 1, operands);
        }
    }
}

pub broadcast proof fn lemma_quiet_instruction_text<'a>(
    st: ParserState<'a>,
    ctx: ContextModel<'a>,
)
    ensures
        quiet(st, (#[trigger] st.instruction_text(ctx)).1),
{
    broadcast use {lemma_quiet_fill, lemma_quiet_more_values, lemma_quiet_steps};

}

/// Does `g` have all the entities of `f`?
pub open spec fn within(f: FunctionModel, g: FunctionModel) -> bool {
    &&& f.stack_slots.len() <= g.stack_slots.len()
    &&& f.jump_tables.len() <= g.jump_tables.len()
    &&& f.signatures.len() <= g.signatures.len()
    &&& f.ext_funcs.len() <= g.ext_funcs.len()
    &&& f.ebbs.len() <= g.ebbs.len()
    &&& f.insts.len() <= g.insts.len()
    &&& f.table_values.len() <= g.table_values.len()
}

pub proof fn lemma_stack_slot_decl(st: ParserState)
    ensures
        quiet(st, st.stack_slot_decl().1),
        st.stack_slot_decl().0 is Ok ==> st.stack_slot_decl().1.remaining() < st.remaining(),
{
    broadcast use {lemma_fill, lemma_quiet_fill};

}

pub proof fn lemma_signature_decl(st: ParserState)
    ensures
        quiet(st, st.signature_decl().1),
        st.signature_decl().0 is Ok ==> st.signature_decl().1.remaining() < st.remaining(),
{
    broadcast use {lemma_fill, lemma_signature, lemma_quiet_fill, lemma_quiet_signature};

}

pub proof fn lemma_function_decl<'a>(st: ParserState<'a>, ctx: ContextModel<'a>)
    ensures
        quiet(st, st.function_decl(ctx).1),
        st.function_decl(ctx).0 matches Ok((number, data, after)) ==> {
            &&& st.function_decl(ctx).1.remaining() + 2 <= st.remaining()
            &&& within(ctx.function, after.function)
            &&& after.function.ext_funcs == ctx.function.ext_funcs
            &&& after.function.size() <= ctx.function.size() + 1
        },
{
    broadcast use {lemma_fill, lemma_callee, lemma_quiet_fill, lemma_quiet_callee};

}

pub proof fn lemma_jump_table_decl(st: ParserState)
    ensures
        quiet(st, st.jump_table_decl().1),
        st.jump_table_decl().0 is Ok ==> st.jump_table_decl().1.remaining() < st.remaining(),
{
    broadcast use {
        lemma_fill,
        lemma_jump_table_entries,
        lemma_quiet_fill,
        lemma_quiet_jump_table_entries,
    };

}

pub broadcast proof fn lemma_quiet_ebb_arg<'a>(
    st: ParserState<'a>,
    ctx: ContextModel<'a>,
    ebb: Ebb,
)
    ensures
        quiet(st, (#[trigger] st.ebb_arg(ctx, ebb)).1),
{
    broadcast use lemma_quiet_fill;

}

pub broadcast proof fn lemma_quiet_more_ebb_args<'a>(
    st: ParserState<'a>,
    ctx: ContextModel<'a>,
    ebb: Ebb,
)
    ensures
        quiet(st, (#[trigger] st.more_ebb_args(ctx, ebb)).1),
    decreases st.remaining(),
{
    broadcast use {lemma_fill, lemma_quiet_fill, lemma_ebb_arg, lemma_quiet_ebb_arg};

    let (more, s) = st.optional(Token::Comma);
    if more {
        if let (Ok(after), s) = s.ebb_arg(ctx, ebb) {
            lemma_quiet_more_ebb_args(s, after, ebb);
        }
    }
}

pub broadcast proof fn lemma_quiet_ebb_header_end<'a>(
    st: ParserState<'a>,
    ctx: ContextModel<'a>,
    ebb: Ebb,
)
    ensures
        quiet(st, (#[trigger] st.ebb_header_end(ctx, ebb)).1),
{
    broadcast use {lemma_quiet_fill, lemma_quiet_ebb_arg, lemma_quiet_more_ebb_args};

}

/// What reading a part of a function does while comments are gathered for one entity after the
/// other: no comment is lost, comments are not looked at as tokens, and lexer errors are not
/// forgotten.
pub open spec fn heeds<'a>(st: ParserState<'a>, s: ParserState<'a>) -> bool {
    st.comment_entity is Some ==> {
        &&& s.comment_entity is Some
        &&& all_comments(s) == all_comments(st)
        &&& errors_kept(st, s)
        &&& neat(st) ==> neat(s)
    }
}

proof fn lemma_preamble_decl_heeds<'a>(st: ParserState<'a>, ctx: ContextModel<'a>)
    ensures
        heeds(st, st.preamble_decl(ctx).1),
{
    lemma_quiet_fill(st);
    let f = ctx.function;
    let filled = st.fill();
    match st.peek() {
        Some(Token::StackSlot(_)) => {
            let entity = AnyEntity::StackSlot(StackSlot::of(f.stack_slots.len() as u32));
            lemma_stack_slot_decl(filled.gather(entity));
        },
        Some(Token::SigRef(_)) => {
            let entity = AnyEntity::SigRef(SigRef::of(f.signatures.len() as u32));
            lemma_signature_decl(filled.gather(entity));
        },
        Some(Token::FuncRef(_)) => {
            let entity = AnyEntity::FuncRef(FuncRef::of(f.ext_funcs.len() as u32));
            lemma_function_decl(filled.gather(entity), ctx);
        },
        Some(Token::JumpTable(_)) => {
            let entity = AnyEntity::JumpTable(JumpTable::of(f.jump_tables.len() as u32));
            lemma_jump_table_decl(filled.gather(entity));
        },
        _ => {},
    }
}

proof fn lemma_preamble_heeds<'a>(st: ParserState<'a>, ctx: ContextModel<'a>)
    ensures
        heeds(st, st.preamble(ctx).1),
    decreases st.remaining(),
{
    lemma_preamble_decl_heeds(st, ctx);
    lemma_preamble_decl(st, ctx);
    if let (Some(Ok(after)), s) = st.preamble_decl(ctx) {
        lemma_preamble_heeds(s, after);
    }
}

proof fn lemma_instruction_heeds<'a>(st: ParserState<'a>, ctx: ContextModel<'a>, ebb: Ebb)
    ensures
        heeds(st, st.instruction(ctx, ebb).1),
{
    let start = st.gather(AnyEntity::Inst(Inst::of(u32::MAX)));
    lemma_quiet_instruction_text(start, ctx);
    let (r, mid) = start.instruction_text(ctx);
    let s = st.instruction(ctx, ebb).1;
    assert(gathered_texts(s.comments) =~= gathered_texts(mid.comments));
}

proof fn lemma_instructions_heeds<'a>(st: ParserState<'a>, ctx: ContextModel<'a>, ebb: Ebb)
    ensures
        heeds(st, st.instructions(ctx, ebb).1),
    decreases st.remaining(),
{
    lemma_fill(st);
    lemma_quiet_fill(st);
    if value_in(st.peek()) is Some || word_in(st.peek()) is Some {
        lemma_instruction_heeds(st.fill(), ctx, ebb);
        lemma_instruction(st.fill(), ctx, ebb);
        if let (Ok(after), s) = st.fill().instruction(ctx, ebb) {
            lemma_instructions_heeds(s, after, ebb);
        }
    }
}

proof fn lemma_extended_basic_block_heeds<'a>(st: ParserState<'a>, ctx: ContextModel<'a>)
    ensures
        heeds(st, st.extended_basic_block(ctx).1),
{
    broadcast use {lemma_quiet_fill, lemma_quiet_ebb_header_end};

    if let (Ok(number), s) = st.match_ebb("expected EBB header"@) {
        if let Ok(with_ebb) = ctx.add_ebb(number, s.loc) {
            let ebb = Ebb::of(ctx.function.ebbs.len() as u32);
            let s = s.gather(AnyEntity::Ebb(ebb));
            if let (Ok(after), s) = s.ebb_header_end(with_ebb, ebb) {
                lemma_instructions_heeds(s, after, ebb);
            }
        }
    }
}

proof fn lemma_function_body_heeds<'a>(st: ParserState<'a>, ctx: ContextModel<'a>)
    ensures
        heeds(st, st.function_body(ctx).1),
    decreases st.remaining(),
{
    lemma_fill(st);
    lemma_quiet_fill(st);
    if st.peek() != Some(Token::RBrace) {
        lemma_extended_basic_block_heeds(st.fill(), ctx);
        lemma_extended_basic_block(st.fill(), ctx);
        if let (Ok(after), s) = st.fill().extended_basic_block(ctx) {
            lemma_function_body_heeds(s, after);
        }
    }
}

proof fn lemma_braced_body_heeds<'a>(st: ParserState<'a>, ctx: ContextModel<'a>)
    ensures
        heeds(st, st.braced_body(ctx).1),
{
    broadcast use lemma_quiet_fill;

    if let (Ok(_), s) = st.expect(Token::LBrace, "expected '{' before function body"@) {
        lemma_preamble_heeds(s, ctx);
        if let (Ok(ctx), s) = s.preamble(ctx) {
            lemma_function_body_heeds(s, ctx);
        }
    }
}

/// Where a parser stands after the closing brace of a function, or where its reading failed.
pub open(crate) spec fn closing_brace<'a>(st: ParserState<'a>) -> ParserState<'a> {
    match st.begin_function().function_spec() {
        (Ok((_, name, sig)), s) => s.braced_body(ContextModel::empty(name, sig)).1,
        (Err(_), s) => s,
    }
}

proof fn lemma_closing_brace(st: ParserState)
    ensures
        heeds(st.begin_function(), closing_brace(st)),
{
    let begin = st.begin_function();
    lemma_quiet_function_spec(begin);
    if let (Ok((_, name, sig)), s) = begin.function_spec() {
        lemma_braced_body_heeds(s, ContextModel::empty(name, sig));
    }
}

/// Reading a function forgets no lexer error, and looks at no comment as a token.
pub proof fn lemma_function_heeds(st: ParserState)
    ensures
        errors_kept(st, st.function().1),
        neat(st) ==> neat(st.function().1),
{
    lemma_quiet_fill(st);
    lemma_closing_brace(st);
    lemma_quiet_fill(closing_brace(st).gather(AnyEntity::Function));
}

/// The comments of a function are those that follow the word `function`, up to the next token after
/// the closing brace, or up to the end. All of them are there, in the order of the source text.
/// Those that follow the closing brace belong to the function as a whole.
pub proof fn law_function_comments<'a>(
    st: ParserState<'a>,
    f: FunctionModel<'a>,
    details: DetailsModel<'a>,
    s: ParserState<'a>,
)
    requires
        st.function() == (Ok::<_, Failure>((f, details)), s),
    ensures
        gathered_texts(details.comments) + comment_texts(s.items) == comment_texts(
            st.fill().items,
        ),
        s.lookahead == closing_brace(st).gather(AnyEntity::Function).peek(),
        closing_brace(st).comments.len() <= details.comments.len(),
        forall|i: int|
            0 <= i < closing_brace(st).comments.len() ==> (#[trigger] details.comments[i])
                == closing_brace(st).comments[i],
        forall|i: int|
            closing_brace(st).comments.len() <= i < details.comments.len() ==> (
            #[trigger] details.comments[i]).entity == AnyEntity::Function,
{
    let begin = st.begin_function();
    let brace = closing_brace(st);
    lemma_closing_brace(st);
    lemma_quiet_fill(brace.gather(AnyEntity::Function));
    assert(all_comments(begin) =~= comment_texts(st.fill().items));
}

/// The texts of the comments before the first item that is none.
pub open spec fn leading_comments<'a>(items: Seq<LexItem<'a>>) -> Seq<&'a str>
    decreases items.len(),
{
    if items.len() == 0 {
        seq![]
    } else {
        match items[0].content {
            Ok(Token::Comment(text)) => seq![text] + leading_comments(items.drop_first()),
            _ => seq![],
        }
    }
}

/// Looking for a token adds the comments before it to those that were gathered, in their order and
/// for the entity that comments are gathered for; without such an entity they are dropped. A token
/// that was looked at is no comment, and to look again changes nothing.
pub proof fn law_comments_before_token(st: ParserState)
    ensures
        neat(st) ==> neat(st.fill()),
        st.peek() is Some ==> st.fill().fill() == st.fill(),
        st.lookahead is Some ==> st.fill() == st,
        st.lookahead is None ==> st.fill().comments == st.comments + (match st.comment_entity {
            Some(entity) => Seq::new(
                leading_comments(st.items).len(),
                |i: int| Comment { entity, text: leading_comments(st.items)[i] },
            ),
            None => seq![],
        }),
    decreases st.items.len(),
{
    if st.lookahead is None && st.items.len() > 0 {
        let item = st.items[0];
        let next = ParserState { items: st.items.drop_first(), loc: item.location, ..st };
        if let Ok(Token::Comment(text)) = item.content {
            if let Some(entity) = st.comment_entity {
                let more = ParserState {
                    comments: st.comments.push(Comment { entity, text }),
                    ..next
                };
                law_comments_before_token(more);
                assert(st.fill().comments =~= st.comments + Seq::new(
                    leading_comments(st.items).len(),
                    |i: int| Comment { entity, text: leading_comments(st.items)[i] },
                ));
            } else {
                law_comments_before_token(next);
            }
        }
    }
    lemma_fill(st.fill());
}

} // verus!
