//! Laws of instructions and of whole files.

use crate::body::{controlling_type, lemma_function};
use crate::comment_laws::{
    lemma_function_heeds, lemma_quiet_argument_type, lemma_quiet_fill, lemma_quiet_signature, neat,
};
use crate::context::ContextModel;
use crate::entities::AnyEntity;
use crate::error::{Failure, Location};
use crate::function::FunctionModel;
use crate::instructions::{InstructionSet, OpcodeInfo, OperandsModel};
use crate::reading::{lemma_eat_line, lemma_fill, refusal, reply_to, IsaProgress, ParserState};
use crate::testfile::{Comment, DetailsModel, IsaReplyModel, IsaSpecModel, TestCommand};
use crate::token::{LexItem, Token};
use crate::token_laws::clean;
use crate::types::Type;
use vstd::prelude::*;

verus! {

/// The controlling type of an instruction is one that its opcode accepts. It is the explicit type
/// if there is one, and the void type if the opcode is not polymorphic.
pub proof fn law_controlling_type(
    ctx: ContextModel,
    info: OpcodeInfo,
    explicit: Option<Type>,
    operands: OperandsModel,
    loc: Location,
)
    requires
        info.is_complete(),
        controlling_type(ctx, info, explicit, operands, loc) is Ok,
    ensures
        ({
            let ty = controlling_type(ctx, info, explicit, operands, loc)->Ok_0;
            &&& info.typing(ty) is Some
            &&& !info.polymorphic ==> ty == Type::void()
            &&& explicit is Some ==> ty == explicit->0
        }),
{
}

/// Do all the gathered comments belong to the entity that comments are gathered for?
pub open spec fn one_entity(st: ParserState) -> bool {
    forall|i: int|
        0 <= i < st.comments.len() ==> Some((#[trigger] st.comments[i]).entity)
            == st.comment_entity
}

proof fn lemma_line_one_entity(st: ParserState)
    requires
        one_entity(st),
    ensures
        one_entity(st.fill()),
        one_entity(st.eat_line()),
        st.fill().comment_entity == st.comment_entity,
        st.eat_line().comment_entity == st.comment_entity,
{
    lemma_quiet_fill(st);
    assert forall|i: int| 0 <= i < st.fill().comments.len() implies Some(
        (#[trigger] st.fill().comments[i]).entity,
    ) == st.comment_entity by {
        if i < st.comments.len() {
            assert(st.fill().comments[i] == st.comments[i]);
        }
    }
}

proof fn lemma_test_commands_one_entity<'a>(st: ParserState<'a>, list: Seq<TestCommand<'a>>)
    requires
        one_entity(st),
    ensures
        one_entity(st.test_commands(list).1),
        st.test_commands(list).1.comment_entity == st.comment_entity,
    decreases st.remaining(),
{
    lemma_line_one_entity(st);
    lemma_eat_line(st);
    if st.at_word("test"@) {
        lemma_test_commands_one_entity(
            st.eat_line(),
            list.push(TestCommand { line: st.fill().tail }),
        );
    }
}

proof fn lemma_isa_specs_one_entity(
    st: ParserState,
    replies: Seq<IsaReplyModel>,
    progress: IsaProgress,
)
    requires
        one_entity(st),
    ensures
        one_entity(st.isa_specs(replies, progress).1),
        st.isa_specs(replies, progress).1.comment_entity == st.comment_entity,
    decreases st.remaining(),
{
    lemma_line_one_entity(st);
    lemma_eat_line(st);
    if let (Some(Ok(command)), s) = st.isa_command() {
        if refusal(command, reply_to(replies, progress.count)) is None {
            lemma_isa_specs_one_entity(s, replies, progress.step(command));
        }
    }
}

/// The comments before the first function of a file belong to no entity inside a function.
pub proof fn law_preamble_comments<'a>(
    isa: &'a InstructionSet<'a>,
    items: Seq<LexItem<'a>>,
    replies: Seq<IsaReplyModel>,
)
    ensures
        ParserState::start(isa, items).test_file(replies) matches Ok(file) ==> forall|i: int|
            0 <= i < file.preamble_comments.len() ==> (#[trigger] file.preamble_comments[i]).entity
                == AnyEntity::Function,
{
    let st = ParserState::start(isa, items).gather(AnyEntity::Function);
    lemma_test_commands_one_entity(st, seq![]);
    lemma_isa_specs_one_entity(st.test_commands(seq![]).1, replies, IsaProgress::start());
}

/// A list of functions takes the whole contents of a file: when it was read, nothing is left, and
/// there was no lexer error.
pub proof fn law_whole_file<'a>(
    st: ParserState<'a>,
    list: Seq<(FunctionModel<'a>, DetailsModel<'a>)>,
)
    requires
        st.function_list(list).0 is Ok,
    ensures
        st.function_list(list).1.lookahead is None,
        st.function_list(list).1.items.len() == 0,
        st.lex_error is None,
        clean(st.items),
    decreases st.remaining(),
{
    lemma_fill(st);
    lemma_quiet_fill(st);
    let start = st.fill();
    if st.peek() is Some {
        lemma_function(start);
        lemma_function_heeds(start);
        if let (Ok(f), s) = start.function() {
            law_whole_file(s, list.push(f));
        }
    } else {
        lemma_end_of_items(st);
    }
}

/// Without a lexer error, there is no token only when nothing is left.
proof fn lemma_end_of_items(st: ParserState)
    requires
        st.peek() is None,
        st.fill().lex_error is None,
    ensures
        st.fill().items.len() == 0,
    decreases st.items.len(),
{
    if st.items.len() > 0 {
        let item = st.items[0];
        let next = ParserState { items: st.items.drop_first(), loc: item.location, ..st };
        if let Ok(Token::Comment(text)) = item.content {
            if let Some(entity) = st.comment_entity {
                lemma_end_of_items(
                    ParserState { comments: st.comments.push(Comment { entity, text }), ..next },
                );
            } else {
                lemma_end_of_items(next);
            }
        }
    }
}

/// Where a parser stands after the commands of a file.
pub open(crate) spec fn past_commands<'a>(
    isa: &'a InstructionSet<'a>,
    items: Seq<LexItem<'a>>,
    replies: Seq<IsaReplyModel>,
) -> ParserState<'a> {
    ParserState::start(isa, items).gather(AnyEntity::Function).test_commands(
        seq![],
    ).1.isa_specs(replies, IsaProgress::start()).1
}

/// When a file was read, there was no lexer error after its commands: nothing was passed over.
pub proof fn law_whole_test_file<'a>(
    isa: &'a InstructionSet<'a>,
    items: Seq<LexItem<'a>>,
    replies: Seq<IsaReplyModel>,
)
    requires
        ParserState::start(isa, items).test_file(replies) is Ok,
    ensures
        past_commands(isa, items, replies).lex_error is None,
        clean(past_commands(isa, items, replies).items),
{
    let s = past_commands(isa, items, replies);
    law_whole_file(ParserState { comments: seq![], ..s }, seq![]);
}

/// A test case file holds what reading its parts one after the other gives: its test commands, its
/// ISAs, the comments up to there, and its functions. It is an error if and only if one of these is,
/// and then it is that error.
pub proof fn law_test_file_parts<'a>(
    isa: &'a InstructionSet<'a>,
    items: Seq<LexItem<'a>>,
    replies: Seq<IsaReplyModel>,
)
    ensures
        ({
            let st = ParserState::start(isa, items).gather(AnyEntity::Function);
            let (commands, s1) = st.test_commands(seq![]);
            let (isa_spec, s2) = s1.isa_specs(replies, IsaProgress::start());
            let functions = (ParserState { comments: seq![], ..s2 }).function_list(seq![]).0;
            match ParserState::start(isa, items).test_file(replies) {
                Ok(file) => {
                    &&& file.commands == commands
                    &&& isa_spec == Ok::<IsaSpecModel, Failure>(file.isa_spec)
                    &&& file.preamble_comments == s2.comments
                    &&& functions == Ok::<Seq<(FunctionModel<'a>, DetailsModel<'a>)>, Failure>(
                        file.functions,
                    )
                },
                Err(e) => if isa_spec is Err {
                    isa_spec->Err_0 == e
                } else {
                    functions is Err && functions->Err_0 == e
                },
            }
        }),
{
}

/// The functions of a file are those that reading it as a test case file gives, in their order; if
/// that is an error, they are the same error.
pub proof fn law_functions_of_file<'a>(
    isa: &'a InstructionSet<'a>,
    items: Seq<LexItem<'a>>,
    replies: Seq<IsaReplyModel>,
)
    ensures
        ({
            let st = ParserState::start(isa, items);
            match (st.file_functions(replies), st.test_file(replies)) {
                (Ok(list), Ok(file)) => {
                    &&& list.len() == file.functions.len()
                    &&& forall|i: int|
                        0 <= i < list.len() ==> (#[trigger] list[i]) == file.functions[i].0
                },
                (Err(e), Err(f)) => e == f,
                _ => false,
            }
        }),
{
}

proof fn lemma_line_neat(st: ParserState)
    requires
        neat(st),
    ensures
        neat(st.fill()),
        neat(st.eat_line()),
{
    lemma_quiet_fill(st);
}

proof fn lemma_test_commands_neat<'a>(st: ParserState<'a>, list: Seq<TestCommand<'a>>)
    requires
        neat(st),
    ensures
        neat(st.test_commands(list).1),
    decreases st.remaining(),
{
    lemma_line_neat(st);
    lemma_eat_line(st);
    if st.at_word("test"@) {
        lemma_test_commands_neat(
            st.eat_line(),
            list.push(TestCommand { line: st.fill().tail }),
        );
    }
}

proof fn lemma_isa_specs_neat(
    st: ParserState,
    replies: Seq<IsaReplyModel>,
    progress: IsaProgress,
)
    requires
        neat(st),
    ensures
        neat(st.isa_specs(replies, progress).1),
    decreases st.remaining(),
{
    lemma_line_neat(st);
    lemma_eat_line(st);
    if let (Some(Ok(command)), s) = st.isa_command() {
        if refusal(command, reply_to(replies, progress.count)) is None {
            lemma_isa_specs_neat(s, replies, progress.step(command));
        }
    }
}

proof fn lemma_function_list_neat<'a>(
    st: ParserState<'a>,
    list: Seq<(FunctionModel<'a>, DetailsModel<'a>)>,
)
    requires
        neat(st),
    ensures
        neat(st.function_list(list).1),
    decreases st.remaining(),
{
    lemma_fill(st);
    lemma_quiet_fill(st);
    let start = st.fill();
    if start.lex_error is None && st.peek() is Some {
        lemma_function(start);
        lemma_function_heeds(start);
        if let (Ok(f), s) = start.function() {
            lemma_function_list_neat(s, list.push(f));
        }
    }
}

/// A new parser has looked at no token, and whatever a parser reads, the token that it looked at
/// last is no comment.
pub proof fn law_no_comment_looked_at<'a>(
    isa: &'a InstructionSet<'a>,
    items: Seq<LexItem<'a>>,
    st: ParserState<'a>,
    replies: Seq<IsaReplyModel>,
)
    requires
        neat(st),
    ensures
        neat(ParserState::start(isa, items)),
        neat(st.fill()),
        neat(st.argument_type().1),
        neat(st.signature().1),
        neat(st.test_commands(seq![]).1),
        neat(st.isa_specs(replies, IsaProgress::start()).1),
        neat(st.function().1),
        neat(st.function_list(seq![]).1),
{
    lemma_quiet_fill(st);
    lemma_quiet_argument_type(st);
    lemma_quiet_signature(st);
    lemma_test_commands_neat(st, seq![]);
    lemma_isa_specs_neat(st, replies, IsaProgress::start());
    lemma_function_heeds(st);
    lemma_function_list_neat(st, seq![]);
}

} // verus!
