//! What a parser reads of blocks, instructions, functions and whole files.

use crate::context::ContextModel;
use crate::entities::{AnyEntity, Ebb, Inst, Value};
use crate::error::{Failure, Location};
use crate::function::FunctionModel;
use crate::instructions::{InstructionFormat, InstructionModel, Opcode, OpcodeInfo, OperandsModel};
use crate::reading::{
    lemma_fill, lemma_function_spec, lemma_preamble, value_in, word_in, takes, IsaProgress,
    ParserState, Reading,
};
use crate::sourcemap::SourceMapModel;
use crate::syntax::{lemma_more_values, lemma_steps};
use crate::testfile::{DetailsModel, IsaReplyModel, TestFileModel};
use crate::text::decimal;
use crate::token::Token;
use crate::types::Type;
use vstd::prelude::*;

verus! {

/// The definitions of the source values `srcs`, from number `k` on, as the values `vals`.
pub open(crate) spec fn def_values(
    map: SourceMapModel,
    srcs: Seq<Value>,
    vals: Seq<Value>,
    k: int,
    loc: Location,
) -> Result<SourceMapModel, Failure>
    decreases srcs.len() - k,
{
    if k < 0 || k >= srcs.len() || k >= vals.len() {
        Ok(map)
    } else {
        match map.def_value(srcs[k], vals[k], loc) {
            Ok(map) => def_values(map, srcs, vals, k + 1, loc),
            Err(e) => Err(e),
        }
    }
}

/// The type of the operand that the controlling type is inferred from.
pub open(crate) spec fn inferred_type(
    ctx: ContextModel,
    src: Value,
    loc: Location,
) -> Result<Type, Failure> {
    match ctx.map.value(src) {
        Some(v) => Ok(ctx.function.type_of(v)),
        None => Err(
            Failure {
                location: loc,
                message: "cannot determine type of operand "@ + src.text(),
            },
        ),
    }
}

/// The controlling type of an instruction before it is checked: the explicit type if there is
/// one, or else the type of an operand, for an opcode that allows it. An opcode that is not
/// polymorphic has the void type.
pub open(crate) spec fn proposed_type(
    ctx: ContextModel,
    info: OpcodeInfo,
    explicit: Option<Type>,
    operands: OperandsModel,
    loc: Location,
) -> Result<Type, Failure> {
    match explicit {
        Some(ty) => Ok(ty),
        None => if info.use_typevar_operand {
            inferred_type(ctx, operands.args[info.typevar_operand as int], loc)
        } else if info.polymorphic {
            Err(
                Failure {
                    location: loc,
                    message: "type variable required for polymorphic opcode, e.g. '"@ + info.name@
                        + "."@ + info.example.text() + "'"@,
                },
            )
        } else {
            Ok(Type::void())
        },
    }
}

/// The controlling type of an instruction.
pub open(crate) spec fn controlling_type(
    ctx: ContextModel,
    info: OpcodeInfo,
    explicit: Option<Type>,
    operands: OperandsModel,
    loc: Location,
) -> Result<Type, Failure> {
    match proposed_type(ctx, info, explicit, operands, loc) {
        Ok(ty) => if info.polymorphic && info.typing(ty) is None {
            Err(
                Failure {
                    location: loc,
                    message: ty.text() + " is not a valid typevar for "@ + info.name@,
                },
            )
        } else if !info.polymorphic && ty != Type::void() {
            Err(Failure { location: loc, message: info.name@ + " does not take a typevar"@ })
        } else {
            Ok(ty)
        },
        Err(e) => Err(e),
    }
}

/// The types of the results of an instruction: those that its opcode determines, then those of
/// the function that it calls.
pub open(crate) spec fn result_types(
    f: FunctionModel,
    info: OpcodeInfo,
    ty: Type,
    operands: OperandsModel,
) -> Seq<Type> {
    info.typing(ty)->0.results@ + f.call_results(operands)
}

/// Is there still room after some more was read? The function grew by no more entities than tokens
/// were taken.
pub open(crate) spec fn leaves_room<'a>(
    before: (ParserState<'a>, ContextModel<'a>),
    after: (ParserState<'a>, ContextModel<'a>),
) -> bool {
    &&& after.0.isa == before.0.isa
    &&& after.0.room(after.1)
    &&& after.0.remaining() + after.1.function.size() <= before.0.remaining()
        + before.1.function.size()
}

/// What the text of an instruction says.
pub struct InstructionText {
    /// The source numbers of the results.
    pub results: Seq<Value>,
    pub opcode: Opcode,
    /// Where the opcode stands.
    pub location: Location,
    /// The type after the opcode.
    pub explicit: Option<Type>,
    pub operands: OperandsModel,
}

impl<'a> ParserState<'a> {
    /// Is there room in the function for everything that can still be read? Every entity of a
    /// function takes a token, and the numbers of the values have to fit into 31 bits.
    pub open(crate) spec fn room(self, ctx: ContextModel<'a>) -> bool {
        &&& ctx.sound()
        &&& self.remaining() + ctx.function.size() < u32::MAX / 2
    }

    /// ebb-arg ::= Value(vx) ":" Type(t)
    pub open(crate) spec fn ebb_arg(
        self,
        ctx: ContextModel<'a>,
        ebb: Ebb,
    ) -> Reading<'a, ContextModel<'a>> {
        match self.match_value("EBB argument must be a value"@) {
            (Ok(vx), s) => {
                let location = s.loc;
                match s.expect(Token::Colon, "expected ':' after EBB argument"@) {
                    (Ok(_), s) => match s.match_type("expected EBB argument type"@) {
                        (Ok(ty), s) => (
                            ContextModel::with(
                                ctx.function.with_ebb_arg(ebb, ty),
                                ctx.map.def_value(
                                    vx,
                                    Value::table(ctx.function.table_values.len()),
                                    location,
                                ),
                            ),
                            s,
                        ),
                        (Err(e), s) => (Err(e), s),
                    },
                    (Err(e), s) => (Err(e), s),
                }
            },
            (Err(e), s) => (Err(e), s),
        }
    }

    /// { "," ebb-arg } ")"
    pub open(crate) spec fn more_ebb_args(
        self,
        ctx: ContextModel<'a>,
        ebb: Ebb,
    ) -> Reading<'a, ContextModel<'a>>
        decreases self.remaining(),
    {
        proof {
            lemma_fill(self);
            lemma_ebb_arg(self.eat(), ctx, ebb);
        }
        let (more, s) = self.optional(Token::Comma);
        if more {
            match s.ebb_arg(ctx, ebb) {
                (Ok(ctx), s) => s.more_ebb_args(ctx, ebb),
                (Err(e), s) => (Err(e), s),
            }
        } else {
            match s.expect(Token::RPar, "expected ')' after EBB arguments"@) {
                (Ok(_), s) => (Ok(ctx), s),
                (Err(e), s) => (Err(e), s),
            }
        }
    }

    /// ebb-args ::= "(" ebb-arg { "," ebb-arg } ")"
    pub open(crate) spec fn ebb_args(
        self,
        ctx: ContextModel<'a>,
        ebb: Ebb,
    ) -> Reading<'a, ContextModel<'a>> {
        match self.expect(Token::LPar, "expected '(' before EBB arguments"@) {
            (Ok(_), s) => match s.ebb_arg(ctx, ebb) {
                (Ok(ctx), s) => s.more_ebb_args(ctx, ebb),
                (Err(e), s) => (Err(e), s),
            },
            (Err(e), s) => (Err(e), s),
        }
    }

    /// [inst-results "="], where inst-results ::= Value(v) { "," Value(vx) }
    pub open spec fn inst_results(self) -> Reading<'a, Seq<Value>> {
        match value_in(self.peek()) {
            Some(v) => match self.eat().more_values(seq![v], "expected result value"@) {
                (Ok(list), s) => match s.expect(Token::Equal, "expected '=' before opcode"@) {
                    (Ok(_), s) => (Ok(list), s),
                    (Err(e), s) => (Err(e), s),
                },
                (Err(e), s) => (Err(e), s),
            },
            None => (Ok(seq![]), self.fill()),
        }
    }

    /// The name of an opcode.
    pub open spec fn opcode(self) -> Reading<'a, Opcode> {
        let s = self.fill();
        match word_in(self.peek()) {
            Some(text) => match self.isa.named(text@) {
                Some(opcode) => (Ok(opcode), self.eat()),
                None => (
                    Err(s.failure(self.isa.unknown_opcode@ + ": '"@ + text@ + "'"@)),
                    s,
                ),
            },
            None => (Err(s.failure("expected instruction opcode"@)), s),
        }
    }

    /// ["." Type]
    pub open spec fn explicit_type(self) -> Reading<'a, Option<Type>> {
        let (dot, s) = self.optional(Token::Dot);
        if dot {
            match s.match_type("expected type after 'opcode.'"@) {
                (Ok(ty), s) => (Ok(Some(ty)), s),
                (Err(e), s) => (Err(e), s),
            }
        } else {
            (Ok(None), s)
        }
    }

    /// The operands of an opcode. Those of an opcode with vector immediates cannot be read.
    pub open(crate) spec fn opcode_operands(
        self,
        ctx: ContextModel<'a>,
        opcode: Opcode,
    ) -> Reading<'a, OperandsModel> {
        let format = self.isa.info(opcode).format;
        if format == InstructionFormat::UnaryImmVector {
            (Err(self.failure("vector immediates are not implemented"@)), self)
        } else {
            self.inst_operands(ctx, format)
        }
    }

    /// instruction ::= [inst-results "="] Opcode(opc) ["." Type] operands
    pub open(crate) spec fn instruction_text(
        self,
        ctx: ContextModel<'a>,
    ) -> Reading<'a, InstructionText> {
        match self.inst_results() {
            (Ok(results), s) => match s.opcode() {
                (Ok(opcode), s) => {
                    let location = s.loc;
                    match s.explicit_type() {
                        (Ok(explicit), s) => {
                            match s.opcode_operands(ctx, opcode) {
                                (Ok(operands), s) => (
                                    Ok(
                                        InstructionText {
                                            results,
                                            opcode,
                                            location,
                                            explicit,
                                            operands,
                                        },
                                    ),
                                    s,
                                ),
                                (Err(e), s) => (Err(e), s),
                            }
                        },
                        (Err(e), s) => (Err(e), s),
                    }
                },
                (Err(e), s) => (Err(e), s),
            },
            (Err(e), s) => (Err(e), s),
        }
    }

    /// The addition of an instruction to a block, when its text was read. The instruction gets
    /// results of the right types, which the source numbers then stand for, and the comments in
    /// its text.
    pub open(crate) spec fn place_instruction(
        self,
        ctx: ContextModel<'a>,
        ebb: Ebb,
        text: InstructionText,
    ) -> Reading<'a, ContextModel<'a>> {
        let f = ctx.function;
        let info = self.isa.info(text.opcode);
        match controlling_type(ctx, info, text.explicit, text.operands, self.loc) {
            Ok(ty) => {
                let types = result_types(f, info, ty, text.operands);
                let inst = Inst::of(f.insts.len() as u32);
                let data = InstructionModel {
                    opcode: text.opcode,
                    ty: Type::void(),
                    operands: text.operands,
                };
                if text.results.len() != types.len() {
                    (
                        Err(
                            self.failure(
                                "instruction produces "@ + decimal(types.len())
                                    + " result values, "@ + decimal(text.results.len()) + " given"@,
                            ),
                        ),
                        self,
                    )
                } else {
                    match ctx.map.def_entity(AnyEntity::Inst(inst), text.location) {
                        Ok(map) => (
                            ContextModel::with(
                                f.with_inst(ebb, data, types),
                                def_values(
                                    map,
                                    text.results,
                                    f.next_results(types.len()),
                                    0,
                                    self.loc,
                                ),
                            ),
                            self.retarget(
                                AnyEntity::Inst(Inst::of(u32::MAX)),
                                AnyEntity::Inst(inst),
                            ),
                        ),
                        Err(e) => (Err(e), self),
                    }
                }
            },
            Err(e) => (Err(e), self),
        }
    }

    /// An instruction, added to a block. The comments in it are gathered for an invalid
    /// instruction until its number is known.
    pub open(crate) spec fn instruction(
        self,
        ctx: ContextModel<'a>,
        ebb: Ebb,
    ) -> Reading<'a, ContextModel<'a>> {
        match self.gather(AnyEntity::Inst(Inst::of(u32::MAX))).instruction_text(ctx) {
            (Ok(text), s) => s.place_instruction(ctx, ebb, text),
            (Err(e), s) => (Err(e), s),
        }
    }

    /// { instruction }
    pub open(crate) spec fn instructions(
        self,
        ctx: ContextModel<'a>,
        ebb: Ebb,
    ) -> Reading<'a, ContextModel<'a>>
        decreases self.remaining(),
    {
        proof {
            lemma_fill(self);
            lemma_instruction(self.fill(), ctx, ebb);
        }
        if value_in(self.peek()) is Some || word_in(self.peek()) is Some {
            match self.fill().instruction(ctx, ebb) {
                (Ok(ctx), s) => s.instructions(ctx, ebb),
                (Err(e), s) => (Err(e), s),
            }
        } else {
            (Ok(ctx), self.fill())
        }
    }

    /// [ebb-args] ":"
    pub open(crate) spec fn ebb_header_end(
        self,
        ctx: ContextModel<'a>,
        ebb: Ebb,
    ) -> Reading<'a, ContextModel<'a>> {
        let (colon, s) = self.optional(Token::Colon);
        if colon {
            (Ok(ctx), s)
        } else {
            match s.ebb_args(ctx, ebb) {
                (Ok(ctx), s) => match s.expect(
                    Token::Colon,
                    "expected ':' after EBB arguments"@,
                ) {
                    (Ok(_), s) => (Ok(ctx), s),
                    (Err(e), s) => (Err(e), s),
                },
                (Err(e), s) => (Err(e), s),
            }
        }
    }

    /// extended-basic-block ::= Ebb(ebb) [ebb-args] ":" { instruction }
    pub open(crate) spec fn extended_basic_block(
        self,
        ctx: ContextModel<'a>,
    ) -> Reading<'a, ContextModel<'a>> {
        match self.match_ebb("expected EBB header"@) {
            (Ok(number), s) => {
                let ebb = Ebb::of(ctx.function.ebbs.len() as u32);
                match ctx.add_ebb(number, s.loc) {
                    Ok(ctx) => match s.gather(AnyEntity::Ebb(ebb)).ebb_header_end(ctx, ebb) {
                        (Ok(ctx), s) => s.instructions(ctx, ebb),
                        (Err(e), s) => (Err(e), s),
                    },
                    Err(e) => (Err(e), s),
                }
            },
            (Err(e), s) => (Err(e), s),
        }
    }

    /// function-body ::= { extended-basic-block }, up to the closing brace
    pub open(crate) spec fn function_body(
        self,
        ctx: ContextModel<'a>,
    ) -> Reading<'a, ContextModel<'a>>
        decreases self.remaining(),
    {
        proof {
            lemma_fill(self);
            lemma_extended_basic_block(self.fill(), ctx);
        }
        if self.peek() == Some(Token::RBrace) {
            (Ok(ctx), self.fill())
        } else {
            match self.fill().extended_basic_block(ctx) {
                (Ok(ctx), s) => s.function_body(ctx),
                (Err(e), s) => (Err(e), s),
            }
        }
    }

    /// "{" preamble function-body "}"
    pub open(crate) spec fn braced_body(
        self,
        ctx: ContextModel<'a>,
    ) -> Reading<'a, ContextModel<'a>> {
        match self.expect(Token::LBrace, "expected '{' before function body"@) {
            (Ok(_), s) => match s.preamble(ctx) {
                (Ok(ctx), s) => match s.function_body(ctx) {
                    (Ok(ctx), s) => match s.expect(
                        Token::RBrace,
                        "expected '}' after function body"@,
                    ) {
                        (Ok(_), s) => (Ok(ctx), s),
                        (Err(e), s) => (Err(e), s),
                    },
                    (Err(e), s) => (Err(e), s),
                },
                (Err(e), s) => (Err(e), s),
            },
            (Err(e), s) => (Err(e), s),
        }
    }

    /// Ready to read a function: the comments before it are dropped.
    pub open spec fn begin_function(self) -> ParserState<'a> {
        (ParserState { comments: seq![], ..self.fill() }).gather(AnyEntity::Function)
    }

    /// After the closing brace of a function: the comments that follow belong to the function.
    pub open spec fn end_function(self) -> ParserState<'a> {
        ParserState { comment_entity: None, ..self.gather(AnyEntity::Function).fill() }
    }

    /// function ::= function-spec "{" preamble function-body "}"
    pub open(crate) spec fn function(
        self,
    ) -> Reading<'a, (FunctionModel<'a>, DetailsModel<'a>)> {
        match self.begin_function().function_spec() {
            (Ok((location, name, sig)), s) => {
                match s.braced_body(ContextModel::empty(name, sig)) {
                    (Ok(ctx), s) => {
                        let s = s.end_function();
                        match ctx.rewritten() {
                            Ok(f) => (
                                Ok(
                                    (
                                        f,
                                        DetailsModel {
                                            location,
                                            comments: s.comments,
                                            map: ctx.map,
                                        },
                                    ),
                                ),
                                ParserState { comments: seq![], ..s },
                            ),
                            Err(e) => (Err(e), s),
                        }
                    },
                    (Err(e), s) => (Err(e), s),
                }
            },
            (Err(e), s) => (Err(e), s),
        }
    }

    /// { function }, up to the end of the items. A piece of text that the lexer rejects is an error
    /// wherever it was met: the list takes the whole contents of a file, or none.
    pub open(crate) spec fn function_list(
        self,
        list: Seq<(FunctionModel<'a>, DetailsModel<'a>)>,
    ) -> Reading<'a, Seq<(FunctionModel<'a>, DetailsModel<'a>)>>
        decreases self.remaining(),
    {
        proof {
            lemma_fill(self);
            lemma_function(self.fill());
        }
        let s = self.fill();
        match s.lex_error {
            Some(e) => (Err(e.failure()), s),
            None => if self.peek() is Some {
                match s.function() {
                    (Ok(f), s) => s.function_list(list.push(f)),
                    (Err(e), s) => (Err(e), s),
                }
            } else {
                (Ok(list), s)
            },
        }
    }

    /// A whole test case file.
    pub open(crate) spec fn test_file(
        self,
        replies: Seq<IsaReplyModel>,
    ) -> Result<TestFileModel<'a>, Failure> {
        let (commands, s) = self.gather(AnyEntity::Function).test_commands(seq![]);
        match s.isa_specs(replies, IsaProgress::start()) {
            (Ok(isa_spec), s) => {
                let preamble_comments = s.comments;
                match (ParserState { comments: seq![], ..s }).function_list(seq![]) {
                    (Ok(functions), _) => Ok(
                        TestFileModel { commands, isa_spec, preamble_comments, functions },
                    ),
                    (Err(e), _) => Err(e),
                }
            },
            (Err(e), _) => Err(e),
        }
    }

    /// The functions of a whole file.
    pub open(crate) spec fn file_functions(
        self,
        replies: Seq<IsaReplyModel>,
    ) -> Result<Seq<FunctionModel<'a>>, Failure> {
        match self.test_file(replies) {
            Ok(file) => Ok(
                file.functions.map_values(|f: (FunctionModel<'a>, DetailsModel<'a>)| f.0),
            ),
            Err(e) => Err(e),
        }
    }
}

pub broadcast proof fn lemma_ebb_arg<'a>(st: ParserState<'a>, ctx: ContextModel<'a>, ebb: Ebb)
    ensures
        takes(st, #[trigger] st.ebb_arg(ctx, ebb)),
{
    broadcast use lemma_fill;

}

pub broadcast proof fn lemma_more_ebb_args<'a>(
    st: ParserState<'a>,
    ctx: ContextModel<'a>,
    ebb: Ebb,
)
    ensures
        takes(st, #[trigger] st.more_ebb_args(ctx, ebb)),
    decreases st.remaining(),
{
    broadcast use {lemma_fill, lemma_ebb_arg};

    let (more, s) = st.optional(Token::Comma);
    if more {
        if let (Ok(ctx), s) = s.ebb_arg(ctx, ebb) {
            lemma_more_ebb_args(s, ctx, ebb);
        }
    }
}

/// An instruction takes a token for each of its results, and one for its opcode.
pub broadcast proof fn lemma_instruction_text<'a>(st: ParserState<'a>, ctx: ContextModel<'a>)
    ensures
        takes(st, #[trigger] st.instruction_text(ctx)),
        st.instruction_text(ctx).0 matches Ok(text) ==> text.results.len() + st.instruction_text(
            ctx,
        ).1.remaining() < st.remaining(),
{
    broadcast use {lemma_fill, lemma_more_values, lemma_steps};

}

pub broadcast proof fn lemma_instruction<'a>(st: ParserState<'a>, ctx: ContextModel<'a>, ebb: Ebb)
    ensures
        takes(st, #[trigger] st.instruction(ctx, ebb)),
{
    broadcast use lemma_instruction_text;

}

pub broadcast proof fn lemma_instructions<'a>(st: ParserState<'a>, ctx: ContextModel<'a>, ebb: Ebb)
    ensures
        (#[trigger] st.instructions(ctx, ebb)).1.isa == st.isa,
        st.instructions(ctx, ebb).1.remaining() <= st.remaining(),
    decreases st.remaining(),
{
    broadcast use {lemma_fill, lemma_instruction};

    if value_in(st.peek()) is Some || word_in(st.peek()) is Some {
        if let (Ok(ctx), s) = st.fill().instruction(ctx, ebb) {
            lemma_instructions(s, ctx, ebb);
        }
    }
}

pub broadcast proof fn lemma_extended_basic_block<'a>(st: ParserState<'a>, ctx: ContextModel<'a>)
    ensures
        takes(st, #[trigger] st.extended_basic_block(ctx)),
{
    broadcast use {lemma_fill, lemma_ebb_arg, lemma_more_ebb_args, lemma_instructions};

}

pub broadcast proof fn lemma_function_body<'a>(st: ParserState<'a>, ctx: ContextModel<'a>)
    ensures
        (#[trigger] st.function_body(ctx)).1.isa == st.isa,
        st.function_body(ctx).1.remaining() <= st.remaining(),
    decreases st.remaining(),
{
    broadcast use {lemma_fill, lemma_extended_basic_block};

    if st.peek() != Some(Token::RBrace) {
        if let (Ok(ctx), s) = st.fill().extended_basic_block(ctx) {
            lemma_function_body(s, ctx);
        }
    }
}

pub broadcast proof fn lemma_function(st: ParserState)
    ensures
        takes(st, #[trigger] st.function()),
{
    broadcast use {lemma_fill, lemma_function_spec, lemma_preamble, lemma_function_body};

}

} // verus!
