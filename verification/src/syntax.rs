//! The syntax of the operands of an instruction, by instruction format.

use crate::context::{declared, ContextModel};
use crate::entities::Value;
use crate::instructions::{operands_model, value_count, Constant, InstructionFormat, OperandsModel};
use crate::reading::{lemma_fill, value_in, ParserState, Reading};
use crate::token::Token;
use vstd::prelude::*;

verus! {

/// A piece of an operand list, with the message for the case that it is not there.
pub enum Step {
    Value(Seq<char>),
    Int(Seq<char>),
    Ieee32(Seq<char>),
    Ieee64(Seq<char>),
    Lane(Seq<char>),
    IntCondition(Seq<char>),
    FloatCondition(Seq<char>),
    Destination(Seq<char>),
    Func(Seq<char>),
    Sig(Seq<char>),
    Table,
    /// A list of values.
    Args,
    /// A list of values in parentheses, or nothing.
    OptArgs,
    Comma,
    LPar,
    RPar,
}

/// The syntax of the operand list of an instruction format. There is none for vector immediates.
pub open spec fn syntax(format: InstructionFormat) -> Seq<Step>
    recommends
        format != InstructionFormat::UnaryImmVector,
{
    let first = Step::Value("expected SSA value first operand"@);
    let second = Step::Value("expected SSA value second operand"@);
    match format {
        InstructionFormat::Nullary => seq![],
        InstructionFormat::Unary => seq![Step::Value("expected SSA value operand"@)],
        InstructionFormat::UnaryImm => seq![Step::Int("expected immediate integer operand"@)],
        InstructionFormat::UnaryIeee32 => seq![
            Step::Ieee32("expected immediate 32-bit float operand"@),
        ],
        InstructionFormat::UnaryIeee64 => seq![
            Step::Ieee64("expected immediate 64-bit float operand"@),
        ],
        InstructionFormat::UnaryImmVector => seq![],
        InstructionFormat::UnarySplit => seq![Step::Value("expected SSA value operand"@)],
        InstructionFormat::Binary => seq![first, Step::Comma, second],
        InstructionFormat::BinaryImm => seq![
            first,
            Step::Comma,
            Step::Int("expected immediate integer second operand"@),
        ],
        InstructionFormat::BinaryImmRev => seq![
            Step::Int("expected immediate integer first operand"@),
            Step::Comma,
            second,
        ],
        InstructionFormat::BinaryOverflow => seq![first, Step::Comma, second],
        InstructionFormat::Ternary => seq![
            Step::Value("expected SSA value control operand"@),
            Step::Comma,
            Step::Value("expected SSA value true operand"@),
            Step::Comma,
            Step::Value("expected SSA value false operand"@),
        ],
        InstructionFormat::TernaryOverflow => seq![
            first,
            Step::Comma,
            second,
            Step::Comma,
            Step::Value("expected SSA value third operand"@),
        ],
        InstructionFormat::Jump => seq![
            Step::Destination("expected jump destination EBB"@),
            Step::OptArgs,
        ],
        InstructionFormat::Branch => seq![
            Step::Value("expected SSA value control operand"@),
            Step::Comma,
            Step::Destination("expected branch destination EBB"@),
            Step::OptArgs,
        ],
        InstructionFormat::InsertLane => seq![
            first,
            Step::Comma,
            Step::Lane("expected lane number"@),
            Step::Comma,
            Step::Value("expected SSA value last operand"@),
        ],
        InstructionFormat::ExtractLane => seq![
            Step::Value("expected SSA value last operand"@),
            Step::Comma,
            Step::Lane("expected lane number"@),
        ],
        InstructionFormat::IntCompare => seq![
            Step::IntCondition("expected intcc condition code"@),
            Step::Comma,
            first,
            Step::Comma,
            second,
        ],
        InstructionFormat::FloatCompare => seq![
            Step::FloatCondition("expected floatcc condition code"@),
            Step::Comma,
            first,
            Step::Comma,
            second,
        ],
        InstructionFormat::Call => seq![
            Step::Func("expected function reference"@),
            Step::LPar,
            Step::Args,
            Step::RPar,
        ],
        InstructionFormat::IndirectCall => seq![
            Step::Sig("expected signature reference"@),
            Step::Comma,
            Step::Value("expected SSA value callee operand"@),
            Step::LPar,
            Step::Args,
            Step::RPar,
        ],
        InstructionFormat::Return => seq![Step::Args],
        InstructionFormat::BranchTable => seq![
            Step::Value("expected SSA value operand"@),
            Step::Comma,
            Step::Table,
        ],
    }
}

/// Operands with one more constant.
pub open spec fn with_constant<'a, T>(
    operands: OperandsModel,
    reading: Reading<'a, T>,
    constant: spec_fn(T) -> Constant,
) -> Reading<'a, OperandsModel> {
    match reading {
        (Ok(x), s) => (Ok(OperandsModel { constant: constant(x), ..operands }), s),
        (Err(e), s) => (Err(e), s),
    }
}

/// Operands after a mark.
pub open spec fn with_mark<'a>(
    operands: OperandsModel,
    reading: Reading<'a, Token<'a>>,
) -> Reading<'a, OperandsModel> {
    match reading {
        (Ok(_), s) => (Ok(operands), s),
        (Err(e), s) => (Err(e), s),
    }
}

/// Operands with a list of arguments.
pub open spec fn with_args<'a>(
    operands: OperandsModel,
    reading: Reading<'a, Seq<Value>>,
) -> Reading<'a, OperandsModel> {
    match reading {
        (Ok(varargs), s) => (Ok(OperandsModel { varargs, ..operands }), s),
        (Err(e), s) => (Err(e), s),
    }
}

impl<'a> ParserState<'a> {
    /// { "," value }, after the values in `list`
    pub open spec fn more_values(
        self,
        list: Seq<Value>,
        message: Seq<char>,
    ) -> Reading<'a, Seq<Value>>
        decreases self.remaining(),
    {
        proof {
            lemma_fill(self);
            lemma_fill(self.eat());
        }
        let (more, s) = self.optional(Token::Comma);
        if more {
            match s.match_value(message) {
                (Ok(v), s) => s.more_values(list.push(v), message),
                (Err(e), s) => (Err(e), s),
            }
        } else {
            (Ok(list), s)
        }
    }

    /// value_list ::= [ value { "," value } ]
    pub open spec fn value_list(self) -> Reading<'a, Seq<Value>> {
        match value_in(self.peek()) {
            Some(v) => self.eat().more_values(seq![v], "expected value in argument list"@),
            None => (Ok(seq![]), self.fill()),
        }
    }

    /// [ "(" value_list ")" ]
    pub open spec fn opt_value_list(self) -> Reading<'a, Seq<Value>> {
        let (open, s) = self.optional(Token::LPar);
        if open {
            match s.value_list() {
                (Ok(list), s) => match s.expect(Token::RPar, "expected ')' after arguments"@) {
                    (Ok(_), s) => (Ok(list), s),
                    (Err(e), s) => (Err(e), s),
                },
                (Err(e), s) => (Err(e), s),
            }
        } else {
            (Ok(seq![]), s)
        }
    }

    /// One piece of an operand list, after the `operands`. Values and blocks keep their source
    /// numbers; functions, signatures and jump tables have to be declared.
    pub open(crate) spec fn step(
        self,
        ctx: ContextModel<'a>,
        step: Step,
        operands: OperandsModel,
    ) -> Reading<'a, OperandsModel> {
        match step {
            Step::Value(message) => match self.match_value(message) {
                (Ok(v), s) => (Ok(OperandsModel { args: operands.args.push(v), ..operands }), s),
                (Err(e), s) => (Err(e), s),
            },
            Step::Int(message) => with_constant(
                operands,
                self.match_imm64(message),
                |n: i64| Constant::Int(n),
            ),
            Step::Ieee32(message) => with_constant(
                operands,
                self.match_ieee32(message),
                |bits: u32| Constant::Ieee32(bits),
            ),
            Step::Ieee64(message) => with_constant(
                operands,
                self.match_ieee64(message),
                |bits: u64| Constant::Ieee64(bits),
            ),
            Step::Lane(message) => with_constant(
                operands,
                self.match_uimm8(message),
                |lane: u8| Constant::Lane(lane),
            ),
            Step::IntCondition(message) => with_constant(
                operands,
                self.match_enum(self.isa.int_conditions@, message),
                |cond: usize| Constant::Condition(cond),
            ),
            Step::FloatCondition(message) => with_constant(
                operands,
                self.match_enum(self.isa.float_conditions@, message),
                |cond: usize| Constant::Condition(cond),
            ),
            Step::Destination(message) => match self.match_ebb(message) {
                (Ok(ebb), s) => (Ok(OperandsModel { destination: Some(ebb), ..operands }), s),
                (Err(e), s) => (Err(e), s),
            },
            Step::Func(message) => match self.match_fn(message) {
                (Ok(number), s) => match ctx.get_fn(number, s.loc) {
                    Ok(r) => (Ok(OperandsModel { constant: Constant::Func(r), ..operands }), s),
                    Err(e) => (Err(e), s),
                },
                (Err(e), s) => (Err(e), s),
            },
            Step::Sig(message) => match self.match_sig(message) {
                (Ok(number), s) => match ctx.get_sig(number, s.loc) {
                    Ok(r) => (Ok(OperandsModel { constant: Constant::Sig(r), ..operands }), s),
                    Err(e) => (Err(e), s),
                },
                (Err(e), s) => (Err(e), s),
            },
            Step::Table => match self.match_jt() {
                (Ok(number), s) => match ctx.get_jt(number, s.loc) {
                    Ok(r) => (Ok(OperandsModel { constant: Constant::Table(r), ..operands }), s),
                    Err(e) => (Err(e), s),
                },
                (Err(e), s) => (Err(e), s),
            },
            Step::Args => with_args(operands, self.value_list()),
            Step::OptArgs => with_args(operands, self.opt_value_list()),
            Step::Comma => with_mark(
                operands,
                self.expect(Token::Comma, "expected ',' between operands"@),
            ),
            Step::LPar => with_mark(
                operands,
                self.expect(Token::LPar, "expected '(' before arguments"@),
            ),
            Step::RPar => with_mark(
                operands,
                self.expect(Token::RPar, "expected ')' after arguments"@),
            ),
        }
    }

    /// The pieces of an operand list from number `k` on, after the `operands`.
    pub open(crate) spec fn steps(
        self,
        ctx: ContextModel<'a>,
        list: Seq<Step>,
        k: int,
        operands: OperandsModel,
    ) -> Reading<'a, OperandsModel>
        decreases list.len() - k,
    {
        if k < 0 || k >= list.len() {
            (Ok(operands), self)
        } else {
            match self.step(ctx, list[k], operands) {
                (Ok(operands), s) => s.steps(ctx, list, k + 1, operands),
                (Err(e), s) => (Err(e), s),
            }
        }
    }

    /// The operands of an instruction, in a format that has a syntax.
    pub open(crate) spec fn inst_operands(
        self,
        ctx: ContextModel<'a>,
        format: InstructionFormat,
    ) -> Reading<'a, OperandsModel>
        recommends
            format != InstructionFormat::UnaryImmVector,
    {
        self.steps(ctx, syntax(format), 0, operands_model(format, seq![], Constant::Nothing))
    }
}

/// The number of SSA values in an operand list from piece `k` on.
pub open spec fn values_in(list: Seq<Step>, k: int) -> nat
    decreases list.len() - k,
{
    if k < 0 || k >= list.len() {
        0
    } else {
        values_in(list, k + 1) + (if list[k] is Value {
            1nat
        } else {
            0nat
        })
    }
}

/// What the pieces of an operand list leave behind.
pub proof fn lemma_steps_operands<'a>(
    st: ParserState<'a>,
    ctx: ContextModel<'a>,
    list: Seq<Step>,
    k: int,
    operands: OperandsModel,
)
    requires
        ctx.sound(),
        declared(ctx.function, operands),
    ensures
        st.steps(ctx, list, k, operands).0 matches Ok(o) ==> {
            &&& o.format == operands.format
            &&& o.args.len() == operands.args.len() + values_in(list, k)
            &&& declared(ctx.function, o)
        },
    decreases list.len() - k,
{
    if 0 <= k < list.len() {
        if let (Ok(o), s) = st.step(ctx, list[k], operands) {
            lemma_steps_operands(s, ctx, list, k + 1, o);
        }
    }
}

/// The operands of an instruction have its format, with all the values of the format, and refer to
/// declared functions, signatures and jump tables.
pub proof fn lemma_inst_operands<'a>(
    st: ParserState<'a>,
    ctx: ContextModel<'a>,
    format: InstructionFormat,
)
    requires
        ctx.sound(),
    ensures
        st.inst_operands(ctx, format).0 matches Ok(o) ==> {
            &&& o.format == format
            &&& o.args.len() == value_count(format)
            &&& declared(ctx.function, o)
        },
{
    reveal_with_fuel(values_in, 7);
    lemma_steps_operands(
        st,
        ctx,
        syntax(format),
        0,
        operands_model(format, seq![], Constant::Nothing),
    );
}

pub broadcast proof fn lemma_more_values(st: ParserState, list: Seq<Value>, message: Seq<char>)
    ensures
        (#[trigger] st.more_values(list, message)).1.isa == st.isa,
        st.more_values(list, message).1.remaining() <= st.remaining(),
        st.more_values(list, message).0 matches Ok(l) ==> l.len()
            + st.more_values(list, message).1.remaining() <= list.len() + st.remaining(),
    decreases st.remaining(),
{
    broadcast use lemma_fill;

    let (more, s) = st.optional(Token::Comma);
    if more {
        if let (Ok(v), s) = s.match_value(message) {
            lemma_more_values(s, list.push(v), message);
        }
    }
}

pub broadcast proof fn lemma_step<'a>(
    st: ParserState<'a>,
    ctx: ContextModel<'a>,
    step: Step,
    operands: OperandsModel,
)
    ensures
        (#[trigger] st.step(ctx, step, operands)).1.isa == st.isa,
        st.step(ctx, step, operands).1.remaining() <= st.remaining(),
{
    broadcast use {lemma_fill, lemma_more_values};

}

pub broadcast proof fn lemma_steps<'a>(
    st: ParserState<'a>,
    ctx: ContextModel<'a>,
    list: Seq<Step>,
    k: int,
    operands: OperandsModel,
)
    ensures
        (#[trigger] st.steps(ctx, list, k, operands)).1.isa == st.isa,
        st.steps(ctx, list, k, operands).1.remaining() <= st.remaining(),
    decreases list.len() - k,
{
    broadcast use lemma_step;

    if 0 <= k < list.len() {
        if let (Ok(operands), s) = st.step(ctx, list[k], operands) {
            lemma_steps(s, ctx, list, k + 1, operands);
        }
    }
}

} // verus!
