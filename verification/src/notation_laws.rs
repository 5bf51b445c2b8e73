//! Laws of the notation of instructions: the tokens that were read are those of what was read.

use crate::body::InstructionText;
use crate::context::ContextModel;
use crate::entities::Value;
use crate::instructions::{
    find_name, find_opcode, operands_model, Constant, InstructionFormat, InstructionSet, Opcode,
    OpcodeInfo, OperandsModel,
};
use crate::reading::{lemma_fill, ParserState};
use crate::sourcemap::SourceMapModel;
use crate::syntax::{syntax, Step};
use crate::text::u8_value;
use crate::token::Token;
use crate::token_laws::{clean, law_tokens_in_order, upcoming};
use crate::types::Type;
use vstd::prelude::*;

verus! {

/// Were just these tokens read between two states of a parser?
pub open spec fn reads<'a>(
    st: ParserState<'a>,
    tokens: Seq<Token<'a>>,
    s: ParserState<'a>,
) -> bool {
    &&& upcoming(st) == tokens + upcoming(s)
    &&& clean(s.items)
}

/// What is read in two steps.
pub proof fn lemma_reads<'a>(
    a: ParserState<'a>,
    first: Seq<Token<'a>>,
    b: ParserState<'a>,
    second: Seq<Token<'a>>,
    c: ParserState<'a>,
)
    requires
        reads(a, first, b),
        reads(b, second, c),
    ensures
        reads(a, first + second, c),
{
    assert(first + (second + upcoming(c)) =~= (first + second) + upcoming(c));
}

/// Looking at a token takes nothing, and consuming it takes it.
pub broadcast proof fn lemma_one_token(st: ParserState)
    requires
        clean(st.items),
    ensures
        reads(st, seq![], #[trigger] st.fill()),
        st.fill().lookahead matches Some(token) ==> reads(st, seq![token], st.eat()),
{
    law_tokens_in_order(st);
    assert(seq![] + upcoming(st.fill()) =~= upcoming(st.fill()));
    if st.peek() is Some {
        assert(upcoming(st) =~= seq![upcoming(st)[0]] + upcoming(st).drop_first());
        assert(clean(st.eat().items));
    }
}

/// The tokens of some values, with a comma before each.
pub open spec fn comma_values<'a>(vals: Seq<Value>) -> Seq<Token<'a>>
    decreases vals.len(),
{
    if vals.len() == 0 {
        seq![]
    } else {
        seq![Token::Comma, Token::Value(vals[0])] + comma_values(vals.drop_first())
    }
}

/// The tokens of a list of values, with commas between them.
pub open spec fn value_tokens<'a>(vals: Seq<Value>) -> Seq<Token<'a>> {
    if vals.len() == 0 {
        seq![]
    } else {
        seq![Token::Value(vals[0])] + comma_values(vals.drop_first())
    }
}

/// The values after commas that were read.
proof fn lemma_more_values_written<'a>(
    st: ParserState<'a>,
    list: Seq<Value>,
    message: Seq<char>,
) -> (tail: Seq<Value>)
    requires
        clean(st.items),
    ensures
        st.more_values(list, message).0 matches Ok(l) ==> l == list + tail && reads(
            st,
            comma_values(tail),
            st.more_values(list, message).1,
        ),
    decreases st.remaining(),
{
    broadcast use {lemma_fill, lemma_one_token};

    let (more, s) = st.optional(Token::Comma);
    if more {
        if let (Ok(v), s2) = s.match_value(message) {
            let tail = lemma_more_values_written(s2, list.push(v), message);
            let all = seq![v] + tail;
            assert(all.drop_first() =~= tail);
            assert(list.push(v) + tail =~= list + all);
            if st.more_values(list, message).0 is Ok {
                let end = st.more_values(list, message).1;
                lemma_reads(st, seq![Token::Comma], s, seq![Token::Value(v)], s2);
                assert(seq![Token::Comma] + seq![Token::Value(v)] =~= seq![
                    Token::<'a>::Comma,
                    Token::Value(v),
                ]);
                lemma_reads(
                    st,
                    seq![Token::Comma, Token::Value(v)],
                    s2,
                    comma_values(tail),
                    end,
                );
            }
            all
        } else {
            seq![]
        }
    } else {
        assert(list + seq![] =~= list);
        seq![]
    }
}

proof fn lemma_value_list_written<'a>(st: ParserState<'a>)
    requires
        clean(st.items),
    ensures
        st.value_list().0 matches Ok(l) ==> reads(st, value_tokens(l), st.value_list().1),
{
    broadcast use lemma_one_token;

    if let Some(Token::Value(v)) = st.peek() {
        let message = "expected value in argument list"@;
        let tail = lemma_more_values_written(st.eat(), seq![v], message);
        if let (Ok(l), s) = st.value_list() {
            assert(l.drop_first() =~= tail);
            lemma_reads(st, seq![Token::Value(v)], st.eat(), comma_values(tail), s);
        }
    }
}

/// The arguments of a block that is jumped to: a list of values in parentheses, or nothing if there
/// are none.
pub open spec fn are_block_args(tokens: Seq<Token>, vals: Seq<Value>) -> bool {
    ||| vals.len() == 0 && tokens.len() == 0
    ||| tokens == seq![Token::LPar] + value_tokens(vals) + seq![Token::RPar]
}

proof fn lemma_opt_value_list_written<'a>(st: ParserState<'a>) -> (tokens: Seq<Token<'a>>)
    requires
        clean(st.items),
    ensures
        st.opt_value_list().0 matches Ok(l) ==> are_block_args(tokens, l) && reads(
            st,
            tokens,
            st.opt_value_list().1,
        ),
{
    broadcast use lemma_one_token;

    let (open, s) = st.optional(Token::LPar);
    if open {
        lemma_value_list_written(s);
        if let (Ok(l), s2) = s.value_list() {
            if let (Ok(_), s3) = st.opt_value_list() {
                lemma_reads(st, seq![Token::LPar], s, value_tokens(l), s2);
                lemma_reads(
                    st,
                    seq![Token::LPar] + value_tokens(l),
                    s2,
                    seq![Token::RPar],
                    s3,
                );
            }
            seq![Token::LPar] + value_tokens(l) + seq![Token::RPar]
        } else {
            seq![]
        }
    } else {
        seq![]
    }
}

/// Is this the position of a name in a list? The first one counts.
pub open spec fn is_position(names: Seq<&str>, name: Seq<char>, i: int) -> bool {
    &&& 0 <= i < names.len()
    &&& names[i]@ == name
    &&& forall|j: int| 0 <= j < i ==> (#[trigger] names[j])@ != name
}

proof fn lemma_find_name(names: Seq<&str>, text: Seq<char>, from: int)
    requires
        0 <= from,
    ensures
        match find_name(names, text, from) {
            Some(i) => from <= i < names.len() && names[i]@ == text && forall|j: int|
                from <= j < i ==> (#[trigger] names[j])@ != text,
            None => forall|j: int| from <= j < names.len() ==> (#[trigger] names[j])@ != text,
        },
    decreases names.len() - from,
{
    if from < names.len() {
        lemma_find_name(names, text, from + 1);
    }
}

/// Does the token denote this integer?
pub open spec fn is_int(token: Token, n: i64) -> bool {
    token matches Token::Integer(t) && t.imm64 == Ok::<i64, &str>(n)
}

/// Does the token denote the 32-bit float with these bits?
pub open spec fn is_ieee32(token: Token, bits: u32) -> bool {
    token matches Token::Float(t) && t.ieee32 == Ok::<u32, &str>(bits)
}

/// Does the token denote the 64-bit float with these bits?
pub open spec fn is_ieee64(token: Token, bits: u64) -> bool {
    token matches Token::Float(t) && t.ieee64 == Ok::<u64, &str>(bits)
}

/// Does the token denote this lane?
pub open spec fn is_lane(token: Token, lane: u8) -> bool {
    token matches Token::Integer(t) && u8_value(t.text@) == Some(lane)
}

/// Is the token the name at this position of a list?
pub open spec fn is_name(token: Token, names: Seq<&str>, i: int) -> bool {
    token matches Token::Identifier(word) && is_position(names, word@, i)
}

/// Is the token a source number that stands for the constant?
pub open(crate) spec fn is_declared(token: Token, map: SourceMapModel, constant: Constant) -> bool {
    match (token, constant) {
        (Token::FuncRef(n), Constant::Func(r)) => map.functions.contains_key(n) && map.functions[n]
            == r,
        (Token::SigRef(n), Constant::Sig(r)) => map.signatures.contains_key(n) && map.signatures[n]
            == r,
        (Token::JumpTable(n), Constant::Table(r)) => map.jump_tables.contains_key(n)
            && map.jump_tables[n] == r,
        _ => false,
    }
}

/// What a piece of an operand list adds to the operands, and the tokens of it.
spec fn step_says(
    step: Step,
    tokens: Seq<Token>,
    o: OperandsModel,
    p: OperandsModel,
    isa: InstructionSet,
    map: SourceMapModel,
) -> bool {
    match step {
        Step::Value(_) => {
            &&& p.args.len() == o.args.len() + 1
            &&& p == (OperandsModel { args: o.args.push(p.args.last()), ..o })
            &&& tokens == seq![Token::Value(p.args.last())]
        },
        Step::Int(_) => {
            &&& p == (OperandsModel { constant: p.constant, ..o })
            &&& tokens.len() == 1
            &&& p.constant matches Constant::Int(n) && is_int(tokens[0], n)
        },
        Step::Ieee32(_) => {
            &&& p == (OperandsModel { constant: p.constant, ..o })
            &&& tokens.len() == 1
            &&& p.constant matches Constant::Ieee32(bits) && is_ieee32(tokens[0], bits)
        },
        Step::Ieee64(_) => {
            &&& p == (OperandsModel { constant: p.constant, ..o })
            &&& tokens.len() == 1
            &&& p.constant matches Constant::Ieee64(bits) && is_ieee64(tokens[0], bits)
        },
        Step::Lane(_) => {
            &&& p == (OperandsModel { constant: p.constant, ..o })
            &&& tokens.len() == 1
            &&& p.constant matches Constant::Lane(lane) && is_lane(tokens[0], lane)
        },
        Step::IntCondition(_) => {
            &&& p == (OperandsModel { constant: p.constant, ..o })
            &&& tokens.len() == 1
            &&& p.constant matches Constant::Condition(cond) && is_name(
                tokens[0],
                isa.int_conditions@,
                cond as int,
            )
        },
        Step::FloatCondition(_) => {
            &&& p == (OperandsModel { constant: p.constant, ..o })
            &&& tokens.len() == 1
            &&& p.constant matches Constant::Condition(cond) && is_name(
                tokens[0],
                isa.float_conditions@,
                cond as int,
            )
        },
        Step::Destination(_) => {
            &&& p == (OperandsModel { destination: p.destination, ..o })
            &&& p.destination matches Some(ebb) && tokens == seq![Token::Ebb(ebb)]
        },
        Step::Func(_) => {
            &&& p == (OperandsModel { constant: p.constant, ..o })
            &&& tokens.len() == 1
            &&& p.constant is Func
            &&& is_declared(tokens[0], map, p.constant)
        },
        Step::Sig(_) => {
            &&& p == (OperandsModel { constant: p.constant, ..o })
            &&& tokens.len() == 1
            &&& p.constant is Sig
            &&& is_declared(tokens[0], map, p.constant)
        },
        Step::Table => {
            &&& p == (OperandsModel { constant: p.constant, ..o })
            &&& tokens.len() == 1
            &&& p.constant is Table
            &&& is_declared(tokens[0], map, p.constant)
        },
        Step::Args => {
            &&& p == (OperandsModel { varargs: p.varargs, ..o })
            &&& tokens == value_tokens(p.varargs)
        },
        Step::OptArgs => {
            &&& p == (OperandsModel { varargs: p.varargs, ..o })
            &&& are_block_args(tokens, p.varargs)
        },
        Step::Comma => p == o && tokens == seq![Token::Comma],
        Step::LPar => p == o && tokens == seq![Token::LPar],
        Step::RPar => p == o && tokens == seq![Token::RPar],
    }
}

proof fn lemma_step_written<'a>(
    st: ParserState<'a>,
    ctx: ContextModel<'a>,
    step: Step,
    o: OperandsModel,
) -> (tokens: Seq<Token<'a>>)
    requires
        clean(st.items),
    ensures
        st.step(ctx, step, o).0 matches Ok(p) ==> step_says(step, tokens, o, p, *st.isa, ctx.map)
            && reads(st, tokens, st.step(ctx, step, o).1),
{
    broadcast use lemma_one_token;

    match step {
        Step::Args => {
            lemma_value_list_written(st);
            value_tokens(st.value_list().0->Ok_0)
        },
        Step::OptArgs => lemma_opt_value_list_written(st),
        Step::IntCondition(_) => {
            if let Some(Token::Identifier(word)) = st.peek() {
                assert(st.isa.int_conditions.len() == st.isa.int_conditions@.len());
                lemma_find_name(st.isa.int_conditions@, word@, 0);
            }
            seq![st.peek()->0]
        },
        Step::FloatCondition(_) => {
            if let Some(Token::Identifier(word)) = st.peek() {
                assert(st.isa.float_conditions.len() == st.isa.float_conditions@.len());
                lemma_find_name(st.isa.float_conditions@, word@, 0);
            }
            seq![st.peek()->0]
        },
        _ => seq![st.peek()->0],
    }
}

/// One sequence after the other.
pub open spec fn flat<T>(pieces: Seq<Seq<T>>) -> Seq<T>
    decreases pieces.len(),
{
    if pieces.len() == 0 {
        seq![]
    } else {
        pieces[0] + flat(pieces.drop_first())
    }
}

proof fn lemma_steps_written<'a>(
    st: ParserState<'a>,
    ctx: ContextModel<'a>,
    list: Seq<Step>,
    k: int,
    o: OperandsModel,
) -> (r: (Seq<Seq<Token<'a>>>, Seq<OperandsModel>))
    requires
        clean(st.items),
        0 <= k <= list.len(),
    ensures
        st.steps(ctx, list, k, o).0 matches Ok(p) ==> {
            &&& r.0.len() == list.len() - k
            &&& r.1.len() == r.0.len() + 1
            &&& r.1[0] == o
            &&& r.1.last() == p
            &&& forall|i: int|
                0 <= i < r.0.len() ==> step_says(
                    list[k + i],
                    #[trigger] r.0[i],
                    r.1[i],
                    r.1[i + 1],
                    *st.isa,
                    ctx.map,
                )
            &&& reads(st, flat(r.0), st.steps(ctx, list, k, o).1)
        },
    decreases list.len() - k,
{
    if k == list.len() {
        let none: Seq<Seq<Token<'a>>> = seq![];
        assert(flat(none) + upcoming(st) =~= upcoming(st));
        (none, seq![o])
    } else {
        crate::syntax::lemma_step(st, ctx, list[k], o);
        let first = lemma_step_written(st, ctx, list[k], o);
        if let (Ok(p), s) = st.step(ctx, list[k], o) {
            let (pieces, os) = lemma_steps_written(s, ctx, list, k + 1, p);
            let all = seq![first] + pieces;
            let states = seq![o] + os;
            if let (Ok(q), end) = st.steps(ctx, list, k, o) {
                assert(all.drop_first() =~= pieces);
                lemma_reads(st, first, s, flat(pieces), end);
                assert forall|i: int| 0 <= i < all.len() implies step_says(
                    list[k + i],
                    #[trigger] all[i],
                    states[i],
                    states[i + 1],
                    *st.isa,
                    ctx.map,
                ) by {
                    if i > 0 {
                        assert(all[i] == pieces[i - 1]);
                        assert(list[k + i] == list[k + 1 + (i - 1)]);
                    }
                }
            }
            (all, states)
        } else {
            (seq![], seq![])
        }
    }
}

/// Are the tokens the notation of these operands, each piece at its place?
pub open(crate) spec fn operands_written(
    tokens: Seq<Token>,
    o: OperandsModel,
    isa: InstructionSet,
    map: SourceMapModel,
) -> bool {
    let a = o.args;
    match o.format {
        InstructionFormat::Nullary => {
            &&& o == operands_model(o.format, seq![], Constant::Nothing)
            &&& tokens.len() == 0
        },
        InstructionFormat::Unary | InstructionFormat::UnarySplit => {
            &&& o == operands_model(o.format, seq![a[0]], Constant::Nothing)
            &&& tokens == seq![Token::Value(a[0])]
        },
        InstructionFormat::UnaryImm => {
            &&& o == operands_model(o.format, seq![], o.constant)
            &&& tokens.len() == 1
            &&& o.constant matches Constant::Int(n) && is_int(tokens[0], n)
        },
        InstructionFormat::UnaryIeee32 => {
            &&& o == operands_model(o.format, seq![], o.constant)
            &&& tokens.len() == 1
            &&& o.constant matches Constant::Ieee32(bits) && is_ieee32(tokens[0], bits)
        },
        InstructionFormat::UnaryIeee64 => {
            &&& o == operands_model(o.format, seq![], o.constant)
            &&& tokens.len() == 1
            &&& o.constant matches Constant::Ieee64(bits) && is_ieee64(tokens[0], bits)
        },
        InstructionFormat::UnaryImmVector => false,
        InstructionFormat::Binary | InstructionFormat::BinaryOverflow => {
            &&& o == operands_model(o.format, seq![a[0], a[1]], Constant::Nothing)
            &&& tokens == seq![Token::Value(a[0]), Token::Comma, Token::Value(a[1])]
        },
        InstructionFormat::BinaryImm => {
            &&& o == operands_model(o.format, seq![a[0]], o.constant)
            &&& tokens.len() == 3
            &&& tokens[0] == Token::Value(a[0])
            &&& tokens[1] == Token::Comma
            &&& o.constant matches Constant::Int(n) && is_int(tokens[2], n)
        },
        InstructionFormat::BinaryImmRev => {
            &&& o == operands_model(o.format, seq![a[0]], o.constant)
            &&& tokens.len() == 3
            &&& tokens[1] == Token::Comma
            &&& tokens[2] == Token::Value(a[0])
            &&& o.constant matches Constant::Int(n) && is_int(tokens[0], n)
        },
        InstructionFormat::Ternary | InstructionFormat::TernaryOverflow => {
            &&& o == operands_model(o.format, seq![a[0], a[1], a[2]], Constant::Nothing)
            &&& tokens == seq![
                Token::Value(a[0]),
                Token::Comma,
                Token::Value(a[1]),
                Token::Comma,
                Token::Value(a[2]),
            ]
        },
        InstructionFormat::Jump => {
            &&& a.len() == 0
            &&& o.constant is Nothing
            &&& tokens.len() > 0
            &&& o.destination matches Some(ebb) && tokens[0] == Token::Ebb(ebb)
            &&& are_block_args(tokens.skip(1), o.varargs)
        },
        InstructionFormat::Branch => {
            &&& a.len() == 1
            &&& o.constant is Nothing
            &&& tokens.len() > 2
            &&& tokens[0] == Token::Value(a[0])
            &&& tokens[1] == Token::Comma
            &&& o.destination matches Some(ebb) && tokens[2] == Token::Ebb(ebb)
            &&& are_block_args(tokens.skip(3), o.varargs)
        },
        InstructionFormat::InsertLane => {
            &&& o == operands_model(o.format, seq![a[0], a[1]], o.constant)
            &&& tokens.len() == 5
            &&& tokens[0] == Token::Value(a[0])
            &&& tokens[1] == Token::Comma
            &&& o.constant matches Constant::Lane(lane) && is_lane(tokens[2], lane)
            &&& tokens[3] == Token::Comma
            &&& tokens[4] == Token::Value(a[1])
        },
        InstructionFormat::ExtractLane => {
            &&& o == operands_model(o.format, seq![a[0]], o.constant)
            &&& tokens.len() == 3
            &&& tokens[0] == Token::Value(a[0])
            &&& tokens[1] == Token::Comma
            &&& o.constant matches Constant::Lane(lane) && is_lane(tokens[2], lane)
        },
        InstructionFormat::IntCompare | InstructionFormat::FloatCompare => {
            let names = if o.format is IntCompare {
                isa.int_conditions@
            } else {
                isa.float_conditions@
            };
            &&& o == operands_model(o.format, seq![a[0], a[1]], o.constant)
            &&& tokens.len() == 5
            &&& o.constant matches Constant::Condition(cond) && is_name(
                tokens[0],
                names,
                cond as int,
            )
            &&& tokens[1] == Token::Comma
            &&& tokens[2] == Token::Value(a[0])
            &&& tokens[3] == Token::Comma
            &&& tokens[4] == Token::Value(a[1])
        },
        InstructionFormat::Call => {
            &&& a.len() == 0
            &&& o.destination is None
            &&& o.constant is Func
            &&& tokens.len() > 2
            &&& is_declared(tokens[0], map, o.constant)
            &&& tokens.skip(1) == seq![Token::LPar] + value_tokens(o.varargs) + seq![Token::RPar]
        },
        InstructionFormat::IndirectCall => {
            &&& a.len() == 1
            &&& o.destination is None
            &&& o.constant is Sig
            &&& tokens.len() > 4
            &&& is_declared(tokens[0], map, o.constant)
            &&& tokens[1] == Token::Comma
            &&& tokens[2] == Token::Value(a[0])
            &&& tokens.skip(3) == seq![Token::LPar] + value_tokens(o.varargs) + seq![Token::RPar]
        },
        InstructionFormat::Return => {
            &&& a.len() == 0
            &&& o.destination is None
            &&& o.constant is Nothing
            &&& tokens == value_tokens(o.varargs)
        },
        InstructionFormat::BranchTable => {
            &&& o == operands_model(o.format, seq![a[0]], o.constant)
            &&& tokens.len() == 3
            &&& tokens[0] == Token::Value(a[0])
            &&& tokens[1] == Token::Comma
            &&& o.constant is Table
            &&& is_declared(tokens[2], map, o.constant)
        },
    }
}

/// A few sequences, one after the other.
proof fn lemma_flat<T>(p: Seq<Seq<T>>)
    ensures
        p.len() == 0 ==> flat(p).len() == 0,
        p.len() == 1 ==> flat(p) == p[0],
        p.len() == 2 ==> flat(p) == p[0] + p[1],
        p.len() == 3 ==> flat(p) == p[0] + p[1] + p[2],
        p.len() == 4 ==> flat(p) == p[0] + p[1] + p[2] + p[3],
        p.len() == 5 ==> flat(p) == p[0] + p[1] + p[2] + p[3] + p[4],
        p.len() == 6 ==> flat(p) == p[0] + p[1] + p[2] + p[3] + p[4] + p[5],
    decreases p.len(),
{
    if 0 < p.len() <= 6 {
        let q = p.drop_first();
        lemma_flat(q);
        if p.len() == 1 {
            assert(flat(p) =~= p[0]);
        } else if p.len() == 2 {
            assert(flat(p) =~= p[0] + p[1]);
        } else if p.len() == 3 {
            assert(flat(p) =~= p[0] + p[1] + p[2]);
        } else if p.len() == 4 {
            assert(flat(p) =~= p[0] + p[1] + p[2] + p[3]);
        } else if p.len() == 5 {
            assert(flat(p) =~= p[0] + p[1] + p[2] + p[3] + p[4]);
        } else {
            assert(flat(p) =~= p[0] + p[1] + p[2] + p[3] + p[4] + p[5]);
        }
    }
}

/// The operands of an instruction are those that its tokens denote, each in its place: the tokens
/// that were read are the notation of the operands in the format.
pub proof fn law_operands_notation<'a>(
    st: ParserState<'a>,
    ctx: ContextModel<'a>,
    format: InstructionFormat,
) -> (tokens: Seq<Token<'a>>)
    requires
        clean(st.items),
        format != InstructionFormat::UnaryImmVector,
    ensures
        st.inst_operands(ctx, format).0 matches Ok(o) ==> {
            &&& o.format == format
            &&& operands_written(tokens, o, *st.isa, ctx.map)
            &&& reads(st, tokens, st.inst_operands(ctx, format).1)
        },
{
    let list = syntax(format);
    let start = operands_model(format, seq![], Constant::Nothing);
    let (p, os) = lemma_steps_written(st, ctx, list, 0, start);
    let tokens = flat(p);
    lemma_flat(p);
    if let (Ok(o), _) = st.inst_operands(ctx, format) {
        lemma_operand_pieces(list, p, os, format, *st.isa, ctx.map);
    }
    tokens
}

/// The pieces of an operand list make up the notation of the operands.
proof fn lemma_operand_pieces<'a>(
    list: Seq<Step>,
    p: Seq<Seq<Token<'a>>>,
    os: Seq<OperandsModel>,
    format: InstructionFormat,
    isa: InstructionSet,
    map: SourceMapModel,
)
    requires
        format != InstructionFormat::UnaryImmVector,
        list == syntax(format),
        p.len() == list.len(),
        os.len() == p.len() + 1,
        os[0] == operands_model(format, seq![], Constant::Nothing),
        forall|i: int|
            0 <= i < p.len() ==> step_says(list[i], #[trigger] p[i], os[i], os[i + 1], isa, map),
    ensures
        os.last().format == format,
        operands_written(flat(p), os.last(), isa, map),
{
    let o = os.last();
    let a = o.args;
    let t = flat(p);
    lemma_flat(p);
    if p.len() > 0 {
        assert(step_says(list[0], p[0], os[0], os[1], isa, map));
    }
    if p.len() > 1 {
        assert(step_says(list[1], p[1], os[1], os[2], isa, map));
    }
    if p.len() > 2 {
        assert(step_says(list[2], p[2], os[2], os[3], isa, map));
    }
    if p.len() > 3 {
        assert(step_says(list[3], p[3], os[3], os[4], isa, map));
    }
    if p.len() > 4 {
        assert(step_says(list[4], p[4], os[4], os[5], isa, map));
    }
    if p.len() > 5 {
        assert(step_says(list[5], p[5], os[5], os[6], isa, map));
    }
    match format {
        InstructionFormat::Unary
        | InstructionFormat::UnarySplit
        | InstructionFormat::BinaryImm
        | InstructionFormat::BinaryImmRev
        | InstructionFormat::ExtractLane
        | InstructionFormat::BranchTable => {
            assert(a =~= seq![a[0]]);
        },
        InstructionFormat::Binary | InstructionFormat::BinaryOverflow => {
            assert(a =~= seq![a[0], a[1]]);
            assert(t =~= seq![Token::Value(a[0]), Token::Comma, Token::Value(a[1])]);
        },
        InstructionFormat::Ternary | InstructionFormat::TernaryOverflow => {
            assert(a =~= seq![a[0], a[1], a[2]]);
            assert(t =~= seq![
                Token::Value(a[0]),
                Token::Comma,
                Token::Value(a[1]),
                Token::Comma,
                Token::Value(a[2]),
            ]);
        },
        InstructionFormat::Jump => {
            assert(t.skip(1) =~= p[1]);
        },
        InstructionFormat::Branch => {
            assert(t.skip(3) =~= p[3]);
        },
        InstructionFormat::InsertLane
        | InstructionFormat::IntCompare
        | InstructionFormat::FloatCompare => {
            assert(a =~= seq![a[0], a[1]]);
        },
        InstructionFormat::Call => {
            assert(t.skip(1) =~= seq![Token::LPar] + value_tokens(o.varargs) + seq![Token::RPar]);
        },
        InstructionFormat::IndirectCall => {
            assert(t.skip(3) =~= seq![Token::LPar] + value_tokens(o.varargs) + seq![Token::RPar]);
        },
        _ => {},
    }
}

/// The tokens before the opcode of an instruction: its results and "=", if it has results.
pub open spec fn result_tokens<'a>(results: Seq<Value>) -> Seq<Token<'a>> {
    if results.len() == 0 {
        seq![]
    } else {
        value_tokens(results) + seq![Token::Equal]
    }
}

/// The tokens of an explicit type after an opcode.
pub open spec fn type_tokens<'a>(explicit: Option<Type>) -> Seq<Token<'a>> {
    match explicit {
        Some(ty) => seq![Token::Dot, Token::Type(ty)],
        None => seq![],
    }
}

/// Is this the opcode with the name? The first one counts.
pub open spec fn is_opcode(opcodes: Seq<OpcodeInfo>, name: Seq<char>, opcode: Opcode) -> bool {
    &&& opcode.0 < opcodes.len()
    &&& opcodes[opcode.0 as int].name@ == name
    &&& forall|j: int| 0 <= j < opcode.0 ==> (#[trigger] opcodes[j]).name@ != name
}

/// Are the tokens the notation of this instruction? After its results stands a word, which is the
/// name of its opcode, then its explicit type, if there is one, then its operands, in the format of
/// the opcode.
pub open(crate) spec fn instruction_written(
    tokens: Seq<Token>,
    text: InstructionText,
    isa: InstructionSet,
    map: SourceMapModel,
) -> bool {
    let n = result_tokens(text.results).len() as int;
    let m = n + 1 + type_tokens(text.explicit).len();
    &&& m <= tokens.len()
    &&& tokens.take(n) == result_tokens(text.results)
    &&& tokens[n] matches Token::Identifier(word) && is_opcode(isa.opcodes@, word@, text.opcode)
    &&& tokens.subrange(n + 1, m) == type_tokens(text.explicit)
    &&& text.operands.format == isa.opcodes@[text.opcode.0 as int].format
    &&& operands_written(tokens.skip(m), text.operands, isa, map)
}

proof fn lemma_find_opcode(opcodes: Seq<OpcodeInfo>, text: Seq<char>, from: int)
    requires
        0 <= from,
    ensures
        match find_opcode(opcodes, text, from) {
            Some(i) => from <= i < opcodes.len() && opcodes[i].name@ == text && forall|j: int|
                from <= j < i ==> (#[trigger] opcodes[j]).name@ != text,
            None => forall|j: int| from <= j < opcodes.len() ==> (#[trigger] opcodes[j]).name@
                != text,
        },
    decreases opcodes.len() - from,
{
    if from < opcodes.len() {
        lemma_find_opcode(opcodes, text, from + 1);
    }
}

/// An opcode is found by its name, and by nothing else.
pub proof fn law_opcode_names(isa: InstructionSet, name: Seq<char>)
    ensures
        match isa.named(name) {
            Some(opcode) => is_opcode(isa.opcodes@, name, opcode),
            None => forall|j: int| 0 <= j < isa.opcodes@.len() ==> (
            #[trigger] isa.opcodes@[j]).name@ != name,
        },
{
    assert(isa.opcodes.len() == isa.opcodes@.len());
    lemma_find_opcode(isa.opcodes@, name, 0);
}

proof fn lemma_inst_results_written<'a>(st: ParserState<'a>)
    requires
        clean(st.items),
    ensures
        st.inst_results().0 matches Ok(l) ==> reads(st, result_tokens(l), st.inst_results().1),
{
    broadcast use lemma_one_token;

    if let Some(Token::Value(v)) = st.peek() {
        let message = "expected result value"@;
        let tail = lemma_more_values_written(st.eat(), seq![v], message);
        if let (Ok(l), s) = st.inst_results() {
            let s2 = st.eat().more_values(seq![v], message).1;
            assert(l.drop_first() =~= tail);
            lemma_reads(st, seq![Token::Value(v)], st.eat(), comma_values(tail), s2);
            lemma_reads(st, value_tokens(l), s2, seq![Token::Equal], s);
        }
    }
}

proof fn lemma_explicit_type_written<'a>(st: ParserState<'a>)
    requires
        clean(st.items),
    ensures
        st.explicit_type().0 matches Ok(ty) ==> reads(st, type_tokens(ty), st.explicit_type().1),
{
    broadcast use lemma_one_token;

    let (dot, s) = st.optional(Token::Dot);
    if dot {
        if let (Ok(Some(ty)), s2) = st.explicit_type() {
            lemma_reads(st, seq![Token::Dot], s, seq![Token::Type(ty)], s2);
            assert(seq![Token::Dot] + seq![Token::Type(ty)] =~= type_tokens::<'a>(Some(ty)));
        }
    }
}

/// The tokens that were read for an instruction are the notation of what was read: of its results, of
/// the name of its opcode, of its explicit type and of its operands.
pub proof fn law_instruction_notation<'a>(
    st: ParserState<'a>,
    ctx: ContextModel<'a>,
) -> (tokens: Seq<Token<'a>>)
    requires
        clean(st.items),
    ensures
        st.instruction_text(ctx).0 matches Ok(text) ==> {
            &&& instruction_written(tokens, text, *st.isa, ctx.map)
            &&& reads(st, tokens, st.instruction_text(ctx).1)
        },
{
    broadcast use {lemma_fill, lemma_one_token, crate::syntax::lemma_more_values};

    lemma_inst_results_written(st);
    if let (Ok(text), end) = st.instruction_text(ctx) {
        let s1 = st.inst_results().1;
        let s2 = s1.opcode().1;
        let word = s1.peek()->0;
        let s3 = s2.explicit_type().1;
        lemma_explicit_type_written(s2);
        assert(s3.isa == st.isa);
        law_opcode_names(*st.isa, word->Identifier_0@);
        let operands = law_operands_notation(s3, ctx, st.isa.info(text.opcode).format);
        let results = result_tokens::<'a>(text.results);
        let explicit = type_tokens::<'a>(text.explicit);
        lemma_reads(st, results, s1, seq![word], s2);
        lemma_reads(st, results + seq![word], s2, explicit, s3);
        lemma_reads(st, results + seq![word] + explicit, s3, operands, end);
        let tokens = results + seq![word] + explicit + operands;
        let n = results.len() as int;
        let m = n + 1 + explicit.len();
        assert(tokens.take(n) =~= results);
        assert(tokens[n] == word);
        assert(tokens.subrange(n + 1, m) =~= explicit);
        assert(tokens.skip(m) =~= operands);
        tokens
    } else {
        seq![]
    }
}

} // verus!
