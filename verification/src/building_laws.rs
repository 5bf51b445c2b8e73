//! Laws of how a function grows while it is read.

use crate::body::{
    controlling_type, def_values, lemma_ebb_arg, lemma_extended_basic_block, lemma_instruction,
    result_types, InstructionText,
};
use crate::context::ContextModel;
use crate::entities::{AnyEntity, Ebb, EntityRef, FuncRef, Inst, Value};
use crate::error::Location;
use crate::function::{FunctionModel, InstEntryModel, SignatureModel};
use crate::function_laws::law_result_types;
use crate::instructions::{
    find_typing, Constant, InstructionModel, InstructionSet, OpcodeInfo, OperandsModel, Typing,
};
use crate::reading::{lemma_fill, lemma_preamble_decl, value_in, word_in, ParserState};
use crate::reference_laws::stand_for_values;
use crate::sourcemap::SourceMapModel;
use crate::token::Token;
use crate::types::Type;
use vstd::prelude::*;

verus! {

/// Are there numbers for all entities of the function?
pub open spec fn fits(f: FunctionModel) -> bool {
    f.size() < u32::MAX / 2
}

/// Do the source numbers stand for entities of the function, and do its external functions have
/// signatures of the function?
pub open(crate) spec fn known(ctx: ContextModel) -> bool {
    let f = ctx.function;
    let map = ctx.map;
    &&& forall|k: u32| #[trigger] map.values.contains_key(k) ==> f.has_value(map.values[k])
    &&& forall|k: u32| #[trigger]
        map.ebbs.contains_key(k) ==> map.ebbs[k].number() < f.ebbs.len()
    &&& forall|k: u32| #[trigger]
        map.functions.contains_key(k) ==> map.functions[k].number() < f.ext_funcs.len()
    &&& forall|k: u32| #[trigger]
        map.signatures.contains_key(k) ==> map.signatures[k].number() < f.signatures.len()
    &&& forall|k: u32| #[trigger]
        map.jump_tables.contains_key(k) ==> map.jump_tables[k].number() < f.jump_tables.len()
    &&& forall|i: int|
        0 <= i < f.ext_funcs.len() ==> (#[trigger] f.ext_funcs[i]).signature.number()
            < f.signatures.len()
}

/// Does the second sequence start with the first?
pub open spec fn starts<T>(a: Seq<T>, b: Seq<T>) -> bool {
    &&& a.len() <= b.len()
    &&& forall|i: int|
        #![trigger a[i]]
        #![trigger b[i]]
        0 <= i < a.len() ==> a[i] == b[i]
}

/// Does the second map have all that the first has?
pub open spec fn within_map<K, V>(a: Map<K, V>, b: Map<K, V>) -> bool {
    forall|k: K| #[trigger] a.contains_key(k) ==> b.contains_key(k) && b[k] == a[k]
}

/// Does the second context hold all that the first holds? What is there stays as it is; blocks can
/// get more arguments and more instructions.
pub open(crate) spec fn grew<'a>(a: ContextModel<'a>, b: ContextModel<'a>) -> bool {
    let f = a.function;
    let g = b.function;
    &&& g.name == f.name
    &&& g.signature == f.signature
    &&& starts(f.stack_slots, g.stack_slots)
    &&& starts(f.jump_tables, g.jump_tables)
    &&& starts(f.signatures, g.signatures)
    &&& starts(f.ext_funcs, g.ext_funcs)
    &&& starts(f.insts, g.insts)
    &&& starts(f.table_values, g.table_values)
    &&& f.ebbs.len() <= g.ebbs.len()
    &&& forall|e: int|
        0 <= e < f.ebbs.len() ==> starts(f.ebbs[e].args, (#[trigger] g.ebbs[e]).args)
            && starts(f.ebbs[e].insts, g.ebbs[e].insts)
    &&& within_map(a.map.values, b.map.values)
    &&& within_map(a.map.ebbs, b.map.ebbs)
    &&& within_map(a.map.stack_slots, b.map.stack_slots)
    &&& within_map(a.map.signatures, b.map.signatures)
    &&& within_map(a.map.functions, b.map.functions)
    &&& within_map(a.map.jump_tables, b.map.jump_tables)
    &&& within_map(a.map.locations, b.map.locations)
}

/// Do the contexts have the same declarations?
pub open(crate) spec fn same_declarations<'a>(a: ContextModel<'a>, b: ContextModel<'a>) -> bool {
    &&& b.function.stack_slots == a.function.stack_slots
    &&& b.function.jump_tables == a.function.jump_tables
    &&& b.function.signatures == a.function.signatures
    &&& b.function.ext_funcs == a.function.ext_funcs
    &&& b.map.stack_slots == a.map.stack_slots
    &&& b.map.jump_tables == a.map.jump_tables
    &&& b.map.signatures == a.map.signatures
    &&& b.map.functions == a.map.functions
}

/// Growing in two steps is growing.
pub proof fn lemma_grew<'a>(a: ContextModel<'a>, b: ContextModel<'a>, c: ContextModel<'a>)
    requires
        grew(a, b),
        grew(b, c),
    ensures
        grew(a, c),
{
    assert forall|e: int| 0 <= e < a.function.ebbs.len() implies starts(
        a.function.ebbs[e].args,
        (#[trigger] c.function.ebbs[e]).args,
    ) && starts(a.function.ebbs[e].insts, c.function.ebbs[e].insts) by {
        assert(starts(a.function.ebbs[e].args, b.function.ebbs[e].args));
    }
}

/// The function that has grown holds no fewer entities.
pub proof fn lemma_grew_size<'a>(a: ContextModel<'a>, b: ContextModel<'a>)
    requires
        grew(a, b),
    ensures
        a.function.size() <= b.function.size(),
{
}

/// The types of the values of a function stay what they are.
pub proof fn lemma_types_stay<'a>(a: ContextModel<'a>, b: ContextModel<'a>, v: Value)
    requires
        grew(a, b),
        a.function.has_value(v),
    ensures
        b.function.has_value(v),
        b.function.type_of(v) == a.function.type_of(v),
{
}

/// The signature of what an instruction calls: that of the external function, or the one that an
/// indirect call names.
pub open(crate) spec fn callee(f: FunctionModel, operands: OperandsModel) -> Option<SignatureModel> {
    match operands.constant {
        Constant::Func(r) => Some(
            f.signatures[f.ext_funcs[r.number() as int].signature.number() as int],
        ),
        Constant::Sig(r) => Some(f.signatures[r.number() as int]),
        _ => None,
    }
}

/// Is what an instruction calls declared?
pub open(crate) spec fn callee_known(f: FunctionModel, operands: OperandsModel) -> bool {
    match operands.constant {
        Constant::Func(r) => r.number() < f.ext_funcs.len() && f.ext_funcs[r.number() as
            int].signature.number() < f.signatures.len(),
        Constant::Sig(r) => r.number() < f.signatures.len(),
        _ => true,
    }
}

/// Is this the typing that the opcode has for the controlling type? The first one counts.
pub open spec fn is_typing(info: OpcodeInfo, ctrl: Type, t: int) -> bool {
    &&& 0 <= t < info.typings@.len()
    &&& info.typings@[t].ctrl == ctrl
    &&& forall|j: int| 0 <= j < t ==> (#[trigger] info.typings@[j]).ctrl != ctrl
}

/// Are these the types of the results of an instruction? First come those that the opcode itself
/// determines, then one for each return type of what the instruction calls, in their order.
pub open(crate) spec fn are_result_types(
    f: FunctionModel,
    own: Seq<Type>,
    operands: OperandsModel,
    types: Seq<Type>,
) -> bool {
    &&& types.len() == own.len() + (match callee(f, operands) {
        Some(sig) => sig.return_types.len(),
        None => 0,
    })
    &&& forall|k: int| 0 <= k < own.len() ==> #[trigger] types[k] == own[k]
    &&& callee(f, operands) matches Some(sig) ==> forall|k: int|
        own.len() <= k < types.len() ==> #[trigger] types[k] == sig.return_types[k
            - own.len()].value_type
}

/// Is this the controlling type of an instruction? It is the explicit type if there is one, or else
/// the type of the operand that it is inferred from; an opcode that is not polymorphic has the void
/// type.
pub open(crate) spec fn controls(
    ctx: ContextModel,
    info: OpcodeInfo,
    explicit: Option<Type>,
    operands: OperandsModel,
    ctrl: Type,
) -> bool {
    &&& match explicit {
        Some(ty) => ctrl == ty,
        None => if info.use_typevar_operand {
            let src = operands.args[info.typevar_operand as int];
            &&& ctx.map.values.contains_key(src.0)
            &&& ctx.function.has_value(ctx.map.values[src.0])
            &&& ctrl == ctx.function.type_of(ctx.map.values[src.0])
        } else {
            !info.polymorphic
        },
    }
    &&& !info.polymorphic ==> ctrl == Type::void()
}

/// Do the results of an instruction have the right number and the right types?
pub open(crate) spec fn well_typed(
    ctx: ContextModel,
    info: OpcodeInfo,
    text: InstructionText,
    inst: InstEntryModel,
    ctrl: Type,
    t: int,
    types: Seq<Type>,
) -> bool {
    &&& controls(ctx, info, text.explicit, text.operands, ctrl)
    &&& is_typing(info, ctrl, t)
    &&& are_result_types(ctx.function, info.typings@[t].results@, text.operands, types)
    &&& inst.results.len() == types.len()
    &&& forall|k: int|
        0 <= k < types.len() ==> ctx.function.has_value(#[trigger] inst.results[k])
            && ctx.function.type_of(inst.results[k]) == types[k]
    &&& inst.data.ty == (if types.len() > 0 {
        types[0]
    } else {
        Type::void()
    })
}

/// Is instruction `i` of the function what the text says? It has the opcode and the operands of the
/// text. It has as many results as the text gives it; the source number of each stands for it, and
/// each has the type that the opcode, the controlling type and the called function give it.
pub open(crate) spec fn inst_built(
    ctx: ContextModel,
    isa: InstructionSet,
    i: int,
    text: InstructionText,
) -> bool {
    let inst = ctx.function.insts[i];
    &&& 0 <= i < ctx.function.insts.len()
    &&& inst.data.opcode == text.opcode
    &&& inst.data.operands == text.operands
    &&& callee_known(ctx.function, text.operands)
    &&& stand_for_values(ctx.map, text.results, inst.results)
    &&& exists|ctrl: Type, t: int, types: Seq<Type>|
        well_typed(ctx, isa.opcodes@[text.opcode.0 as int], text, inst, ctrl, t, types)
}

/// An instruction stays what it is while the function grows.
pub proof fn lemma_inst_stays<'a>(
    a: ContextModel<'a>,
    b: ContextModel<'a>,
    isa: InstructionSet,
    i: int,
    text: InstructionText,
)
    requires
        inst_built(a, isa, i, text),
        grew(a, b),
    ensures
        inst_built(b, isa, i, text),
{
    let info = isa.opcodes@[text.opcode.0 as int];
    let inst = a.function.insts[i];
    assert(b.function.insts[i] == inst);
    let (ctrl, t, types) = choose|ctrl: Type, t: int, types: Seq<Type>|
        well_typed(a, info, text, inst, ctrl, t, types);
    assert(callee(a.function, text.operands) == callee(b.function, text.operands));
    assert(well_typed(b, info, text, inst, ctrl, t, types));
}

/// The first typing for a type is found.
proof fn lemma_find_typing(typings: Seq<Typing>, ty: Type, from: int)
    requires
        0 <= from,
    ensures
        match find_typing(typings, ty, from) {
            Some(t) => from <= t < typings.len() && typings[t].ctrl == ty && forall|j: int|
                from <= j < t ==> (#[trigger] typings[j]).ctrl != ty,
            None => forall|j: int| from <= j < typings.len() ==> (#[trigger] typings[j]).ctrl != ty,
        },
    decreases typings.len() - from,
{
    if from < typings.len() {
        lemma_find_typing(typings, ty, from + 1);
    }
}

/// What the definition of a list of source values does to a map.
proof fn lemma_def_values(
    map: SourceMapModel,
    srcs: Seq<Value>,
    vals: Seq<Value>,
    k: int,
    loc: Location,
)
    requires
        0 <= k,
    ensures
        def_values(map, srcs, vals, k, loc) matches Ok(after) ==> {
            &&& within_map(map.values, after.values)
            &&& within_map(map.locations, after.locations)
            &&& after == (SourceMapModel {
                values: after.values,
                locations: after.locations,
                ..map
            })
            &&& forall|i: int|
                #![trigger srcs[i]]
                k <= i < srcs.len() && i < vals.len() ==> after.values.contains_key(srcs[i].0)
                    && after.values[srcs[i].0] == vals[i]
            &&& forall|n: u32| #[trigger]
                after.values.contains_key(n) ==> map.values.contains_key(n) || exists|i: int|
                    k <= i < vals.len() && i < srcs.len() && (#[trigger] srcs[i]).0 == n
                        && after.values[n] == vals[i]
        },
    decreases srcs.len() - k,
{
    if k < srcs.len() && k < vals.len() {
        if let Ok(next) = map.def_value(srcs[k], vals[k], loc) {
            lemma_def_values(next, srcs, vals, k + 1, loc);
            if let Ok(after) = def_values(next, srcs, vals, k + 1, loc) {
                assert(next.values.contains_key(srcs[k].0));
                assert forall|n: u32| #[trigger] map.values.contains_key(n) implies
                    after.values.contains_key(n) && after.values[n] == map.values[n] by {
                    assert(next.values.contains_key(n));
                }
                assert forall|n: u64| #[trigger] map.locations.contains_key(n) implies
                    after.locations.contains_key(n) && after.locations[n] == map.locations[n] by {
                    assert(next.locations.contains_key(n));
                }
                assert forall|i: int|
                    #![trigger srcs[i]]
                    k <= i < srcs.len() && i < vals.len() implies after.values.contains_key(
                    srcs[i].0,
                ) && after.values[srcs[i].0] == vals[i] by {}
                assert forall|n: u32| #[trigger] after.values.contains_key(n) implies
                    map.values.contains_key(n) || exists|i: int|
                    k <= i < vals.len() && i < srcs.len() && (#[trigger] srcs[i]).0 == n
                        && after.values[n] == vals[i] by {
                    if n == srcs[k].0 {
                        assert(after.values[n] == vals[k]);
                    } else if !next.values.contains_key(n) {
                        let i = choose|i: int|
                            k + 1 <= i < vals.len() && i < srcs.len() && (#[trigger] srcs[i]).0
                                == n && after.values[n] == vals[i];
                        assert(srcs[i].0 == n);
                    }
                }
            }
        }
    }
}

/// Do the results of an instruction define this source value?
pub open(crate) spec fn results_define(results: Seq<Value>, n: u32) -> bool {
    exists|i: int| 0 <= i < results.len() && (#[trigger] results[i]).0 == n
}

/// The instruction stands at the end of its block, and all other blocks are as they were.
pub open(crate) spec fn appended(f: FunctionModel, g: FunctionModel, ebb: Ebb) -> bool {
    let e = ebb.number() as int;
    &&& g.insts.len() == f.insts.len() + 1
    &&& g.ebbs.len() == f.ebbs.len()
    &&& g.ebbs[e].args == f.ebbs[e].args
    &&& g.ebbs[e].insts == f.ebbs[e].insts.push(Inst::of(f.insts.len() as u32))
    &&& forall|d: int| 0 <= d < f.ebbs.len() && d != e ==> #[trigger] g.ebbs[d] == f.ebbs[d]
}

/// The types of the results of an instruction.
proof fn lemma_result_types(
    f: FunctionModel,
    info: OpcodeInfo,
    ctrl: Type,
    operands: OperandsModel,
)
    requires
        info.typing(ctrl) is Some,
    ensures
        exists|t: int| #[trigger]
            is_typing(info, ctrl, t) && are_result_types(
                f,
                info.typings@[t].results@,
                operands,
                result_types(f, info, ctrl, operands),
            ),
{
    lemma_find_typing(info.typings@, ctrl, 0);
    let t = find_typing(info.typings@, ctrl, 0)->0;
    assert(is_typing(info, ctrl, t));
}

/// An instruction takes nothing away.
pub proof fn lemma_place_grew<'a>(
    st: ParserState<'a>,
    ctx: ContextModel<'a>,
    ebb: Ebb,
    text: InstructionText,
)
    requires
        ebb.number() < ctx.function.ebbs.len(),
    ensures
        st.place_instruction(ctx, ebb, text).0 matches Ok(after) ==> grew(ctx, after) && same_declarations(
            ctx,
            after,
        ) && after.map.ebbs == ctx.map.ebbs,
{
    if let Ok(after) = st.place_instruction(ctx, ebb, text).0 {
        let f = ctx.function;
        let g = after.function;
        let info = st.isa.info(text.opcode);
        let ctrl = controlling_type(ctx, info, text.explicit, text.operands, st.loc)->Ok_0;
        let types = result_types(f, info, ctrl, text.operands);
        let inst = Inst::of(f.insts.len() as u32);
        let map = ctx.map.def_entity(AnyEntity::Inst(inst), text.location)->Ok_0;
        let vals = f.next_results(types.len());
        lemma_def_values(map, text.results, vals, 0, st.loc);
        assert forall|n: u64| #[trigger] ctx.map.locations.contains_key(n) implies
            after.map.locations.contains_key(n) && after.map.locations[n] == ctx.map.locations[n] by {
            assert(map.locations.contains_key(n));
        }
        assert(within_map(ctx.map.values, after.map.values));
        assert(starts(f.table_values, g.table_values));
    }
}

/// An instruction that was added to a block stands at the end of the block. It has the opcode and the
/// operands of its text. The source numbers of its results stand for its results. These are as many
/// as the opcode, for the controlling type, and the return types of a called function together say,
/// and have these types.
pub proof fn law_placed_instruction<'a>(
    st: ParserState<'a>,
    ctx: ContextModel<'a>,
    ebb: Ebb,
    text: InstructionText,
)
    requires
        known(ctx),
        ebb.number() < ctx.function.ebbs.len(),
        st.isa.has(text.opcode),
        st.isa.info(text.opcode).is_complete(),
        callee_known(ctx.function, text.operands),
    ensures
        st.place_instruction(ctx, ebb, text).0 matches Ok(after) ==> {
            &&& grew(ctx, after)
            &&& appended(ctx.function, after.function, ebb)
            &&& forall|n: u32| #[trigger]
                after.map.values.contains_key(n) ==> ctx.map.values.contains_key(n)
                    || results_define(text.results, n)
            &&& fits(after.function) ==> known(after) && inst_built(
                after,
                *st.isa,
                ctx.function.insts.len() as int,
                text,
            )
        },
{
    if let Ok(after) = st.place_instruction(ctx, ebb, text).0 {
        let f = ctx.function;
        let g = after.function;
        let info = st.isa.info(text.opcode);
        let ctrl = controlling_type(ctx, info, text.explicit, text.operands, st.loc)->Ok_0;
        let types = result_types(f, info, ctrl, text.operands);
        let inst = Inst::of(f.insts.len() as u32);
        let map = ctx.map.def_entity(AnyEntity::Inst(inst), text.location)->Ok_0;
        let vals = f.next_results(types.len());
        let data = InstructionModel {
            opcode: text.opcode,
            ty: Type::void(),
            operands: text.operands,
        };
        lemma_def_values(map, text.results, vals, 0, st.loc);
        lemma_place_grew(st, ctx, ebb, text);
        assert(g == f.with_inst(ebb, data, types));
        if fits(g) {
            assert(info.typing(ctrl) is Some);
            lemma_result_types(f, info, ctrl, text.operands);
            let t = choose|t: int| #[trigger]
                is_typing(info, ctrl, t) && are_result_types(
                    f,
                    info.typings@[t].results@,
                    text.operands,
                    types,
                );
            law_result_types(f, ebb, data, types, Value::of(0));
            let entry = g.insts[f.insts.len() as int];
            assert(entry.results == vals);
            assert forall|n: u32| #[trigger] after.map.values.contains_key(n) implies g.has_value(
                after.map.values[n],
            ) by {
                if ctx.map.values.contains_key(n) {
                    assert(map.values.contains_key(n));
                    lemma_types_stay(ctx, after, ctx.map.values[n]);
                } else {
                    let i = choose|i: int|
                        0 <= i < vals.len() && i < text.results.len() && (
                        #[trigger] text.results[i]).0 == n && after.map.values[n] == vals[i];
                    assert(g.has_value(vals[i]));
                }
            }
            if text.explicit is None && info.use_typevar_operand {
                let src = text.operands.args[info.typevar_operand as int];
                assert(ctx.map.values.contains_key(src.0));
                assert(map.values.contains_key(src.0));
                lemma_types_stay(ctx, after, ctx.map.values[src.0]);
            }
            assert(callee(f, text.operands) == callee(g, text.operands));
            assert(well_typed(after, info, text, entry, ctrl, t, types));
        }
    }
}

pub proof fn lemma_ebb_arg_grew<'a>(st: ParserState<'a>, ctx: ContextModel<'a>, ebb: Ebb)
    requires
        ebb.number() < ctx.function.ebbs.len(),
    ensures
        st.ebb_arg(ctx, ebb).0 matches Ok(after) ==> grew(ctx, after) && same_declarations(
            ctx,
            after,
        ) && after.map.ebbs == ctx.map.ebbs,
{
}

pub proof fn lemma_more_ebb_args_grew<'a>(st: ParserState<'a>, ctx: ContextModel<'a>, ebb: Ebb)
    requires
        ebb.number() < ctx.function.ebbs.len(),
    ensures
        st.more_ebb_args(ctx, ebb).0 matches Ok(after) ==> grew(ctx, after) && same_declarations(
            ctx,
            after,
        ) && after.map.ebbs == ctx.map.ebbs,
    decreases st.remaining(),
{
    broadcast use {lemma_fill, lemma_ebb_arg};

    let (more, s) = st.optional(Token::Comma);
    if more {
        lemma_ebb_arg_grew(s, ctx, ebb);
        if let (Ok(next), s2) = s.ebb_arg(ctx, ebb) {
            lemma_more_ebb_args_grew(s2, next, ebb);
            if let Ok(after) = s2.more_ebb_args(next, ebb).0 {
                lemma_grew(ctx, next, after);
            }
        }
    }
}

pub proof fn lemma_header_end_grew<'a>(st: ParserState<'a>, ctx: ContextModel<'a>, ebb: Ebb)
    requires
        ebb.number() < ctx.function.ebbs.len(),
    ensures
        st.ebb_header_end(ctx, ebb).0 matches Ok(after) ==> grew(ctx, after) && same_declarations(
            ctx,
            after,
        ) && after.map.ebbs == ctx.map.ebbs,
{
    let (colon, s) = st.optional(Token::Colon);
    if !colon {
        if let (Ok(_), s) = s.expect(Token::LPar, "expected '(' before EBB arguments"@) {
            lemma_ebb_arg_grew(s, ctx, ebb);
            if let (Ok(next), s) = s.ebb_arg(ctx, ebb) {
                lemma_more_ebb_args_grew(s, next, ebb);
                if let Ok(after) = s.more_ebb_args(next, ebb).0 {
                    lemma_grew(ctx, next, after);
                }
            }
        }
    }
}

pub proof fn lemma_instruction_grew<'a>(st: ParserState<'a>, ctx: ContextModel<'a>, ebb: Ebb)
    requires
        ebb.number() < ctx.function.ebbs.len(),
    ensures
        st.instruction(ctx, ebb).0 matches Ok(after) ==> grew(ctx, after) && same_declarations(
            ctx,
            after,
        ) && after.map.ebbs == ctx.map.ebbs,
{
    if let (Ok(text), s) = st.gather(AnyEntity::Inst(Inst::of(u32::MAX))).instruction_text(ctx) {
        lemma_place_grew(s, ctx, ebb, text);
    }
}

pub proof fn lemma_instructions_grew<'a>(st: ParserState<'a>, ctx: ContextModel<'a>, ebb: Ebb)
    requires
        ebb.number() < ctx.function.ebbs.len(),
    ensures
        st.instructions(ctx, ebb).0 matches Ok(after) ==> grew(ctx, after) && same_declarations(
            ctx,
            after,
        ) && after.map.ebbs == ctx.map.ebbs,
    decreases st.remaining(),
{
    broadcast use {lemma_fill, lemma_instruction};

    if value_in(st.peek()) is Some || word_in(st.peek()) is Some {
        lemma_instruction_grew(st.fill(), ctx, ebb);
        if let (Ok(next), s) = st.fill().instruction(ctx, ebb) {
            lemma_instructions_grew(s, next, ebb);
            if let Ok(after) = s.instructions(next, ebb).0 {
                lemma_grew(ctx, next, after);
            }
        }
    }
}

pub proof fn lemma_block_grew<'a>(st: ParserState<'a>, ctx: ContextModel<'a>)
    ensures
        st.extended_basic_block(ctx).0 matches Ok(after) ==> grew(ctx, after) && same_declarations(
            ctx,
            after,
        ),
{
    if let (Ok(number), s) = st.match_ebb("expected EBB header"@) {
        let ebb = Ebb::of(ctx.function.ebbs.len() as u32);
        if let Ok(with_ebb) = ctx.add_ebb(number, s.loc) {
            assert(grew(ctx, with_ebb));
            let s = s.gather(AnyEntity::Ebb(ebb));
            lemma_header_end_grew(s, with_ebb, ebb);
            if let (Ok(next), s) = s.ebb_header_end(with_ebb, ebb) {
                lemma_grew(ctx, with_ebb, next);
                lemma_instructions_grew(s, next, ebb);
                if let Ok(after) = s.instructions(next, ebb).0 {
                    lemma_grew(ctx, next, after);
                }
            }
        }
    }
}

pub proof fn lemma_body_grew<'a>(st: ParserState<'a>, ctx: ContextModel<'a>)
    ensures
        st.function_body(ctx).0 matches Ok(after) ==> grew(ctx, after) && same_declarations(
            ctx,
            after,
        ),
    decreases st.remaining(),
{
    broadcast use {lemma_fill, lemma_extended_basic_block};

    if st.peek() != Some(Token::RBrace) {
        lemma_block_grew(st.fill(), ctx);
        if let (Ok(next), s) = st.fill().extended_basic_block(ctx) {
            lemma_body_grew(s, next);
            if let Ok(after) = s.function_body(next).0 {
                lemma_grew(ctx, next, after);
            }
        }
    }
}

pub proof fn lemma_decl_grew<'a>(st: ParserState<'a>, ctx: ContextModel<'a>)
    ensures
        st.preamble_decl(ctx).0 matches Some(Ok(after)) ==> grew(ctx, after),
{
    if let Some(Token::FuncRef(_)) = st.peek() {
        let entity = FuncRef::of(ctx.function.ext_funcs.len() as u32);
        let s = st.fill().gather(AnyEntity::FuncRef(entity));
        if let (Ok((_, _, mid)), _) = s.function_decl(ctx) {
            assert(grew(ctx, mid));
            if let Some(Ok(after)) = st.preamble_decl(ctx).0 {
                assert(grew(mid, after));
                lemma_grew(ctx, mid, after);
            }
        }
    }
}

pub proof fn lemma_preamble_grew<'a>(st: ParserState<'a>, ctx: ContextModel<'a>)
    ensures
        st.preamble(ctx).0 matches Ok(after) ==> grew(ctx, after),
    decreases st.remaining(),
{
    broadcast use lemma_preamble_decl;

    lemma_decl_grew(st, ctx);
    if let (Some(Ok(next)), s) = st.preamble_decl(ctx) {
        lemma_preamble_grew(s, next);
        if let Ok(after) = s.preamble(next).0 {
            lemma_grew(ctx, next, after);
        }
    }
}

/// Are the source values new, and is none of them there twice?
pub open(crate) spec fn are_new(map: SourceMapModel, srcs: Seq<Value>) -> bool {
    &&& forall|i: int| 0 <= i < srcs.len() ==> !map.values.contains_key((#[trigger] srcs[i]).0)
    &&& forall|i: int, j: int|
        0 <= i < j < srcs.len() ==> (#[trigger] srcs[i]) != (#[trigger] srcs[j])
}

/// A list of source values can be defined if and only if they are new.
proof fn lemma_def_values_ok(
    map: SourceMapModel,
    srcs: Seq<Value>,
    vals: Seq<Value>,
    k: int,
    loc: Location,
)
    requires
        0 <= k <= srcs.len(),
        vals.len() == srcs.len(),
        forall|i: int|
            k <= i < vals.len() ==> map.location(AnyEntity::Value(#[trigger] vals[i])) is None,
        forall|i: int, j: int|
            0 <= i < j < vals.len() ==> (#[trigger] vals[i]) != (#[trigger] vals[j]),
    ensures
        def_values(map, srcs, vals, k, loc) is Ok <==> are_new(map, srcs.skip(k)),
    decreases srcs.len() - k,
{
    let rest = srcs.skip(k);
    if k < srcs.len() {
        assert(rest[0] == srcs[k]);
        if let Ok(next) = map.def_value(srcs[k], vals[k], loc) {
            let tail = srcs.skip(k + 1);
            assert forall|i: int| k + 1 <= i < vals.len() implies next.location(
                AnyEntity::Value(#[trigger] vals[i]),
            ) is None by {
                assert(map.location(AnyEntity::Value(vals[i])) is None);
                if crate::sourcemap::entity_key(AnyEntity::Value(vals[i]))
                    == crate::sourcemap::entity_key(AnyEntity::Value(vals[k])) {
                    crate::sourcemap::lemma_entity_key_injective(
                        AnyEntity::Value(vals[i]),
                        AnyEntity::Value(vals[k]),
                    );
                }
            }
            lemma_def_values_ok(next, srcs, vals, k + 1, loc);
            if are_new(next, tail) {
                assert forall|i: int| 0 <= i < rest.len() implies !map.values.contains_key(
                    (#[trigger] rest[i]).0,
                ) by {
                    if i > 0 {
                        assert(rest[i] == tail[i - 1]);
                    }
                }
                assert forall|i: int, j: int| 0 <= i < j < rest.len() implies (
                #[trigger] rest[i]) != (#[trigger] rest[j]) by {
                    assert(rest[j] == tail[j - 1]);
                    if i > 0 {
                        assert(rest[i] == tail[i - 1]);
                    } else {
                        assert(next.values.contains_key(srcs[k].0));
                    }
                }
            }
            if are_new(map, rest) {
                assert forall|i: int| 0 <= i < tail.len() implies !next.values.contains_key(
                    (#[trigger] tail[i]).0,
                ) by {
                    assert(tail[i] == rest[i + 1]);
                    assert(rest[0] != rest[i + 1]);
                }
                assert forall|i: int, j: int| 0 <= i < j < tail.len() implies (
                #[trigger] tail[i]) != (#[trigger] tail[j]) by {
                    assert(tail[i] == rest[i + 1]);
                    assert(tail[j] == rest[j + 1]);
                }
            }
        } else {
            assert(map.location(AnyEntity::Value(vals[k])) is None);
            assert(map.values.contains_key(rest[0].0));
        }
    }
}

/// Does an instruction have the types that it needs? It has a controlling type that its opcode
/// accepts, and as many results as the opcode and the called function say.
pub open(crate) spec fn can_be_typed(
    ctx: ContextModel,
    info: OpcodeInfo,
    text: InstructionText,
) -> bool {
    exists|ctrl: Type, t: int, types: Seq<Type>|
        typed_by(ctx, info, text, ctrl, t, types)
}

/// Are these the controlling type, the typing and the result types of an instruction?
pub open(crate) spec fn typed_by(
    ctx: ContextModel,
    info: OpcodeInfo,
    text: InstructionText,
    ctrl: Type,
    t: int,
    types: Seq<Type>,
) -> bool {
    &&& controls(ctx, info, text.explicit, text.operands, ctrl)
    &&& is_typing(info, ctrl, t)
    &&& are_result_types(ctx.function, info.typings@[t].results@, text.operands, types)
    &&& types.len() == text.results.len()
}

/// An instruction is accepted if and only if it has the types that it needs and its results are new
/// source values.
pub proof fn law_instruction_accepted<'a>(
    st: ParserState<'a>,
    ctx: ContextModel<'a>,
    ebb: Ebb,
    text: InstructionText,
)
    requires
        ctx.sound(),
        st.isa.has(text.opcode),
        st.isa.info(text.opcode).is_complete(),
        ctx.function.size() + text.results.len() < u32::MAX / 2,
    ensures
        st.place_instruction(ctx, ebb, text).0 is Ok <==> can_be_typed(
            ctx,
            st.isa.info(text.opcode),
            text,
        ) && are_new(ctx.map, text.results),
{
    let f = ctx.function;
    let info = st.isa.info(text.opcode);
    let checked = controlling_type(ctx, info, text.explicit, text.operands, st.loc);
    if checked is Ok {
        let ctrl = checked->Ok_0;
        let types = result_types(f, info, ctrl, text.operands);
        lemma_result_types(f, info, ctrl, text.operands);
        let t = choose|t: int| #[trigger]
            is_typing(info, ctrl, t) && are_result_types(
                f,
                info.typings@[t].results@,
                text.operands,
                types,
            );
        if text.explicit is None && info.use_typevar_operand {
            let src = text.operands.args[info.typevar_operand as int];
            assert(ctx.map.values.contains_key(src.0));
            assert(f.has(AnyEntity::Value(ctx.map.values[src.0])));
        }
        if text.results.len() == types.len() {
            assert(typed_by(ctx, info, text, ctrl, t, types));
            lemma_fresh_results(st, ctx, ebb, text, types);
        }
        if can_be_typed(ctx, info, text) {
            let (c2, t2, types2) = choose|ctrl: Type, t: int, types: Seq<Type>|
                typed_by(ctx, info, text, ctrl, t, types);
            assert(c2 == ctrl);
            lemma_one_typing(info, ctrl, t, t2);
            assert(types2 =~= types);
        }
    } else if can_be_typed(ctx, info, text) {
        let (c2, t2, types2) = choose|ctrl: Type, t: int, types: Seq<Type>|
            typed_by(ctx, info, text, ctrl, t, types);
        lemma_find_typing(info.typings@, c2, 0);
        assert(info.typings@[t2].ctrl == c2);
        assert(info.typing(c2) is Some);
        assert(false);
    }
}

/// There is one typing for a type.
proof fn lemma_one_typing(info: OpcodeInfo, ctrl: Type, s: int, t: int)
    requires
        is_typing(info, ctrl, s),
        is_typing(info, ctrl, t),
    ensures
        s == t,
{
    if s < t {
        assert(info.typings@[s].ctrl != ctrl);
    } else if t < s {
        assert(info.typings@[t].ctrl != ctrl);
    }
}

/// The results of an instruction of the right types can be defined if and only if they are new.
proof fn lemma_fresh_results<'a>(
    st: ParserState<'a>,
    ctx: ContextModel<'a>,
    ebb: Ebb,
    text: InstructionText,
    types: Seq<Type>,
)
    requires
        ctx.sound(),
        types.len() == text.results.len(),
        ctx.function.size() + text.results.len() < u32::MAX / 2,
    ensures
        ({
            let f = ctx.function;
            let inst = AnyEntity::Inst(Inst::of(f.insts.len() as u32));
            let vals = f.next_results(types.len());
            &&& ctx.map.def_entity(inst, text.location) is Ok
            &&& def_values(
                ctx.map.def_entity(inst, text.location)->Ok_0,
                text.results,
                vals,
                0,
                st.loc,
            ) is Ok <==> are_new(ctx.map, text.results)
        }),
{
    let f = ctx.function;
    let inst = AnyEntity::Inst(Inst::of(f.insts.len() as u32));
    let vals = f.next_results(types.len());
    let data = InstructionModel {
        opcode: text.opcode,
        ty: Type::void(),
        operands: text.operands,
    };
    assert(!f.has(inst));
    assert(ctx.map.location(inst) is None);
    let map = ctx.map.def_entity(inst, text.location)->Ok_0;
    law_result_types(f, ebb, data, types, Value::of(0));
    assert forall|i: int| 0 <= i < vals.len() implies map.location(
        AnyEntity::Value(#[trigger] vals[i]),
    ) is None by {
        assert(!f.has_value(vals[i]));
        assert(!f.has(AnyEntity::Value(vals[i])));
        assert(ctx.map.location(AnyEntity::Value(vals[i])) is None);
        if crate::sourcemap::entity_key(AnyEntity::Value(vals[i]))
            == crate::sourcemap::entity_key(inst) {
            crate::sourcemap::lemma_entity_key_injective(AnyEntity::Value(vals[i]), inst);
        }
    }
    lemma_def_values_ok(map, text.results, vals, 0, st.loc);
    assert(text.results.skip(0) =~= text.results);
}

} // verus!
