//! Laws of functions, of the context in which a function is read, and of its references.

use crate::context::{
    declared, first_undefined, laid_out, mapped_entry, undefined_entry, undefined_in_insts,
    undefined_in_tables, undefined_operand, values_known, ContextModel,
};
use crate::entities::{
    AnyEntity, Ebb, ExpandedValue, FuncRef, Inst, JumpTable, SigRef, StackSlot, Value,
};
use crate::error::{Failure, Location};
use crate::function::{result_entries, ExtFuncData, FunctionModel, SignatureModel, StackSlotData};
use crate::instructions::{InstructionModel, OperandsModel};
use crate::sourcemap::SourceMapModel;
use crate::types::Type;
use vstd::prelude::*;

verus! {

/// Is every reference in the function to an entity of the function?
pub open(crate) spec fn resolved(f: FunctionModel) -> bool {
    &&& values_known(f)
    &&& forall|e: int, k: int|
        0 <= e < f.ebbs.len() && 0 <= k < f.ebbs[e].insts.len() ==> f.has(
            AnyEntity::Inst(#[trigger] f.ebbs[e].insts[k]),
        )
    &&& forall|i: int|
        0 <= i < f.insts.len() ==> operands_resolved(f, (#[trigger] f.insts[i]).data.operands)
    &&& forall|t: int, k: int|
        0 <= t < f.jump_tables.len() && 0 <= k < f.jump_tables[t].len() ==> (
        #[trigger] f.jump_tables[t][k]) == Ebb::of(u32::MAX) || f.has(
            AnyEntity::Ebb(f.jump_tables[t][k]),
        )
    &&& forall|i: int|
        0 <= i < f.ext_funcs.len() ==> f.has(
            AnyEntity::SigRef((#[trigger] f.ext_funcs[i]).signature),
        )
}

/// Is every reference among the operands to an entity of the function?
pub open(crate) spec fn operands_resolved(f: FunctionModel, operands: OperandsModel) -> bool {
    &&& declared(f, operands)
    &&& forall|k: int| 0 <= k < operands.args.len() ==> f.has_value(#[trigger] operands.args[k])
    &&& forall|k: int|
        0 <= k < operands.varargs.len() ==> f.has_value(#[trigger] operands.varargs[k])
    &&& operands.destination matches Some(ebb) ==> f.has(AnyEntity::Ebb(ebb))
}

/// Does every source reference among the operands have a definition, before or after it?
pub open(crate) spec fn operands_defined(map: SourceMapModel, operands: OperandsModel) -> bool {
    &&& forall|k: int|
        0 <= k < operands.args.len() ==> map.value(#[trigger] operands.args[k]) is Some
    &&& forall|k: int|
        0 <= k < operands.varargs.len() ==> map.value(#[trigger] operands.varargs[k]) is Some
    &&& operands.destination matches Some(ebb) ==> map.ebb(ebb) is Some
}

/// Does every entry of a jump table that has a destination have a definition?
pub open(crate) spec fn table_defined(map: SourceMapModel, table: Seq<Ebb>) -> bool {
    forall|k: int|
        0 <= k < table.len() ==> (#[trigger] table[k]) == Ebb::of(u32::MAX) || map.ebb(
            table[k],
        ) is Some
}

/// Does every source reference in the function have a definition, wherever it stands?
pub open(crate) spec fn all_defined(ctx: ContextModel) -> bool {
    &&& forall|i: int|
        0 <= i < ctx.function.insts.len() ==> operands_defined(
            ctx.map,
            (#[trigger] ctx.function.insts[i]).data.operands,
        )
    &&& forall|t: int|
        0 <= t < ctx.function.jump_tables.len() ==> table_defined(
            ctx.map,
            #[trigger] ctx.function.jump_tables[t],
        )
}

proof fn lemma_first_undefined(map: SourceMapModel, vals: Seq<Value>, from: int)
    requires
        0 <= from,
    ensures
        first_undefined(map, vals, from) is None <==> forall|k: int|
            from <= k < vals.len() ==> map.value(#[trigger] vals[k]) is Some,
    decreases vals.len() - from,
{
    if from < vals.len() {
        lemma_first_undefined(map, vals, from + 1);
        if map.value(vals[from]) is Some && first_undefined(map, vals, from + 1) is None {
            assert forall|k: int| from <= k < vals.len() implies map.value(
                #[trigger] vals[k],
            ) is Some by {}
        }
    }
}

proof fn lemma_undefined_operand(map: SourceMapModel, operands: OperandsModel)
    ensures
        undefined_operand(map, operands) is None <==> operands_defined(map, operands),
{
    lemma_first_undefined(map, operands.args, 0);
    lemma_first_undefined(map, operands.varargs, 0);
}

proof fn lemma_undefined_in_insts(ctx: ContextModel, from: int)
    requires
        0 <= from,
    ensures
        undefined_in_insts(ctx.map, ctx.function.insts, from) is None <==> forall|i: int|
            from <= i < ctx.function.insts.len() ==> operands_defined(
                ctx.map,
                (#[trigger] ctx.function.insts[i]).data.operands,
            ),
    decreases ctx.function.insts.len() - from,
{
    let insts = ctx.function.insts;
    if from < insts.len() {
        lemma_undefined_operand(ctx.map, insts[from].data.operands);
        lemma_undefined_in_insts(ctx, from + 1);
        if operands_defined(ctx.map, insts[from].data.operands) && undefined_in_insts(
            ctx.map,
            insts,
            from + 1,
        ) is None {
            assert forall|i: int| from <= i < insts.len() implies operands_defined(
                ctx.map,
                (#[trigger] insts[i]).data.operands,
            ) by {}
        }
    }
}

proof fn lemma_undefined_entry(map: SourceMapModel, table: Seq<Ebb>, from: int)
    requires
        0 <= from,
    ensures
        undefined_entry(map, table, from) is None <==> forall|k: int|
            from <= k < table.len() ==> (#[trigger] table[k]) == Ebb::of(u32::MAX) || map.ebb(
                table[k],
            ) is Some,
    decreases table.len() - from,
{
    if from < table.len() {
        lemma_undefined_entry(map, table, from + 1);
        if mapped_entry(map, table[from]) is Some && undefined_entry(map, table, from + 1) is None {
            assert forall|k: int| from <= k < table.len() implies (#[trigger] table[k]) == Ebb::of(
                u32::MAX,
            ) || map.ebb(table[k]) is Some by {}
        }
    }
}

proof fn lemma_undefined_in_tables(ctx: ContextModel, from: int)
    requires
        0 <= from,
    ensures
        undefined_in_tables(ctx.map, ctx.function.jump_tables, from) is None <==> forall|t: int|
            from <= t < ctx.function.jump_tables.len() ==> table_defined(
                ctx.map,
                #[trigger] ctx.function.jump_tables[t],
            ),
    decreases ctx.function.jump_tables.len() - from,
{
    let tables = ctx.function.jump_tables;
    if from < tables.len() {
        lemma_undefined_entry(ctx.map, tables[from], 0);
        lemma_undefined_in_tables(ctx, from + 1);
        if table_defined(ctx.map, tables[from]) && undefined_in_tables(
            ctx.map,
            tables,
            from + 1,
        ) is None {
            assert forall|t: int| from <= t < tables.len() implies table_defined(
                ctx.map,
                #[trigger] tables[t],
            ) by {}
        }
    }
}

/// The references of a function can be resolved if and only if each of them has a definition
/// somewhere in the function. It does not matter whether the definition stands before or after the
/// reference.
pub proof fn law_forward_references(ctx: ContextModel)
    ensures
        ctx.rewritten() is Ok <==> all_defined(ctx),
{
    lemma_undefined_in_insts(ctx, 0);
    lemma_undefined_in_tables(ctx, 0);
}

/// When the references of a function were resolved, each of them is to an entity of the function.
/// The instructions are numbered in layout order.
pub proof fn law_references_resolved(ctx: ContextModel)
    requires
        ctx.sound(),
        ctx.rewritten() is Ok,
    ensures
        resolved(ctx.rewritten()->Ok_0),
        laid_out(ctx.rewritten()->Ok_0),
{
    law_forward_references(ctx);
    let f = ctx.function;
    let g = ctx.rewritten()->Ok_0;
    let map = ctx.map;
    assert forall|e: AnyEntity| f.has(e) implies #[trigger] g.has(e) by {}
    assert forall|v: Value| f.has_value(v) implies #[trigger] g.has_value(v) by {}
    assert forall|e: int, k: int|
        0 <= e < g.ebbs.len() && 0 <= k < g.ebbs[e].args.len() implies g.has_value(
        #[trigger] g.ebbs[e].args[k],
    ) by {
        assert(f.has_value(f.ebbs[e].args[k]));
    }
    assert forall|i: int, k: int|
        0 <= i < g.insts.len() && 0 <= k < g.insts[i].results.len() implies g.has_value(
        #[trigger] g.insts[i].results[k],
    ) by {
        assert(f.has_value(f.insts[i].results[k]));
    }
    assert forall|e: int, k: int|
        0 <= e < g.ebbs.len() && 0 <= k < g.ebbs[e].insts.len() implies g.has(
        AnyEntity::Inst(#[trigger] g.ebbs[e].insts[k]),
    ) by {
        crate::context::lemma_inst_base_grows(f.ebbs, e + 1, f.ebbs.len() as int);
        assert(f.ebbs[e].insts[k] == Inst::of(
            (crate::context::inst_base(f.ebbs, e) + k) as u32,
        ));
    }
    assert forall|i: int| 0 <= i < g.insts.len() implies operands_resolved(
        g,
        (#[trigger] g.insts[i]).data.operands,
    ) by {
        let before = f.insts[i].data.operands;
        let after = g.insts[i].data.operands;
        assert(operands_defined(map, before));
        assert(declared(f, before));
        assert forall|k: int| 0 <= k < after.args.len() implies g.has_value(
            #[trigger] after.args[k],
        ) by {
            assert(map.value(before.args[k]) is Some);
            assert(f.has(AnyEntity::Value(map.values[before.args[k].0])));
        }
        assert forall|k: int| 0 <= k < after.varargs.len() implies g.has_value(
            #[trigger] after.varargs[k],
        ) by {
            assert(map.value(before.varargs[k]) is Some);
            assert(f.has(AnyEntity::Value(map.values[before.varargs[k].0])));
        }
    }
    assert forall|t: int, k: int|
        0 <= t < g.jump_tables.len() && 0 <= k < g.jump_tables[t].len() implies (
    #[trigger] g.jump_tables[t][k]) == Ebb::of(u32::MAX) || g.has(
        AnyEntity::Ebb(g.jump_tables[t][k]),
    ) by {
        assert(table_defined(map, f.jump_tables[t]));
        let src = f.jump_tables[t][k];
        if src != Ebb::of(u32::MAX) {
            assert(map.ebb(src) is Some);
            assert(f.has(AnyEntity::Ebb(map.ebbs[src.0])));
        }
    }
}

/// Does the error say that an instruction holds a reference without a definition?
pub open(crate) spec fn blames_inst(ctx: ContextModel, e: Failure, i: int) -> bool {
    &&& 0 <= i < ctx.function.insts.len()
    &&& undefined_operand(ctx.map, ctx.function.insts[i].data.operands) is Some
    &&& ctx.map.location(AnyEntity::Inst(Inst::of(i as u32))) == Some(e.location)
    &&& e.message == "undefined reference: "@ + undefined_operand(
        ctx.map,
        ctx.function.insts[i].data.operands,
    )->0
}

/// Does the error say that a jump table holds a reference without a definition?
pub open(crate) spec fn blames_table(ctx: ContextModel, e: Failure, t: int) -> bool {
    &&& 0 <= t < ctx.function.jump_tables.len()
    &&& undefined_entry(ctx.map, ctx.function.jump_tables[t], 0) is Some
    &&& ctx.map.location(AnyEntity::JumpTable(JumpTable::of(t as u32))) == Some(e.location)
    &&& e.message == "undefined reference: "@ + undefined_entry(
        ctx.map,
        ctx.function.jump_tables[t],
        0,
    )->0.text()
}

/// The instruction that the error for the instructions from `from` on is about.
proof fn lemma_blamed_inst(ctx: ContextModel, from: int) -> (i: int)
    requires
        ctx.located(),
        0 <= from,
        undefined_in_insts(ctx.map, ctx.function.insts, from) is Some,
    ensures
        blames_inst(ctx, undefined_in_insts(ctx.map, ctx.function.insts, from)->0, i),
        from <= i,
        forall|j: int|
            from <= j < i ==> operands_defined(
                ctx.map,
                (#[trigger] ctx.function.insts[j]).data.operands,
            ),
    decreases ctx.function.insts.len() - from,
{
    lemma_undefined_operand(ctx.map, ctx.function.insts[from].data.operands);
    if undefined_operand(ctx.map, ctx.function.insts[from].data.operands) is Some {
        assert(ctx.map.location(AnyEntity::Inst(Inst::of(from as u32))) is Some);
        from
    } else {
        let i = lemma_blamed_inst(ctx, from + 1);
        assert forall|j: int| from <= j < i implies operands_defined(
            ctx.map,
            (#[trigger] ctx.function.insts[j]).data.operands,
        ) by {}
        i
    }
}

/// The jump table that the error for the jump tables from `from` on is about.
proof fn lemma_blamed_table(ctx: ContextModel, from: int) -> (t: int)
    requires
        ctx.located(),
        0 <= from,
        undefined_in_tables(ctx.map, ctx.function.jump_tables, from) is Some,
    ensures
        blames_table(ctx, undefined_in_tables(ctx.map, ctx.function.jump_tables, from)->0, t),
        from <= t,
        forall|u: int|
            from <= u < t ==> table_defined(ctx.map, #[trigger] ctx.function.jump_tables[u]),
    decreases ctx.function.jump_tables.len() - from,
{
    lemma_undefined_entry(ctx.map, ctx.function.jump_tables[from], 0);
    if undefined_entry(ctx.map, ctx.function.jump_tables[from], 0) is Some {
        assert(ctx.map.location(AnyEntity::JumpTable(JumpTable::of(from as u32))) is Some);
        from
    } else {
        let t = lemma_blamed_table(ctx, from + 1);
        assert forall|u: int| from <= u < t implies table_defined(
            ctx.map,
            #[trigger] ctx.function.jump_tables[u],
        ) by {}
        t
    }
}

/// Is this the first instruction with a reference that has no definition?
pub open(crate) spec fn is_first_inst(ctx: ContextModel, i: int) -> bool {
    &&& 0 <= i < ctx.function.insts.len()
    &&& !operands_defined(ctx.map, ctx.function.insts[i].data.operands)
    &&& forall|j: int|
        0 <= j < i ==> operands_defined(
            ctx.map,
            (#[trigger] ctx.function.insts[j]).data.operands,
        )
}

/// Is this the first jump table with a reference that has no definition?
pub open(crate) spec fn is_first_table(ctx: ContextModel, t: int) -> bool {
    &&& 0 <= t < ctx.function.jump_tables.len()
    &&& !table_defined(ctx.map, ctx.function.jump_tables[t])
    &&& forall|u: int|
        0 <= u < t ==> table_defined(ctx.map, #[trigger] ctx.function.jump_tables[u])
}

/// The error for a reference without a definition stands where the instruction or the jump table
/// that holds the reference was defined, and names the reference. It is about the first instruction
/// that holds one, or, if no instruction does, about the first jump table.
pub proof fn law_undefined_reference(ctx: ContextModel)
    requires
        ctx.sound(),
        ctx.rewritten() is Err,
    ensures
        (exists|i: int| #[trigger]
            blames_inst(ctx, ctx.rewritten()->Err_0, i) && is_first_inst(ctx, i)) || ((forall|
            i: int,
        |
            0 <= i < ctx.function.insts.len() ==> operands_defined(
                ctx.map,
                (#[trigger] ctx.function.insts[i]).data.operands,
            )) && exists|t: int| #[trigger]
            blames_table(ctx, ctx.rewritten()->Err_0, t) && is_first_table(ctx, t)),
{
    lemma_undefined_in_insts(ctx, 0);
    if undefined_in_insts(ctx.map, ctx.function.insts, 0) is Some {
        let i = lemma_blamed_inst(ctx, 0);
        lemma_undefined_operand(ctx.map, ctx.function.insts[i].data.operands);
        assert(blames_inst(ctx, ctx.rewritten()->Err_0, i));
    } else {
        let t = lemma_blamed_table(ctx, 0);
        lemma_undefined_entry(ctx.map, ctx.function.jump_tables[t], 0);
        assert(blames_table(ctx, ctx.rewritten()->Err_0, t));
    }
}

/// Is this the first source value of a list that has no definition?
pub open(crate) spec fn is_first_undefined(map: SourceMapModel, vals: Seq<Value>, k: int) -> bool {
    &&& 0 <= k < vals.len()
    &&& !map.values.contains_key(vals[k].0)
    &&& forall|j: int| 0 <= j < k ==> map.values.contains_key((#[trigger] vals[j]).0)
}

proof fn lemma_is_first_undefined(map: SourceMapModel, vals: Seq<Value>, from: int) -> (k: int)
    requires
        0 <= from,
        first_undefined(map, vals, from) is Some,
        forall|j: int| 0 <= j < from && j < vals.len() ==> map.values.contains_key(
            (#[trigger] vals[j]).0,
        ),
    ensures
        is_first_undefined(map, vals, k),
        first_undefined(map, vals, from) == Some(vals[k]),
    decreases vals.len() - from,
{
    if map.value(vals[from]) is None {
        from
    } else {
        lemma_is_first_undefined(map, vals, from + 1)
    }
}

/// Is this the notation of the first reference of the operands that has no definition? The value
/// operands come first, then the destination, then the arguments.
pub open(crate) spec fn names_first(map: SourceMapModel, o: OperandsModel, text: Seq<char>) -> bool {
    let args_defined = forall|k: int|
        0 <= k < o.args.len() ==> map.values.contains_key((#[trigger] o.args[k]).0);
    ||| exists|k: int| #[trigger] is_first_undefined(map, o.args, k) && text == o.args[k].text()
    ||| {
        &&& args_defined
        &&& o.destination matches Some(ebb) && !map.ebbs.contains_key(ebb.0) && text == ebb.text()
    }
    ||| {
        &&& args_defined
        &&& o.destination matches Some(ebb) ==> map.ebbs.contains_key(ebb.0)
        &&& exists|k: int| #[trigger]
            is_first_undefined(map, o.varargs, k) && text == o.varargs[k].text()
    }
}

/// The reference that an error names is the first of the instruction that has no definition.
pub proof fn law_undefined_operand(map: SourceMapModel, o: OperandsModel)
    ensures
        undefined_operand(map, o) matches Some(text) ==> names_first(map, o, text),
{
    lemma_first_undefined(map, o.args, 0);
    if first_undefined(map, o.args, 0) is Some {
        let k = lemma_is_first_undefined(map, o.args, 0);
        assert(is_first_undefined(map, o.args, k));
    } else {
        assert forall|k: int| 0 <= k < o.args.len() implies map.values.contains_key(
            (#[trigger] o.args[k]).0,
        ) by {
            assert(map.value(o.args[k]) is Some);
        }
        if first_undefined(map, o.varargs, 0) is Some {
            let k = lemma_is_first_undefined(map, o.varargs, 0);
            assert(is_first_undefined(map, o.varargs, k));
        }
    }
}

/// The first result of a new instruction is its direct value. The others are the next entries of the
/// extended value table; the last result has the first of them.
pub proof fn law_result_numbers(
    f: FunctionModel,
    ebb: Ebb,
    data: InstructionModel,
    types: Seq<Type>,
)
    requires
        f.size() + types.len() < u32::MAX / 2,
    ensures
        ({
            let g = f.with_inst(ebb, data, types);
            let results = g.insts.last().results;
            let n = types.len() as int;
            &&& results.len() == n
            &&& n > 0 ==> results[0].expanded() == ExpandedValue::Direct(
                Inst::of(f.insts.len() as u32),
            )
            &&& n > 1 ==> g.table_values.len() == f.table_values.len() + n - 1
                && results[n - 1].expanded() == ExpandedValue::Table(
                f.table_values.len() as usize,
            )
            &&& forall|k: int|
                0 < k < n - 1 ==> ((#[trigger] results[k]).expanded() matches ExpandedValue::Table(
                    i,
                ) && results[k + 1].expanded() == ExpandedValue::Table((i - 1) as usize))
        }),
{
    let g = f.with_inst(ebb, data, types);
    let results = g.insts.last().results;
    let n = types.len() as int;
    assert forall|k: int| 0 < k < n - 1 implies ((#[trigger] results[k]).expanded() matches
    ExpandedValue::Table(i) && results[k + 1].expanded() == ExpandedValue::Table(
        (i - 1) as usize,
    )) by {
        assert(results[k] == Value::table((f.table_values.len() + n - 1 - k) as nat));
        assert(results[k + 1] == Value::table((f.table_values.len() + n - 1 - (k + 1)) as nat));
    }
}

/// A new argument of a block has the type that it was given, and the types of all other values stay
/// what they were.
pub proof fn law_ebb_arg_type(f: FunctionModel, ebb: Ebb, ty: Type, v: Value)
    requires
        f.size() < u32::MAX / 2,
    ensures
        ({
            let g = f.with_ebb_arg(ebb, ty);
            let arg = Value::table(f.table_values.len());
            &&& g.has_value(arg)
            &&& !f.has_value(arg)
            &&& g.type_of(arg) == ty
            &&& f.has_value(v) ==> g.has_value(v) && g.type_of(v) == f.type_of(v)
        }),
{
}

/// The results of a new instruction are new values, no two of them are the same, each has the type
/// that it was given, and the types of all other values stay what they were.
pub proof fn law_result_types(
    f: FunctionModel,
    ebb: Ebb,
    data: InstructionModel,
    types: Seq<Type>,
    v: Value,
)
    requires
        f.size() + types.len() < u32::MAX / 2,
    ensures
        ({
            let g = f.with_inst(ebb, data, types);
            let results = f.next_results(types.len());
            &&& g.insts.last().results == results
            &&& results.len() == types.len()
            &&& forall|k: int|
                0 <= k < results.len() ==> {
                    &&& g.has_value(#[trigger] results[k])
                    &&& !f.has_value(results[k])
                    &&& g.type_of(results[k]) == types[k]
                }
            &&& forall|j: int, k: int|
                0 <= j < k < results.len() ==> #[trigger] results[j] != #[trigger] results[k]
            &&& f.has_value(v) ==> g.has_value(v) && g.type_of(v) == f.type_of(v)
        }),
{
    let g = f.with_inst(ebb, data, types);
    let results = f.next_results(types.len());
    let base = f.table_values.len();
    assert forall|k: int| 0 <= k < results.len() implies {
        &&& g.has_value(#[trigger] results[k])
        &&& !f.has_value(results[k])
        &&& g.type_of(results[k]) == types[k]
    } by {
        if k > 0 {
            let j = types.len() - 1 - k;
            assert(results[k] == Value::table((base + j) as nat));
            assert(g.table_values[base + j] == result_entries(types)[j]);
        }
    }
    assert forall|j: int, k: int| 0 <= j < k < results.len() implies #[trigger] results[j]
        != #[trigger] results[k] by {
        if j == 0 {
            assert(results[j].expanded() is Direct);
        }
    }
}

/// No entity is defined twice: what is added next has no location yet.
proof fn lemma_fresh(ctx: ContextModel, e: AnyEntity)
    requires
        ctx.sound(),
        !ctx.function.has(e),
    ensures
        ctx.map.location(e) is None,
{
}

/// A stack slot number can be defined if and only if it has no definition yet. It then stands for
/// the next stack slot, and all other numbers stand for what they stood for.
pub proof fn law_stack_slot_numbers(
    ctx: ContextModel,
    number: u32,
    data: StackSlotData,
    loc: Location,
)
    requires
        ctx.sound(),
        ctx.function.size() < u32::MAX,
    ensures
        ctx.add_ss(number, data, loc) is Ok <==> !ctx.map.stack_slots.contains_key(number),
        ctx.add_ss(number, data, loc) matches Ok(after) ==> {
            &&& after.map.stack_slots == ctx.map.stack_slots.insert(
                number,
                StackSlot::of(ctx.function.stack_slots.len() as u32),
            )
            &&& after.map.location(
                AnyEntity::StackSlot(StackSlot::of(ctx.function.stack_slots.len() as u32)),
            ) == Some(loc)
            &&& after.function == ctx.function.with_stack_slot(data)
        },
{
    lemma_fresh(ctx, AnyEntity::StackSlot(StackSlot::of(ctx.function.stack_slots.len() as u32)));
}

/// A signature number can be defined if and only if it has no definition yet. It then stands for
/// the next signature, and all other numbers stand for what they stood for.
pub proof fn law_signature_numbers(
    ctx: ContextModel,
    number: u32,
    data: SignatureModel,
    loc: Location,
)
    requires
        ctx.sound(),
        ctx.function.size() < u32::MAX,
    ensures
        ctx.add_sig(number, data, loc) is Ok <==> !ctx.map.signatures.contains_key(number),
        ctx.add_sig(number, data, loc) matches Ok(after) ==> {
            &&& after.map.signatures == ctx.map.signatures.insert(
                number,
                SigRef::of(ctx.function.signatures.len() as u32),
            )
            &&& after.map.location(
                AnyEntity::SigRef(SigRef::of(ctx.function.signatures.len() as u32)),
            ) == Some(loc)
            &&& after.function == ctx.function.with_signature(data)
        },
{
    lemma_fresh(ctx, AnyEntity::SigRef(SigRef::of(ctx.function.signatures.len() as u32)));
}

/// A function number can be defined if and only if it has no definition yet. It then stands for the
/// next external function, and all other numbers stand for what they stood for.
pub proof fn law_function_numbers<'a>(
    ctx: ContextModel<'a>,
    number: u32,
    data: ExtFuncData<'a>,
    loc: Location,
)
    requires
        ctx.sound(),
        ctx.function.size() < u32::MAX,
    ensures
        ctx.add_fn(number, data, loc) is Ok <==> !ctx.map.functions.contains_key(number),
        ctx.add_fn(number, data, loc) matches Ok(after) ==> {
            &&& after.map.functions == ctx.map.functions.insert(
                number,
                FuncRef::of(ctx.function.ext_funcs.len() as u32),
            )
            &&& after.map.location(
                AnyEntity::FuncRef(FuncRef::of(ctx.function.ext_funcs.len() as u32)),
            ) == Some(loc)
            &&& after.function == ctx.function.with_ext_func(data)
        },
{
    lemma_fresh(ctx, AnyEntity::FuncRef(FuncRef::of(ctx.function.ext_funcs.len() as u32)));
}

/// A jump table number can be defined if and only if it has no definition yet. It then stands for
/// the next jump table, and all other numbers stand for what they stood for.
pub proof fn law_jump_table_numbers(
    ctx: ContextModel,
    number: u32,
    data: Seq<Ebb>,
    loc: Location,
)
    requires
        ctx.sound(),
        ctx.function.size() < u32::MAX,
    ensures
        ctx.add_jt(number, data, loc) is Ok <==> !ctx.map.jump_tables.contains_key(number),
        ctx.add_jt(number, data, loc) matches Ok(after) ==> {
            &&& after.map.jump_tables == ctx.map.jump_tables.insert(
                number,
                JumpTable::of(ctx.function.jump_tables.len() as u32),
            )
            &&& after.map.location(
                AnyEntity::JumpTable(JumpTable::of(ctx.function.jump_tables.len() as u32)),
            ) == Some(loc)
            &&& after.function == ctx.function.with_jump_table(data)
        },
{
    lemma_fresh(ctx, AnyEntity::JumpTable(JumpTable::of(ctx.function.jump_tables.len() as u32)));
}

/// A block number can be defined if and only if it has no definition yet. It then stands for the
/// next block, and all other numbers stand for what they stood for.
pub proof fn law_ebb_numbers(ctx: ContextModel, src: Ebb, loc: Location)
    requires
        ctx.sound(),
        ctx.function.size() < u32::MAX,
    ensures
        ctx.add_ebb(src, loc) is Ok <==> ctx.map.ebb(src) is None,
        ctx.add_ebb(src, loc) matches Ok(after) ==> {
            &&& after.map.ebb(src) == Some(Ebb::of(ctx.function.ebbs.len() as u32))
            &&& forall|other: Ebb| other != src ==> #[trigger] after.map.ebb(other) == ctx.map.ebb(
                other,
            )
            &&& after.map.location(AnyEntity::Ebb(Ebb::of(ctx.function.ebbs.len() as u32)))
                == Some(loc)
            &&& after.function == ctx.function.with_ebb()
        },
{
    lemma_fresh(ctx, AnyEntity::Ebb(Ebb::of(ctx.function.ebbs.len() as u32)));
}

/// A value number can be defined, as a value that has no location yet, if and only if it has no
/// definition yet. All other numbers stand for what they stood for.
pub proof fn law_value_definitions(map: SourceMapModel, src: Value, v: Value, loc: Location)
    requires
        map.location(AnyEntity::Value(v)) is None,
    ensures
        map.def_value(src, v, loc) is Ok <==> map.value(src) is None,
        map.def_value(src, v, loc) matches Ok(after) ==> {
            &&& after.value(src) == Some(v)
            &&& forall|other: Value| other != src ==> #[trigger] after.value(other) == map.value(
                other,
            )
            &&& after.location(AnyEntity::Value(v)) == Some(loc)
        },
{
}

/// The invalid references are to no entity of any function that can be built.
pub proof fn law_invalid_references(f: FunctionModel)
    requires
        f.size() < u32::MAX,
    ensures
        !f.has(AnyEntity::Ebb(Ebb::of(u32::MAX))),
        !f.has(AnyEntity::Inst(Inst::of(u32::MAX))),
        !f.has(AnyEntity::Value(Value::of(u32::MAX))),
        !f.has(AnyEntity::StackSlot(StackSlot::of(u32::MAX))),
        !f.has(AnyEntity::JumpTable(JumpTable::of(u32::MAX))),
        !f.has(AnyEntity::FuncRef(FuncRef::of(u32::MAX))),
        !f.has(AnyEntity::SigRef(SigRef::of(u32::MAX))),
{
}

} // verus!
