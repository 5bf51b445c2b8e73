//! Laws of the resolution of references: what each of them becomes.

use crate::context::ContextModel;
use crate::entities::{Ebb, Value};
use crate::function::{FunctionModel, InstEntryModel};
use crate::instructions::OperandsModel;
use crate::sourcemap::SourceMapModel;
use vstd::prelude::*;

verus! {

/// Are the values, position by position, what the source values stand for?
pub open(crate) spec fn stand_for_values(
    map: SourceMapModel,
    srcs: Seq<Value>,
    vals: Seq<Value>,
) -> bool {
    &&& vals.len() == srcs.len()
    &&& forall|k: int|
        #![trigger vals[k]]
        #![trigger srcs[k]]
        0 <= k < srcs.len() ==> map.values.contains_key(srcs[k].0) && map.values[srcs[k].0]
            == vals[k]
}

/// Do the operands differ from the source operands in that each reference is what its source
/// reference stands for, and in nothing else?
pub open(crate) spec fn operands_rewritten(
    map: SourceMapModel,
    src: OperandsModel,
    operands: OperandsModel,
) -> bool {
    &&& operands.format == src.format
    &&& operands.constant == src.constant
    &&& stand_for_values(map, src.args, operands.args)
    &&& stand_for_values(map, src.varargs, operands.varargs)
    &&& match src.destination {
        Some(ebb) => map.ebbs.contains_key(ebb.0) && operands.destination == Some(map.ebbs[ebb.0]),
        None => operands.destination is None,
    }
}

/// Does the instruction differ from the source instruction in its references alone, each of which is
/// what its source reference stands for?
pub open(crate) spec fn inst_rewritten(
    map: SourceMapModel,
    src: InstEntryModel,
    inst: InstEntryModel,
) -> bool {
    &&& inst.data.opcode == src.data.opcode
    &&& inst.data.ty == src.data.ty
    &&& inst.results == src.results
    &&& operands_rewritten(map, src.data.operands, inst.data.operands)
}

/// Is each entry of the jump table the block that its source number stands for? An entry without a
/// destination stays so.
pub open(crate) spec fn table_rewritten(
    map: SourceMapModel,
    src: Seq<Ebb>,
    table: Seq<Ebb>,
) -> bool {
    &&& table.len() == src.len()
    &&& forall|k: int|
        #![trigger table[k]]
        #![trigger src[k]]
        0 <= k < src.len() ==> if src[k] == Ebb::of(u32::MAX) {
            table[k] == src[k]
        } else {
            map.ebbs.contains_key(src[k].0) && map.ebbs[src[k].0] == table[k]
        }
}

/// Does the function differ from the source function in its references alone, each of which is what
/// its source reference stands for?
pub open(crate) spec fn function_rewritten(
    map: SourceMapModel,
    f: FunctionModel,
    g: FunctionModel,
) -> bool {
    &&& g.name == f.name
    &&& g.signature == f.signature
    &&& g.stack_slots == f.stack_slots
    &&& g.signatures == f.signatures
    &&& g.ext_funcs == f.ext_funcs
    &&& g.ebbs == f.ebbs
    &&& g.table_values == f.table_values
    &&& g.insts.len() == f.insts.len()
    &&& forall|i: int|
        #![trigger g.insts[i]]
        #![trigger f.insts[i]]
        0 <= i < f.insts.len() ==> inst_rewritten(map, f.insts[i], g.insts[i])
    &&& g.jump_tables.len() == f.jump_tables.len()
    &&& forall|t: int|
        #![trigger g.jump_tables[t]]
        #![trigger f.jump_tables[t]]
        0 <= t < f.jump_tables.len() ==> table_rewritten(map, f.jump_tables[t], g.jump_tables[t])
}

/// When the references of a function were resolved, the destination of each jump and branch is the
/// block that the source number of the destination stands for, each value operand is the value that
/// the source value at the same position stands for, and each jump table entry is the block that its
/// source number stands for. Nothing else has changed.
pub proof fn law_each_reference(ctx: ContextModel)
    ensures
        ctx.rewritten() matches Ok(g) ==> function_rewritten(ctx.map, ctx.function, g),
{
    if let Ok(g) = ctx.rewritten() {
        crate::function_laws::law_forward_references(ctx);
        let f = ctx.function;
        let map = ctx.map;
        assert forall|i: int| 0 <= i < f.insts.len() implies inst_rewritten(
            map,
            #[trigger] f.insts[i],
            g.insts[i],
        ) by {
            let src = f.insts[i].data.operands;
            assert(crate::function_laws::operands_defined(map, src));
            assert forall|k: int| 0 <= k < src.args.len() implies map.values.contains_key(
                (#[trigger] src.args[k]).0,
            ) by {
                assert(map.value(src.args[k]) is Some);
            }
            assert forall|k: int| 0 <= k < src.varargs.len() implies map.values.contains_key(
                (#[trigger] src.varargs[k]).0,
            ) by {
                assert(map.value(src.varargs[k]) is Some);
            }
        }
        assert forall|t: int| 0 <= t < f.jump_tables.len() implies table_rewritten(
            map,
            #[trigger] f.jump_tables[t],
            g.jump_tables[t],
        ) by {
            assert(crate::function_laws::table_defined(map, f.jump_tables[t]));
        }
    }
}

} // verus!
