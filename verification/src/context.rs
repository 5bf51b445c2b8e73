//! The context of reading one function: what was read so far, and what the source numbers mean.

use crate::entities::{
    no_ebb, AnyEntity, Ebb, EntityRef, FuncRef, Inst, JumpTable, SigRef, StackSlot, Value,
};
use crate::error::{plain, Error, Failure, Location};
use crate::function::{
    EbbModel, ExtFuncData, Function, FunctionModel, InstEntryModel, JumpTableData, Signature,
    SignatureModel, StackSlotData,
};
use crate::instructions::{Constant, InstructionModel, Operands, OperandsModel};
use crate::sourcemap::{
    entity_key, lemma_entity_key_injective, lemma_faithful_ebb, lemma_faithful_fn,
    lemma_faithful_jt, lemma_faithful_sig, lemma_faithful_ss, lookup, updated, SourceMap,
    SourceMapModel,
};
use crate::text::{decimal, numbered};
use crate::types::Type;
use vstd::prelude::*;

verus! {

/// The first value in `vals`, from `from` on, that has no definition.
pub open(crate) spec fn first_undefined(
    map: SourceMapModel,
    vals: Seq<Value>,
    from: int,
) -> Option<Value>
    decreases vals.len() - from,
{
    if from < 0 || from >= vals.len() {
        None
    } else if map.value(vals[from]) is None {
        Some(vals[from])
    } else {
        first_undefined(map, vals, from + 1)
    }
}

/// The values that source values stand for.
pub open(crate) spec fn mapped_values(map: SourceMapModel, vals: Seq<Value>) -> Seq<Value> {
    Seq::new(vals.len(), |i: int| map.value(vals[i])->0)
}

/// The notation of the first reference among the operands that has no definition.
pub open(crate) spec fn undefined_operand(
    map: SourceMapModel,
    operands: OperandsModel,
) -> Option<Seq<char>> {
    if first_undefined(map, operands.args, 0) is Some {
        Some(first_undefined(map, operands.args, 0)->0.text())
    } else if operands.destination is Some && map.ebb(operands.destination->0) is None {
        Some(operands.destination->0.text())
    } else if first_undefined(map, operands.varargs, 0) is Some {
        Some(first_undefined(map, operands.varargs, 0)->0.text())
    } else {
        None
    }
}

/// The operands, with every source reference replaced by what it stands for.
pub open(crate) spec fn mapped_operands(
    map: SourceMapModel,
    operands: OperandsModel,
) -> OperandsModel {
    OperandsModel {
        args: mapped_values(map, operands.args),
        destination: match operands.destination {
            Some(ebb) => map.ebb(ebb),
            None => None,
        },
        varargs: mapped_values(map, operands.varargs),
        ..operands
    }
}

/// The instruction, with every source reference replaced by what it stands for.
pub open(crate) spec fn mapped_inst(map: SourceMapModel, inst: InstEntryModel) -> InstEntryModel {
    InstEntryModel {
        data: InstructionModel {
            operands: mapped_operands(map, inst.data.operands),
            ..inst.data
        },
        ..inst
    }
}

/// The error for the first instruction, from `from` on, that has a reference without a
/// definition.
pub open(crate) spec fn undefined_in_insts(
    map: SourceMapModel,
    insts: Seq<InstEntryModel>,
    from: int,
) -> Option<Failure>
    decreases insts.len() - from,
{
    if from < 0 || from >= insts.len() {
        None
    } else {
        match undefined_operand(map, insts[from].data.operands) {
            Some(text) => Some(map.undefined(AnyEntity::Inst(Inst::of(from as u32)), text)),
            None => undefined_in_insts(map, insts, from + 1),
        }
    }
}

/// The block that an entry of a jump table stands for. An entry without a destination stays so.
pub open(crate) spec fn mapped_entry(map: SourceMapModel, entry: Ebb) -> Option<Ebb> {
    if entry == Ebb::of(u32::MAX) {
        Some(entry)
    } else {
        map.ebb(entry)
    }
}

/// The first entry of a jump table, from `from` on, that has no definition.
pub open(crate) spec fn undefined_entry(
    map: SourceMapModel,
    table: Seq<Ebb>,
    from: int,
) -> Option<Ebb>
    decreases table.len() - from,
{
    if from < 0 || from >= table.len() {
        None
    } else if mapped_entry(map, table[from]) is None {
        Some(table[from])
    } else {
        undefined_entry(map, table, from + 1)
    }
}

/// The jump table, with every source reference replaced by what it stands for.
pub open(crate) spec fn mapped_table(map: SourceMapModel, table: Seq<Ebb>) -> Seq<Ebb> {
    Seq::new(table.len(), |i: int| mapped_entry(map, table[i])->0)
}

/// The error for the first jump table, from `from` on, that has a reference without a definition.
pub open(crate) spec fn undefined_in_tables(
    map: SourceMapModel,
    tables: Seq<Seq<Ebb>>,
    from: int,
) -> Option<Failure>
    decreases tables.len() - from,
{
    if from < 0 || from >= tables.len() {
        None
    } else {
        match undefined_entry(map, tables[from], 0) {
            Some(ebb) => Some(
                map.undefined(AnyEntity::JumpTable(JumpTable::of(from as u32)), ebb.text()),
            ),
            None => undefined_in_tables(map, tables, from + 1),
        }
    }
}

/// Do two lists of operands differ in their values and EBBs alone? They are as many.
pub open spec fn same_operands(a: OperandsModel, b: OperandsModel) -> bool {
    &&& a.format == b.format
    &&& a.args.len() == b.args.len()
    &&& a.destination is Some <==> b.destination is Some
    &&& a.varargs.len() == b.varargs.len()
    &&& a.constant == b.constant
}

/// Do two instructions differ in their value and EBB operands alone?
pub open spec fn same_inst(a: InstEntryModel, b: InstEntryModel) -> bool {
    &&& a.results == b.results
    &&& a.data.opcode == b.data.opcode
    &&& a.data.ty == b.data.ty
    &&& same_operands(a.data.operands, b.data.operands)
}

/// Do two functions differ in their references to values and EBBs alone?
pub open spec fn same_but_references(f: FunctionModel, g: FunctionModel) -> bool {
    &&& g == (FunctionModel { insts: g.insts, jump_tables: g.jump_tables, ..f })
    &&& f.insts.len() == g.insts.len()
    &&& forall|i: int| 0 <= i < f.insts.len() ==> same_inst(f.insts[i], #[trigger] g.insts[i])
    &&& f.jump_tables.len() == g.jump_tables.len()
    &&& forall|t: int|
        0 <= t < f.jump_tables.len() ==> f.jump_tables[t].len() == (
        #[trigger] g.jump_tables[t]).len()
}

impl SourceMap {
    /// Replace source values, in the entity `at`, by the values that they stand for.
    pub(crate) fn rewrite_values(
        &self,
        vals: &mut Vec<Value>,
        at: AnyEntity,
    ) -> (r: Result<(), Error>)
        ensures
            match first_undefined(self@, old(vals)@, 0) {
                Some(v) => r is Err && r->Err_0@ == self@.undefined(at, v.text()),
                None => r is Ok && final(vals)@ == mapped_values(self@, old(vals)@),
            },
            final(vals)@.len() == old(vals)@.len(),
    {
        let ghost before = vals@;
        let mut i: usize = 0;
        while i < vals.len()
            invariant
                before == old(vals)@,
                i <= vals@.len() == before.len(),
                first_undefined(self@, before, 0) == first_undefined(self@, before, i as int),
                forall|k: int| 0 <= k < i ==> vals@[k] == mapped_values(self@, before)[k],
                forall|k: int| i <= k < before.len() ==> vals@[k] == before[k],
            decreases vals@.len() - i,
        {
            assert(vals@[i as int] == before[i as int]);
            self.rewrite_value(&mut vals[i], at)?;
            i += 1;
        }
        assert(vals@ =~= mapped_values(self@, before));
        Ok(())
    }

    fn rewrite_pair(&self, args: &mut [Value; 2], at: AnyEntity) -> (r: Result<(), Error>)
        ensures
            match first_undefined(self@, old(args)@, 0) {
                Some(v) => r is Err && r->Err_0@ == self@.undefined(at, v.text()),
                None => r is Ok && final(args)@ == mapped_values(self@, old(args)@),
            },
    {
        proof {
            reveal_with_fuel(first_undefined, 3);
        }
        let mut first = args[0];
        let mut second = args[1];
        self.rewrite_value(&mut first, at)?;
        self.rewrite_value(&mut second, at)?;
        *args = [first, second];
        assert(args@ =~= mapped_values(self@, old(args)@));
        Ok(())
    }

    fn rewrite_triple(&self, args: &mut [Value; 3], at: AnyEntity) -> (r: Result<(), Error>)
        ensures
            match first_undefined(self@, old(args)@, 0) {
                Some(v) => r is Err && r->Err_0@ == self@.undefined(at, v.text()),
                None => r is Ok && final(args)@ == mapped_values(self@, old(args)@),
            },
    {
        proof {
            reveal_with_fuel(first_undefined, 4);
        }
        let mut first = args[0];
        let mut second = args[1];
        let mut third = args[2];
        self.rewrite_value(&mut first, at)?;
        self.rewrite_value(&mut second, at)?;
        self.rewrite_value(&mut third, at)?;
        *args = [first, second, third];
        assert(args@ =~= mapped_values(self@, old(args)@));
        Ok(())
    }
}

impl Operands {
    /// Replace every source reference among the operands by what it stands for.
    pub(crate) fn rewrite(&mut self, map: &SourceMap, at: AnyEntity) -> (r: Result<(), Error>)
        ensures
            match undefined_operand(map@, old(self)@) {
                Some(text) => r is Err && r->Err_0@ == map@.undefined(at, text),
                None => r is Ok && final(self)@ == mapped_operands(map@, old(self)@),
            },
            same_operands(old(self)@, final(self)@),
    {
        proof {
            reveal_with_fuel(first_undefined, 2);
        }
        let ghost goal = mapped_operands(map@, self@);
        match self {
            Operands::Nullary
            | Operands::UnaryImm { .. }
            | Operands::UnaryIeee32 { .. }
            | Operands::UnaryIeee64 { .. }
            | Operands::UnaryImmVector => {},
            Operands::Unary { arg } => {
                map.rewrite_value(arg, at)?;
            },
            Operands::UnarySplit { arg } => {
                map.rewrite_value(arg, at)?;
            },
            Operands::BinaryImm { arg, .. } => {
                map.rewrite_value(arg, at)?;
            },
            Operands::BinaryImmRev { arg, .. } => {
                map.rewrite_value(arg, at)?;
            },
            Operands::ExtractLane { arg, .. } => {
                map.rewrite_value(arg, at)?;
            },
            Operands::BranchTable { arg, .. } => {
                map.rewrite_value(arg, at)?;
            },
            Operands::Binary { args } => {
                map.rewrite_pair(args, at)?;
            },
            Operands::BinaryOverflow { args } => {
                map.rewrite_pair(args, at)?;
            },
            Operands::InsertLane { args, .. } => {
                map.rewrite_pair(args, at)?;
            },
            Operands::IntCompare { args, .. } => {
                map.rewrite_pair(args, at)?;
            },
            Operands::FloatCompare { args, .. } => {
                map.rewrite_pair(args, at)?;
            },
            Operands::Ternary { args } => {
                map.rewrite_triple(args, at)?;
            },
            Operands::TernaryOverflow { args } => {
                map.rewrite_triple(args, at)?;
            },
            Operands::Jump { destination, varargs } => {
                map.rewrite_ebb(destination, at)?;
                map.rewrite_values(varargs, at)?;
            },
            Operands::Branch { arg, destination, varargs } => {
                map.rewrite_value(arg, at)?;
                map.rewrite_ebb(destination, at)?;
                map.rewrite_values(varargs, at)?;
            },
            Operands::Call { varargs, .. } => {
                map.rewrite_values(varargs, at)?;
            },
            Operands::IndirectCall { arg, varargs, .. } => {
                map.rewrite_value(arg, at)?;
                map.rewrite_values(varargs, at)?;
            },
            Operands::Return { varargs } => {
                map.rewrite_values(varargs, at)?;
            },
        }
        proof {
            assert(self@.args =~= goal.args);
            assert(self@.varargs =~= goal.varargs);
        }
        Ok(())
    }
}

/// Are the function, the signature and the jump table among the operands declared?
pub open(crate) spec fn declared(f: FunctionModel, operands: OperandsModel) -> bool {
    match operands.constant {
        Constant::Func(r) => f.has(AnyEntity::FuncRef(r)),
        Constant::Sig(r) => f.has(AnyEntity::SigRef(r)),
        Constant::Table(r) => f.has(AnyEntity::JumpTable(r)),
        _ => true,
    }
}

/// Are the arguments of the blocks and the results of the instructions values of the function?
pub open(crate) spec fn values_known(f: FunctionModel) -> bool {
    &&& forall|e: int, k: int|
        0 <= e < f.ebbs.len() && 0 <= k < f.ebbs[e].args.len() ==> f.has_value(
            #[trigger] f.ebbs[e].args[k],
        )
    &&& forall|i: int, k: int|
        0 <= i < f.insts.len() && 0 <= k < f.insts[i].results.len() ==> f.has_value(
            #[trigger] f.insts[i].results[k],
        )
}

/// The number of instructions in the blocks before block `e`.
pub open spec fn inst_base(ebbs: Seq<EbbModel>, e: int) -> nat
    decreases e,
{
    if e <= 0 {
        0
    } else {
        inst_base(ebbs, e - 1) + ebbs[e - 1].insts.len()
    }
}

/// Do the instructions stand in the layout in the order of their numbers?
pub open(crate) spec fn laid_out(f: FunctionModel) -> bool {
    &&& inst_base(f.ebbs, f.ebbs.len() as int) == f.insts.len()
    &&& forall|e: int, k: int|
        0 <= e < f.ebbs.len() && 0 <= k < f.ebbs[e].insts.len() ==> (#[trigger] f.ebbs[e].insts[k])
            == Inst::of((inst_base(f.ebbs, e) + k) as u32)
}

/// The base of a block depends on the blocks before it alone.
proof fn lemma_inst_base(a: Seq<EbbModel>, b: Seq<EbbModel>, e: int)
    requires
        e <= a.len(),
        e <= b.len(),
        forall|i: int| 0 <= i < e ==> (#[trigger] a[i]).insts.len() == b[i].insts.len(),
    ensures
        inst_base(a, e) == inst_base(b, e),
    decreases e,
{
    if e > 0 {
        lemma_inst_base(a, b, e - 1);
        assert(a[e - 1].insts.len() == b[e - 1].insts.len());
    }
}

/// The base of a block is at most that of a later one.
pub proof fn lemma_inst_base_grows(ebbs: Seq<EbbModel>, d: int, e: int)
    requires
        0 <= d <= e,
    ensures
        inst_base(ebbs, d) <= inst_base(ebbs, e),
    decreases e,
{
    if d < e {
        lemma_inst_base_grows(ebbs, d, e - 1);
    }
}

/// The state of reading a function.
pub struct ContextModel<'a> {
    pub function: FunctionModel<'a>,
    pub map: SourceMapModel,
}

/// What was read of a function, and what the source numbers stand for.
pub struct Context<'a> {
    pub function: Function<'a>,
    pub map: SourceMap,
}

impl<'a> View for Context<'a> {
    type V = ContextModel<'a>;

    open spec fn view(&self) -> ContextModel<'a> {
        ContextModel { function: self.function@, map: self.map@ }
    }
}

impl<'a> ContextModel<'a> {
    /// A context for a function without contents.
    pub open spec fn empty(name: &'a str, signature: SignatureModel) -> ContextModel<'a> {
        ContextModel {
            function: FunctionModel::empty(name, signature),
            map: SourceMapModel::empty(),
        }
    }

    /// Source numbers stand for entities of the function, only entities of the function have a
    /// location, external functions have signatures, instructions refer to declared functions,
    /// signatures and jump tables, they are numbered in layout order, and their results and the
    /// arguments of the blocks are values of the function.
    pub open(crate) spec fn linked(self) -> bool {
        let f = self.function;
        let map = self.map;
        &&& laid_out(f)
        &&& values_known(f)
        &&& forall|k: u32| #[trigger]
            map.values.contains_key(k) ==> f.has(AnyEntity::Value(map.values[k]))
        &&& forall|k: u32| #[trigger]
            map.ebbs.contains_key(k) ==> f.has(AnyEntity::Ebb(map.ebbs[k]))
        &&& forall|k: u32| #[trigger]
            map.stack_slots.contains_key(k) ==> f.has(AnyEntity::StackSlot(map.stack_slots[k]))
        &&& forall|k: u32| #[trigger]
            map.signatures.contains_key(k) ==> f.has(AnyEntity::SigRef(map.signatures[k]))
        &&& forall|k: u32| #[trigger]
            map.functions.contains_key(k) ==> f.has(AnyEntity::FuncRef(map.functions[k]))
        &&& forall|k: u32| #[trigger]
            map.jump_tables.contains_key(k) ==> f.has(AnyEntity::JumpTable(map.jump_tables[k]))
        &&& forall|e: AnyEntity| (#[trigger] map.location(e)) is Some ==> f.has(e)
        &&& forall|i: int|
            0 <= i < f.ext_funcs.len() ==> f.has(
                AnyEntity::SigRef((#[trigger] f.ext_funcs[i]).signature),
            )
        &&& forall|i: int|
            0 <= i < f.insts.len() ==> declared(f, (#[trigger] f.insts[i]).data.operands)
    }

    /// The instructions and the jump tables, which can hold references to what is not defined,
    /// have a location.
    pub open(crate) spec fn located(self) -> bool {
        &&& forall|i: int|
            0 <= i < self.function.insts.len() ==> (#[trigger] self.map.location(
                AnyEntity::Inst(Inst::of(i as u32)),
            )) is Some
        &&& forall|i: int|
            0 <= i < self.function.jump_tables.len() ==> (#[trigger] self.map.location(
                AnyEntity::JumpTable(JumpTable::of(i as u32)),
            )) is Some
    }

    /// What holds of every context.
    pub open(crate) spec fn sound(self) -> bool {
        self.linked() && self.located() && self.map.faithful()
    }

    /// The context with other contents and the definition of a number.
    pub open spec fn with(
        function: FunctionModel<'a>,
        map: Result<SourceMapModel, Failure>,
    ) -> Result<ContextModel<'a>, Failure> {
        match map {
            Ok(map) => Ok(ContextModel { function, map }),
            Err(e) => Err(e),
        }
    }

    /// The context with a new stack slot that `number` stands for.
    pub open(crate) spec fn add_ss(
        self,
        number: u32,
        data: StackSlotData,
        loc: Location,
    ) -> Result<ContextModel<'a>, Failure> {
        let r = StackSlot::of(self.function.stack_slots.len() as u32);
        Self::with(self.function.with_stack_slot(data), self.map.def_ss(number, r, loc))
    }

    /// The context with a new signature that `number` stands for.
    pub open(crate) spec fn add_sig(
        self,
        number: u32,
        data: SignatureModel,
        loc: Location,
    ) -> Result<ContextModel<'a>, Failure> {
        let r = SigRef::of(self.function.signatures.len() as u32);
        Self::with(self.function.with_signature(data), self.map.def_sig(number, r, loc))
    }

    /// The context with a new external function that `number` stands for.
    pub open(crate) spec fn add_fn(
        self,
        number: u32,
        data: ExtFuncData<'a>,
        loc: Location,
    ) -> Result<ContextModel<'a>, Failure> {
        let r = FuncRef::of(self.function.ext_funcs.len() as u32);
        Self::with(self.function.with_ext_func(data), self.map.def_fn(number, r, loc))
    }

    /// The context with a new jump table that `number` stands for.
    pub open(crate) spec fn add_jt(
        self,
        number: u32,
        data: Seq<Ebb>,
        loc: Location,
    ) -> Result<ContextModel<'a>, Failure> {
        let r = JumpTable::of(self.function.jump_tables.len() as u32);
        Self::with(self.function.with_jump_table(data), self.map.def_jt(number, r, loc))
    }

    /// The context with a new block that `src` stands for.
    pub open(crate) spec fn add_ebb(
        self,
        src: Ebb,
        loc: Location,
    ) -> Result<ContextModel<'a>, Failure> {
        let r = Ebb::of(self.function.ebbs.len() as u32);
        Self::with(self.function.with_ebb(), self.map.def_ebb(src, r, loc))
    }

    /// The signature that `number` stands for.
    pub open(crate) spec fn get_sig(self, number: u32, loc: Location) -> Result<SigRef, Failure> {
        match lookup(self.map.signatures, number) {
            Some(r) => Ok(r),
            None => Err(
                Failure {
                    location: loc,
                    message: "undefined signature sig"@ + decimal(number as nat),
                },
            ),
        }
    }

    /// The function that `number` stands for.
    pub open(crate) spec fn get_fn(self, number: u32, loc: Location) -> Result<FuncRef, Failure> {
        match lookup(self.map.functions, number) {
            Some(r) => Ok(r),
            None => Err(
                Failure {
                    location: loc,
                    message: "undefined function fn"@ + decimal(number as nat),
                },
            ),
        }
    }

    /// The jump table that `number` stands for.
    pub open(crate) spec fn get_jt(self, number: u32, loc: Location) -> Result<JumpTable, Failure> {
        match lookup(self.map.jump_tables, number) {
            Some(r) => Ok(r),
            None => Err(
                Failure {
                    location: loc,
                    message: "undefined jump table jt"@ + decimal(number as nat),
                },
            ),
        }
    }

    /// The function with every source reference replaced by what it stands for, or the error for
    /// the first reference that has no definition. The instructions come first, in layout order,
    /// then the jump tables.
    pub open(crate) spec fn rewritten(self) -> Result<FunctionModel<'a>, Failure> {
        let f = self.function;
        let map = self.map;
        match undefined_in_insts(map, f.insts, 0) {
            Some(e) => Err(e),
            None => match undefined_in_tables(map, f.jump_tables, 0) {
                Some(e) => Err(e),
                None => Ok(
                    FunctionModel {
                        insts: Seq::new(f.insts.len(), |i: int| mapped_inst(map, f.insts[i])),
                        jump_tables: Seq::new(
                            f.jump_tables.len(),
                            |i: int| mapped_table(map, f.jump_tables[i]),
                        ),
                        ..f
                    },
                ),
            },
        }
    }
}

/// A context keeps its locations when it gets more of them, for all that is new.
pub proof fn lemma_located<'a>(before: ContextModel<'a>, after: ContextModel<'a>)
    requires
        before.located(),
        forall|key: u64| #[trigger]
            before.map.locations.contains_key(key) ==> after.map.locations.contains_key(key),
        forall|i: int|
            before.function.insts.len() <= i < after.function.insts.len() ==> (
            #[trigger] after.map.location(AnyEntity::Inst(Inst::of(i as u32)))) is Some,
        forall|i: int|
            before.function.jump_tables.len() <= i < after.function.jump_tables.len() ==> (
            #[trigger] after.map.location(AnyEntity::JumpTable(JumpTable::of(i as u32)))) is Some,
    ensures
        after.located(),
{
    assert forall|i: int| 0 <= i < after.function.insts.len() implies (#[trigger] after.map.location(
        AnyEntity::Inst(Inst::of(i as u32)),
    )) is Some by {
        if i < before.function.insts.len() {
            assert(before.map.location(AnyEntity::Inst(Inst::of(i as u32))) is Some);
        }
    }
    assert forall|i: int| 0 <= i < after.function.jump_tables.len() implies (
    #[trigger] after.map.location(AnyEntity::JumpTable(JumpTable::of(i as u32)))) is Some by {
        if i < before.function.jump_tables.len() {
            assert(before.map.location(AnyEntity::JumpTable(JumpTable::of(i as u32))) is Some);
        }
    }
}

/// A context stays linked when its function grows.
pub proof fn lemma_grown<'a>(ctx: ContextModel<'a>, g: FunctionModel<'a>)
    requires
        ctx.linked(),
        laid_out(g),
        values_known(g),
        g.stack_slots.len() >= ctx.function.stack_slots.len(),
        g.jump_tables.len() >= ctx.function.jump_tables.len(),
        g.signatures.len() >= ctx.function.signatures.len(),
        g.ext_funcs.len() >= ctx.function.ext_funcs.len(),
        g.ebbs.len() >= ctx.function.ebbs.len(),
        g.insts.len() >= ctx.function.insts.len(),
        g.table_values.len() >= ctx.function.table_values.len(),
        forall|i: int|
            0 <= i < g.ext_funcs.len() ==> (#[trigger] g.ext_funcs[i]).signature.number()
                < g.signatures.len(),
        forall|i: int|
            0 <= i < g.insts.len() ==> declared(
                ctx.function,
                (#[trigger] g.insts[i]).data.operands,
            ),
    ensures
        (ContextModel { function: g, map: ctx.map }).linked(),
{
    let f = ctx.function;
    assert forall|e: AnyEntity| #[trigger] f.has(e) implies g.has(e) by {}
}

/// A context stays linked when an entity of its function gets a location.
pub proof fn lemma_def_entity(ctx: ContextModel, e: AnyEntity, loc: Location)
    requires
        ctx.linked(),
        ctx.function.has(e),
        ctx.map.def_entity(e, loc) is Ok,
    ensures
        (ContextModel { function: ctx.function, map: ctx.map.def_entity(e, loc)->Ok_0 }).linked(),
{
    let map = ctx.map.def_entity(e, loc)->Ok_0;
    assert forall|d: AnyEntity| (#[trigger] map.location(d)) is Some implies ctx.function.has(
        d,
    ) by {
        if entity_key(d) == entity_key(e) {
            lemma_entity_key_injective(d, e);
        } else {
            assert(ctx.map.location(d) is Some);
        }
    }
}

/// A context stays linked when a number gets to stand for an entity of its function.
pub proof fn lemma_def_value(ctx: ContextModel, src: Value, r: Value, loc: Location)
    requires
        ctx.linked(),
        ctx.function.has(AnyEntity::Value(r)),
        ctx.map.def_value(src, r, loc) is Ok,
    ensures
        (ContextModel { function: ctx.function, map: ctx.map.def_value(src, r, loc)->Ok_0 }).linked(),
{
    let map = SourceMapModel { values: ctx.map.values.insert(src.0, r), ..ctx.map };
    let mid = ContextModel { function: ctx.function, map };
    assert forall|e: AnyEntity| (#[trigger] map.location(e)) is Some implies ctx.function.has(
        e,
    ) by {
        assert(ctx.map.location(e) is Some);
    }
    assert(mid.linked());
    lemma_def_entity(mid, AnyEntity::Value(r), loc);
}

/// A context stays linked when a number gets to stand for an entity of its function.
proof fn lemma_def_ebb(ctx: ContextModel, src: Ebb, r: Ebb, loc: Location)
    requires
        ctx.linked(),
        ctx.function.has(AnyEntity::Ebb(r)),
        ctx.map.def_ebb(src, r, loc) is Ok,
    ensures
        (ContextModel { function: ctx.function, map: ctx.map.def_ebb(src, r, loc)->Ok_0 }).linked(),
{
    let map = SourceMapModel { ebbs: ctx.map.ebbs.insert(src.0, r), ..ctx.map };
    let mid = ContextModel { function: ctx.function, map };
    assert forall|e: AnyEntity| (#[trigger] map.location(e)) is Some implies ctx.function.has(
        e,
    ) by {
        assert(ctx.map.location(e) is Some);
    }
    assert(mid.linked());
    lemma_def_entity(mid, AnyEntity::Ebb(r), loc);
}

/// A context stays linked when a number gets to stand for an entity of its function.
proof fn lemma_def_ss(ctx: ContextModel, src: u32, r: StackSlot, loc: Location)
    requires
        ctx.linked(),
        ctx.function.has(AnyEntity::StackSlot(r)),
        ctx.map.def_ss(src, r, loc) is Ok,
    ensures
        (ContextModel { function: ctx.function, map: ctx.map.def_ss(src, r, loc)->Ok_0 }).linked(),
{
    let map = SourceMapModel { stack_slots: ctx.map.stack_slots.insert(src, r), ..ctx.map };
    let mid = ContextModel { function: ctx.function, map };
    assert forall|e: AnyEntity| (#[trigger] map.location(e)) is Some implies ctx.function.has(
        e,
    ) by {
        assert(ctx.map.location(e) is Some);
    }
    assert(mid.linked());
    lemma_def_entity(mid, AnyEntity::StackSlot(r), loc);
}

/// A context stays linked when a number gets to stand for an entity of its function.
proof fn lemma_def_sig(ctx: ContextModel, src: u32, r: SigRef, loc: Location)
    requires
        ctx.linked(),
        ctx.function.has(AnyEntity::SigRef(r)),
        ctx.map.def_sig(src, r, loc) is Ok,
    ensures
        (ContextModel { function: ctx.function, map: ctx.map.def_sig(src, r, loc)->Ok_0 }).linked(),
{
    let map = SourceMapModel { signatures: ctx.map.signatures.insert(src, r), ..ctx.map };
    let mid = ContextModel { function: ctx.function, map };
    assert forall|e: AnyEntity| (#[trigger] map.location(e)) is Some implies ctx.function.has(
        e,
    ) by {
        assert(ctx.map.location(e) is Some);
    }
    assert(mid.linked());
    lemma_def_entity(mid, AnyEntity::SigRef(r), loc);
}

/// A context stays linked when a number gets to stand for an entity of its function.
proof fn lemma_def_fn(ctx: ContextModel, src: u32, r: FuncRef, loc: Location)
    requires
        ctx.linked(),
        ctx.function.has(AnyEntity::FuncRef(r)),
        ctx.map.def_fn(src, r, loc) is Ok,
    ensures
        (ContextModel { function: ctx.function, map: ctx.map.def_fn(src, r, loc)->Ok_0 }).linked(),
{
    let map = SourceMapModel { functions: ctx.map.functions.insert(src, r), ..ctx.map };
    let mid = ContextModel { function: ctx.function, map };
    assert forall|e: AnyEntity| (#[trigger] map.location(e)) is Some implies ctx.function.has(
        e,
    ) by {
        assert(ctx.map.location(e) is Some);
    }
    assert(mid.linked());
    lemma_def_entity(mid, AnyEntity::FuncRef(r), loc);
}

/// A context stays linked when a number gets to stand for an entity of its function.
proof fn lemma_def_jt(ctx: ContextModel, src: u32, r: JumpTable, loc: Location)
    requires
        ctx.linked(),
        ctx.function.has(AnyEntity::JumpTable(r)),
        ctx.map.def_jt(src, r, loc) is Ok,
    ensures
        (ContextModel { function: ctx.function, map: ctx.map.def_jt(src, r, loc)->Ok_0 }).linked(),
{
    let map = SourceMapModel { jump_tables: ctx.map.jump_tables.insert(src, r), ..ctx.map };
    let mid = ContextModel { function: ctx.function, map };
    assert forall|e: AnyEntity| (#[trigger] map.location(e)) is Some implies ctx.function.has(
        e,
    ) by {
        assert(ctx.map.location(e) is Some);
    }
    assert(mid.linked());
    lemma_def_entity(mid, AnyEntity::JumpTable(r), loc);
}

/// A new block leaves the instructions in layout order.
proof fn lemma_with_ebb_laid_out(f: FunctionModel)
    requires
        laid_out(f),
    ensures
        laid_out(f.with_ebb()),
{
    let g = f.with_ebb();
    lemma_inst_base(f.ebbs, g.ebbs, f.ebbs.len() as int);
    assert forall|e: int, k: int| 0 <= e < g.ebbs.len() && 0 <= k < g.ebbs[e].insts.len() implies (
    #[trigger] g.ebbs[e].insts[k]) == Inst::of((inst_base(g.ebbs, e) + k) as u32) by {
        lemma_inst_base(f.ebbs, g.ebbs, e);
        assert(g.ebbs[e] == f.ebbs[e]);
        assert(f.ebbs[e].insts[k] == Inst::of((inst_base(f.ebbs, e) + k) as u32));
    }
}

/// A context stays linked when a block gets an argument.
pub proof fn lemma_with_ebb_arg(ctx: ContextModel, ebb: Ebb, ty: Type)
    requires
        ctx.linked(),
        ebb.number() < ctx.function.ebbs.len(),
        ctx.function.size() < u32::MAX / 2,
    ensures
        (ContextModel { function: ctx.function.with_ebb_arg(ebb, ty), map: ctx.map }).linked(),
{
    let f = ctx.function;
    let g = f.with_ebb_arg(ebb, ty);
    lemma_inst_base(f.ebbs, g.ebbs, f.ebbs.len() as int);
    assert forall|e: int, k: int| 0 <= e < g.ebbs.len() && 0 <= k < g.ebbs[e].insts.len() implies (
    #[trigger] g.ebbs[e].insts[k]) == Inst::of((inst_base(g.ebbs, e) + k) as u32) by {
        lemma_inst_base(f.ebbs, g.ebbs, e);
        assert(g.ebbs[e].insts == f.ebbs[e].insts);
        assert(f.ebbs[e].insts[k] == Inst::of((inst_base(f.ebbs, e) + k) as u32));
    }
    assert forall|e: int, k: int|
        0 <= e < g.ebbs.len() && 0 <= k < g.ebbs[e].args.len() implies g.has_value(
        #[trigger] g.ebbs[e].args[k],
    ) by {
        if k < f.ebbs[e].args.len() {
            assert(f.has_value(f.ebbs[e].args[k]));
        }
    }
    lemma_grown(ctx, g);
}

/// A context stays linked when its last block gets an instruction.
pub proof fn lemma_with_inst(
    ctx: ContextModel,
    ebb: Ebb,
    data: InstructionModel,
    types: Seq<Type>,
)
    requires
        ctx.linked(),
        ebb.number() + 1 == ctx.function.ebbs.len(),
        declared(ctx.function, data.operands),
        ctx.function.size() + types.len() < u32::MAX / 2,
    ensures
        (ContextModel { function: ctx.function.with_inst(ebb, data, types), map: ctx.map }).linked(),
{
    let f = ctx.function;
    let g = f.with_inst(ebb, data, types);
    let last = f.ebbs.len() - 1;
    lemma_inst_base(f.ebbs, g.ebbs, last);
    assert forall|e: int, k: int| 0 <= e < g.ebbs.len() && 0 <= k < g.ebbs[e].insts.len() implies (
    #[trigger] g.ebbs[e].insts[k]) == Inst::of((inst_base(g.ebbs, e) + k) as u32) by {
        lemma_inst_base(f.ebbs, g.ebbs, e);
        if e < last || k < f.ebbs[e].insts.len() {
            assert(g.ebbs[e].insts[k] == f.ebbs[e].insts[k]);
            assert(f.ebbs[e].insts[k] == Inst::of((inst_base(f.ebbs, e) + k) as u32));
        }
    }
    assert forall|e: int, k: int|
        0 <= e < g.ebbs.len() && 0 <= k < g.ebbs[e].args.len() implies g.has_value(
        #[trigger] g.ebbs[e].args[k],
    ) by {
        assert(f.has_value(f.ebbs[e].args[k]));
    }
    assert forall|i: int, k: int|
        0 <= i < g.insts.len() && 0 <= k < g.insts[i].results.len() implies g.has_value(
        #[trigger] g.insts[i].results[k],
    ) by {
        if i < f.insts.len() {
            assert(f.has_value(f.insts[i].results[k]));
        }
    }
    lemma_grown(ctx, g);
}

/// Replace every source reference in a jump table by what it stands for.
fn rewrite_table(data: &mut JumpTableData, map: &SourceMap, at: AnyEntity) -> (r: Result<(), Error>)
    ensures
        match undefined_entry(map@, old(data)@, 0) {
            Some(ebb) => r is Err && r->Err_0@ == map@.undefined(at, ebb.text()),
            None => r is Ok && final(data)@ == mapped_table(map@, old(data)@),
        },
        final(data)@.len() == old(data)@.len(),
{
    let ghost before = data@;
    let mut i: usize = 0;
    while i < data.table.len()
        invariant
            before == old(data)@,
            i <= data@.len() == before.len(),
            undefined_entry(map@, before, 0) == undefined_entry(map@, before, i as int),
            forall|k: int| 0 <= k < i ==> data@[k] == mapped_table(map@, before)[k],
            forall|k: int| i <= k < before.len() ==> data@[k] == before[k],
        decreases data@.len() - i,
    {
        assert(data@[i as int] == before[i as int]);
        if data.table[i] != no_ebb() {
            map.rewrite_ebb(&mut data.table[i], at)?;
        }
        i += 1;
    }
    assert(data@ =~= mapped_table(map@, before));
    Ok(())
}

impl<'a> Context<'a> {
    /// A context for reading the contents of `function`.
    pub(crate) fn new(function: Function<'a>) -> (ctx: Context<'a>)
        ensures
            ctx@ == (ContextModel { function: function@, map: SourceMapModel::empty() }),
    {
        Context { function, map: SourceMap::new() }
    }

    /// Add a stack slot that `number` stands for.
    pub(crate) fn add_ss(
        &mut self,
        number: u32,
        data: StackSlotData,
        loc: Location,
    ) -> (r: Result<(), Error>)
        requires
            old(self)@.sound(),
            old(self)@.function.size() < u32::MAX,
        ensures
            updated(r, final(self)@) == old(self)@.add_ss(number, data, loc),
            final(self)@.function == old(self)@.function.with_stack_slot(data),
            r is Ok ==> final(self)@.sound(),
    {
        let ghost grown = old(self)@.function.with_stack_slot(data);
        let entity = self.function.push_stack_slot(data);
        let r = self.map.def_ss(number, entity, loc);
        proof {
            lemma_grown(old(self)@, grown);
            if r is Ok {
                lemma_def_ss(
                    ContextModel { function: grown, map: old(self)@.map },
                    number,
                    entity,
                    loc,
                );
                lemma_located(old(self)@, self@);
                lemma_faithful_ss(old(self)@.map, number, entity, loc);
            }
        }
        r
    }

    /// Add a signature that `number` stands for.
    pub(crate) fn add_sig(
        &mut self,
        number: u32,
        data: Signature,
        loc: Location,
    ) -> (r: Result<(), Error>)
        requires
            old(self)@.sound(),
            old(self)@.function.size() < u32::MAX,
        ensures
            updated(r, final(self)@) == old(self)@.add_sig(number, data@, loc),
            final(self)@.function == old(self)@.function.with_signature(data@),
            r is Ok ==> final(self)@.sound(),
    {
        let ghost grown = old(self)@.function.with_signature(data@);
        let entity = self.function.push_signature(data);
        let r = self.map.def_sig(number, entity, loc);
        proof {
            lemma_grown(old(self)@, grown);
            if r is Ok {
                lemma_def_sig(
                    ContextModel { function: grown, map: old(self)@.map },
                    number,
                    entity,
                    loc,
                );
                lemma_located(old(self)@, self@);
                lemma_faithful_sig(old(self)@.map, number, entity, loc);
            }
        }
        r
    }

    /// Add a external function that `number` stands for.
    pub(crate) fn add_fn(
        &mut self,
        number: u32,
        data: ExtFuncData<'a>,
        loc: Location,
    ) -> (r: Result<(), Error>)
        requires
            old(self)@.sound(),
            old(self)@.function.size() < u32::MAX,
            data.signature.number() < old(self)@.function.signatures.len(),
        ensures
            updated(r, final(self)@) == old(self)@.add_fn(number, data, loc),
            final(self)@.function == old(self)@.function.with_ext_func(data),
            r is Ok ==> final(self)@.sound(),
    {
        let ghost grown = old(self)@.function.with_ext_func(data);
        let entity = self.function.push_ext_func(data);
        let r = self.map.def_fn(number, entity, loc);
        proof {
            lemma_grown(old(self)@, grown);
            if r is Ok {
                lemma_def_fn(
                    ContextModel { function: grown, map: old(self)@.map },
                    number,
                    entity,
                    loc,
                );
                lemma_located(old(self)@, self@);
                lemma_faithful_fn(old(self)@.map, number, entity, loc);
            }
        }
        r
    }

    /// Add a jump table that `number` stands for.
    pub(crate) fn add_jt(
        &mut self,
        number: u32,
        data: JumpTableData,
        loc: Location,
    ) -> (r: Result<(), Error>)
        requires
            old(self)@.sound(),
            old(self)@.function.size() < u32::MAX,
        ensures
            updated(r, final(self)@) == old(self)@.add_jt(number, data@, loc),
            final(self)@.function == old(self)@.function.with_jump_table(data@),
            r is Ok ==> final(self)@.sound(),
    {
        let ghost grown = old(self)@.function.with_jump_table(data@);
        let entity = self.function.push_jump_table(data);
        let r = self.map.def_jt(number, entity, loc);
        proof {
            lemma_grown(old(self)@, grown);
            if r is Ok {
                lemma_def_jt(
                    ContextModel { function: grown, map: old(self)@.map },
                    number,
                    entity,
                    loc,
                );
                lemma_located(old(self)@, self@);
                lemma_faithful_jt(old(self)@.map, number, entity, loc);
            }
        }
        r
    }

    /// Find the signature that `number` stands for.
    pub(crate) fn get_sig(&self, number: u32, loc: Location) -> (r: Result<SigRef, Error>)
        ensures
            plain(r) == self@.get_sig(number, loc),
    {
        match self.map.get_sig(number) {
            Some(entity) => Ok(entity),
            None => Err(
                Error { location: loc, message: numbered("undefined signature sig", number as u64) },
            ),
        }
    }

    /// Find the function that `number` stands for.
    pub(crate) fn get_fn(&self, number: u32, loc: Location) -> (r: Result<FuncRef, Error>)
        ensures
            plain(r) == self@.get_fn(number, loc),
    {
        match self.map.get_fn(number) {
            Some(entity) => Ok(entity),
            None => Err(
                Error { location: loc, message: numbered("undefined function fn", number as u64) },
            ),
        }
    }

    /// Find the jump table that `number` stands for.
    pub(crate) fn get_jt(&self, number: u32, loc: Location) -> (r: Result<JumpTable, Error>)
        ensures
            plain(r) == self@.get_jt(number, loc),
    {
        match self.map.get_jt(number) {
            Some(entity) => Ok(entity),
            None => Err(
                Error { location: loc, message: numbered("undefined jump table jt", number as u64) },
            ),
        }
    }

    /// Add a block that `src` stands for.
    pub(crate) fn add_ebb(&mut self, src: Ebb, loc: Location) -> (r: Result<Ebb, Error>)
        requires
            old(self)@.sound(),
            old(self)@.function.size() < u32::MAX,
        ensures
            match r {
                Ok(ebb) => {
                    &&& old(self)@.add_ebb(src, loc) == Ok::<ContextModel, Failure>(final(self)@)
                    &&& ebb == Ebb::of(old(self)@.function.ebbs.len() as u32)
                    &&& final(self)@.sound()
                },
                Err(e) => old(self)@.add_ebb(src, loc) == Err::<ContextModel, Failure>(e@),
            },
            final(self)@.function == old(self)@.function.with_ebb(),
    {
        let ghost grown = old(self)@.function.with_ebb();
        let ebb = self.function.append_ebb();
        let r = self.map.def_ebb(src, ebb, loc);
        proof {
            lemma_with_ebb_laid_out(old(self)@.function);
            lemma_grown(old(self)@, grown);
            if r is Ok {
                lemma_def_ebb(
                    ContextModel { function: grown, map: old(self)@.map },
                    src,
                    ebb,
                    loc,
                );
                lemma_located(old(self)@, self@);
                lemma_faithful_ebb(old(self)@.map, src, ebb, loc);
            }
        }
        r?;
        Ok(ebb)
    }

    /// Rewrite the source references in the jump tables.
    fn rewrite_tables(&mut self) -> (r: Result<(), Error>)
        requires
            old(self)@.function.jump_tables.len() < u32::MAX,
        ensures
            match undefined_in_tables(old(self)@.map, old(self)@.function.jump_tables, 0) {
                Some(e) => r is Err && r->Err_0@ == e,
                None => {
                    &&& r is Ok
                    &&& final(self)@.map == old(self)@.map
                    &&& final(self)@.function == (FunctionModel {
                        jump_tables: Seq::new(
                            old(self)@.function.jump_tables.len(),
                            |i: int| mapped_table(old(self)@.map, old(self)@.function.jump_tables[i]),
                        ),
                        ..old(self)@.function
                    })
                },
            },
            final(self)@.map == old(self)@.map,
            same_but_references(old(self)@.function, final(self)@.function),
    {
        let ghost before = self@.function;
        let ghost map = self@.map;
        let mut t: usize = 0;
        while t < self.function.jump_tables.len()
            invariant
                before == old(self)@.function,
                map == old(self)@.map,
                before.jump_tables.len() < u32::MAX,
                t <= before.jump_tables.len(),
                self@.map == map,
                self@.function == (FunctionModel {
                    jump_tables: self@.function.jump_tables,
                    ..before
                }),
                self@.function.jump_tables.len() == before.jump_tables.len(),
                undefined_in_tables(map, before.jump_tables, 0) == undefined_in_tables(
                    map,
                    before.jump_tables,
                    t as int,
                ),
                forall|i: int|
                    0 <= i < before.jump_tables.len() ==> (#[trigger] self@.function.jump_tables[i])
                        == (if i < t {
                        mapped_table(map, before.jump_tables[i])
                    } else {
                        before.jump_tables[i]
                    }),
            decreases before.jump_tables.len() - t,
        {
            let ghost entries = self.function.jump_tables@;
            let ghost prior = self@.function.jump_tables;
            assert(prior[t as int] == entries[t as int]@);
            let at = AnyEntity::JumpTable(JumpTable::new(t));
            let r = rewrite_table(&mut self.function.jump_tables[t], &self.map, at);
            proof {
                assert forall|i: int| 0 <= i < before.jump_tables.len() && i != t implies (
                #[trigger] self@.function.jump_tables[i]) == prior[i] by {
                    assert(prior[i] == entries[i]@);
                }
                assert(self@.function.jump_tables[t as int]
                    == self.function.jump_tables@[t as int]@);
            }
            r?;
            t += 1;
        }
        proof {
            assert(self@.function.jump_tables =~= Seq::new(
                before.jump_tables.len(),
                |i: int| mapped_table(map, before.jump_tables[i]),
            ));
        }
        Ok(())
    }

    /// Rewrite the source references in the function. They have to wait until everything is read,
    /// since forward references are allowed.
    pub(crate) fn rewrite_references(&mut self) -> (r: Result<(), Error>)
        requires
            old(self)@.sound(),
            old(self)@.function.size() < u32::MAX,
        ensures
            match r {
                Ok(()) => old(self)@.rewritten() == Ok::<FunctionModel, Failure>(
                    final(self)@.function,
                ),
                Err(e) => old(self)@.rewritten() == Err::<FunctionModel, Failure>(e@),
            },
            final(self)@.map == old(self)@.map,
            same_but_references(old(self)@.function, final(self)@.function),
    {
        self.rewrite_insts()?;
        self.rewrite_tables()?;
        Ok(())
    }

    /// Rewrite the source references in the instructions, block by block.
    fn rewrite_insts(&mut self) -> (r: Result<(), Error>)
        requires
            laid_out(old(self)@.function),
            old(self)@.function.insts.len() < u32::MAX,
        ensures
            match undefined_in_insts(old(self)@.map, old(self)@.function.insts, 0) {
                Some(e) => r is Err && r->Err_0@ == e,
                None => {
                    &&& r is Ok
                    &&& final(self)@.map == old(self)@.map
                    &&& final(self)@.function == (FunctionModel {
                        insts: Seq::new(
                            old(self)@.function.insts.len(),
                            |i: int| mapped_inst(old(self)@.map, old(self)@.function.insts[i]),
                        ),
                        ..old(self)@.function
                    })
                },
            },
            final(self)@.map == old(self)@.map,
            same_but_references(old(self)@.function, final(self)@.function),
    {
        let ghost before = self@.function;
        let ghost map = self@.map;
        let mut e: usize = 0;
        while e < self.function.ebbs.len()
            invariant
                before == old(self)@.function,
                map == old(self)@.map,
                laid_out(before),
                before.insts.len() < u32::MAX,
                e <= before.ebbs.len(),
                self@.map == map,
                self@.function == (FunctionModel { insts: self@.function.insts, ..before }),
                self@.function.insts.len() == before.insts.len(),
                undefined_in_insts(map, before.insts, 0) == undefined_in_insts(
                    map,
                    before.insts,
                    inst_base(before.ebbs, e as int) as int,
                ),
                forall|i: int|
                    0 <= i < before.insts.len() ==> (#[trigger] self@.function.insts[i]) == (if i
                        < inst_base(before.ebbs, e as int) {
                        mapped_inst(map, before.insts[i])
                    } else {
                        before.insts[i]
                    }),
            decreases before.ebbs.len() - e,
        {
            assert(self@.function.ebbs[e as int] == self.function.ebbs@[e as int]@);
            let mut k: usize = 0;
            while k < self.function.ebbs[e].insts.len()
                invariant
                    before == old(self)@.function,
                    map == old(self)@.map,
                    laid_out(before),
                    before.insts.len() < u32::MAX,
                    e < before.ebbs.len(),
                    k <= before.ebbs[e as int].insts.len(),
                    self@.map == map,
                    self@.function == (FunctionModel { insts: self@.function.insts, ..before }),
                    self@.function.insts.len() == before.insts.len(),
                    undefined_in_insts(map, before.insts, 0) == undefined_in_insts(
                        map,
                        before.insts,
                        inst_base(before.ebbs, e as int) + k,
                    ),
                    forall|i: int|
                        0 <= i < before.insts.len() ==> (#[trigger] self@.function.insts[i]) == (
                        if i < inst_base(before.ebbs, e as int) + k {
                            mapped_inst(map, before.insts[i])
                        } else {
                            before.insts[i]
                        }),
                decreases before.ebbs[e as int].insts.len() - k,
            {
                assert(self@.function.ebbs[e as int] == self.function.ebbs@[e as int]@);
                let inst = self.function.ebbs[e].insts[k];
                let ghost n = inst_base(before.ebbs, e as int) + k;
                proof {
                    assert(before.ebbs[e as int].insts[k as int] == inst);
                    lemma_inst_base_grows(before.ebbs, e + 1, before.ebbs.len() as int);
                    assert(inst.number() == n);
                }
                let ghost entries = self.function.insts@;
                let ghost prior = self@.function.insts;
                assert(prior[n] == entries[n]@);
                let i: usize = inst.index();
                let at = AnyEntity::Inst(inst);
                let r = self.function.insts[i].data.operands.rewrite(&self.map, at);
                proof {
                    assert(self.function.insts@ =~= entries.update(n, self.function.insts@[n]));
                    assert forall|i: int| 0 <= i < before.insts.len() && i != n implies (
                    #[trigger] self@.function.insts[i]) == prior[i] by {
                        assert(prior[i] == entries[i]@);
                    }
                    assert(self@.function.insts[n] == self.function.insts@[n]@);
                    assert(same_inst(before.insts[n], self@.function.insts[n]));
                }
                r?;
                assert(self@.function.insts[n] == mapped_inst(map, before.insts[n]));
                k += 1;
            }
            assert(self@.function.ebbs[e as int] == self.function.ebbs@[e as int]@);
            e += 1;
        }
        assert(e == before.ebbs.len());
        proof {
            assert(self@.function.insts =~= Seq::new(
                before.insts.len(),
                |i: int| mapped_inst(map, before.insts[i]),
            ));
        }
        Ok(())
    }
}

} // verus!
