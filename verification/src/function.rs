//! Functions in memory: signatures, declared entities, blocks, instructions and values.

use crate::entities::{
    AnyEntity, Ebb, EntityRef, ExpandedValue, FuncRef, Inst, JumpTable, SigRef, StackSlot, Value,
};
use crate::instructions::{Constant, InstructionData, InstructionModel, Operands, OperandsModel};
use crate::types::Type;
use vstd::prelude::*;
use vstd::string::*;

verus! {

/// The views of the elements of a sequence.
pub open spec fn views<T: View>(s: Seq<T>) -> Seq<T::V> {
    Seq::new(s.len(), |i: int| s[i]@)
}

/// How an argument is extended to the width of a register.
#[derive(Copy, Clone, PartialEq, Eq, Debug, Structural)]
pub enum ArgumentExtension {
    /// It is not extended.
    Plain,
    /// It is extended with zeros.
    Uext,
    /// It is extended with its sign.
    Sext,
}

/// The type of a function argument or of a return value.
#[derive(Copy, Clone, PartialEq, Eq, Debug, Structural)]
pub struct ArgumentType {
    pub value_type: Type,
    pub extension: ArgumentExtension,
    /// Is it passed in a register?
    pub inreg: bool,
}

impl ArgumentType {
    /// An argument type without flags.
    pub fn new(value_type: Type) -> (arg: ArgumentType)
        ensures
            arg == (ArgumentType { value_type, extension: ArgumentExtension::Plain, inreg: false }),
    {
        ArgumentType { value_type, extension: ArgumentExtension::Plain, inreg: false }
    }

    /// The notation of the argument type: its type and its flags.
    pub open spec fn text(self) -> Seq<char> {
        self.value_type.text() + (match self.extension {
            ArgumentExtension::Plain => ""@,
            ArgumentExtension::Uext => " uext"@,
            ArgumentExtension::Sext => " sext"@,
        }) + (if self.inreg {
            " inreg"@
        } else {
            ""@
        })
    }

    /// Write the argument type as in "i8 uext inreg".
    pub fn to_string(&self) -> (text: String)
        ensures
            text@ == self.text(),
    {
        let extension = match self.extension {
            ArgumentExtension::Plain => "",
            ArgumentExtension::Uext => " uext",
            ArgumentExtension::Sext => " sext",
        };
        let inreg = if self.inreg {
            " inreg"
        } else {
            ""
        };
        self.value_type.to_string().concat(extension).concat(inreg)
    }
}

/// The argument types and the return types of a function.
#[derive(Debug)]
pub struct Signature {
    pub argument_types: Vec<ArgumentType>,
    pub return_types: Vec<ArgumentType>,
}

pub struct SignatureModel {
    pub argument_types: Seq<ArgumentType>,
    pub return_types: Seq<ArgumentType>,
}

impl View for Signature {
    type V = SignatureModel;

    open spec fn view(&self) -> SignatureModel {
        SignatureModel { argument_types: self.argument_types@, return_types: self.return_types@ }
    }
}

/// The notation of a list of argument types: their notations with ", " between them.
pub open spec fn list_text(list: Seq<ArgumentType>) -> Seq<char>
    decreases list.len(),
{
    if list.len() == 0 {
        seq![]
    } else if list.len() == 1 {
        list[0].text()
    } else {
        list_text(list.drop_last()) + ", "@ + list.last().text()
    }
}

fn list_to_string(list: &Vec<ArgumentType>) -> (text: String)
    ensures
        text@ == list_text(list@),
{
    let mut text = String::new();
    let mut i: usize = 0;
    while i < list.len()
        invariant
            i <= list.len(),
            text@ == list_text(list@.take(i as int)),
        decreases list.len() - i,
    {
        assert(list@.take(i + 1).drop_last() == list@.take(i as int));
        if i > 0 {
            text = text.concat(", ");
        }
        text = text.concat(list[i].to_string().as_str());
        assert(text@ == list_text(list@.take(i + 1)));
        i += 1;
    }
    assert(list@.take(i as int) == list@);
    text
}

impl SignatureModel {
    /// The notation of the signature.
    pub open spec fn text(self) -> Seq<char> {
        let args = "("@ + list_text(self.argument_types) + ")"@;
        if self.return_types.len() == 0 {
            args
        } else {
            args + " -> "@ + list_text(self.return_types)
        }
    }
}

impl Signature {
    /// The signature of a function without arguments and return values.
    pub fn new() -> (sig: Signature)
        ensures
            sig@ == (SignatureModel { argument_types: seq![], return_types: seq![] }),
    {
        Signature { argument_types: Vec::new(), return_types: Vec::new() }
    }

    /// Write the signature as in "(i8 uext inreg, f32) -> i32 sext, f64".
    pub fn to_string(&self) -> (text: String)
        ensures
            text@ == self@.text(),
    {
        let args = list_to_string(&self.argument_types);
        let text = "(".to_owned().concat(args.as_str()).concat(")");
        if self.return_types.len() == 0 {
            text
        } else {
            let outputs = list_to_string(&self.return_types);
            text.concat(" -> ").concat(outputs.as_str())
        }
    }
}

/// A stack slot.
#[derive(Copy, Clone, PartialEq, Eq, Debug, Structural)]
pub struct StackSlotData {
    /// The size of the slot in bytes.
    pub size: u32,
}

/// An external function.
#[derive(Copy, Clone, PartialEq, Eq, Debug)]
pub struct ExtFuncData<'a> {
    pub name: &'a str,
    pub signature: SigRef,
}

/// The entries of a jump table. An entry without a destination holds the invalid EBB reference.
#[derive(Debug)]
pub struct JumpTableData {
    pub table: Vec<Ebb>,
}

impl View for JumpTableData {
    type V = Seq<Ebb>;

    open spec fn view(&self) -> Seq<Ebb> {
        self.table@
    }
}

/// `table` with `dest` at position `index`; it grows as far as it has to, by entries without a
/// destination.
pub open(crate) spec fn with_entry(table: Seq<Ebb>, index: nat, dest: Ebb) -> Seq<Ebb> {
    Seq::new(
        if index < table.len() {
            table.len()
        } else {
            index + 1
        },
        |i: int|
            if i == index {
                dest
            } else if i < table.len() {
                table[i]
            } else {
                Ebb::of(u32::MAX)
            },
    )
}

impl JumpTableData {
    /// A jump table without entries.
    pub fn new() -> (data: JumpTableData)
        ensures
            data@ == Seq::<Ebb>::empty(),
    {
        JumpTableData { table: Vec::new() }
    }

    /// Give the entry at position `index` a destination.
    pub fn set_entry(&mut self, index: usize, dest: Ebb)
        requires
            index < usize::MAX,
        ensures
            final(self)@ == with_entry(old(self)@, index as nat, dest),
    {
        let ghost before = self.table@;
        while self.table.len() <= index
            invariant
                index < usize::MAX,
                self.table@.len() >= before.len(),
                self.table@.len() <= before.len() || self.table@.len() <= index + 1,
                forall|i: int| 0 <= i < before.len() ==> self.table@[i] == before[i],
                forall|i: int|
                    before.len() <= i < self.table@.len() ==> self.table@[i] == Ebb::of(u32::MAX),
            decreases index + 1 - self.table@.len(),
        {
            self.table.push(crate::entities::no_ebb());
        }
        self.table[index] = dest;
        assert(self.table@ =~= with_entry(before, index as nat, dest));
    }
}

/// An extended basic block: its arguments, and its instructions in order.
#[derive(Debug)]
pub struct EbbData {
    pub args: Vec<Value>,
    pub insts: Vec<Inst>,
}

pub struct EbbModel {
    pub args: Seq<Value>,
    pub insts: Seq<Inst>,
}

impl View for EbbData {
    type V = EbbModel;

    open spec fn view(&self) -> EbbModel {
        EbbModel { args: self.args@, insts: self.insts@ }
    }
}

/// An instruction with its results.
#[derive(Debug)]
pub struct InstEntry {
    pub data: InstructionData,
    pub results: Vec<Value>,
}

pub struct InstEntryModel {
    pub data: InstructionModel,
    pub results: Seq<Value>,
}

impl View for InstEntry {
    type V = InstEntryModel;

    open spec fn view(&self) -> InstEntryModel {
        InstEntryModel { data: self.data@, results: self.results@ }
    }
}

/// A function. The position of an entity in its table is the number of the references to it. The
/// blocks stand in layout order.
#[derive(Debug)]
pub struct Function<'a> {
    pub name: &'a str,
    pub signature: Signature,
    pub stack_slots: Vec<StackSlotData>,
    pub jump_tables: Vec<JumpTableData>,
    pub signatures: Vec<Signature>,
    pub ext_funcs: Vec<ExtFuncData<'a>>,
    pub ebbs: Vec<EbbData>,
    pub insts: Vec<InstEntry>,
    /// The extended value table: the types of the values that are not the first result of an
    /// instruction.
    pub table_values: Vec<Type>,
}

pub struct FunctionModel<'a> {
    pub name: &'a str,
    pub signature: SignatureModel,
    pub stack_slots: Seq<StackSlotData>,
    pub jump_tables: Seq<Seq<Ebb>>,
    pub signatures: Seq<SignatureModel>,
    pub ext_funcs: Seq<ExtFuncData<'a>>,
    pub ebbs: Seq<EbbModel>,
    pub insts: Seq<InstEntryModel>,
    pub table_values: Seq<Type>,
}

impl<'a> View for Function<'a> {
    type V = FunctionModel<'a>;

    open spec fn view(&self) -> FunctionModel<'a> {
        FunctionModel {
            name: self.name,
            signature: self.signature@,
            stack_slots: self.stack_slots@,
            jump_tables: views(self.jump_tables@),
            signatures: views(self.signatures@),
            ext_funcs: self.ext_funcs@,
            ebbs: views(self.ebbs@),
            insts: views(self.insts@),
            table_values: self.table_values@,
        }
    }
}

/// The value types in a list of argument types.
pub open spec fn value_types(list: Seq<ArgumentType>) -> Seq<Type> {
    Seq::new(list.len(), |i: int| list[i].value_type)
}

/// The results of instruction `inst`: the first is the direct value, the others are entries of
/// the extended value table, which are allocated from `base` on, the last result first.
pub open(crate) spec fn result_values(inst: nat, base: nat, count: nat) -> Seq<Value> {
    Seq::new(
        count,
        |k: int|
            if k == 0 {
                Value::direct(inst)
            } else {
                Value::table((base + count - 1 - k) as nat)
            },
    )
}

/// The entries of the extended value table for results of the given types.
pub open spec fn result_entries(types: Seq<Type>) -> Seq<Type> {
    Seq::new(
        if types.len() > 0 {
            (types.len() - 1) as nat
        } else {
            0
        },
        |j: int| types[types.len() - 1 - j],
    )
}

impl<'a> FunctionModel<'a> {
    /// A function without contents.
    pub open spec fn empty(name: &'a str, signature: SignatureModel) -> FunctionModel<'a> {
        FunctionModel {
            name,
            signature,
            stack_slots: seq![],
            jump_tables: seq![],
            signatures: seq![],
            ext_funcs: seq![],
            ebbs: seq![],
            insts: seq![],
            table_values: seq![],
        }
    }

    /// The number of entities in the function.
    pub open spec fn size(self) -> nat {
        self.stack_slots.len() + self.jump_tables.len() + self.signatures.len()
            + self.ext_funcs.len() + self.ebbs.len() + self.insts.len() + self.table_values.len()
    }

    /// Is the value one of the function?
    pub open(crate) spec fn has_value(self, v: Value) -> bool {
        match v.expanded() {
            ExpandedValue::Direct(inst) => inst.number() < self.insts.len(),
            ExpandedValue::Table(index) => index < self.table_values.len(),
            ExpandedValue::NoValue => false,
        }
    }

    /// Is the entity one of the function?
    pub open(crate) spec fn has(self, entity: AnyEntity) -> bool {
        match entity {
            AnyEntity::Function => true,
            AnyEntity::Ebb(r) => r.number() < self.ebbs.len(),
            AnyEntity::Inst(r) => r.number() < self.insts.len(),
            AnyEntity::Value(r) => self.has_value(r),
            AnyEntity::StackSlot(r) => r.number() < self.stack_slots.len(),
            AnyEntity::JumpTable(r) => r.number() < self.jump_tables.len(),
            AnyEntity::FuncRef(r) => r.number() < self.ext_funcs.len(),
            AnyEntity::SigRef(r) => r.number() < self.signatures.len(),
        }
    }

    /// The type of a value of the function.
    pub open(crate) spec fn type_of(self, v: Value) -> Type {
        match v.expanded() {
            ExpandedValue::Direct(inst) => self.insts[inst.number() as int].data.ty,
            ExpandedValue::Table(index) => self.table_values[index as int],
            ExpandedValue::NoValue => Type::void(),
        }
    }

    pub open spec fn with_stack_slot(self, data: StackSlotData) -> FunctionModel<'a> {
        FunctionModel { stack_slots: self.stack_slots.push(data), ..self }
    }

    pub open spec fn with_jump_table(self, table: Seq<Ebb>) -> FunctionModel<'a> {
        FunctionModel { jump_tables: self.jump_tables.push(table), ..self }
    }

    pub open spec fn with_signature(self, sig: SignatureModel) -> FunctionModel<'a> {
        FunctionModel { signatures: self.signatures.push(sig), ..self }
    }

    pub open spec fn with_ext_func(self, data: ExtFuncData<'a>) -> FunctionModel<'a> {
        FunctionModel { ext_funcs: self.ext_funcs.push(data), ..self }
    }

    /// The function with a new block at the end of the layout.
    pub open spec fn with_ebb(self) -> FunctionModel<'a> {
        FunctionModel { ebbs: self.ebbs.push(EbbModel { args: seq![], insts: seq![] }), ..self }
    }

    /// The function with a new argument of type `ty` at the end of the argument list of `ebb`.
    pub open(crate) spec fn with_ebb_arg(self, ebb: Ebb, ty: Type) -> FunctionModel<'a> {
        let block = self.ebbs[ebb.number() as int];
        let value = Value::table(self.table_values.len());
        FunctionModel {
            ebbs: self.ebbs.update(
                ebb.number() as int,
                EbbModel { args: block.args.push(value), ..block },
            ),
            table_values: self.table_values.push(ty),
            ..self
        }
    }

    /// The results of an instruction that is added next.
    pub open(crate) spec fn next_results(self, count: nat) -> Seq<Value> {
        result_values(self.insts.len(), self.table_values.len(), count)
    }

    /// The function with a new instruction, which has results of the given types, at the end of
    /// `ebb`.
    pub open(crate) spec fn with_inst(
        self,
        ebb: Ebb,
        data: InstructionModel,
        types: Seq<Type>,
    ) -> FunctionModel<'a> {
        let block = self.ebbs[ebb.number() as int];
        let ty = if types.len() > 0 {
            types[0]
        } else {
            Type::void()
        };
        FunctionModel {
            ebbs: self.ebbs.update(
                ebb.number() as int,
                EbbModel { insts: block.insts.push(Inst::of(self.insts.len() as u32)), ..block },
            ),
            insts: self.insts.push(
                InstEntryModel {
                    data: InstructionModel { ty, ..data },
                    results: self.next_results(types.len()),
                },
            ),
            table_values: self.table_values + result_entries(types),
            ..self
        }
    }

    /// The signature of the function that a call instruction calls.
    pub open(crate) spec fn call_signature(self, operands: OperandsModel) -> Option<SigRef> {
        match operands.constant {
            Constant::Func(r) => Some(self.ext_funcs[r.number() as int].signature),
            Constant::Sig(r) => Some(r),
            _ => None,
        }
    }

    /// The types of the results that an instruction has from the function that it calls.
    pub open(crate) spec fn call_results(self, operands: OperandsModel) -> Seq<Type> {
        match self.call_signature(operands) {
            Some(r) => value_types(self.signatures[r.number() as int].return_types),
            None => seq![],
        }
    }
}

impl<'a> Function<'a> {
    /// A function without contents.
    pub fn with_name_signature(name: &'a str, signature: Signature) -> (f: Function<'a>)
        ensures
            f@ == FunctionModel::empty(name, signature@),
    {
        let f = Function {
            name,
            signature,
            stack_slots: Vec::new(),
            jump_tables: Vec::new(),
            signatures: Vec::new(),
            ext_funcs: Vec::new(),
            ebbs: Vec::new(),
            insts: Vec::new(),
            table_values: Vec::new(),
        };
        proof {
            assert(f@.jump_tables =~= seq![]);
            assert(f@.signatures =~= seq![]);
            assert(f@.ebbs =~= seq![]);
            assert(f@.insts =~= seq![]);
        }
        f
    }

    /// Add a stack slot.
    pub fn push_stack_slot(&mut self, data: StackSlotData) -> (r: StackSlot)
        requires
            old(self)@.size() < u32::MAX,
        ensures
            final(self)@ == old(self)@.with_stack_slot(data),
            r == StackSlot::of(old(self)@.stack_slots.len() as u32),
    {
        let r = StackSlot::new(self.stack_slots.len());
        self.stack_slots.push(data);
        r
    }

    /// Add a jump table.
    pub fn push_jump_table(&mut self, data: JumpTableData) -> (r: JumpTable)
        requires
            old(self)@.size() < u32::MAX,
        ensures
            final(self)@ == old(self)@.with_jump_table(data@),
            r == JumpTable::of(old(self)@.jump_tables.len() as u32),
    {
        let r = JumpTable::new(self.jump_tables.len());
        self.jump_tables.push(data);
        assert(self@.jump_tables =~= old(self)@.jump_tables.push(data@));
        r
    }

    /// Add a signature.
    pub fn push_signature(&mut self, data: Signature) -> (r: SigRef)
        requires
            old(self)@.size() < u32::MAX,
        ensures
            final(self)@ == old(self)@.with_signature(data@),
            r == SigRef::of(old(self)@.signatures.len() as u32),
    {
        let r = SigRef::new(self.signatures.len());
        self.signatures.push(data);
        assert(self@.signatures =~= old(self)@.signatures.push(data@));
        r
    }

    /// Add an external function.
    pub fn push_ext_func(&mut self, data: ExtFuncData<'a>) -> (r: FuncRef)
        requires
            old(self)@.size() < u32::MAX,
        ensures
            final(self)@ == old(self)@.with_ext_func(data),
            r == FuncRef::of(old(self)@.ext_funcs.len() as u32),
    {
        let r = FuncRef::new(self.ext_funcs.len());
        self.ext_funcs.push(data);
        r
    }

    /// Add a block at the end of the layout.
    pub fn append_ebb(&mut self) -> (r: Ebb)
        requires
            old(self)@.size() < u32::MAX,
        ensures
            final(self)@ == old(self)@.with_ebb(),
            r == Ebb::of(old(self)@.ebbs.len() as u32),
    {
        let r = Ebb::new(self.ebbs.len());
        let data = EbbData { args: Vec::new(), insts: Vec::new() };
        self.ebbs.push(data);
        assert(self@.ebbs =~= old(self)@.ebbs.push(EbbModel { args: seq![], insts: seq![] }));
        r
    }

    /// Add an argument to a block.
    pub fn append_ebb_arg(&mut self, ebb: Ebb, ty: Type) -> (v: Value)
        requires
            ebb.number() < old(self)@.ebbs.len(),
            old(self)@.size() < u32::MAX / 2,
        ensures
            final(self)@ == old(self)@.with_ebb_arg(ebb, ty),
            v == Value::table(old(self)@.table_values.len()),
    {
        let v = Value::new_table(self.table_values.len());
        self.table_values.push(ty);
        self.ebbs[ebb.index()].args.push(v);
        assert(self@.ebbs =~= old(self)@.with_ebb_arg(ebb, ty).ebbs);
        v
    }

    /// Add an instruction with results of the given types at the end of a block.
    pub fn append_inst(&mut self, ebb: Ebb, data: InstructionData, types: &Vec<Type>) -> (r: Inst)
        requires
            ebb.number() < old(self)@.ebbs.len(),
            old(self)@.size() + types@.len() < u32::MAX / 2,
        ensures
            final(self)@ == old(self)@.with_inst(ebb, data@, types@),
            r == Inst::of(old(self)@.insts.len() as u32),
    {
        let inst = Inst::new(self.insts.len());
        let base: usize = self.table_values.len();
        let count: usize = types.len();
        let ghost entries = self.table_values@;

        let ty = if count > 0 {
            types[0]
        } else {
            Type::void()
        };
        let mut results: Vec<Value> = Vec::new();
        if count > 0 {
            results.push(Value::new_direct(inst));
        }
        let mut k: usize = 1;
        while k < count
            invariant
                k >= 1,
                count == types@.len(),
                base + count < u32::MAX / 2,
                count > 0 ==> k <= count && results@.len() == k,
                count == 0 ==> results@.len() == 0,
                forall|i: int|
                    0 <= i < results@.len() ==> results@[i] == result_values(
                        inst.number(),
                        base as nat,
                        count as nat,
                    )[i],
            decreases count - k,
        {
            results.push(Value::new_table(base + (count - 1 - k)));
            k += 1;
        }
        assert(results@ =~= result_values(inst.number(), base as nat, count as nat));

        let mut j: usize = 1;
        while j < count
            invariant
                j >= 1,
                count == types@.len(),
                count > 0 ==> j <= count && self.table_values@ == entries + result_entries(
                    types@,
                ).take(j - 1),
                count == 0 ==> self.table_values@ == entries,
                self.name == old(self).name,
                self.signature == old(self).signature,
                self.stack_slots == old(self).stack_slots,
                self.jump_tables == old(self).jump_tables,
                self.signatures == old(self).signatures,
                self.ext_funcs == old(self).ext_funcs,
                self.ebbs == old(self).ebbs,
                self.insts == old(self).insts,
            decreases count - j,
        {
            self.table_values.push(types[count - j]);
            assert(result_entries(types@).take(j as int) =~= result_entries(types@).take(
                j - 1,
            ).push(types@[count - j]));
            j += 1;
        }
        assert(self.table_values@ =~= entries + result_entries(types@));

        let entry = InstEntry {
            data: InstructionData { opcode: data.opcode, ty, operands: data.operands },
            results,
        };
        self.insts.push(entry);
        self.ebbs[ebb.index()].insts.push(inst);
        proof {
            let goal = old(self)@.with_inst(ebb, data@, types@);
            assert(self@.insts =~= goal.insts);
            assert(self@.ebbs =~= goal.ebbs);
        }
        inst
    }

    /// The type of a value.
    pub fn value_type(&self, v: Value) -> (ty: Type)
        requires
            self@.has_value(v),
        ensures
            ty == self@.type_of(v),
    {
        match v.expand() {
            ExpandedValue::Direct(inst) => self.insts[inst.index()].data.ty,
            ExpandedValue::Table(index) => self.table_values[index],
            ExpandedValue::NoValue => Type::void(),
        }
    }

    /// Add the types of the results that an instruction has from the function that it calls.
    pub fn add_call_results(&self, operands: &Operands, types: &mut Vec<Type>)
        requires
            operands@.constant matches Constant::Func(r) ==> r.number() < self@.ext_funcs.len(),
            self@.call_signature(operands@) matches Some(r) ==> r.number() < self@.signatures.len(),
        ensures
            final(types)@ == old(types)@ + self@.call_results(operands@),
    {
        let sig: SigRef = match operands {
            Operands::Call { func_ref, .. } => self.ext_funcs[func_ref.index()].signature,
            Operands::IndirectCall { sig_ref, .. } => *sig_ref,
            _ => {
                assert(types@ =~= old(types)@ + self@.call_results(operands@));
                return;
            },
        };
        let outputs = &self.signatures[sig.index()].return_types;
        assert(self@.signatures[sig.number() as int].return_types == outputs@);
        let mut i: usize = 0;
        while i < outputs.len()
            invariant
                i <= outputs.len(),
                types@ == old(types)@ + value_types(outputs@).take(i as int),
            decreases outputs.len() - i,
        {
            types.push(outputs[i].value_type);
            assert(value_types(outputs@).take(i + 1) =~= value_types(outputs@).take(i as int).push(
                outputs@[i as int].value_type,
            ));
            i += 1;
        }
        assert(value_types(outputs@).take(i as int) =~= value_types(outputs@));
    }
}

} // verus!
